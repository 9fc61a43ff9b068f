//! Render stages: tick lines, axis labels, data series, legend and titles.
//!
//! Each stage writes one visual element into the grid and its contract
//! says, cell by cell, what it wrote and that everything else is untouched.
//! `Chart::render` sequences the stages in the order that gives later
//! writers the right to overwrite earlier ones.

use vstd::prelude::*;
use crate::chart::{Chart, ChartLayout, Dataset, GraphType, Marker};
use crate::geometry::Rect;
use crate::grid::{patch_style, spec_patch, Cell, CellSym, Grid};
use crate::style::{Color, Style};
use crate::text::chars_of;

verus! {

/// Draw `sym` along row `y` for columns `x0 <= x < x1`, with `style`
/// overlaid; clipped to the grid, all other cells untouched.
pub fn draw_hline(grid: &mut Grid, x0: u16, x1: u16, y: u16, sym: CellSym, style: Style)
    requires
        old(grid).wf(),
    ensures
        final(grid).wf(),
        old(grid).same_frame(*final(grid)),
        forall|a: int, b: int|
            final(grid).in_bounds(a, b) ==> final(grid).cell_at(a, b) == (if b == y && x0 <= a
                < x1 {
                Cell { sym, style: spec_patch(old(grid).cell_at(a, b).style, style) }
            } else {
                old(grid).cell_at(a, b)
            }),
{
    if y >= grid.height {
        return;
    }
    let end: u16 = if x1 < grid.width {
        x1
    } else {
        grid.width
    };
    let mut x: u16 = x0;
    while x < end
        invariant
            grid.wf(),
            old(grid).same_frame(*grid),
            y < grid.height,
            x0 <= x,
            x <= end || x == x0,
            end <= grid.width,
            end == (if x1 < grid.width {
                x1 as int
            } else {
                grid.width as int
            }),
            forall|a: int, b: int|
                grid.in_bounds(a, b) ==> grid.cell_at(a, b) == (if b == y && x0 <= a < x {
                    Cell { sym, style: spec_patch(old(grid).cell_at(a, b).style, style) }
                } else {
                    old(grid).cell_at(a, b)
                }),
        decreases end - x,
    {
        let c = grid.get(x, y);
        let ghost pre = *grid;
        grid.put(x, y, Cell { sym, style: patch_style(c.style, style) });
        proof {
            assert forall|a: int, b: int| grid.in_bounds(a, b) implies grid.cell_at(a, b) == (
            if b == y && x0 <= a < x + 1 {
                Cell { sym, style: spec_patch(old(grid).cell_at(a, b).style, style) }
            } else {
                old(grid).cell_at(a, b)
            }) by {
                assert(pre.in_bounds(a, b));
                assert(grid.cell_at(a, b) == (if a == x as int && b == y as int {
                    Cell { sym, style: spec_patch(pre.cell_at(a, b).style, style) }
                } else {
                    pre.cell_at(a, b)
                }));
            }
        }
        x = x + 1;
    }
    proof {
        assert forall|a: int, b: int| grid.in_bounds(a, b) implies grid.cell_at(a, b) == (
        if b == y && x0 <= a < x1 {
            Cell { sym, style: spec_patch(old(grid).cell_at(a, b).style, style) }
        } else {
            old(grid).cell_at(a, b)
        }) by {
            if b == y && x0 <= a < x1 {
                assert(a < end);
                assert(x0 <= a < x);
            } else {
                assert(!(b == y && x0 <= a < x));
            }
        }
    }
}

/// Draw `sym` along column `x` for rows `y0 <= y < y1`, with `style`
/// overlaid; clipped to the grid, all other cells untouched.
pub fn draw_vline(grid: &mut Grid, x: u16, y0: u16, y1: u16, sym: CellSym, style: Style)
    requires
        old(grid).wf(),
    ensures
        final(grid).wf(),
        old(grid).same_frame(*final(grid)),
        forall|a: int, b: int|
            final(grid).in_bounds(a, b) ==> final(grid).cell_at(a, b) == (if a == x && y0 <= b
                < y1 {
                Cell { sym, style: spec_patch(old(grid).cell_at(a, b).style, style) }
            } else {
                old(grid).cell_at(a, b)
            }),
{
    if x >= grid.width {
        return;
    }
    let end: u16 = if y1 < grid.height {
        y1
    } else {
        grid.height
    };
    let mut y: u16 = y0;
    while y < end
        invariant
            grid.wf(),
            old(grid).same_frame(*grid),
            x < grid.width,
            y0 <= y,
            y <= end || y == y0,
            end <= grid.height,
            end == (if y1 < grid.height {
                y1 as int
            } else {
                grid.height as int
            }),
            forall|a: int, b: int|
                grid.in_bounds(a, b) ==> grid.cell_at(a, b) == (if a == x && y0 <= b < y {
                    Cell { sym, style: spec_patch(old(grid).cell_at(a, b).style, style) }
                } else {
                    old(grid).cell_at(a, b)
                }),
        decreases end - y,
    {
        let c = grid.get(x, y);
        let ghost pre = *grid;
        grid.put(x, y, Cell { sym, style: patch_style(c.style, style) });
        proof {
            assert forall|a: int, b: int| grid.in_bounds(a, b) implies grid.cell_at(a, b) == (
            if a == x && y0 <= b < y + 1 {
                Cell { sym, style: spec_patch(old(grid).cell_at(a, b).style, style) }
            } else {
                old(grid).cell_at(a, b)
            }) by {
                assert(pre.in_bounds(a, b));
                assert(grid.cell_at(a, b) == (if a == x as int && b == y as int {
                    Cell { sym, style: spec_patch(pre.cell_at(a, b).style, style) }
                } else {
                    pre.cell_at(a, b)
                }));
            }
        }
        y = y + 1;
    }
    proof {
        assert forall|a: int, b: int| grid.in_bounds(a, b) implies grid.cell_at(a, b) == (
        if a == x && y0 <= b < y1 {
            Cell { sym, style: spec_patch(old(grid).cell_at(a, b).style, style) }
        } else {
            old(grid).cell_at(a, b)
        }) by {
            if a == x && y0 <= b < y1 {
                assert(b < end);
                assert(y0 <= b < y);
            } else {
                assert(!(a == x && y0 <= b < y));
            }
        }
    }
}

/// Cells the `i`th x label may occupy: its character count clipped to the
/// gap left of the y axis (first label) or to the spacing between ticks.
pub open spec fn spec_x_label_count(labels: Seq<String>, ga: Rect, ca: Rect, wbt: int, i: int) -> int {
    let len_i = labels[i]@.len() as int;
    if i == 0 {
        let gap = ga.x - ca.x;
        if len_i < gap {
            len_i
        } else {
            gap
        }
    } else {
        if len_i < wbt {
            len_i
        } else {
            wbt
        }
    }
}

/// Column at which the `i`th x label starts: it ends at its tick.
pub open spec fn spec_x_label_pos(ga: Rect, wbt: int, cnt: int, i: int) -> int {
    ga.x + i * wbt - cnt
}

/// The character the first `i` x labels leave at column `a` of the label
/// row, if any; a later label overwrites an earlier one.
pub open spec fn spec_x_label_hit(
    labels: Seq<String>,
    ga: Rect,
    ca: Rect,
    wbt: int,
    i: int,
    a: int,
) -> Option<char>
    decreases i,
{
    if i <= 0 {
        None
    } else {
        let k = i - 1;
        let cnt = spec_x_label_count(labels, ga, ca, wbt, k);
        let pos = spec_x_label_pos(ga, wbt, cnt, k);
        if pos <= a < pos + cnt {
            Some(labels[k]@[a - pos])
        } else {
            spec_x_label_hit(labels, ga, ca, wbt, k, a)
        }
    }
}

/// What the x-label pass leaves at `(a, b)`: a label character with the x
/// axis style overlaid on the label row, the old cell everywhere else. The
/// pass draws nothing without a label row, without labels, or with fewer
/// than two of them.
pub open spec fn spec_x_labels_cell(
    chart: Chart,
    layout: ChartLayout,
    ca: Rect,
    ga: Rect,
    oldc: Cell,
    a: int,
    b: int,
) -> Cell {
    if layout.label_x is Some && chart.x_axis.labels is Some
        && chart.x_axis.labels.unwrap()@.len() >= 2 {
        let y = layout.label_x.unwrap();
        let labels = chart.x_axis.labels.unwrap()@;
        let wbt = ga.width as int / (labels.len() - 1);
        let hit = spec_x_label_hit(labels, ga, ca, wbt, labels.len() as int, a);
        if b == y && hit is Some {
            Cell { sym: CellSym::Glyph(hit.unwrap()), style: spec_patch(oldc.style, chart.x_axis.style) }
        } else {
            oldc
        }
    } else {
        oldc
    }
}

impl Chart {
    /// Draw the x axis labels into their reserved row: each label ends at
    /// its tick, the first is squeezed into the gap left of the y axis.
    #[verifier::spinoff_prover]
    pub fn render_x_labels(
        &self,
        grid: &mut Grid,
        layout: &ChartLayout,
        chart_area: Rect,
        graph_area: Rect,
    )
        requires
            old(grid).wf(),
            chart_area.wf(),
            graph_area.wf(),
            chart_area.x <= graph_area.x,
        ensures
            final(grid).wf(),
            old(grid).same_frame(*final(grid)),
            forall|a: int, b: int|
                final(grid).in_bounds(a, b) ==> final(grid).cell_at(a, b) == spec_x_labels_cell(
                    *self,
                    *layout,
                    chart_area,
                    graph_area,
                    old(grid).cell_at(a, b),
                    a,
                    b,
                ),
    {
        let y: u16 = match layout.label_x {
            Some(v) => v,
            None => {
                return ;
            },
        };
        let labels = match &self.x_axis.labels {
            Some(l) => l,
            None => {
                return ;
            },
        };
        let n: usize = labels.len();
        if n < 2 {
            return ;
        }
        let wbt_us: usize = (graph_area.width as usize) / (n - 1);
        let wbt_full: u16 = wbt_us as u16;
        let gap: u16 = graph_area.x - chart_area.x;
        let ghost wbt_spec = graph_area.width as int / (labels@.len() - 1);
        proof {
            vstd::arithmetic::div_mod::lemma_fundamental_div_mod(
                graph_area.width as int,
                labels@.len() - 1,
            );
        }
        let mut i: usize = 0;
        while i < n
            invariant
                grid.wf(),
                old(grid).same_frame(*grid),
                n == labels@.len(),
                2 <= n,
                chart_area.wf(),
                graph_area.wf(),
                chart_area.x <= graph_area.x,
                i <= n,
                gap == graph_area.x - chart_area.x,
                wbt_spec == graph_area.width as int / (n - 1),
                wbt_full == wbt_spec,
                wbt_full <= graph_area.width,
                (n - 1) * wbt_spec <= graph_area.width,
                forall|a: int, b: int|
                    grid.in_bounds(a, b) ==> grid.cell_at(a, b) == (if b == y
                        && spec_x_label_hit(
                        labels@,
                        graph_area,
                        chart_area,
                        wbt_spec,
                        i as int,
                        a,
                    ) is Some {
                        Cell {
                            sym: CellSym::Glyph(
                                spec_x_label_hit(
                                    labels@,
                                    graph_area,
                                    chart_area,
                                    wbt_spec,
                                    i as int,
                                    a,
                                ).unwrap(),
                            ),
                            style: spec_patch(old(grid).cell_at(a, b).style, self.x_axis.style),
                        }
                    } else {
                        old(grid).cell_at(a, b)
                    }),
            decreases n - i,
        {
            let label_chars = chars_of(labels[i].as_str());
            let geom: u16 = if i == 0 {
                gap
            } else {
                wbt_full
            };
            let cnt: u16 = if label_chars.len() < geom as usize {
                label_chars.len() as u16
            } else {
                geom
            };
            proof {
                vstd::arithmetic::mul::lemma_mul_inequality(i as int, n - 1, wbt_spec);
                if i > 0 {
                    vstd::arithmetic::mul::lemma_mul_inequality(1, i as int, wbt_spec);
                }
            }
            let pos: u16 = if i == 0 {
                graph_area.x - cnt
            } else if wbt_full == 0 {
                graph_area.x
            } else {
                proof {
                    vstd::arithmetic::mul::lemma_mul_inequality(1, wbt_spec, n - 1);
                    assert((n - 1) * 1 == n - 1) by (nonlinear_arith);
                    assert((n - 1) * wbt_spec == wbt_spec * (n - 1)) by (nonlinear_arith);
                    assert((i as int) * wbt_spec == wbt_spec * (i as int)) by (nonlinear_arith);
                }
                graph_area.x + (i as u16) * wbt_full - cnt
            };
            proof {
                assert(pos as int == spec_x_label_pos(
                    graph_area,
                    wbt_spec,
                    cnt as int,
                    i as int,
                ));
                assert(cnt as int == spec_x_label_count(
                    labels@,
                    graph_area,
                    chart_area,
                    wbt_spec,
                    i as int,
                ));
            }
            let ghost pre = *grid;
            grid.set_chars(pos, y, &label_chars, cnt, self.x_axis.style);
            proof {
                assert forall|a: int, b: int| grid.in_bounds(a, b) implies grid.cell_at(a, b) == (
                if b == y && spec_x_label_hit(
                    labels@,
                    graph_area,
                    chart_area,
                    wbt_spec,
                    i + 1,
                    a,
                ) is Some {
                    Cell {
                        sym: CellSym::Glyph(
                            spec_x_label_hit(
                                labels@,
                                graph_area,
                                chart_area,
                                wbt_spec,
                                i + 1,
                                a,
                            ).unwrap(),
                        ),
                        style: spec_patch(old(grid).cell_at(a, b).style, self.x_axis.style),
                    }
                } else {
                    old(grid).cell_at(a, b)
                }) by {
                    assert(pre.in_bounds(a, b));
                    let span = Grid::spec_char_span(
                        grid.width as int,
                        pos as int,
                        label_chars@.len() as int,
                        cnt as int,
                    );
                    assert(grid.cell_at(a, b) == (if b == y && pos <= a < pos + span {
                        Cell {
                            sym: CellSym::Glyph(label_chars@[a - pos]),
                            style: spec_patch(pre.cell_at(a, b).style, self.x_axis.style),
                        }
                    } else {
                        pre.cell_at(a, b)
                    }));
                    if b == y && pos <= a < pos + cnt {
                        assert(a < grid.width);
                        assert(a < pos + span);
                    }
                }
            }
            i = i + 1;
        }
        proof {
            assert forall|a: int, b: int| grid.in_bounds(a, b) implies grid.cell_at(a, b)
                == spec_x_labels_cell(
                *self,
                *layout,
                chart_area,
                graph_area,
                old(grid).cell_at(a, b),
                a,
                b,
            ) by {}
        }
    }
}


/// Row offset (up from the bottom row of the graph area) of the `i`th y
/// label: labels are spread evenly over the plot height.
pub open spec fn spec_y_label_dy(labels_len: int, gh: int, i: int) -> int {
    i * (gh - 1) / (labels_len - 1)
}

/// The character the first `i` y labels leave at `(a, b)`, if any; a later
/// label overwrites an earlier one on a shared row.
pub open spec fn spec_y_label_hit(
    labels: Seq<String>,
    ga: Rect,
    col: int,
    gap: int,
    i: int,
    a: int,
    b: int,
) -> Option<char>
    decreases i,
{
    if i <= 0 {
        None
    } else {
        let k = i - 1;
        let row = ga.y + ga.height - 1 - spec_y_label_dy(labels.len() as int, ga.height as int, k);
        let len_k = labels[k]@.len() as int;
        let cnt = if len_k < gap {
            len_k
        } else {
            gap
        };
        if b == row && col <= a < col + cnt {
            Some(labels[k]@[a - col])
        } else {
            spec_y_label_hit(labels, ga, col, gap, k, a, b)
        }
    }
}

/// What the y-label pass leaves at `(a, b)`: a label character with the y
/// axis style overlaid, rows spread over the plot height, each label
/// clipped to the gap left of the plot. The pass draws nothing without a
/// label column, without labels, fewer than two of them, or an empty plot.
pub open spec fn spec_y_labels_cell(
    chart: Chart,
    layout: ChartLayout,
    ca: Rect,
    ga: Rect,
    oldc: Cell,
    a: int,
    b: int,
) -> Cell {
    if layout.label_y is Some && chart.y_axis.labels is Some
        && chart.y_axis.labels.unwrap()@.len() >= 2 && ga.height > 0 {
        let col = layout.label_y.unwrap() as int;
        let labels = chart.y_axis.labels.unwrap()@;
        let gap = ga.x - ca.x;
        let hit = spec_y_label_hit(labels, ga, col, gap, labels.len() as int, a, b);
        if hit is Some {
            Cell { sym: CellSym::Glyph(hit.unwrap()), style: spec_patch(oldc.style, chart.y_axis.style) }
        } else {
            oldc
        }
    } else {
        oldc
    }
}

impl Chart {
    /// Draw the y axis labels into their reserved columns, bottom label at
    /// the plot's bottom row, spread evenly up the plot height.
    #[verifier::spinoff_prover]
    pub fn render_y_labels(
        &self,
        grid: &mut Grid,
        layout: &ChartLayout,
        chart_area: Rect,
        graph_area: Rect,
    )
        requires
            old(grid).wf(),
            chart_area.wf(),
            graph_area.wf(),
            chart_area.x <= graph_area.x,
        ensures
            final(grid).wf(),
            old(grid).same_frame(*final(grid)),
            forall|a: int, b: int|
                final(grid).in_bounds(a, b) ==> final(grid).cell_at(a, b) == spec_y_labels_cell(
                    *self,
                    *layout,
                    chart_area,
                    graph_area,
                    old(grid).cell_at(a, b),
                    a,
                    b,
                ),
    {
        let col: u16 = match layout.label_y {
            Some(v) => v,
            None => {
                return ;
            },
        };
        let labels = match &self.y_axis.labels {
            Some(l) => l,
            None => {
                return ;
            },
        };
        let n: usize = labels.len();
        if n < 2 || graph_area.height == 0 {
            return ;
        }
        let gap: u16 = graph_area.x - chart_area.x;
        let gh1: u16 = graph_area.height - 1;
        let mut i: usize = 0;
        while i < n
            invariant
                grid.wf(),
                old(grid).same_frame(*grid),
                n == labels@.len(),
                2 <= n,
                chart_area.wf(),
                graph_area.wf(),
                graph_area.height > 0,
                chart_area.x <= graph_area.x,
                i <= n,
                gap == graph_area.x - chart_area.x,
                gh1 == graph_area.height - 1,
                forall|a: int, b: int|
                    grid.in_bounds(a, b) ==> grid.cell_at(a, b) == (if spec_y_label_hit(
                        labels@,
                        graph_area,
                        col as int,
                        gap as int,
                        i as int,
                        a,
                        b,
                    ) is Some {
                        Cell {
                            sym: CellSym::Glyph(
                                spec_y_label_hit(
                                    labels@,
                                    graph_area,
                                    col as int,
                                    gap as int,
                                    i as int,
                                    a,
                                    b,
                                ).unwrap(),
                            ),
                            style: spec_patch(old(grid).cell_at(a, b).style, self.y_axis.style),
                        }
                    } else {
                        old(grid).cell_at(a, b)
                    }),
            decreases n - i,
        {
            let label_chars = chars_of(labels[i].as_str());
            proof {
                vstd::arithmetic::mul::lemma_mul_inequality(i as int, n - 1, gh1 as int);
                vstd::arithmetic::div_mod::lemma_div_is_ordered(
                    (i as int) * (gh1 as int),
                    (n - 1) * (gh1 as int),
                    n - 1,
                );
                vstd::arithmetic::div_mod::lemma_div_multiples_vanish(gh1 as int, n - 1);
                assert((n - 1) * (gh1 as int) == (gh1 as int) * (n - 1)) by (nonlinear_arith);
                assert(0 <= (i as int) * (gh1 as int)) by (nonlinear_arith)
                    requires i >= 0, gh1 >= 0,
                ;
                vstd::arithmetic::div_mod::lemma_div_is_ordered(
                    0,
                    (i as int) * (gh1 as int),
                    n - 1,
                );
            }
            proof {
                assert((i as u128) * (gh1 as u128) <= 0xFFFF_FFFF_FFFF_FFFFu128 * 0xFFFF)
                    by (nonlinear_arith)
                    requires i <= 0xFFFF_FFFF_FFFF_FFFFu128, gh1 <= 0xFFFF,
                ;
            }
            let dy_w: u128 = (i as u128) * (gh1 as u128) / ((n - 1) as u128);
            let dy: u16 = dy_w as u16;
            let row: u16 = graph_area.y + graph_area.height - 1 - dy;
            let cnt: u16 = if label_chars.len() < gap as usize {
                label_chars.len() as u16
            } else {
                gap
            };
            let ghost pre = *grid;
            grid.set_chars(col, row, &label_chars, cnt, self.y_axis.style);
            proof {
                assert(dy as int == spec_y_label_dy(n as int, graph_area.height as int, i as int));
                assert forall|a: int, b: int| grid.in_bounds(a, b) implies grid.cell_at(a, b) == (
                if spec_y_label_hit(
                    labels@,
                    graph_area,
                    col as int,
                    gap as int,
                    i + 1,
                    a,
                    b,
                ) is Some {
                    Cell {
                        sym: CellSym::Glyph(
                            spec_y_label_hit(
                                labels@,
                                graph_area,
                                col as int,
                                gap as int,
                                i + 1,
                                a,
                                b,
                            ).unwrap(),
                        ),
                        style: spec_patch(old(grid).cell_at(a, b).style, self.y_axis.style),
                    }
                } else {
                    old(grid).cell_at(a, b)
                }) by {
                    assert(pre.in_bounds(a, b));
                    let span = Grid::spec_char_span(
                        grid.width as int,
                        col as int,
                        label_chars@.len() as int,
                        cnt as int,
                    );
                    assert(grid.cell_at(a, b) == (if b == row && col <= a < col + span {
                        Cell {
                            sym: CellSym::Glyph(label_chars@[a - col]),
                            style: spec_patch(pre.cell_at(a, b).style, self.y_axis.style),
                        }
                    } else {
                        pre.cell_at(a, b)
                    }));
                    if b == row && col <= a < col + cnt {
                        assert(a < grid.width);
                        assert(a < col + span);
                    }
                }
            }
            i = i + 1;
        }
        proof {
            assert forall|a: int, b: int| grid.in_bounds(a, b) implies grid.cell_at(a, b)
                == spec_y_labels_cell(
                *self,
                *layout,
                chart_area,
                graph_area,
                old(grid).cell_at(a, b),
                a,
                b,
            ) by {}
        }
    }
}


/// Bitwise-or with zero changes nothing.
proof fn lemma_or_zero(a: u8)
    ensures
        a | 0 == a,
        0 | a == a,
{
    assert(a | 0 == a && 0 | a == a) by (bit_vector);
}

proof fn lemma_or_assoc(a: u8, b: u8, c: u8)
    ensures
        (a | b) | c == a | (b | c),
{
    assert((a | b) | c == a | (b | c)) by (bit_vector);
}

/// Sub-column of data value `v` on an axis spanning `[lo, hi]`, rasterized
/// to `n` sub-columns: the affine map, floored.
pub open spec fn spec_px(v: i64, lo: i64, hi: i64, n: int) -> int {
    (v - lo) * (n - 1) / (hi - lo)
}

/// Sub-row of data value `v`: the same map, measured down from the top.
pub open spec fn spec_py(v: i64, lo: i64, hi: i64, n: int) -> int {
    (hi - v) * (n - 1) / (hi - lo)
}

/// Whether a point lies inside both axes' bounds (degenerate bounds admit
/// nothing, so nothing is drawn for them).
pub open spec fn spec_point_ok(p: (i64, i64), xb: (i64, i64), yb: (i64, i64)) -> bool {
    xb.0 < xb.1 && yb.0 < yb.1 && xb.0 <= p.0 <= xb.1 && yb.0 <= p.1 <= yb.1
}

/// The raised-dot bit for sub-cell position `(sx, sy)` of a marker.
pub open spec fn spec_marker_bit(marker: Marker, sx: int, sy: int) -> u8 {
    match marker {
        Marker::Dot => 1u8,
        Marker::Braille => if sx == 0 && sy == 0 {
            0x01u8
        } else if sx == 0 && sy == 1 {
            0x02u8
        } else if sx == 0 && sy == 2 {
            0x04u8
        } else if sx == 0 && sy == 3 {
            0x40u8
        } else if sx == 1 && sy == 0 {
            0x08u8
        } else if sx == 1 && sy == 1 {
            0x10u8
        } else if sx == 1 && sy == 2 {
            0x20u8
        } else {
            0x80u8
        },
    }
}

/// The bit a single point contributes to plot cell `(cx, cy)`.
pub open spec fn spec_point_bit(
    p: (i64, i64),
    xb: (i64, i64),
    yb: (i64, i64),
    ga: Rect,
    marker: Marker,
    cx: int,
    cy: int,
) -> u8 {
    if spec_point_ok(p, xb, yb) && ga.width > 0 && ga.height > 0 {
        let xm = marker.spec_x_mult() as int;
        let ym = marker.spec_y_mult() as int;
        let px = spec_px(p.0, xb.0, xb.1, ga.width * xm);
        let py = spec_py(p.1, yb.0, yb.1, ga.height * ym);
        if px / xm == cx && py / ym == cy {
            spec_marker_bit(marker, px % xm, py % ym)
        } else {
            0
        }
    } else {
        0
    }
}

/// The bits the first `i` points of a series contribute to cell `(cx, cy)`.
pub open spec fn spec_points_mask(
    data: Seq<(i64, i64)>,
    i: int,
    xb: (i64, i64),
    yb: (i64, i64),
    ga: Rect,
    marker: Marker,
    cx: int,
    cy: int,
) -> u8
    decreases i,
{
    if i <= 0 {
        0
    } else {
        spec_points_mask(data, i - 1, xb, yb, ga, marker, cx, cy) | spec_point_bit(
            data[i - 1],
            xb,
            yb,
            ga,
            marker,
            cx,
            cy,
        )
    }
}

/// Number of raster steps between two sub-pixel positions: the longer of
/// the two axis distances, at least one.
pub open spec fn spec_seg_steps(q0: (int, int), q1: (int, int)) -> int {
    let dx = if q1.0 >= q0.0 {
        q1.0 - q0.0
    } else {
        q0.0 - q1.0
    };
    let dy = if q1.1 >= q0.1 {
        q1.1 - q0.1
    } else {
        q0.1 - q1.1
    };
    let d = if dx >= dy {
        dx
    } else {
        dy
    };
    if d >= 1 {
        d
    } else {
        1
    }
}

/// Interpolated coordinate at step `t` of `steps`, walked monotonically
/// from `c0` to `c1` with floored proportional steps.
pub open spec fn spec_seg_coord(c0: int, c1: int, t: int, steps: int) -> int {
    if c1 >= c0 {
        c0 + (c1 - c0) * t / steps
    } else {
        c0 - (c0 - c1) * t / steps
    }
}

/// The bits the first `t` raster steps of the segment `q0..q1` contribute
/// to cell `(cx, cy)`.
pub open spec fn spec_seg_mask(
    q0: (int, int),
    q1: (int, int),
    t: int,
    xm: int,
    ym: int,
    marker: Marker,
    cx: int,
    cy: int,
) -> u8
    decreases t,
{
    if t <= 0 {
        0
    } else {
        let steps = spec_seg_steps(q0, q1);
        let px = spec_seg_coord(q0.0, q1.0, t - 1, steps);
        let py = spec_seg_coord(q0.1, q1.1, t - 1, steps);
        spec_seg_mask(q0, q1, t - 1, xm, ym, marker, cx, cy) | (if px / xm == cx && py / ym == cy {
            spec_marker_bit(marker, px % xm, py % ym)
        } else {
            0
        })
    }
}

/// The full segment between consecutive points `w` and `w + 1`. A segment
/// with either endpoint outside the axis bounds is dropped whole, not
/// clipped to its in-range part; its endpoints still draw their own marks
/// through the point pass when they are in range.
pub open spec fn spec_pair_mask(
    data: Seq<(i64, i64)>,
    w: int,
    xb: (i64, i64),
    yb: (i64, i64),
    ga: Rect,
    marker: Marker,
    cx: int,
    cy: int,
) -> u8 {
    if spec_point_ok(data[w], xb, yb) && spec_point_ok(data[w + 1], xb, yb) && ga.width > 0
        && ga.height > 0 {
        let xm = marker.spec_x_mult() as int;
        let ym = marker.spec_y_mult() as int;
        let nx = ga.width * xm;
        let ny = ga.height * ym;
        let q0 = (spec_px(data[w].0, xb.0, xb.1, nx), spec_py(data[w].1, yb.0, yb.1, ny));
        let q1 = (spec_px(data[w + 1].0, xb.0, xb.1, nx), spec_py(data[w + 1].1, yb.0, yb.1, ny));
        spec_seg_mask(q0, q1, spec_seg_steps(q0, q1) + 1, xm, ym, marker, cx, cy)
    } else {
        0
    }
}

/// The bits the first `w` segments of a line series contribute.
pub open spec fn spec_lines_mask(
    data: Seq<(i64, i64)>,
    w: int,
    xb: (i64, i64),
    yb: (i64, i64),
    ga: Rect,
    marker: Marker,
    cx: int,
    cy: int,
) -> u8
    decreases w,
{
    if w <= 0 {
        0
    } else {
        spec_lines_mask(data, w - 1, xb, yb, ga, marker, cx, cy) | spec_pair_mask(
            data,
            w - 1,
            xb,
            yb,
            ga,
            marker,
            cx,
            cy,
        )
    }
}

/// Everything a dataset raises in plot cell `(cx, cy)`: its points, and for
/// line series the rasterized segments between consecutive points.
pub open spec fn spec_cell_mask(
    dataset: Dataset,
    xb: (i64, i64),
    yb: (i64, i64),
    ga: Rect,
    cx: int,
    cy: int,
) -> u8 {
    spec_points_mask(dataset.data@, dataset.data@.len() as int, xb, yb, ga, dataset.marker, cx, cy)
        | (if dataset.graph_type is Line && dataset.data@.len() >= 1 {
        spec_lines_mask(
            dataset.data@,
            dataset.data@.len() - 1,
            xb,
            yb,
            ga,
            dataset.marker,
            cx,
            cy,
        )
    } else {
        0
    })
}


/// The style a dataset paints marked cells with: its own foreground, or
/// the terminal default when it has none. The foreground is written
/// unconditionally, so on a shared cell a later dataset always overwrites
/// an earlier one's color; backgrounds are left alone.
pub open spec fn spec_series_style(style: Style) -> Style {
    Style {
        fg: Some(
            match style.fg {
                Some(c) => c,
                None => Color::Reset,
            },
        ),
        bg: None,
    }
}

/// What a dataset pass leaves at `(a, b)`: the composed mark where the
/// dataset raised bits inside the plot, the old cell everywhere else.
pub open spec fn spec_series_cell(
    dataset: Dataset,
    xb: (i64, i64),
    yb: (i64, i64),
    ga: Rect,
    oldc: Cell,
    a: int,
    b: int,
) -> Cell {
    if ga.spec_contains(a, b) && spec_cell_mask(dataset, xb, yb, ga, a - ga.x, b - ga.y) != 0 {
        Cell {
            sym: spec_mark_sym(
                dataset.marker,
                spec_cell_mask(dataset, xb, yb, ga, a - ga.x, b - ga.y),
            ),
            style: spec_patch(oldc.style, spec_series_style(dataset.style)),
        }
    } else {
        oldc
    }
}

/// The symbol a marked cell shows: a dot, or the composed braille pattern.
pub open spec fn spec_mark_sym(marker: Marker, mask: u8) -> CellSym {
    match marker {
        Marker::Dot => CellSym::Dot,
        Marker::Braille => CellSym::Braille(mask),
    }
}

/// The marker bit for sub-cell `(sx, sy)`.
fn marker_bit_of(marker: Marker, sx: u32, sy: u32) -> (r: u8)
    ensures
        r == spec_marker_bit(marker, sx as int, sy as int),
{
    match marker {
        Marker::Dot => 1,
        Marker::Braille => {
            if sx == 0 && sy == 0 {
                0x01
            } else if sx == 0 && sy == 1 {
                0x02
            } else if sx == 0 && sy == 2 {
                0x04
            } else if sx == 0 && sy == 3 {
                0x40
            } else if sx == 1 && sy == 0 {
                0x08
            } else if sx == 1 && sy == 1 {
                0x10
            } else if sx == 1 && sy == 2 {
                0x20
            } else {
                0x80
            }
        },
    }
}

/// Affine-map a point into sub-pixel coordinates of the plot, or nothing
/// when it lies outside the axis bounds or the plot is empty.
fn map_coords(p: (i64, i64), xb: (i64, i64), yb: (i64, i64), ga: Rect, marker: Marker) -> (r:
    Option<(u32, u32)>)
    ensures
        r is Some <==> (spec_point_ok(p, xb, yb) && ga.width > 0 && ga.height > 0),
        r is Some ==> ({
            let xm = marker.spec_x_mult() as int;
            let ym = marker.spec_y_mult() as int;
            &&& r.unwrap().0 == spec_px(p.0, xb.0, xb.1, ga.width * xm)
            &&& r.unwrap().1 == spec_py(p.1, yb.0, yb.1, ga.height * ym)
            &&& r.unwrap().0 < ga.width * xm
            &&& r.unwrap().1 < ga.height * ym
        }),
{
    if !(xb.0 < xb.1 && yb.0 < yb.1 && xb.0 <= p.0 && p.0 <= xb.1 && yb.0 <= p.1 && p.1 <= yb.1
        && ga.width > 0 && ga.height > 0) {
        return None;
    }
    let xm: u16 = marker.x_mult();
    let ym: u16 = marker.y_mult();
    proof {
        assert((ga.width as int) * (xm as int) <= 0xFFFF * 4 && (ga.height as int) * (ym as int)
            <= 0xFFFF * 4) by (nonlinear_arith)
            requires ga.width <= 0xFFFF, ga.height <= 0xFFFF, 1 <= xm <= 4, 1 <= ym <= 4,
        ;
        assert((ga.width as int) * (xm as int) >= 1 && (ga.height as int) * (ym as int) >= 1)
            by (nonlinear_arith)
            requires ga.width >= 1, ga.height >= 1, xm >= 1, ym >= 1,
        ;
    }
    let nx: i128 = (ga.width as i128) * (xm as i128);
    let ny: i128 = (ga.height as i128) * (ym as i128);
    let dvx: i128 = (xb.1 as i128) - (xb.0 as i128);
    let dvy: i128 = (yb.1 as i128) - (yb.0 as i128);
    proof {
        assert(((p.0 as i128) - (xb.0 as i128)) * (nx - 1) <= dvx * (nx - 1) && 0 <= ((
        p.0 as i128) - (xb.0 as i128)) * (nx - 1) && dvx * (nx - 1) < 0x100_0000_0000_0000_0000_0000i128)
            by (nonlinear_arith)
            requires
                0 <= (p.0 as i128) - (xb.0 as i128) <= dvx,
                0 < dvx < 0x2_0000_0000_0000_0000i128,
                0 <= nx - 1 < 0x4_0000,
        ;
        assert(((yb.1 as i128) - (p.1 as i128)) * (ny - 1) <= dvy * (ny - 1) && 0 <= ((
        yb.1 as i128) - (p.1 as i128)) * (ny - 1) && dvy * (ny - 1) < 0x100_0000_0000_0000_0000_0000i128)
            by (nonlinear_arith)
            requires
                0 <= (yb.1 as i128) - (p.1 as i128) <= dvy,
                0 < dvy < 0x2_0000_0000_0000_0000i128,
                0 <= ny - 1 < 0x4_0000,
        ;
    }
    let numx: i128 = ((p.0 as i128) - (xb.0 as i128)) * (nx - 1);
    let numy: i128 = ((yb.1 as i128) - (p.1 as i128)) * (ny - 1);
    let px: i128 = numx / dvx;
    let py: i128 = numy / dvy;
    proof {
        vstd::arithmetic::div_mod::lemma_div_multiples_vanish(0, dvx as int);
        vstd::arithmetic::div_mod::lemma_div_is_ordered(0, numx as int, dvx as int);
        vstd::arithmetic::div_mod::lemma_div_is_ordered(numx as int, (dvx as int) * (nx as int - 1), dvx as int);
        assert(dvx * (nx - 1) == (nx - 1) * dvx) by (nonlinear_arith);
        vstd::arithmetic::div_mod::lemma_div_multiples_vanish(nx as int - 1, dvx as int);
        assert(px <= nx - 1);
        vstd::arithmetic::div_mod::lemma_div_multiples_vanish(0, dvy as int);
        vstd::arithmetic::div_mod::lemma_div_is_ordered(0, numy as int, dvy as int);
        vstd::arithmetic::div_mod::lemma_div_is_ordered(numy as int, (dvy as int) * (ny as int - 1), dvy as int);
        assert(dvy * (ny - 1) == (ny - 1) * dvy) by (nonlinear_arith);
        vstd::arithmetic::div_mod::lemma_div_multiples_vanish(ny as int - 1, dvy as int);
        assert(py <= ny - 1);
    }
    Some((px as u32, py as u32))
}

proof fn lemma_subpixel_cell(px: int, n: int, m: int)
    requires
        0 <= px,
        px <= n * m - 1,
        1 <= m,
        1 <= n,
    ensures
        0 <= px / m < n,
        0 <= px % m < m,
{
    vstd::arithmetic::div_mod::lemma_div_multiples_vanish(0, m);
    vstd::arithmetic::div_mod::lemma_div_is_ordered(0, px, m);
    assert(n * m - 1 == m * (n - 1) + (m - 1)) by (nonlinear_arith);
    vstd::arithmetic::div_mod::lemma_div_is_ordered(px, m * (n - 1) + (m - 1), m);
    vstd::arithmetic::div_mod::lemma_div_multiples_vanish_fancy(n - 1, m - 1, m);
    vstd::arithmetic::div_mod::lemma_mod_bound(px, m);
}

/// Map one point to the plot cell it marks and the bit it raises there.
fn map_point(p: (i64, i64), xb: (i64, i64), yb: (i64, i64), ga: Rect, marker: Marker) -> (r:
    Option<(u16, u16, u8)>)
    ensures
        forall|cx: int, cy: int|
            #![trigger spec_point_bit(p, xb, yb, ga, marker, cx, cy)]
            spec_point_bit(p, xb, yb, ga, marker, cx, cy) == (match r {
                Some(t) => if cx == t.0 && cy == t.1 {
                    t.2
                } else {
                    0u8
                },
                None => 0u8,
            }),
        r is Some ==> (r.unwrap().0 < ga.width && r.unwrap().1 < ga.height),
{
    let xm: u16 = marker.x_mult();
    let ym: u16 = marker.y_mult();
    match map_coords(p, xb, yb, ga, marker) {
        Some(q) => {
            proof {
                lemma_subpixel_cell(q.0 as int, ga.width as int, xm as int);
                lemma_subpixel_cell(q.1 as int, ga.height as int, ym as int);
            }
            let cx: u32 = q.0 / (xm as u32);
            let cy: u32 = q.1 / (ym as u32);
            let sx: u32 = q.0 % (xm as u32);
            let sy: u32 = q.1 % (ym as u32);
            let bit: u8 = marker_bit_of(marker, sx, sy);
            Some((cx as u16, cy as u16, bit))
        },
        None => None,
    }
}

proof fn lemma_cell_index(w: int, h: int, x: int, y: int, x2: int, y2: int)
    requires
        0 <= x < w,
        0 <= y < h,
        0 <= x2 < w,
        0 <= y2 < h,
    ensures
        0 <= y * w + x < w * h,
        (y * w + x == y2 * w + x2) <==> (x == x2 && y == y2),
{
    assert(0 <= y * w + x < w * h && ((y * w + x == y2 * w + x2) <==> (x == x2 && y == y2)))
        by (nonlinear_arith)
        requires
            0 <= x < w,
            0 <= y < h,
            0 <= x2 < w,
            0 <= y2 < h,
    ;
}

/// One step of the segment walk, in executable form.
fn seg_coord(c0: u32, c1: u32, t: u32, steps: u32) -> (r: u32)
    requires
        steps >= 1,
        steps <= 0x4_0000,
        t <= steps,
        c0 < 0x4_0000,
        c1 < 0x4_0000,
    ensures
        r == spec_seg_coord(c0 as int, c1 as int, t as int, steps as int),
        r <= c0 || r <= c1,
        c0 <= r || c1 <= r,
{
    if c1 >= c0 {
        let d: u64 = (c1 - c0) as u64;
        proof {
            assert(d * (t as u64) <= 0x10_0000_0000u64) by (nonlinear_arith)
                requires d < 0x4_0000, t <= 0x4_0001,
            ;
            vstd::arithmetic::mul::lemma_mul_inequality(t as int, steps as int, d as int);
            assert((t as int) * (d as int) == (d as int) * (t as int)) by (nonlinear_arith);
            assert((steps as int) * (d as int) == (d as int) * (steps as int)) by (nonlinear_arith);
            vstd::arithmetic::div_mod::lemma_div_is_ordered(
                (d as int) * (t as int),
                (d as int) * (steps as int),
                steps as int,
            );
            vstd::arithmetic::div_mod::lemma_div_multiples_vanish(d as int, steps as int);
            assert((steps as int) * (d as int) == (d as int) * (steps as int)) by (nonlinear_arith);
            vstd::arithmetic::div_mod::lemma_div_multiples_vanish(0, steps as int);
            vstd::arithmetic::div_mod::lemma_div_is_ordered(0, (d as int) * (t as int), steps as int);
            assert(0 <= (d as int) * (t as int)) by (nonlinear_arith)
                requires d >= 0, t >= 0,
            ;
        }
        let add: u64 = d * (t as u64) / (steps as u64);
        c0 + (add as u32)
    } else {
        let d: u64 = (c0 - c1) as u64;
        proof {
            assert(d * (t as u64) <= 0x10_0000_0000u64) by (nonlinear_arith)
                requires d < 0x4_0000, t <= 0x4_0001,
            ;
            vstd::arithmetic::mul::lemma_mul_inequality(t as int, steps as int, d as int);
            assert((t as int) * (d as int) == (d as int) * (t as int)) by (nonlinear_arith);
            assert((steps as int) * (d as int) == (d as int) * (steps as int)) by (nonlinear_arith);
            vstd::arithmetic::div_mod::lemma_div_is_ordered(
                (d as int) * (t as int),
                (d as int) * (steps as int),
                steps as int,
            );
            vstd::arithmetic::div_mod::lemma_div_multiples_vanish(d as int, steps as int);
            vstd::arithmetic::div_mod::lemma_div_multiples_vanish(0, steps as int);
            vstd::arithmetic::div_mod::lemma_div_is_ordered(0, (d as int) * (t as int), steps as int);
            assert(0 <= (d as int) * (t as int)) by (nonlinear_arith)
                requires d >= 0, t >= 0,
            ;
        }
        let sub: u64 = d * (t as u64) / (steps as u64);
        c0 - (sub as u32)
    }
}

/// Draw one dataset into the plot area: each in-bounds point raises its
/// sub-cell bit; a line series also rasterizes the segment between each
/// consecutive pair of points. Cells the dataset touches get the marker
/// symbol composed from all raised bits with the dataset's foreground
/// color; every other cell keeps its value.
#[verifier::spinoff_prover]
pub fn render_dataset(
    grid: &mut Grid,
    graph_area: Rect,
    xb: (i64, i64),
    yb: (i64, i64),
    dataset: &Dataset,
)
    requires
        old(grid).wf(),
        graph_area.wf(),
        graph_area.x + graph_area.width <= old(grid).width,
        graph_area.y + graph_area.height <= old(grid).height,
    ensures
        final(grid).wf(),
        old(grid).same_frame(*final(grid)),
        forall|a: int, b: int|
            final(grid).in_bounds(a, b) ==> final(grid).cell_at(a, b) == spec_series_cell(
                *dataset,
                xb,
                yb,
                graph_area,
                old(grid).cell_at(a, b),
                a,
                b,
            ),
{
    let gw: u16 = graph_area.width;
    let gh: u16 = graph_area.height;
    if gw == 0 || gh == 0 {
        proof {
            assert forall|a: int, b: int| grid.in_bounds(a, b) implies !graph_area.spec_contains(
                a,
                b,
            ) by {}
        }
        return ;
    }
    proof {
        assert((gw as int) * (gh as int) <= 0xFFFF * 0xFFFF) by (nonlinear_arith)
            requires gw <= 0xFFFF, gh <= 0xFFFF,
        ;
    }
    let ncells: usize = (gw as usize) * (gh as usize);
    let mut mask: Vec<u8> = Vec::new();
    let mut z: usize = 0;
    while z < ncells
        invariant
            z <= ncells,
            mask@.len() == z,
            forall|j: int| 0 <= j < z ==> mask@[j] == 0u8,
        decreases ncells - z,
    {
        mask.push(0);
        z = z + 1;
    }
    let data = &dataset.data;
    let n: usize = data.len();
    proof {
        assert forall|cx: int, cy: int| 0 <= cx < gw && 0 <= cy < gh implies mask@[cy * gw + cx]
            == spec_points_mask(data@, 0, xb, yb, graph_area, dataset.marker, cx, cy) by {
            lemma_cell_index(gw as int, gh as int, cx, cy, cx, cy);
            assert(0 <= cy * (gw as int) + cx < (gw as int) * (gh as int));
            assert(mask@[cy * gw + cx] == 0u8);
        }
    }
    let mut i: usize = 0;
    while i < n
        invariant
            grid.wf(),
            old(grid).same_frame(*grid),
            n == data@.len(),
            data == dataset.data,
            i <= n,
            gw == graph_area.width,
            gh == graph_area.height,
            gw > 0,
            gh > 0,
            mask@.len() == ncells,
            ncells == (gw as int) * (gh as int),
            forall|cx: int, cy: int|
                0 <= cx < gw && 0 <= cy < gh ==> mask@[cy * gw + cx] == spec_points_mask(
                    data@,
                    i as int,
                    xb,
                    yb,
                    graph_area,
                    dataset.marker,
                    cx,
                    cy,
                ),
        decreases n - i,
    {
        let p: (i64, i64) = data[i];
        let ghost premask = mask@;
        let res = map_point(p, xb, yb, graph_area, dataset.marker);
        match res {
            Some(t) => {
                proof {
                    lemma_cell_index(gw as int, gh as int, t.0 as int, t.1 as int, 0, 0);
                    assert((t.1 as int) * (gw as int) + (t.0 as int) < 0xFFFF_FFFFu64)
                        by (nonlinear_arith)
                        requires t.0 < 0x1_0000, t.1 < 0x1_0000, gw <= 0xFFFF,
                    ;
                }
                let idx: usize = (t.1 as usize) * (gw as usize) + (t.0 as usize);
                let v: u8 = mask[idx];
                mask.set(idx, v | t.2);
            },
            None => {},
        }
        proof {
            assert forall|cx: int, cy: int|
                #![trigger spec_points_mask(data@, i + 1, xb, yb, graph_area, dataset.marker, cx, cy)]
                0 <= cx < gw && 0 <= cy < gh implies mask@[cy * gw
                + cx] == spec_points_mask(
                data@,
                i + 1,
                xb,
                yb,
                graph_area,
                dataset.marker,
                cx,
                cy,
            ) by {
                lemma_cell_index(gw as int, gh as int, cx, cy, cx, cy);
                let bit = spec_point_bit(p, xb, yb, graph_area, dataset.marker, cx, cy);
                assert(p == data@[i as int]);
                assert(premask[cy * gw + cx] == spec_points_mask(
                    data@,
                    i as int,
                    xb,
                    yb,
                    graph_area,
                    dataset.marker,
                    cx,
                    cy,
                ));
                assert(spec_points_mask(data@, i + 1, xb, yb, graph_area, dataset.marker, cx, cy)
                    == spec_points_mask(
                    data@,
                    i as int,
                    xb,
                    yb,
                    graph_area,
                    dataset.marker,
                    cx,
                    cy,
                ) | bit);
                match res {
                    Some(t) => {
                        lemma_cell_index(gw as int, gh as int, cx, cy, t.0 as int, t.1 as int);
                        if cx == t.0 as int && cy == t.1 as int {
                            assert(mask@[cy * gw + cx] == premask[cy * gw + cx] | bit);
                        } else {
                            lemma_or_zero(premask[cy * gw + cx]);
                        }
                    },
                    None => {
                        lemma_or_zero(premask[cy * gw + cx]);
                    },
                }
            }
        }
        i = i + 1;
    }
    mask_finish(grid, graph_area, xb, yb, dataset, mask)
}

/// Rasterize the segment passes and write the composed marks into the
/// grid. `mask` must hold exactly the point bits of the dataset.
#[verifier::spinoff_prover]
fn mask_finish(
    grid: &mut Grid,
    graph_area: Rect,
    xb: (i64, i64),
    yb: (i64, i64),
    dataset: &Dataset,
    mask: Vec<u8>,
)
    requires
        old(grid).wf(),
        graph_area.wf(),
        graph_area.width > 0,
        graph_area.height > 0,
        graph_area.x + graph_area.width <= old(grid).width,
        graph_area.y + graph_area.height <= old(grid).height,
        mask@.len() == (graph_area.width as int) * (graph_area.height as int),
        forall|cx: int, cy: int|
            0 <= cx < graph_area.width && 0 <= cy < graph_area.height ==> mask@[cy
                * graph_area.width + cx] == spec_points_mask(
                dataset.data@,
                dataset.data@.len() as int,
                xb,
                yb,
                graph_area,
                dataset.marker,
                cx,
                cy,
            ),
    ensures
        final(grid).wf(),
        old(grid).same_frame(*final(grid)),
        forall|a: int, b: int|
            final(grid).in_bounds(a, b) ==> final(grid).cell_at(a, b) == spec_series_cell(
                *dataset,
                xb,
                yb,
                graph_area,
                old(grid).cell_at(a, b),
                a,
                b,
            ),
{
    let mut mask = mask;
    let gw: u16 = graph_area.width;
    let gh: u16 = graph_area.height;
    let data = &dataset.data;
    let n: usize = data.len();
    let is_line: bool = match dataset.graph_type {
        GraphType::Line => true,
        GraphType::Scatter => false,
    };
    let xm: u16 = dataset.marker.x_mult();
    let ym: u16 = dataset.marker.y_mult();
    if is_line && n >= 1 {
        proof {
            assert forall|cx: int, cy: int|
                #![trigger spec_lines_mask(data@, 0, xb, yb, graph_area, dataset.marker, cx, cy)]
                0 <= cx < gw && 0 <= cy < gh implies mask@[cy * gw + cx] == (spec_points_mask(
                data@,
                n as int,
                xb,
                yb,
                graph_area,
                dataset.marker,
                cx,
                cy,
            ) | spec_lines_mask(data@, 0, xb, yb, graph_area, dataset.marker, cx, cy)) by {
                lemma_or_zero(
                    spec_points_mask(data@, n as int, xb, yb, graph_area, dataset.marker, cx, cy),
                );
            }
        }
        let mut w: usize = 0;
        while w < n - 1
            invariant
                n == data@.len(),
                data == dataset.data,
                n >= 1,
                w <= n - 1,
                gw == graph_area.width,
                gh == graph_area.height,
                gw > 0,
                gh > 0,
                graph_area.wf(),
                xm == dataset.marker.spec_x_mult(),
                ym == dataset.marker.spec_y_mult(),
                mask@.len() == (gw as int) * (gh as int),
                forall|cx: int, cy: int|
                    0 <= cx < gw && 0 <= cy < gh ==> mask@[cy * gw + cx] == (spec_points_mask(
                        data@,
                        n as int,
                        xb,
                        yb,
                        graph_area,
                        dataset.marker,
                        cx,
                        cy,
                    ) | spec_lines_mask(
                        data@,
                        w as int,
                        xb,
                        yb,
                        graph_area,
                        dataset.marker,
                        cx,
                        cy,
                    )),
            decreases n - 1 - w,
        {
            let q0_opt = map_coords(data[w], xb, yb, graph_area, dataset.marker);
            let q1_opt = map_coords(data[w + 1], xb, yb, graph_area, dataset.marker);
            match (q0_opt, q1_opt) {
                (Some(q0), Some(q1)) => {
                    let dx: u32 = if q1.0 >= q0.0 {
                        q1.0 - q0.0
                    } else {
                        q0.0 - q1.0
                    };
                    let dy: u32 = if q1.1 >= q0.1 {
                        q1.1 - q0.1
                    } else {
                        q0.1 - q1.1
                    };
                    let dmax: u32 = if dx >= dy {
                        dx
                    } else {
                        dy
                    };
                    let steps: u32 = if dmax >= 1 {
                        dmax
                    } else {
                        1
                    };
                    proof {
                        assert(steps == spec_seg_steps(
                            (q0.0 as int, q0.1 as int),
                            (q1.0 as int, q1.1 as int),
                        ));
                        assert((gw as int) * (xm as int) <= 0x4_0000 && (gh as int) * (ym as int)
                            <= 0x4_0000) by (nonlinear_arith)
                            requires gw <= 0xFFFF, gh <= 0xFFFF, xm <= 4, ym <= 4,
                        ;
                    }
                    let ghost q0i = (q0.0 as int, q0.1 as int);
                    let ghost q1i = (q1.0 as int, q1.1 as int);
                    proof {
                        assert forall|cx2: int, cy2: int|
                            #![trigger spec_seg_mask(q0i, q1i, 0, xm as int, ym as int, dataset.marker, cx2, cy2)]
                            0 <= cx2 < gw && 0 <= cy2 < gh implies mask@[cy2 * gw + cx2] == ((
                        spec_points_mask(
                            data@,
                            n as int,
                            xb,
                            yb,
                            graph_area,
                            dataset.marker,
                            cx2,
                            cy2,
                        ) | spec_lines_mask(
                            data@,
                            w as int,
                            xb,
                            yb,
                            graph_area,
                            dataset.marker,
                            cx2,
                            cy2,
                        )) | spec_seg_mask(
                            q0i,
                            q1i,
                            0,
                            xm as int,
                            ym as int,
                            dataset.marker,
                            cx2,
                            cy2,
                        )) by {
                            lemma_or_zero(
                                spec_points_mask(
                                    data@,
                                    n as int,
                                    xb,
                                    yb,
                                    graph_area,
                                    dataset.marker,
                                    cx2,
                                    cy2,
                                ) | spec_lines_mask(
                                    data@,
                                    w as int,
                                    xb,
                                    yb,
                                    graph_area,
                                    dataset.marker,
                                    cx2,
                                    cy2,
                                ),
                            );
                        }
                    }
                    let mut t: u32 = 0;
                    while t <= steps
                        invariant
                            n == data@.len(),
                            data == dataset.data,
                            n >= 1,
                            w < n - 1,
                            gw == graph_area.width,
                            gh == graph_area.height,
                            gw > 0,
                            gh > 0,
                            graph_area.wf(),
                            xm == dataset.marker.spec_x_mult(),
                            ym == dataset.marker.spec_y_mult(),
                            1 <= xm <= 4,
                            1 <= ym <= 4,
                            steps >= 1,
                            t <= steps + 1,
                            q0i == (q0.0 as int, q0.1 as int),
                            q1i == (q1.0 as int, q1.1 as int),
                            steps == spec_seg_steps(q0i, q1i),
                            q0.0 < gw * xm,
                            q0.1 < gh * ym,
                            q1.0 < gw * xm,
                            q1.1 < gh * ym,
                            spec_point_ok(data@[w as int], xb, yb),
                            spec_point_ok(data@[w as int + 1], xb, yb),
                            q0i.0 == spec_px(data@[w as int].0, xb.0, xb.1, gw as int * xm),
                            q0i.1 == spec_py(data@[w as int].1, yb.0, yb.1, gh as int * ym),
                            q1i.0 == spec_px(data@[w as int + 1].0, xb.0, xb.1, gw as int * xm),
                            q1i.1 == spec_py(data@[w as int + 1].1, yb.0, yb.1, gh as int * ym),
                            mask@.len() == (gw as int) * (gh as int),
                            forall|cx: int, cy: int|
                                0 <= cx < gw && 0 <= cy < gh ==> mask@[cy * gw + cx] == ((
                                spec_points_mask(
                                    data@,
                                    n as int,
                                    xb,
                                    yb,
                                    graph_area,
                                    dataset.marker,
                                    cx,
                                    cy,
                                ) | spec_lines_mask(
                                    data@,
                                    w as int,
                                    xb,
                                    yb,
                                    graph_area,
                                    dataset.marker,
                                    cx,
                                    cy,
                                )) | spec_seg_mask(
                                    q0i,
                                    q1i,
                                    t as int,
                                    xm as int,
                                    ym as int,
                                    dataset.marker,
                                    cx,
                                    cy,
                                )),
                        decreases steps + 1 - t,
                    {
                        let px: u32 = seg_coord(q0.0, q1.0, t, steps);
                        let py: u32 = seg_coord(q0.1, q1.1, t, steps);
                        proof {
                            lemma_subpixel_cell(px as int, gw as int, xm as int);
                            lemma_subpixel_cell(py as int, gh as int, ym as int);
                        }
                        let cx: u32 = px / (xm as u32);
                        let cy: u32 = py / (ym as u32);
                        let sx: u32 = px % (xm as u32);
                        let sy: u32 = py % (ym as u32);
                        let bit: u8 = marker_bit_of(dataset.marker, sx, sy);
                        proof {
                            lemma_cell_index(gw as int, gh as int, cx as int, cy as int, 0, 0);
                            assert((cy as int) * (gw as int) + (cx as int) < 0xFFFF_FFFFu64)
                                by (nonlinear_arith)
                                requires cx < 0x1_0000, cy < 0x1_0000, gw <= 0xFFFF,
                            ;
                        }
                        let idx: usize = (cy as usize) * (gw as usize) + (cx as usize);
                        let ghost premask = mask@;
                        let v: u8 = mask[idx];
                        mask.set(idx, v | bit);
                        proof {
                            assert forall|cx2: int, cy2: int| 0 <= cx2 < gw && 0 <= cy2 < gh
                                implies mask@[cy2 * gw + cx2] == ((spec_points_mask(
                                data@,
                                n as int,
                                xb,
                                yb,
                                graph_area,
                                dataset.marker,
                                cx2,
                                cy2,
                            ) | spec_lines_mask(
                                data@,
                                w as int,
                                xb,
                                yb,
                                graph_area,
                                dataset.marker,
                                cx2,
                                cy2,
                            )) | spec_seg_mask(
                                q0i,
                                q1i,
                                t as int + 1,
                                xm as int,
                                ym as int,
                                dataset.marker,
                                cx2,
                                cy2,
                            )) by {
                                lemma_cell_index(
                                    gw as int,
                                    gh as int,
                                    cx2,
                                    cy2,
                                    cx as int,
                                    cy as int,
                                );
                                let base = premask[cy2 * gw + cx2];
                                let pl = spec_points_mask(
                                    data@,
                                    n as int,
                                    xb,
                                    yb,
                                    graph_area,
                                    dataset.marker,
                                    cx2,
                                    cy2,
                                ) | spec_lines_mask(
                                    data@,
                                    w as int,
                                    xb,
                                    yb,
                                    graph_area,
                                    dataset.marker,
                                    cx2,
                                    cy2,
                                );
                                let st = spec_seg_mask(
                                    q0i,
                                    q1i,
                                    t as int,
                                    xm as int,
                                    ym as int,
                                    dataset.marker,
                                    cx2,
                                    cy2,
                                );
                                if cx2 == cx as int && cy2 == cy as int {
                                    assert(mask@[cy2 * gw + cx2] == base | bit);
                                    lemma_or_assoc(pl, st, bit);
                                } else {
                                    lemma_or_zero(base);
                                    lemma_or_zero(st);
                                }
                            }
                        }
                        t = t + 1;
                    }
                    proof {
                        assert forall|cx2: int, cy2: int| 0 <= cx2 < gw && 0 <= cy2 < gh
                            implies mask@[cy2 * gw + cx2] == (spec_points_mask(
                            data@,
                            n as int,
                            xb,
                            yb,
                            graph_area,
                            dataset.marker,
                            cx2,
                            cy2,
                        ) | spec_lines_mask(
                            data@,
                            w as int + 1,
                            xb,
                            yb,
                            graph_area,
                            dataset.marker,
                            cx2,
                            cy2,
                        )) by {
                            lemma_cell_index(gw as int, gh as int, cx2, cy2, cx2, cy2);
                            let p = spec_points_mask(
                                data@,
                                n as int,
                                xb,
                                yb,
                                graph_area,
                                dataset.marker,
                                cx2,
                                cy2,
                            );
                            let l = spec_lines_mask(
                                data@,
                                w as int,
                                xb,
                                yb,
                                graph_area,
                                dataset.marker,
                                cx2,
                                cy2,
                            );
                            let sgm = spec_pair_mask(
                                data@,
                                w as int,
                                xb,
                                yb,
                                graph_area,
                                dataset.marker,
                                cx2,
                                cy2,
                            );
                            assert(sgm == spec_seg_mask(
                                q0i,
                                q1i,
                                spec_seg_steps(q0i, q1i) + 1,
                                xm as int,
                                ym as int,
                                dataset.marker,
                                cx2,
                                cy2,
                            ));
                            lemma_or_assoc(p, l, sgm);
                        }
                    }
                },
                _ => {
                    proof {
                        assert forall|cx2: int, cy2: int| 0 <= cx2 < gw && 0 <= cy2 < gh
                            implies mask@[cy2 * gw + cx2] == (spec_points_mask(
                            data@,
                            n as int,
                            xb,
                            yb,
                            graph_area,
                            dataset.marker,
                            cx2,
                            cy2,
                        ) | spec_lines_mask(
                            data@,
                            w as int + 1,
                            xb,
                            yb,
                            graph_area,
                            dataset.marker,
                            cx2,
                            cy2,
                        )) by {
                            lemma_cell_index(gw as int, gh as int, cx2, cy2, cx2, cy2);
                            assert(spec_pair_mask(
                                data@,
                                w as int,
                                xb,
                                yb,
                                graph_area,
                                dataset.marker,
                                cx2,
                                cy2,
                            ) == 0u8);
                            lemma_or_zero(
                                spec_lines_mask(
                                    data@,
                                    w as int,
                                    xb,
                                    yb,
                                    graph_area,
                                    dataset.marker,
                                    cx2,
                                    cy2,
                                ),
                            );
                        }
                    }
                },
            }
            w = w + 1;
        }
    }
    proof {
        assert forall|cx: int, cy: int| 0 <= cx < gw && 0 <= cy < gh implies mask@[cy * gw + cx]
            == spec_cell_mask(*dataset, xb, yb, graph_area, cx, cy) by {
            lemma_cell_index(gw as int, gh as int, cx, cy, cx, cy);
            lemma_or_zero(
                spec_points_mask(
                    data@,
                    n as int,
                    xb,
                    yb,
                    graph_area,
                    dataset.marker,
                    cx,
                    cy,
                ),
            );
        }
    }
    let fgstyle = Style {
        fg: Some(
            match dataset.style.fg {
                Some(c) => c,
                None => Color::Reset,
            },
        ),
        bg: None,
    };
    let mut cy: u16 = 0;
    while cy < gh
        invariant
            grid.wf(),
            old(grid).same_frame(*grid),
            cy <= gh,
            gw == graph_area.width,
            gh == graph_area.height,
            gw > 0,
            gh > 0,
            graph_area.wf(),
            graph_area.x + gw <= grid.width,
            graph_area.y + gh <= grid.height,
            fgstyle == spec_series_style(dataset.style),
            mask@.len() == (gw as int) * (gh as int),
            forall|ex: int, ey: int|
                0 <= ex < gw && 0 <= ey < gh ==> mask@[ey * gw + ex] == spec_cell_mask(
                    *dataset,
                    xb,
                    yb,
                    graph_area,
                    ex,
                    ey,
                ),
            forall|a: int, b: int|
                grid.in_bounds(a, b) ==> grid.cell_at(a, b) == (if b - graph_area.y < cy {
                    spec_series_cell(
                        *dataset,
                        xb,
                        yb,
                        graph_area,
                        old(grid).cell_at(a, b),
                        a,
                        b,
                    )
                } else {
                    old(grid).cell_at(a, b)
                }),
        decreases gh - cy,
    {
        let mut cx: u16 = 0;
        while cx < gw
            invariant
                grid.wf(),
                old(grid).same_frame(*grid),
                cy < gh,
                cx <= gw,
                gw == graph_area.width,
                gh == graph_area.height,
                gw > 0,
                gh > 0,
                graph_area.wf(),
                graph_area.x + gw <= grid.width,
                graph_area.y + gh <= grid.height,
                fgstyle == spec_series_style(dataset.style),
                mask@.len() == (gw as int) * (gh as int),
                forall|ex: int, ey: int|
                    0 <= ex < gw && 0 <= ey < gh ==> mask@[ey * gw + ex] == spec_cell_mask(
                        *dataset,
                        xb,
                        yb,
                        graph_area,
                        ex,
                        ey,
                    ),
                forall|a: int, b: int|
                    grid.in_bounds(a, b) ==> grid.cell_at(a, b) == (if b - graph_area.y < cy || (
                    b - graph_area.y == cy && a - graph_area.x < cx) {
                        spec_series_cell(
                            *dataset,
                            xb,
                            yb,
                            graph_area,
                            old(grid).cell_at(a, b),
                            a,
                            b,
                        )
                    } else {
                        old(grid).cell_at(a, b)
                    }),
            decreases gw - cx,
        {
            proof {
                lemma_cell_index(gw as int, gh as int, cx as int, cy as int, 0, 0);
                assert((cy as int) * (gw as int) + (cx as int) < 0xFFFF_FFFFu64)
                    by (nonlinear_arith)
                    requires cx < 0x1_0000, cy < 0x1_0000, gw <= 0xFFFF,
                ;
            }
            let idx: usize = (cy as usize) * (gw as usize) + (cx as usize);
            let m: u8 = mask[idx];
            let gx: u16 = graph_area.x + cx;
            let gy: u16 = graph_area.y + cy;
            if m != 0 {
                let c = grid.get(gx, gy);
                let sym = match dataset.marker {
                    Marker::Dot => CellSym::Dot,
                    Marker::Braille => CellSym::Braille(m),
                };
                let mark = Cell { sym, style: patch_style(c.style, fgstyle) };
                let ghost pre = *grid;
                proof {
                    assert(graph_area.spec_contains(gx as int, gy as int));
                    assert(mark == spec_series_cell(
                        *dataset,
                        xb,
                        yb,
                        graph_area,
                        old(grid).cell_at(gx as int, gy as int),
                        gx as int,
                        gy as int,
                    ));
                }
                grid.put(gx, gy, mark);
                proof {
                    assert forall|a: int, b: int| grid.in_bounds(a, b) implies grid.cell_at(a, b)
                        == (if b - graph_area.y < cy || (b - graph_area.y == cy && a
                        - graph_area.x < cx + 1) {
                        spec_series_cell(
                            *dataset,
                            xb,
                            yb,
                            graph_area,
                            old(grid).cell_at(a, b),
                            a,
                            b,
                        )
                    } else {
                        old(grid).cell_at(a, b)
                    }) by {
                        assert(pre.in_bounds(a, b));
                        assert(grid.cell_at(a, b) == (if a == gx as int && b == gy as int {
                            mark
                        } else {
                            pre.cell_at(a, b)
                        }));
                    }
                }
            } else {
                proof {
                    assert(spec_cell_mask(
                        *dataset,
                        xb,
                        yb,
                        graph_area,
                        cx as int,
                        cy as int,
                    ) == 0u8);
                    assert(spec_series_cell(
                        *dataset,
                        xb,
                        yb,
                        graph_area,
                        old(grid).cell_at(gx as int, gy as int),
                        gx as int,
                        gy as int,
                    ) == old(grid).cell_at(gx as int, gy as int));
                }
            }
            cx = cx + 1;
        }
        cy = cy + 1;
    }
    proof {
        assert forall|a: int, b: int| grid.in_bounds(a, b) implies grid.cell_at(a, b)
            == spec_series_cell(
            *dataset,
            xb,
            yb,
            graph_area,
            old(grid).cell_at(a, b),
            a,
            b,
        ) by {
            if !(b - graph_area.y < gh) {
                assert(!graph_area.spec_contains(a, b));
            }
        }
    }
}


/// The chart area: what the block leaves free, or the whole area.
pub open spec fn spec_chart_area(chart: Chart, area: Rect) -> Rect {
    match chart.block {
        Some(bk) => bk.spec_inner(area),
        None => area,
    }
}

/// What the background stages leave at `(a, b)`: the chart's style overlaid
/// inside `area`, then, when a block is set, its style and its border ring.
pub open spec fn spec_background_cell(chart: Chart, area: Rect, oldc: Cell, a: int, b: int) -> Cell {
    let base = if area.spec_contains(a, b) {
        Cell { sym: oldc.sym, style: spec_patch(oldc.style, chart.style) }
    } else {
        oldc
    };
    match chart.block {
        Some(bk) => {
            let styled = if area.spec_contains(a, b) {
                Cell { sym: base.sym, style: spec_patch(base.style, bk.style) }
            } else {
                base
            };
            Grid::spec_box_cell(area, styled, bk.style, a, b)
        },
        None => base,
    }
}

/// A series with exactly one point raises exactly that point's bit at the
/// cell the affine mapping selects, and nothing anywhere else; drawing it
/// as a line series instead of a scatter changes nothing, since there is
/// no consecutive pair to rasterize a segment between.
pub proof fn lemma_single_point_round_trip(
    scatter: Dataset,
    line: Dataset,
    xb: (i64, i64),
    yb: (i64, i64),
    ga: Rect,
    cx: int,
    cy: int,
)
    requires
        scatter.data@.len() == 1,
        line.data@ == scatter.data@,
        line.marker == scatter.marker,
        scatter.graph_type == GraphType::Scatter,
        line.graph_type == GraphType::Line,
    ensures
        spec_cell_mask(scatter, xb, yb, ga, cx, cy) == spec_point_bit(
            scatter.data@[0],
            xb,
            yb,
            ga,
            scatter.marker,
            cx,
            cy,
        ),
        spec_cell_mask(line, xb, yb, ga, cx, cy) == spec_cell_mask(scatter, xb, yb, ga, cx, cy),
{
    let bit = spec_point_bit(scatter.data@[0], xb, yb, ga, scatter.marker, cx, cy);
    assert(spec_points_mask(scatter.data@, 1, xb, yb, ga, scatter.marker, cx, cy) == spec_points_mask(
        scatter.data@,
        0,
        xb,
        yb,
        ga,
        scatter.marker,
        cx,
        cy,
    ) | bit);
    lemma_or_zero(bit);
    assert(spec_lines_mask(line.data@, 0, xb, yb, ga, line.marker, cx, cy) == 0u8);
    lemma_or_zero(spec_points_mask(line.data@, 1, xb, yb, ga, line.marker, cx, cy));
}

/// Geometry facts the renderer relies on: a nonempty graph area lies
/// inside the chart area (sharing its right edge and top row), and tick
/// line positions fall inside the chart area.
proof fn lemma_layout_geometry(chart: Chart, area: Rect)
    requires
        area.wf(),
    ensures
        !chart.spec_layout(area).graph_area.is_empty() ==> {
            let ga = chart.spec_layout(area).graph_area;
            &&& area.x <= ga.x
            &&& ga.x + ga.width == area.x + area.width
            &&& ga.y == area.y
            &&& ga.y + ga.height <= area.y + area.height
            &&& ga.wf()
        },
        chart.spec_layout(area).axis_x is Some ==> area.y <= chart.spec_layout(
            area,
        ).axis_x.unwrap() < area.y + area.height,
        chart.spec_layout(area).axis_y is Some ==> area.x <= chart.spec_layout(
            area,
        ).axis_y.unwrap() < area.x + area.width,
        chart.spec_layout(area).legend_area is Some ==> {
            let la = chart.spec_layout(area).legend_area.unwrap();
            let ga = chart.spec_layout(area).graph_area;
            &&& ga.x <= la.x
            &&& la.x + la.width == ga.x + ga.width
            &&& la.y == ga.y
            &&& la.y + la.height <= ga.y + ga.height
        },
{
}

/// The style sampled at the area's top-left after the background fill; the
/// legend and the titles restore it before drawing over the plot.
pub open spec fn spec_original_style(chart: Chart, area: Rect, g0: Grid) -> Style {
    spec_patch(g0.cell_at(area.x as int, area.y as int).style, chart.style)
}

/// What the dataset passes, in order, leave at `(a, b)`: each dataset
/// overwrites what the previous ones left on cells it touches.
pub open spec fn spec_datasets_cell(
    datasets: Seq<Dataset>,
    i: int,
    xb: (i64, i64),
    yb: (i64, i64),
    ga: Rect,
    oldc: Cell,
    a: int,
    b: int,
) -> Cell
    decreases i,
{
    if i <= 0 {
        oldc
    } else {
        spec_series_cell(
            datasets[i - 1],
            xb,
            yb,
            ga,
            spec_datasets_cell(datasets, i - 1, xb, yb, ga, oldc, a, b),
            a,
            b,
        )
    }
}

/// What the first `i` legend name rows leave at `(a, b)`: dataset `k`'s
/// name on row `k` inside the box, clipped to the box's inner width, rows
/// past the inner height not drawn.
pub open spec fn spec_legend_names_cell(
    datasets: Seq<Dataset>,
    i: int,
    la: Rect,
    oldc: Cell,
    a: int,
    b: int,
) -> Cell
    decreases i,
{
    if i <= 0 {
        oldc
    } else {
        let prev = spec_legend_names_cell(datasets, i - 1, la, oldc, a, b);
        let k = i - 1;
        if la.height > 2 && k < la.height - 2 && la.width > 2 {
            let name = datasets[k].name@;
            let row = la.y + 1 + k;
            let col = la.x + 1;
            let cnt = if name.len() < la.width - 2 {
                name.len() as int
            } else {
                la.width - 2
            };
            if b == row && col <= a < col + cnt {
                Cell {
                    sym: CellSym::Glyph(name[a - col]),
                    style: spec_patch(prev.style, datasets[k].style),
                }
            } else {
                prev
            }
        } else {
            prev
        }
    }
}

/// What the legend pass leaves at `(a, b)`: the pre-data style restored
/// over the box, the border ring, then the names in dataset order.
pub open spec fn spec_legend_cell(
    datasets: Seq<Dataset>,
    la: Rect,
    orig: Style,
    oldc: Cell,
    a: int,
    b: int,
) -> Cell {
    let filled = if la.spec_contains(a, b) {
        Cell { sym: oldc.sym, style: spec_patch(oldc.style, orig) }
    } else {
        oldc
    };
    let boxed = Grid::spec_box_cell(la, filled, orig, a, b);
    spec_legend_names_cell(datasets, datasets.len() as int, la, boxed, a, b)
}

/// What one title pass leaves at `(a, b)`: the pre-data style restored
/// along the title's row segment, the title's characters over its prefix.
pub open spec fn spec_title_cell(
    title: Seq<char>,
    tx: int,
    ty: int,
    w: int,
    orig: Style,
    style: Style,
    oldc: Cell,
    a: int,
    b: int,
) -> Cell {
    if b == ty && tx <= a < tx + w {
        let filled = Cell { sym: oldc.sym, style: spec_patch(oldc.style, orig) };
        let cnt = if title.len() < w {
            title.len() as int
        } else {
            w
        };
        if a < tx + cnt {
            Cell { sym: CellSym::Glyph(title[a - tx]), style: spec_patch(filled.style, style) }
        } else {
            filled
        }
    } else {
        oldc
    }
}

/// Every cell of a full render pass, as a function of the chart, the
/// target area and the previous frame: the stages in draw order, each free
/// to overwrite what came before. An empty area changes nothing; an empty
/// resolved graph area leaves only the background and block border.
pub open spec fn spec_render_cell(chart: Chart, area: Rect, g0: Grid, a: int, b: int) -> Cell {
    let oldc = g0.cell_at(a, b);
    if area.width == 0 || area.height == 0 {
        oldc
    } else {
        let c0 = spec_background_cell(chart, area, oldc, a, b);
        let ca = spec_chart_area(chart, area);
        let lo = chart.spec_layout(ca);
        let ga = lo.graph_area;
        if ga.width < 1 || ga.height < 1 {
            c0
        } else {
            let orig = spec_original_style(chart, area, g0);
            let c1 = spec_x_labels_cell(chart, lo, ca, ga, c0, a, b);
            let c2 = spec_y_labels_cell(chart, lo, ca, ga, c1, a, b);
            let c3 = match lo.axis_x {
                Some(y) => if b == y && ga.x <= a < ga.x + ga.width {
                    Cell { sym: CellSym::HLine, style: spec_patch(c2.style, chart.x_axis.style) }
                } else {
                    c2
                },
                None => c2,
            };
            let c4 = match lo.axis_y {
                Some(x) => if a == x && ga.y <= b < ga.y + ga.height {
                    Cell { sym: CellSym::VLine, style: spec_patch(c3.style, chart.y_axis.style) }
                } else {
                    c3
                },
                None => c3,
            };
            let c5 = match (lo.axis_x, lo.axis_y) {
                (Some(y), Some(x)) => if a == x && b == y {
                    Cell { sym: CellSym::Corner, style: spec_patch(c4.style, chart.x_axis.style) }
                } else {
                    c4
                },
                _ => c4,
            };
            let c6 = spec_datasets_cell(
                chart.datasets@,
                chart.datasets@.len() as int,
                chart.x_axis.bounds,
                chart.y_axis.bounds,
                ga,
                c5,
                a,
                b,
            );
            let c7 = match lo.legend_area {
                Some(la) => spec_legend_cell(chart.datasets@, la, orig, c6, a, b),
                None => c6,
            };
            let c8 = match (lo.title_x, chart.x_axis.title) {
                (Some(t), Some(title)) => if t.0 <= ga.x + ga.width && t.1 < g0.height {
                    spec_title_cell(
                        title@,
                        t.0 as int,
                        t.1 as int,
                        ga.x + ga.width - t.0,
                        orig,
                        chart.x_axis.style,
                        c7,
                        a,
                        b,
                    )
                } else {
                    c7
                },
                _ => c7,
            };
            match (lo.title_y, chart.y_axis.title) {
                (Some(t), Some(title)) => if t.0 <= ga.x + ga.width && t.1 < g0.height {
                    spec_title_cell(
                        title@,
                        t.0 as int,
                        t.1 as int,
                        ga.x + ga.width - t.0,
                        orig,
                        chart.y_axis.style,
                        c8,
                        a,
                        b,
                    )
                } else {
                    c8
                },
                _ => c8,
            }
        }
    }
}



/// Rendering a chart whose one dataset holds a single point draws the same
/// frame whether the dataset is a scatter or a line series: with one point
/// there is no consecutive pair, so no segment, and every cell of the two
/// rendered frames agrees.
#[verifier::rlimit(100)]
#[verifier::spinoff_prover]
pub proof fn lemma_render_single_point_line_eq_scatter(
    scatter_chart: Chart,
    line_chart: Chart,
    area: Rect,
    g0: Grid,
    a: int,
    b: int,
)
    requires
        scatter_chart.datasets@.len() == 1,
        line_chart.datasets@.len() == 1,
        scatter_chart.datasets@[0].data@.len() == 1,
        line_chart.datasets@[0].data@ == scatter_chart.datasets@[0].data@,
        line_chart.datasets@[0].name@ == scatter_chart.datasets@[0].name@,
        line_chart.datasets@[0].marker == scatter_chart.datasets@[0].marker,
        line_chart.datasets@[0].style == scatter_chart.datasets@[0].style,
        scatter_chart.datasets@[0].graph_type == GraphType::Scatter,
        line_chart.datasets@[0].graph_type == GraphType::Line,
        line_chart.block == scatter_chart.block,
        line_chart.x_axis == scatter_chart.x_axis,
        line_chart.y_axis == scatter_chart.y_axis,
        line_chart.style == scatter_chart.style,
        line_chart.hidden_legend_constraints == scatter_chart.hidden_legend_constraints,
    ensures
        spec_render_cell(scatter_chart, area, g0, a, b) == spec_render_cell(
            line_chart,
            area,
            g0,
            a,
            b,
        ),
{
    let sd = scatter_chart.datasets@;
    let ld = line_chart.datasets@;
    assert(crate::chart::max_name_width(sd) == crate::chart::max_name_width(ld)) by {
        assert(sd.drop_last().len() == 0);
        assert(ld.drop_last().len() == 0);
        assert(crate::chart::max_name_width(sd.drop_last()) == 0);
        assert(crate::chart::max_name_width(ld.drop_last()) == 0);
        assert(sd.last() == sd[0]);
        assert(ld.last() == ld[0]);
    }
    let ca = spec_chart_area(scatter_chart, area);
    assert(spec_chart_area(line_chart, area) == ca);
    assert(line_chart.spec_layout(ca) == scatter_chart.spec_layout(ca));
    let lo = scatter_chart.spec_layout(ca);
    let ga = lo.graph_area;
    if !(area.width == 0 || area.height == 0) && !(ga.width < 1 || ga.height < 1) {
        lemma_single_point_round_trip(
            scatter_chart.datasets@[0],
            line_chart.datasets@[0],
            scatter_chart.x_axis.bounds,
            scatter_chart.y_axis.bounds,
            ga,
            a - ga.x,
            b - ga.y,
        );
        assert forall|oldc: Cell|
            spec_series_cell(
                sd[0],
                scatter_chart.x_axis.bounds,
                scatter_chart.y_axis.bounds,
                ga,
                oldc,
                a,
                b,
            ) == #[trigger] spec_series_cell(
                ld[0],
                line_chart.x_axis.bounds,
                line_chart.y_axis.bounds,
                ga,
                oldc,
                a,
                b,
            ) by {
            assert(spec_cell_mask(sd[0], scatter_chart.x_axis.bounds, scatter_chart.y_axis.bounds, ga, a - ga.x, b - ga.y)
                == spec_cell_mask(ld[0], line_chart.x_axis.bounds, line_chart.y_axis.bounds, ga, a - ga.x, b - ga.y));
        }
        assert forall|oldc: Cell, la: Rect|
            spec_legend_names_cell(sd, 1, la, oldc, a, b) == #[trigger] spec_legend_names_cell(
                ld,
                1,
                la,
                oldc,
                a,
                b,
            ) by {
            assert(spec_legend_names_cell(sd, 0, la, oldc, a, b) == oldc);
            assert(spec_legend_names_cell(ld, 0, la, oldc, a, b) == oldc);
        }
        assert forall|oldc: Cell|
            spec_datasets_cell(
                sd,
                1,
                scatter_chart.x_axis.bounds,
                scatter_chart.y_axis.bounds,
                ga,
                oldc,
                a,
                b,
            ) == #[trigger] spec_datasets_cell(
                ld,
                1,
                line_chart.x_axis.bounds,
                line_chart.y_axis.bounds,
                ga,
                oldc,
                a,
                b,
            ) by {
            assert(spec_datasets_cell(
                sd,
                0,
                scatter_chart.x_axis.bounds,
                scatter_chart.y_axis.bounds,
                ga,
                oldc,
                a,
                b,
            ) == oldc);
            assert(spec_datasets_cell(
                ld,
                0,
                line_chart.x_axis.bounds,
                line_chart.y_axis.bounds,
                ga,
                oldc,
                a,
                b,
            ) == oldc);
        }
        let orig = spec_original_style(scatter_chart, area, g0);
        assert(spec_original_style(line_chart, area, g0) == orig);
        assert forall|oldc: Cell, la: Rect|
            spec_legend_cell(sd, la, orig, oldc, a, b) == #[trigger] spec_legend_cell(
                ld,
                la,
                orig,
                oldc,
                a,
                b,
            ) by {}
        assert forall|oldc: Cell|
            spec_x_labels_cell(scatter_chart, lo, ca, ga, oldc, a, b)
                == #[trigger] spec_x_labels_cell(line_chart, lo, ca, ga, oldc, a, b) by {}
        assert forall|oldc: Cell|
            spec_y_labels_cell(scatter_chart, lo, ca, ga, oldc, a, b)
                == #[trigger] spec_y_labels_cell(line_chart, lo, ca, ga, oldc, a, b) by {}
        assert(spec_background_cell(line_chart, area, g0.cell_at(a, b), a, b)
            == spec_background_cell(scatter_chart, area, g0.cell_at(a, b), a, b));
    }
}

impl Chart {
    /// One full layout and render pass into `grid` at `area`, which must
    /// lie inside the grid. Every cell of the result is fixed by
    /// `spec_render_cell`: background style and optional block border,
    /// axis labels, the tick lines and their corner, every dataset in
    /// order, the legend box, and the axis titles, each stage free to
    /// overwrite what came before it. An empty area renders nothing;
    /// missing elements are skipped, never an error.
    #[verifier::rlimit(50)]
    #[verifier::spinoff_prover]
    pub fn render(self, area: Rect, grid: &mut Grid)
        requires
            old(grid).wf(),
            area.wf(),
            area.x + area.width <= old(grid).width,
            area.y + area.height <= old(grid).height,
        ensures
            final(grid).wf(),
            old(grid).same_frame(*final(grid)),
            area.is_empty() ==> *final(grid) == *old(grid),
            forall|a: int, b: int|
                final(grid).in_bounds(a, b) ==> final(grid).cell_at(a, b) == spec_render_cell(
                    self,
                    area,
                    *old(grid),
                    a,
                    b,
                ),
    {
        if area.width == 0 || area.height == 0 {
            return ;
        }
        grid.fill_region(area, self.style);
        let original_style: Style = grid.get(area.x, area.y).style;
        let ghost g1 = *grid;
        let chart_area: Rect = match &self.block {
            Some(blk) => {
                grid.fill_region(area, blk.style);
                let ghost g2 = *grid;
                grid.draw_box(area, blk.style);
                proof {
                    assert forall|a: int, b2: int| grid.in_bounds(a, b2) implies grid.cell_at(
                        a,
                        b2,
                    ) == spec_background_cell(self, area, old(grid).cell_at(a, b2), a, b2) by {
                        assert(g1.in_bounds(a, b2));
                        assert(g2.in_bounds(a, b2));
                    }
                }
                blk.inner(area)
            },
            None => area,
        };
        let ghost gb = *grid;
        proof {
            assert(chart_area == spec_chart_area(self, area));
            assert(original_style == spec_original_style(self, area, *old(grid)));
            assert(chart_area.x >= area.x && chart_area.x + chart_area.width <= area.x
                + area.width && chart_area.y >= area.y && chart_area.y + chart_area.height
                <= area.y + area.height);
            assert forall|a: int, b2: int| grid.in_bounds(a, b2) implies grid.cell_at(a, b2)
                == spec_background_cell(self, area, old(grid).cell_at(a, b2), a, b2) by {
                assert(g1.in_bounds(a, b2));
            }
            lemma_layout_geometry(self, chart_area);
        }
        let layout = self.layout(chart_area);
        let graph_area = layout.graph_area;
        if graph_area.width < 1 || graph_area.height < 1 {
            proof {
                assert forall|a: int, b2: int| grid.in_bounds(a, b2) implies grid.cell_at(a, b2)
                    == spec_render_cell(self, area, *old(grid), a, b2) by {
                    assert(gb.in_bounds(a, b2));
                }
            }
            return ;
        }
        proof {
            assert(chart_area.x <= graph_area.x);
            assert(graph_area.wf());
            assert(graph_area.x + graph_area.width <= grid.width);
            assert(graph_area.y + graph_area.height <= grid.height);
        }
        self.render_x_labels(grid, &layout, chart_area, graph_area);
        let ghost gx = *grid;
        self.render_y_labels(grid, &layout, chart_area, graph_area);
        let ghost gy = *grid;
        match layout.axis_x {
            Some(y) => {
                draw_hline(
                    grid,
                    graph_area.x,
                    graph_area.x + graph_area.width,
                    y,
                    CellSym::HLine,
                    self.x_axis.style,
                );
            },
            None => {},
        }
        let ghost gh = *grid;
        match layout.axis_y {
            Some(x) => {
                draw_vline(
                    grid,
                    x,
                    graph_area.y,
                    graph_area.y + graph_area.height,
                    CellSym::VLine,
                    self.y_axis.style,
                );
            },
            None => {},
        }
        let ghost gv = *grid;
        match (layout.axis_x, layout.axis_y) {
            (Some(y), Some(x)) => {
                let c = grid.get(x, y);
                grid.put(
                    x,
                    y,
                    Cell { sym: CellSym::Corner, style: patch_style(c.style, self.x_axis.style) },
                );
            },
            _ => {},
        }
        let ghost gc = *grid;
        let mut di: usize = 0;
        while di < self.datasets.len()
            invariant
                grid.wf(),
                gc.same_frame(*grid),
                old(grid).same_frame(*grid),
                di <= self.datasets@.len(),
                graph_area.wf(),
                graph_area.x + graph_area.width <= grid.width,
                graph_area.y + graph_area.height <= grid.height,
                forall|a: int, b2: int|
                    grid.in_bounds(a, b2) ==> grid.cell_at(a, b2) == spec_datasets_cell(
                        self.datasets@,
                        di as int,
                        self.x_axis.bounds,
                        self.y_axis.bounds,
                        graph_area,
                        gc.cell_at(a, b2),
                        a,
                        b2,
                    ),
            decreases self.datasets@.len() - di,
        {
            let ghost pre = *grid;
            render_dataset(
                grid,
                graph_area,
                self.x_axis.bounds,
                self.y_axis.bounds,
                &self.datasets[di],
            );
            proof {
                assert forall|a: int, b2: int| grid.in_bounds(a, b2) implies grid.cell_at(a, b2)
                    == spec_datasets_cell(
                    self.datasets@,
                    di + 1,
                    self.x_axis.bounds,
                    self.y_axis.bounds,
                    graph_area,
                    gc.cell_at(a, b2),
                    a,
                    b2,
                ) by {
                    assert(pre.in_bounds(a, b2));
                    assert(gc.in_bounds(a, b2));
                    assert(grid.cell_at(a, b2) == spec_series_cell(
                        self.datasets@[di as int],
                        self.x_axis.bounds,
                        self.y_axis.bounds,
                        graph_area,
                        pre.cell_at(a, b2),
                        a,
                        b2,
                    ));
                }
            }
            di = di + 1;
        }
        let ghost gd = *grid;
        match layout.legend_area {
            Some(la) => {
                proof {
                    assert(la.x + la.width <= u16::MAX && la.y + la.height <= u16::MAX);
                }
                {
                    let ghost gpre = *grid;
                    grid.fill_region(la, original_style);
                    let ghost gf = *grid;
                    grid.draw_box(la, original_style);
                    let ghost gbox = *grid;
                    let mut i: usize = 0;
                    while i < self.datasets.len()
                        invariant
                            grid.wf(),
                            gbox.same_frame(*grid),
                            old(grid).same_frame(*grid),
                            i <= self.datasets@.len(),
                            la.x + la.width <= u16::MAX,
                            la.y + la.height <= u16::MAX,
                            forall|a: int, b2: int|
                                grid.in_bounds(a, b2) ==> grid.cell_at(a, b2)
                                    == spec_legend_names_cell(
                                    self.datasets@,
                                    i as int,
                                    la,
                                    gbox.cell_at(a, b2),
                                    a,
                                    b2,
                                ),
                        decreases self.datasets@.len() - i,
                    {
                        if la.height > 2 && i < (la.height - 2) as usize && la.width > 2 {
                            let name_chars = chars_of(self.datasets[i].name.as_str());
                            let ghost pre = *grid;
                            grid.set_chars(
                                la.x + 1,
                                la.y + 1 + (i as u16),
                                &name_chars,
                                la.width - 2,
                                self.datasets[i].style,
                            );
                            proof {
                                assert forall|a: int, b2: int| grid.in_bounds(a, b2)
                                    implies grid.cell_at(a, b2) == spec_legend_names_cell(
                                    self.datasets@,
                                    i + 1,
                                    la,
                                    gbox.cell_at(a, b2),
                                    a,
                                    b2,
                                ) by {
                                    assert(pre.in_bounds(a, b2));
                                    assert(gbox.in_bounds(a, b2));
                                    let span = Grid::spec_char_span(
                                        grid.width as int,
                                        la.x + 1,
                                        name_chars@.len() as int,
                                        la.width - 2,
                                    );
                                    assert(grid.cell_at(a, b2) == (if b2 == la.y + 1 + i && la.x
                                        + 1 <= a < la.x + 1 + span {
                                        Cell {
                                            sym: CellSym::Glyph(name_chars@[a - (la.x + 1)]),
                                            style: spec_patch(
                                                pre.cell_at(a, b2).style,
                                                self.datasets@[i as int].style,
                                            ),
                                        }
                                    } else {
                                        pre.cell_at(a, b2)
                                    }));
                                    let cnt = if name_chars@.len() < la.width - 2 {
                                        name_chars@.len() as int
                                    } else {
                                        la.width - 2
                                    };
                                    if b2 == la.y + 1 + i && la.x + 1 <= a < la.x + 1 + cnt {
                                        assert(a < grid.width);
                                        assert(a < la.x + 1 + span);
                                    }
                                }
                            }
                        }
                        i = i + 1;
                    }
                    proof {
                        assert forall|a: int, b2: int| grid.in_bounds(a, b2) implies grid.cell_at(
                            a,
                            b2,
                        ) == spec_legend_cell(
                            self.datasets@,
                            la,
                            original_style,
                            gpre.cell_at(a, b2),
                            a,
                            b2,
                        ) by {
                            assert(gpre.in_bounds(a, b2));
                            assert(gf.in_bounds(a, b2));
                            assert(gbox.in_bounds(a, b2));
                            assert(gf.cell_at(a, b2) == (if la.spec_contains(a, b2) {
                                Cell {
                                    sym: gpre.cell_at(a, b2).sym,
                                    style: spec_patch(gpre.cell_at(a, b2).style, original_style),
                                }
                            } else {
                                gpre.cell_at(a, b2)
                            }));
                            assert(gbox.cell_at(a, b2) == Grid::spec_box_cell(
                                la,
                                gf.cell_at(a, b2),
                                original_style,
                                a,
                                b2,
                            ));
                        }
                    }
                }
            },
            None => {},
        }
        let ghost gl = *grid;
        match layout.title_x {
            Some(t) => {
                match &self.x_axis.title {
                    Some(title) => {
                        if t.0 <= graph_area.x + graph_area.width && t.1 < grid.height {
                            let w: u16 = graph_area.x + graph_area.width - t.0;
                            let ghost gpre = *grid;
                            grid.fill_region(
                                Rect { x: t.0, y: t.1, width: w, height: 1 },
                                original_style,
                            );
                            let ghost gf = *grid;
                            let title_chars = chars_of(title.as_str());
                            grid.set_chars(t.0, t.1, &title_chars, w, self.x_axis.style);
                            proof {
                                assert forall|a: int, b2: int| grid.in_bounds(a, b2)
                                    implies grid.cell_at(a, b2) == spec_title_cell(
                                    title@,
                                    t.0 as int,
                                    t.1 as int,
                                    w as int,
                                    original_style,
                                    self.x_axis.style,
                                    gpre.cell_at(a, b2),
                                    a,
                                    b2,
                                ) by {
                                    assert(gpre.in_bounds(a, b2));
                                    assert(gf.in_bounds(a, b2));
                                    let span = Grid::spec_char_span(
                                        grid.width as int,
                                        t.0 as int,
                                        title_chars@.len() as int,
                                        w as int,
                                    );
                                    assert(gf.cell_at(a, b2) == (if (Rect {
                                        x: t.0,
                                        y: t.1,
                                        width: w,
                                        height: 1,
                                    }).spec_contains(a, b2) {
                                        Cell {
                                            sym: gpre.cell_at(a, b2).sym,
                                            style: spec_patch(
                                                gpre.cell_at(a, b2).style,
                                                original_style,
                                            ),
                                        }
                                    } else {
                                        gpre.cell_at(a, b2)
                                    }));
                                    assert(grid.cell_at(a, b2) == (if b2 == t.1 && t.0 <= a < t.0
                                        + span {
                                        Cell {
                                            sym: CellSym::Glyph(title_chars@[a - t.0]),
                                            style: spec_patch(
                                                gf.cell_at(a, b2).style,
                                                self.x_axis.style,
                                            ),
                                        }
                                    } else {
                                        gf.cell_at(a, b2)
                                    }));
                                    let cnt = if title@.len() < w {
                                        title@.len() as int
                                    } else {
                                        w as int
                                    };
                                    if b2 == t.1 && t.0 <= a < t.0 + cnt {
                                        assert(a < grid.width);
                                        assert(a < t.0 + span);
                                    }
                                }
                            }
                        }
                    },
                    None => {},
                }
            },
            None => {},
        }
        let ghost gt = *grid;
        match layout.title_y {
            Some(t) => {
                match &self.y_axis.title {
                    Some(title) => {
                        if t.0 <= graph_area.x + graph_area.width && t.1 < grid.height {
                            let w: u16 = graph_area.x + graph_area.width - t.0;
                            let ghost gpre = *grid;
                            grid.fill_region(
                                Rect { x: t.0, y: t.1, width: w, height: 1 },
                                original_style,
                            );
                            let ghost gf = *grid;
                            let title_chars = chars_of(title.as_str());
                            grid.set_chars(t.0, t.1, &title_chars, w, self.y_axis.style);
                            proof {
                                assert forall|a: int, b2: int| grid.in_bounds(a, b2)
                                    implies grid.cell_at(a, b2) == spec_title_cell(
                                    title@,
                                    t.0 as int,
                                    t.1 as int,
                                    w as int,
                                    original_style,
                                    self.y_axis.style,
                                    gpre.cell_at(a, b2),
                                    a,
                                    b2,
                                ) by {
                                    assert(gpre.in_bounds(a, b2));
                                    assert(gf.in_bounds(a, b2));
                                    let span = Grid::spec_char_span(
                                        grid.width as int,
                                        t.0 as int,
                                        title_chars@.len() as int,
                                        w as int,
                                    );
                                    assert(gf.cell_at(a, b2) == (if (Rect {
                                        x: t.0,
                                        y: t.1,
                                        width: w,
                                        height: 1,
                                    }).spec_contains(a, b2) {
                                        Cell {
                                            sym: gpre.cell_at(a, b2).sym,
                                            style: spec_patch(
                                                gpre.cell_at(a, b2).style,
                                                original_style,
                                            ),
                                        }
                                    } else {
                                        gpre.cell_at(a, b2)
                                    }));
                                    assert(grid.cell_at(a, b2) == (if b2 == t.1 && t.0 <= a < t.0
                                        + span {
                                        Cell {
                                            sym: CellSym::Glyph(title_chars@[a - t.0]),
                                            style: spec_patch(
                                                gf.cell_at(a, b2).style,
                                                self.y_axis.style,
                                            ),
                                        }
                                    } else {
                                        gf.cell_at(a, b2)
                                    }));
                                    let cnt = if title@.len() < w {
                                        title@.len() as int
                                    } else {
                                        w as int
                                    };
                                    if b2 == t.1 && t.0 <= a < t.0 + cnt {
                                        assert(a < grid.width);
                                        assert(a < t.0 + span);
                                    }
                                }
                            }
                        }
                    },
                    None => {},
                }
            },
            None => {},
        }
        proof {
            assert forall|a: int, b2: int| grid.in_bounds(a, b2) implies grid.cell_at(a, b2)
                == spec_render_cell(self, area, *old(grid), a, b2) by {
                assert(gb.in_bounds(a, b2));
                assert(gx.in_bounds(a, b2));
                assert(gy.in_bounds(a, b2));
                assert(gh.in_bounds(a, b2));
                assert(gv.in_bounds(a, b2));
                assert(gc.in_bounds(a, b2));
                assert(gd.in_bounds(a, b2));
                assert(gl.in_bounds(a, b2));
                assert(gt.in_bounds(a, b2));
                assert(gb.cell_at(a, b2) == spec_background_cell(
                    self,
                    area,
                    old(grid).cell_at(a, b2),
                    a,
                    b2,
                ));
                assert(gx.cell_at(a, b2) == spec_x_labels_cell(
                    self,
                    layout,
                    chart_area,
                    graph_area,
                    gb.cell_at(a, b2),
                    a,
                    b2,
                ));
                assert(gy.cell_at(a, b2) == spec_y_labels_cell(
                    self,
                    layout,
                    chart_area,
                    graph_area,
                    gx.cell_at(a, b2),
                    a,
                    b2,
                ));
                assert(gh.cell_at(a, b2) == (match layout.axis_x {
                    Some(y) => if b2 == y && graph_area.x <= a < graph_area.x + graph_area.width {
                        Cell {
                            sym: CellSym::HLine,
                            style: spec_patch(gy.cell_at(a, b2).style, self.x_axis.style),
                        }
                    } else {
                        gy.cell_at(a, b2)
                    },
                    None => gy.cell_at(a, b2),
                }));
                assert(gv.cell_at(a, b2) == (match layout.axis_y {
                    Some(x) => if a == x && graph_area.y <= b2 < graph_area.y + graph_area.height {
                        Cell {
                            sym: CellSym::VLine,
                            style: spec_patch(gh.cell_at(a, b2).style, self.y_axis.style),
                        }
                    } else {
                        gh.cell_at(a, b2)
                    },
                    None => gh.cell_at(a, b2),
                }));
                assert(gc.cell_at(a, b2) == (match (layout.axis_x, layout.axis_y) {
                    (Some(y), Some(x)) => if a == x && b2 == y {
                        Cell {
                            sym: CellSym::Corner,
                            style: spec_patch(gv.cell_at(a, b2).style, self.x_axis.style),
                        }
                    } else {
                        gv.cell_at(a, b2)
                    },
                    _ => gv.cell_at(a, b2),
                }));
                assert(gd.cell_at(a, b2) == spec_datasets_cell(
                    self.datasets@,
                    self.datasets@.len() as int,
                    self.x_axis.bounds,
                    self.y_axis.bounds,
                    graph_area,
                    gc.cell_at(a, b2),
                    a,
                    b2,
                ));
                assert(gl.cell_at(a, b2) == (match layout.legend_area {
                    Some(la) => spec_legend_cell(
                        self.datasets@,
                        la,
                        original_style,
                        gd.cell_at(a, b2),
                        a,
                        b2,
                    ),
                    None => gd.cell_at(a, b2),
                }));
                assert(gt.cell_at(a, b2) == (match (layout.title_x, self.x_axis.title) {
                    (Some(t), Some(title)) => if t.0 <= graph_area.x + graph_area.width && t.1
                        < old(grid).height {
                        spec_title_cell(
                            title@,
                            t.0 as int,
                            t.1 as int,
                            graph_area.x + graph_area.width - t.0,
                            original_style,
                            self.x_axis.style,
                            gl.cell_at(a, b2),
                            a,
                            b2,
                        )
                    } else {
                        gl.cell_at(a, b2)
                    },
                    _ => gl.cell_at(a, b2),
                }));
                assert(grid.cell_at(a, b2) == (match (layout.title_y, self.y_axis.title) {
                    (Some(t), Some(title)) => if t.0 <= graph_area.x + graph_area.width && t.1
                        < old(grid).height {
                        spec_title_cell(
                            title@,
                            t.0 as int,
                            t.1 as int,
                            graph_area.x + graph_area.width - t.0,
                            original_style,
                            self.y_axis.style,
                            gt.cell_at(a, b2),
                            a,
                            b2,
                        )
                    } else {
                        gt.cell_at(a, b2)
                    },
                    _ => gt.cell_at(a, b2),
                }));
            }
        }
    }
}

} // verus!
