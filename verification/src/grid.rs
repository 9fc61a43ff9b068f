//! The character-cell output buffer.
//!
//! A frame is a grid of cells, each holding a symbol and a style. Render
//! stages mutate the grid through a small set of primitives whose contracts
//! describe every cell of the result: a cell is either the written value or
//! exactly what it was before, so stages compose pointwise.
//!
//! Text is modeled one character per cell: a wide glyph still occupies a
//! single cell of this grid, while layout reserves columns by displayed
//! width. The terminal adapter that turns cells into screen output is the
//! place where multi-column glyphs spread over their neighbours.

use vstd::prelude::*;
use crate::geometry::Rect;
use crate::style::Style;

verus! {

/// What a cell displays. Braille carries the raised-dot bit pattern of the
/// eight sub-cell positions; composing it into a glyph is the terminal
/// adapter's concern.
#[derive(Clone, Copy, Debug, PartialEq, Eq, Structural)]
#[verifier::ext_equal]
pub enum CellSym {
    Blank,
    Glyph(char),
    HLine,
    VLine,
    Corner,
    BorderH,
    BorderV,
    BorderTL,
    BorderTR,
    BorderBL,
    BorderBR,
    Dot,
    Braille(u8),
}

/// One character cell of the frame.
#[derive(Clone, Copy, Debug, PartialEq, Eq, Structural)]
#[verifier::ext_equal]
pub struct Cell {
    pub sym: CellSym,
    pub style: Style,
}

impl Cell {
    pub open spec fn spec_blank() -> Cell {
        Cell { sym: CellSym::Blank, style: Style { fg: None, bg: None } }
    }
}

/// Overlay a style onto an existing one: set fields override, unset fields
/// keep what was there.
pub open spec fn spec_patch(base: Style, over: Style) -> Style {
    Style {
        fg: if over.fg is Some {
            over.fg
        } else {
            base.fg
        },
        bg: if over.bg is Some {
            over.bg
        } else {
            base.bg
        },
    }
}

/// Overlay `over` onto `base`.
pub fn patch_style(base: Style, over: Style) -> (r: Style)
    ensures
        r == spec_patch(base, over),
{
    Style {
        fg: match over.fg {
            Some(c) => Some(c),
            None => base.fg,
        },
        bg: match over.bg {
            Some(c) => Some(c),
            None => base.bg,
        },
    }
}

/// Row-major index of cell `(x, y)` in a grid `w` cells wide.
pub open spec fn spec_idx(w: int, x: int, y: int) -> int {
    y * w + x
}

proof fn lemma_idx_inj(w: int, x1: int, y1: int, x2: int, y2: int)
    requires
        0 <= x1 < w,
        0 <= x2 < w,
        0 <= y1,
        0 <= y2,
    ensures
        (spec_idx(w, x1, y1) == spec_idx(w, x2, y2)) <==> (x1 == x2 && y1 == y2),
{
    assert((y1 * w + x1 == y2 * w + x2) <==> (x1 == x2 && y1 == y2)) by (nonlinear_arith)
        requires
            0 <= x1 < w,
            0 <= x2 < w,
            0 <= y1,
            0 <= y2,
    ;
}

proof fn lemma_idx_bound(w: int, h: int, x: int, y: int)
    requires
        0 <= x < w,
        0 <= y < h,
    ensures
        0 <= spec_idx(w, x, y) < w * h,
{
    assert(0 <= y * w + x < w * h) by (nonlinear_arith)
        requires
            0 <= x < w,
            0 <= y < h,
    ;
}

proof fn lemma_cell_eq(c1: Cell, c2: Cell)
    requires
        c1.sym == c2.sym,
        c1.style == c2.style,
    ensures
        c1 == c2,
{
}

/// A frame buffer of `width * height` cells in row-major order.
#[derive(Clone, Debug)]
pub struct Grid {
    pub width: u16,
    pub height: u16,
    pub cells: Vec<Cell>,
}

impl Grid {
    pub open spec fn wf(self) -> bool {
        self.cells@.len() == self.width * self.height
    }

    pub open spec fn in_bounds(self, x: int, y: int) -> bool {
        0 <= x < self.width && 0 <= y < self.height
    }

    pub open spec fn cell_at(self, x: int, y: int) -> Cell {
        self.cells@[spec_idx(self.width as int, x, y)]
    }

    /// Dimensions and cell count are preserved by a mutation.
    pub open spec fn same_frame(self, other: Grid) -> bool {
        self.width == other.width && self.height == other.height && self.cells@.len()
            == other.cells@.len()
    }

    /// A fresh grid of blank, unstyled cells.
    pub fn new(width: u16, height: u16) -> (r: Grid)
        ensures
            r.wf(),
            r.width == width,
            r.height == height,
            forall|x: int, y: int| r.in_bounds(x, y) ==> r.cell_at(x, y) == Cell::spec_blank(),
    {
        proof {
            assert((width as int) * (height as int) <= 0xFFFF * 0xFFFF) by (nonlinear_arith)
                requires
                    width <= 0xFFFF,
                    height <= 0xFFFF,
            ;
        }
        let n: usize = (width as usize) * (height as usize);
        let mut cells: Vec<Cell> = Vec::new();
        let mut i: usize = 0;
        while i < n
            invariant
                i <= n,
                cells@.len() == i,
                forall|j: int| 0 <= j < i ==> cells@[j] == Cell::spec_blank(),
            decreases n - i,
        {
            cells.push(Cell { sym: CellSym::Blank, style: Style { fg: None, bg: None } });
            i = i + 1;
        }
        let r = Grid { width, height, cells };
        proof {
            assert forall|x: int, y: int| r.in_bounds(x, y) implies r.cell_at(x, y)
                == Cell::spec_blank() by {
                lemma_idx_bound(width as int, height as int, x, y);
            }
        }
        r
    }

    /// Read one cell.
    pub fn get(&self, x: u16, y: u16) -> (r: Cell)
        requires
            self.wf(),
            self.in_bounds(x as int, y as int),
        ensures
            r == self.cell_at(x as int, y as int),
    {
        proof {
            lemma_idx_bound(self.width as int, self.height as int, x as int, y as int);
            assert((y as usize) * (self.width as usize) + (x as usize) == spec_idx(
                self.width as int,
                x as int,
                y as int,
            ));
        }
        proof {
            assert((y as int) * (self.width as int) + (x as int) <= 0xFFFF_FFFEu64)
                by (nonlinear_arith)
                requires
                    y <= 0xFFFF,
                    x <= 0xFFFF,
                    self.width <= 0xFFFF,
            ;
        }
        self.cells[(y as usize) * (self.width as usize) + (x as usize)]
    }

    /// Write one cell; every other cell keeps its value.
    pub fn put(&mut self, x: u16, y: u16, cell: Cell)
        requires
            old(self).wf(),
            old(self).in_bounds(x as int, y as int),
        ensures
            final(self).wf(),
            old(self).same_frame(*final(self)),
            forall|xx: int, yy: int|
                final(self).in_bounds(xx, yy) ==> final(self).cell_at(xx, yy) == (if xx == x
                    && yy == y {
                    cell
                } else {
                    old(self).cell_at(xx, yy)
                }),
    {
        proof {
            lemma_idx_bound(self.width as int, self.height as int, x as int, y as int);
        }
        proof {
            assert((y as int) * (self.width as int) + (x as int) <= 0xFFFF_FFFEu64)
                by (nonlinear_arith)
                requires
                    y <= 0xFFFF,
                    x <= 0xFFFF,
                    self.width <= 0xFFFF,
            ;
        }
        let i: usize = (y as usize) * (self.width as usize) + (x as usize);
        self.cells.set(i, cell);
        proof {
            assert forall|xx: int, yy: int| self.in_bounds(xx, yy) implies self.cell_at(xx, yy)
                == (if xx == x as int && yy == y as int {
                cell
            } else {
                old(self).cell_at(xx, yy)
            }) by {
                lemma_idx_bound(self.width as int, self.height as int, xx, yy);
                lemma_idx_inj(self.width as int, xx, yy, x as int, y as int);
            }
        }
    }
    /// Overlay `style` on every cell inside `area`, clipped to the grid;
    /// symbols are untouched and cells outside `area` keep their value.
    pub fn fill_region(&mut self, area: Rect, style: Style)
        requires
            old(self).wf(),
            area.wf(),
        ensures
            final(self).wf(),
            old(self).same_frame(*final(self)),
            forall|xx: int, yy: int|
                final(self).in_bounds(xx, yy) ==> final(self).cell_at(xx, yy) == (
                if area.spec_contains(xx, yy) {
                    Cell {
                        sym: old(self).cell_at(xx, yy).sym,
                        style: spec_patch(old(self).cell_at(xx, yy).style, style),
                    }
                } else {
                    old(self).cell_at(xx, yy)
                }),
    {
        let y_end: u16 = if area.y + area.height < self.height {
            area.y + area.height
        } else {
            self.height
        };
        let x_end: u16 = if area.x + area.width < self.width {
            area.x + area.width
        } else {
            self.width
        };
        let mut yy: u16 = area.y;
        while yy < y_end
            invariant
                self.wf(),
                old(self).same_frame(*self),
                area.y <= yy,
                y_end <= self.height,
                x_end <= self.width,
                y_end == (if area.y + area.height < self.height {
                    area.y + area.height
                } else {
                    self.height as int
                }),
                x_end == (if area.x + area.width < self.width {
                    area.x + area.width
                } else {
                    self.width as int
                }),
                forall|a: int, b: int|
                    self.in_bounds(a, b) ==> self.cell_at(a, b) == (if area.spec_contains(a, b)
                        && b < yy {
                        Cell {
                            sym: old(self).cell_at(a, b).sym,
                            style: spec_patch(old(self).cell_at(a, b).style, style),
                        }
                    } else {
                        old(self).cell_at(a, b)
                    }),
            decreases y_end - yy,
        {
            let mut xx: u16 = area.x;
            while xx < x_end
                invariant
                    self.wf(),
                    old(self).same_frame(*self),
                    area.y <= yy < y_end,
                    area.x <= xx,
                    y_end <= self.height,
                    x_end <= self.width,
                    y_end == (if area.y + area.height < self.height {
                        area.y + area.height
                    } else {
                        self.height as int
                    }),
                    x_end == (if area.x + area.width < self.width {
                        area.x + area.width
                    } else {
                        self.width as int
                    }),
                    forall|a: int, b: int|
                        self.in_bounds(a, b) ==> self.cell_at(a, b) == (
                        if area.spec_contains(a, b) && (b < yy || (b == yy && a < xx)) {
                            Cell {
                                sym: old(self).cell_at(a, b).sym,
                                style: spec_patch(old(self).cell_at(a, b).style, style),
                            }
                        } else {
                            old(self).cell_at(a, b)
                        }),
                decreases x_end - xx,
            {
                let c = self.get(xx, yy);
                let patched = Cell { sym: c.sym, style: patch_style(c.style, style) };
                let ghost pre = *self;
                self.put(xx, yy, patched);
                proof {
                    assert forall|a: int, b: int| self.in_bounds(a, b) implies self.cell_at(a, b)
                        =~= (if area.spec_contains(a, b) && (b < yy || (b == yy && a < xx + 1)) {
                        Cell {
                            sym: old(self).cell_at(a, b).sym,
                            style: spec_patch(old(self).cell_at(a, b).style, style),
                        }
                    } else {
                        old(self).cell_at(a, b)
                    }) by {
                        assert(pre.in_bounds(a, b));
                        assert(self.cell_at(a, b) == (if a == xx as int && b == yy as int {
                            patched
                        } else {
                            pre.cell_at(a, b)
                        }));
                    }
                }
                xx = xx + 1;
            }
            yy = yy + 1;
        }
    }

    /// The symbol a box border places at `(x, y)` of `area`'s edge.
    pub open spec fn spec_border_sym(area: Rect, x: int, y: int) -> CellSym {
        if x == area.x && y == area.y {
            CellSym::BorderTL
        } else if x == area.x + area.width - 1 && y == area.y {
            CellSym::BorderTR
        } else if x == area.x && y == area.y + area.height - 1 {
            CellSym::BorderBL
        } else if x == area.x + area.width - 1 && y == area.y + area.height - 1 {
            CellSym::BorderBR
        } else if y == area.y || y == area.y + area.height - 1 {
            CellSym::BorderH
        } else {
            CellSym::BorderV
        }
    }

    /// Whether `(x, y)` lies on the border ring of `area`.
    pub open spec fn spec_on_border(area: Rect, x: int, y: int) -> bool {
        area.spec_contains(x, y) && (x == area.x || x == area.x + area.width - 1 || y == area.y
            || y == area.y + area.height - 1)
    }

    /// What the border pass leaves at `(x, y)`: the edge symbol with
    /// `style` overlaid on border cells, the old cell everywhere else.
    pub open spec fn spec_box_cell(area: Rect, oldc: Cell, style: Style, x: int, y: int) -> Cell {
        if Grid::spec_on_border(area, x, y) {
            Cell { sym: Grid::spec_border_sym(area, x, y), style: spec_patch(oldc.style, style) }
        } else {
            oldc
        }
    }

    /// Draw the border ring of `area`, clipped to the grid: border cells get
    /// the edge symbol with `style` overlaid; all other cells are untouched.
    pub fn draw_box(&mut self, area: Rect, style: Style)
        requires
            old(self).wf(),
            area.wf(),
        ensures
            final(self).wf(),
            old(self).same_frame(*final(self)),
            forall|xx: int, yy: int|
                final(self).in_bounds(xx, yy) ==> final(self).cell_at(xx, yy)
                    == Grid::spec_box_cell(area, old(self).cell_at(xx, yy), style, xx, yy),
    {
        if area.width == 0 || area.height == 0 {
            return;
        }
        let x_last: u16 = area.x + (area.width - 1);
        let y_last: u16 = area.y + (area.height - 1);
        let y_end: u16 = if area.y + area.height < self.height {
            area.y + area.height
        } else {
            self.height
        };
        let x_end: u16 = if area.x + area.width < self.width {
            area.x + area.width
        } else {
            self.width
        };
        let mut yy: u16 = area.y;
        while yy < y_end
            invariant
                self.wf(),
                old(self).same_frame(*self),
                area.width > 0,
                area.height > 0,
                x_last == area.x + area.width - 1,
                y_last == area.y + area.height - 1,
                area.y <= yy,
                y_end <= self.height,
                x_end <= self.width,
                y_end == (if area.y + area.height < self.height {
                    area.y + area.height
                } else {
                    self.height as int
                }),
                x_end == (if area.x + area.width < self.width {
                    area.x + area.width
                } else {
                    self.width as int
                }),
                forall|a: int, b: int|
                    self.in_bounds(a, b) ==> self.cell_at(a, b) == (if b < yy {
                        Grid::spec_box_cell(area, old(self).cell_at(a, b), style, a, b)
                    } else {
                        old(self).cell_at(a, b)
                    }),
            decreases y_end - yy,
        {
            let mut xx: u16 = area.x;
            while xx < x_end
                invariant
                    self.wf(),
                    old(self).same_frame(*self),
                    area.width > 0,
                    area.height > 0,
                    x_last == area.x + area.width - 1,
                    y_last == area.y + area.height - 1,
                    area.y <= yy < y_end,
                    area.x <= xx,
                    y_end <= self.height,
                    x_end <= self.width,
                    y_end == (if area.y + area.height < self.height {
                        area.y + area.height
                    } else {
                        self.height as int
                    }),
                    x_end == (if area.x + area.width < self.width {
                        area.x + area.width
                    } else {
                        self.width as int
                    }),
                    forall|a: int, b: int|
                        self.in_bounds(a, b) ==> self.cell_at(a, b) == (if b < yy || (b == yy && a
                            < xx) {
                            Grid::spec_box_cell(area, old(self).cell_at(a, b), style, a, b)
                        } else {
                            old(self).cell_at(a, b)
                        }),
                decreases x_end - xx,
            {
                if xx == area.x || xx == x_last || yy == area.y || yy == y_last {
                    let c = self.get(xx, yy);
                    let sym = if xx == area.x && yy == area.y {
                        CellSym::BorderTL
                    } else if xx == x_last && yy == area.y {
                        CellSym::BorderTR
                    } else if xx == area.x && yy == y_last {
                        CellSym::BorderBL
                    } else if xx == x_last && yy == y_last {
                        CellSym::BorderBR
                    } else if yy == area.y || yy == y_last {
                        CellSym::BorderH
                    } else {
                        CellSym::BorderV
                    };
                    let bcell = Cell { sym, style: patch_style(c.style, style) };
                    let ghost pre = *self;
                    proof {
                        assert(Grid::spec_on_border(area, xx as int, yy as int));
                        assert(bcell == Grid::spec_box_cell(
                            area,
                            old(self).cell_at(xx as int, yy as int),
                            style,
                            xx as int,
                            yy as int,
                        ));
                    }
                    self.put(xx, yy, bcell);
                    proof {
                        assert forall|a: int, b: int| self.in_bounds(a, b) implies self.cell_at(
                            a,
                            b,
                        ) == (if b < yy || (b == yy && a < xx + 1) {
                            Grid::spec_box_cell(area, old(self).cell_at(a, b), style, a, b)
                        } else {
                            old(self).cell_at(a, b)
                        }) by {
                            assert(pre.in_bounds(a, b));
                            assert(self.cell_at(a, b) == (if a == xx as int && b == yy as int {
                                bcell
                            } else {
                                pre.cell_at(a, b)
                            }));
                        }
                    }
                } else {
                    proof {
                        assert(!Grid::spec_on_border(area, xx as int, yy as int));
                        assert(Grid::spec_box_cell(
                            area,
                            old(self).cell_at(xx as int, yy as int),
                            style,
                            xx as int,
                            yy as int,
                        ) == old(self).cell_at(xx as int, yy as int));
                    }
                }
                xx = xx + 1;
            }
            yy = yy + 1;
        }
        proof {
            assert forall|a: int, b: int| self.in_bounds(a, b) implies self.cell_at(a, b)
                == Grid::spec_box_cell(area, old(self).cell_at(a, b), style, a, b) by {
                if !(b < yy) {
                    assert(!area.spec_contains(a, b));
                    assert(!Grid::spec_on_border(area, a, b));
                }
            }
        }
    }

    /// How many of `chars` fit when written at column `x` under `limit`:
    /// the least of the character count, the limit, and the room to the
    /// grid's right edge.
    pub open spec fn spec_char_span(grid_width: int, x: int, chars_len: int, limit: int) -> int {
        let room = if x < grid_width {
            grid_width - x
        } else {
            0
        };
        let a = if chars_len < limit {
            chars_len
        } else {
            limit
        };
        if a < room {
            a
        } else {
            room
        }
    }

    /// Write `chars` left to right starting at `(x, y)`, at most `limit`
    /// cells, clipped to the grid; each written cell shows one character
    /// with `style` overlaid. Everything else is untouched.
    pub fn set_chars(&mut self, x: u16, y: u16, chars: &Vec<char>, limit: u16, style: Style)
        requires
            old(self).wf(),
        ensures
            final(self).wf(),
            old(self).same_frame(*final(self)),
            forall|xx: int, yy: int|
                final(self).in_bounds(xx, yy) ==> final(self).cell_at(xx, yy) == (if yy == y && x
                    <= xx < x + Grid::spec_char_span(
                    final(self).width as int,
                    x as int,
                    chars@.len() as int,
                    limit as int,
                ) {
                    Cell {
                        sym: CellSym::Glyph(chars@[xx - x]),
                        style: spec_patch(old(self).cell_at(xx, yy).style, style),
                    }
                } else {
                    old(self).cell_at(xx, yy)
                }),
    {
        if y >= self.height || x >= self.width {
            proof {
                assert forall|xx: int, yy: int| self.in_bounds(xx, yy) implies !(yy == y && x
                    <= xx < x + Grid::spec_char_span(
                    self.width as int,
                    x as int,
                    chars@.len() as int,
                    limit as int,
                )) by {}
            }
            return;
        }
        let room: u16 = self.width - x;
        let lim: usize = if (limit as usize) < chars.len() {
            limit as usize
        } else {
            chars.len()
        };
        let count: usize = if (room as usize) < lim {
            room as usize
        } else {
            lim
        };
        let mut k: usize = 0;
        while k < count
            invariant
                self.wf(),
                old(self).same_frame(*self),
                y < self.height,
                x < self.width,
                k <= count,
                count == Grid::spec_char_span(
                    self.width as int,
                    x as int,
                    chars@.len() as int,
                    limit as int,
                ),
                count <= chars@.len(),
                x + count <= self.width,
                forall|a: int, b: int|
                    self.in_bounds(a, b) ==> self.cell_at(a, b) == (if b == y && x <= a < x + k {
                        Cell {
                            sym: CellSym::Glyph(chars@[a - x]),
                            style: spec_patch(old(self).cell_at(a, b).style, style),
                        }
                    } else {
                        old(self).cell_at(a, b)
                    }),
            decreases count - k,
        {
            let c = self.get(x + (k as u16), y);
            self.put(
                x + (k as u16),
                y,
                Cell { sym: CellSym::Glyph(chars[k]), style: patch_style(c.style, style) },
            );
            k = k + 1;
        }
    }
}

} // verus!
