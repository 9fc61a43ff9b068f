//! Chart data model and the chart layout resolver.
//!
//! `Chart::layout` partitions a bounding rectangle into label strips, tick
//! lines, the plot area, optional title slots and an optional legend box.
//! Every reservation is individually guarded: when a step has no room its
//! visual element is omitted and the rest of the layout still resolves, so
//! the resolver is total and never produces negative-sized rectangles.

use vstd::prelude::*;
use crate::block::Block;
use crate::geometry::{Constraint, Rect};
use crate::style::Style;
use crate::text::{display_width, display_width_of};

verus! {

/// How a dataset's points are drawn: isolated marks, or marks joined by
/// rasterized segments between consecutive points.
#[derive(Clone, Copy, Debug, PartialEq, Eq, Structural)]
pub enum GraphType {
    Scatter,
    Line,
}

/// Marker kind, a closed variant with fixed sub-cell resolution multipliers.
#[derive(Clone, Copy, Debug, PartialEq, Eq, Structural)]
pub enum Marker {
    Dot,
    Braille,
}

impl Marker {
    /// Sub-columns per character cell.
    pub open spec fn spec_x_mult(self) -> u16 {
        match self {
            Marker::Dot => 1,
            Marker::Braille => 2,
        }
    }

    /// Sub-rows per character cell.
    pub open spec fn spec_y_mult(self) -> u16 {
        match self {
            Marker::Dot => 1,
            Marker::Braille => 4,
        }
    }

    pub fn x_mult(self) -> (r: u16)
        ensures
            r == self.spec_x_mult(),
    {
        match self {
            Marker::Dot => 1,
            Marker::Braille => 2,
        }
    }

    pub fn y_mult(self) -> (r: u16)
        ensures
            r == self.spec_y_mult(),
    {
        match self {
            Marker::Dot => 1,
            Marker::Braille => 4,
        }
    }
}

/// One axis of a chart: optional labels, numeric bounds for the coordinate
/// mapping, an optional title, and the style of the tick line.
///
/// Bounds and data coordinates are fixed-point integers in a unit chosen by
/// the caller; only their ratios matter to the affine mapping.
#[derive(Debug)]
pub struct Axis {
    pub labels: Option<Vec<String>>,
    pub bounds: (i64, i64),
    pub title: Option<String>,
    pub style: Style,
}

impl Default for Axis {
    fn default() -> (r: Axis)
        ensures
            r.labels is None,
            r.bounds == (0i64, 0i64),
            r.title is None,
            r.style == (Style { fg: None, bg: None }),
    {
        Axis { labels: None, bounds: (0, 0), title: None, style: Style { fg: None, bg: None } }
    }
}

/// A named series of `(x, y)` points in draw order.
#[derive(Clone, Debug)]
pub struct Dataset {
    pub name: String,
    pub data: Vec<(i64, i64)>,
    pub graph_type: GraphType,
    pub marker: Marker,
    pub style: Style,
}

/// The resolved positions of every chart element, recomputed per render
/// call. Absent elements did not fit; `graph_area` may be zero-sized.
#[derive(Clone, Copy, Debug, PartialEq)]
pub struct ChartLayout {
    /// Row holding the x axis labels.
    pub label_x: Option<u16>,
    /// Leftmost column of the y axis labels.
    pub label_y: Option<u16>,
    /// Row of the x tick line.
    pub axis_x: Option<u16>,
    /// Column of the y tick line.
    pub axis_y: Option<u16>,
    /// Cell at which the x axis title starts.
    pub title_x: Option<(u16, u16)>,
    /// Cell at which the y axis title starts.
    pub title_y: Option<(u16, u16)>,
    /// Box in which the legend is drawn, absent when hidden.
    pub legend_area: Option<Rect>,
    /// The plot area.
    pub graph_area: Rect,
}

impl ChartLayout {
    /// The entirely absent layout: nothing fits, nothing is drawn.
    pub open spec fn spec_absent() -> ChartLayout {
        ChartLayout {
            label_x: None,
            label_y: None,
            axis_x: None,
            axis_y: None,
            title_x: None,
            title_y: None,
            legend_area: None,
            graph_area: Rect::spec_zero(),
        }
    }
}

impl Default for ChartLayout {
    fn default() -> (r: ChartLayout)
        ensures
            r == ChartLayout::spec_absent(),
    {
        ChartLayout {
            label_x: None,
            label_y: None,
            axis_x: None,
            axis_y: None,
            title_x: None,
            title_y: None,
            legend_area: None,
            graph_area: Rect { x: 0, y: 0, width: 0, height: 0 },
        }
    }
}

/// The widest displayed width among `labels`, in columns.
pub open spec fn max_label_width(labels: Seq<String>) -> nat
    decreases labels.len(),
{
    if labels.len() == 0 {
        0
    } else {
        let rest = max_label_width(labels.drop_last());
        let w = display_width_of(labels.last()@);
        if w > rest {
            w
        } else {
            rest
        }
    }
}

/// The widest displayed dataset name, in columns.
pub open spec fn max_name_width(datasets: Seq<Dataset>) -> nat
    decreases datasets.len(),
{
    if datasets.len() == 0 {
        0
    } else {
        let rest = max_name_width(datasets.drop_last());
        let w = display_width_of(datasets.last().name@);
        if w > rest {
            w
        } else {
            rest
        }
    }
}

/// Whether the legend box is shown: the widest name must be nonzero and the
/// bordered box must stay strictly inside the fraction of the graph area
/// that the two constraints allow.
pub open spec fn legend_visible(
    inner_width: nat,
    dataset_count: nat,
    width_constraint: Constraint,
    height_constraint: Constraint,
    graph_width: u16,
    graph_height: u16,
) -> bool {
    &&& inner_width > 0
    &&& inner_width + 2 < width_constraint.spec_apply(graph_width)
    &&& dataset_count + 2 < height_constraint.spec_apply(graph_height)
}

/// Growing the graph area while the names, the count and the constraints
/// stay fixed can only turn the legend from hidden to shown, never the
/// reverse.
pub proof fn lemma_legend_visibility_monotonic(
    inner_width: nat,
    dataset_count: nat,
    width_constraint: Constraint,
    height_constraint: Constraint,
    gw1: u16,
    gh1: u16,
    gw2: u16,
    gh2: u16,
)
    requires
        gw1 <= gw2,
        gh1 <= gh2,
        legend_visible(inner_width, dataset_count, width_constraint, height_constraint, gw1, gh1),
    ensures
        legend_visible(inner_width, dataset_count, width_constraint, height_constraint, gw2, gh2),
{
    crate::geometry::lemma_apply_monotonic(width_constraint, gw1, gw2);
    crate::geometry::lemma_apply_monotonic(height_constraint, gh1, gh2);
}

/// A chart widget: two axes, the datasets to plot, and the constraints that
/// decide whether the legend is shown.
#[derive(Debug)]
pub struct Chart {
    pub block: Option<Block>,
    pub x_axis: Axis,
    pub y_axis: Axis,
    pub datasets: Vec<Dataset>,
    pub style: Style,
    pub hidden_legend_constraints: (Constraint, Constraint),
}

impl Chart {
    pub fn new(datasets: Vec<Dataset>) -> (r: Chart)
        ensures
            r.block is None,
            r.x_axis.labels is None,
            r.x_axis.title is None,
            r.x_axis.bounds == (0i64, 0i64),
            r.x_axis.style == (Style { fg: None, bg: None }),
            r.y_axis.labels is None,
            r.y_axis.title is None,
            r.y_axis.bounds == (0i64, 0i64),
            r.y_axis.style == (Style { fg: None, bg: None }),
            r.datasets == datasets,
            r.style == (Style { fg: None, bg: None }),
            r.hidden_legend_constraints == (
                Constraint::Ratio(1, 4),
                Constraint::Ratio(1, 4),
            ),
    {
        Chart {
            block: None,
            x_axis: Axis::default(),
            y_axis: Axis::default(),
            datasets,
            style: Style { fg: None, bg: None },
            hidden_legend_constraints: (Constraint::Ratio(1, 4), Constraint::Ratio(1, 4)),
        }
    }

    pub fn block(self, block: Block) -> (r: Chart)
        ensures
            r == (Chart { block: Some(block), ..self }),
    {
        let mut c = self;
        c.block = Some(block);
        c
    }

    pub fn style(self, style: Style) -> (r: Chart)
        ensures
            r == (Chart { style, ..self }),
    {
        let mut c = self;
        c.style = style;
        c
    }

    pub fn x_axis(self, axis: Axis) -> (r: Chart)
        ensures
            r == (Chart { x_axis: axis, ..self }),
    {
        let mut c = self;
        c.x_axis = axis;
        c
    }

    pub fn y_axis(self, axis: Axis) -> (r: Chart)
        ensures
            r == (Chart { y_axis: axis, ..self }),
    {
        let mut c = self;
        c.y_axis = axis;
        c
    }

    /// Set the constraints past which the legend is hidden.
    pub fn hidden_legend_constraints(self, constraints: (Constraint, Constraint)) -> (r: Chart)
        ensures
            r == (Chart { hidden_legend_constraints: constraints, ..self }),
    {
        let mut c = self;
        c.hidden_legend_constraints = constraints;
        c
    }

    /// Columns reserved left of the y tick line: the widest y label (or, if
    /// wider, the first x label, which hangs left of the y axis), capped at
    /// a third of the total width so labels cannot swallow a narrow chart.
    pub open spec fn spec_y_label_reserve(self, area: Rect) -> u16 {
        let base: nat = match self.y_axis.labels {
            Some(ls) => max_label_width(ls@),
            None => 0,
        };
        let with_first_x: nat = match self.x_axis.labels {
            Some(xs) => if xs@.len() > 0 {
                let fw = display_width_of(xs@[0]@);
                if fw > base {
                    fw
                } else {
                    base
                }
            } else {
                base
            },
            None => base,
        };
        let cap: int = area.width as int / 3;
        if with_first_x > cap {
            cap as u16
        } else {
            with_first_x as u16
        }
    }

    pub fn max_width_of_labels_left_of_y_axis(&self, area: Rect) -> (r: u16)
        ensures
            r == self.spec_y_label_reserve(area),
            r <= area.width as int / 3,
    {
        let mut max_width: usize = 0;
        match &self.y_axis.labels {
            Some(labels) => {
                let mut i: usize = 0;
                while i < labels.len()
                    invariant
                        i <= labels@.len(),
                        max_width == max_label_width(labels@.take(i as int)),
                    decreases labels@.len() - i,
                {
                    let w = display_width(labels[i].as_str());
                    proof {
                        assert(labels@.take(i + 1).drop_last() =~= labels@.take(i as int));
                        assert(labels@.take(i + 1).last() == labels@[i as int]);
                    }
                    if w > max_width {
                        max_width = w;
                    }
                    i = i + 1;
                }
                proof {
                    assert(labels@.take(labels@.len() as int) =~= labels@);
                }
            },
            None => {},
        }
        match &self.x_axis.labels {
            Some(x_labels) => {
                if x_labels.len() > 0 {
                    let w0 = display_width(x_labels[0].as_str());
                    if w0 > max_width {
                        max_width = w0;
                    }
                }
            },
            None => {},
        }
        let cap: u16 = area.width / 3;
        if max_width > cap as usize {
            cap
        } else {
            max_width as u16
        }
    }

    /// The resolved layout, as a function of the chart and the area. The
    /// reservations happen in order, each consuming space from the next:
    /// bottom row for x labels, left columns for y labels, one row for the x
    /// tick line, one column for the y tick line; what remains is the graph
    /// area, into which titles and the legend are then fitted. The legend
    /// box is clamped inside the graph area, so no resolved rectangle
    /// sticks out of the bounding area whatever the constraints are.
    pub open spec fn spec_layout(self, area: Rect) -> ChartLayout {
        if area.width == 0 || area.height == 0 {
            ChartLayout::spec_absent()
        } else {
            let top = area.y as int;
            let right = area.x + area.width;
            let has_x = self.x_axis.labels is Some;
            let has_y = self.y_axis.labels is Some;
            let y0 = area.y + area.height - 1;
            let label_x: Option<u16> = if has_x && y0 > top {
                Some(y0 as u16)
            } else {
                None
            };
            let y1 = if has_x && y0 > top { y0 - 1 } else { y0 };
            let label_y: Option<u16> = if has_y {
                Some(area.x)
            } else {
                None
            };
            let x1 = area.x + self.spec_y_label_reserve(area);
            let axis_x: Option<u16> = if has_x && y1 > top {
                Some(y1 as u16)
            } else {
                None
            };
            let y2 = if has_x && y1 > top { y1 - 1 } else { y1 };
            let axis_y: Option<u16> = if has_y && x1 + 1 < right {
                Some(x1 as u16)
            } else {
                None
            };
            let x2 = if has_y && x1 + 1 < right { x1 + 1 } else { x1 };
            let graph_area = if x2 < right && y2 > 1 {
                Rect {
                    x: x2 as u16,
                    y: area.y,
                    width: (right - x2) as u16,
                    height: (y2 - top + 1) as u16,
                }
            } else {
                Rect::spec_zero()
            };
            let title_x: Option<(u16, u16)> = match self.x_axis.title {
                Some(t) => {
                    let w = display_width_of(t@);
                    if w < graph_area.width && graph_area.height > 2 {
                        Some(((x2 + graph_area.width - w) as u16, y2 as u16))
                    } else {
                        None
                    }
                },
                None => None,
            };
            let title_y: Option<(u16, u16)> = match self.y_axis.title {
                Some(t) => {
                    let w = display_width_of(t@);
                    if w + 1 < graph_area.width && graph_area.height > 2 {
                        Some((x2 as u16, area.y))
                    } else {
                        None
                    }
                },
                None => None,
            };
            let inner_width = max_name_width(self.datasets@);
            let legend_area: Option<Rect> = if self.datasets@.len() > 0 && legend_visible(
                inner_width,
                self.datasets@.len(),
                self.hidden_legend_constraints.0,
                self.hidden_legend_constraints.1,
                graph_area.width,
                graph_area.height,
            ) {
                let lw = if inner_width + 2 < graph_area.width {
                    (inner_width + 2) as int
                } else {
                    graph_area.width as int
                };
                let lh = if self.datasets@.len() + 2 < graph_area.height {
                    (self.datasets@.len() + 2) as int
                } else {
                    graph_area.height as int
                };
                let lx = graph_area.x + graph_area.width - lw;
                Some(Rect { x: lx as u16, y: graph_area.y, width: lw as u16, height: lh as u16 })
            } else {
                None
            };
            ChartLayout {
                label_x,
                label_y,
                axis_x,
                axis_y,
                title_x,
                title_y,
                legend_area,
                graph_area,
            }
        }
    }

    /// Compute the internal layout of the chart given the area. If the area
    /// is too small some elements are automatically hidden.
    pub fn layout(&self, area: Rect) -> (r: ChartLayout)
        requires
            area.wf(),
        ensures
            r == self.spec_layout(area),
    {
        let mut layout = ChartLayout::default();
        if area.height == 0 || area.width == 0 {
            return layout;
        }
        let right: u16 = area.x + area.width;
        let mut x: u16 = area.x;
        let mut y: u16 = area.y + area.height - 1;

        if self.x_axis.labels.is_some() && y > area.y {
            layout.label_x = Some(y);
            y = y - 1;
        }

        if self.y_axis.labels.is_some() {
            layout.label_y = Some(x);
        }
        x = x + self.max_width_of_labels_left_of_y_axis(area);

        if self.x_axis.labels.is_some() && y > area.y {
            layout.axis_x = Some(y);
            y = y - 1;
        }

        if self.y_axis.labels.is_some() && x + 1 < right {
            layout.axis_y = Some(x);
            x = x + 1;
        }

        if x < right && y > 1 {
            layout.graph_area = Rect {
                x,
                y: area.y,
                width: right - x,
                height: y - area.y + 1,
            };
        }

        match &self.x_axis.title {
            Some(title) => {
                let w = display_width(title.as_str());
                if w < layout.graph_area.width as usize && layout.graph_area.height > 2 {
                    layout.title_x = Some((x + layout.graph_area.width - w as u16, y));
                }
            },
            None => {},
        }

        match &self.y_axis.title {
            Some(title) => {
                let w = display_width(title.as_str());
                if layout.graph_area.width > 0 && w < (layout.graph_area.width - 1) as usize
                    && layout.graph_area.height > 2 {
                    layout.title_y = Some((x, area.y));
                }
            },
            None => {},
        }

        if self.datasets.len() > 0 {
            let mut inner_width: usize = 0;
            let mut i: usize = 0;
            while i < self.datasets.len()
                invariant
                    i <= self.datasets@.len(),
                    inner_width == max_name_width(self.datasets@.take(i as int)),
                decreases self.datasets@.len() - i,
            {
                let w = display_width(self.datasets[i].name.as_str());
                proof {
                    assert(self.datasets@.take(i + 1).drop_last() =~= self.datasets@.take(
                        i as int,
                    ));
                    assert(self.datasets@.take(i + 1).last() == self.datasets@[i as int]);
                }
                if w > inner_width {
                    inner_width = w;
                }
                i = i + 1;
            }
            proof {
                assert(self.datasets@.take(self.datasets@.len() as int) =~= self.datasets@);
            }
            let max_legend_width = self.hidden_legend_constraints.0.apply(
                layout.graph_area.width,
            );
            let max_legend_height = self.hidden_legend_constraints.1.apply(
                layout.graph_area.height,
            );
            let width_fits = max_legend_width > 2 && (inner_width as u64) < (
            max_legend_width as u64) - 2;
            let height_fits = max_legend_height > 2 && (self.datasets.len() as u64) < (
            max_legend_height as u64) - 2;
            if inner_width > 0 && width_fits && height_fits {
                let lw_raw: u16 = inner_width as u16 + 2;
                let legend_width: u16 = if lw_raw < layout.graph_area.width {
                    lw_raw
                } else {
                    layout.graph_area.width
                };
                let lh_raw: u16 = self.datasets.len() as u16 + 2;
                let legend_height: u16 = if lh_raw < layout.graph_area.height {
                    lh_raw
                } else {
                    layout.graph_area.height
                };
                let ga_right: u16 = layout.graph_area.x + layout.graph_area.width;
                let legend_x: u16 = ga_right - legend_width;
                layout.legend_area = Some(Rect {
                    x: legend_x,
                    y: layout.graph_area.y,
                    width: legend_width,
                    height: legend_height,
                });
            }
        }
        layout
    }
}

/// An empty bounding rectangle resolves to the entirely absent layout: no
/// graph area, no labels, no ticks, no titles, no legend.
pub proof fn lemma_empty_area_layout(chart: Chart, area: Rect)
    requires
        area.width == 0 || area.height == 0,
    ensures
        chart.spec_layout(area) == ChartLayout::spec_absent(),
{
}

} // verus!
