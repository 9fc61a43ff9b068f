//! A character-grid charting engine for terminal dashboards.
//!
//! The crate turns numeric series and tabular rows into cell-level drawing
//! decisions inside an arbitrarily sized terminal region: it partitions a
//! bounding rectangle into label strips, tick lines, a plot area and an
//! optional legend box, maps data points onto a sub-cell raster, and provides
//! the column-width and scroll-window allocators shared by tabular widgets.
//! Degenerate space never fails: elements that do not fit are omitted.

pub mod style;
pub mod geometry;
pub mod text;
pub mod block;
pub mod chart;
pub mod scroll;
pub mod columns;
pub mod grid;
pub mod render;
pub mod simple;
