//! Colors and per-cell style attributes.
//!
//! The engine treats style as an opaque attribute bag attached to every cell
//! it writes; nothing in the layout or raster logic depends on what a color
//! means to the terminal.

use vstd::prelude::*;

verus! {

/// A terminal color, either the terminal's default or an explicit value.
#[derive(Clone, Copy, Debug, PartialEq, Eq, Structural)]
pub enum Color {
    Reset,
    Indexed(u8),
    Rgb(u8, u8, u8),
}

/// Foreground/background pair applied to a cell or a run of cells.
#[derive(Clone, Copy, Debug, PartialEq, Eq, Structural)]
pub struct Style {
    pub fg: Option<Color>,
    pub bg: Option<Color>,
}

impl Default for Style {
    fn default() -> (r: Style)
        ensures
            r == (Style { fg: None, bg: None }),
    {
        Style { fg: None, bg: None }
    }
}

} // verus!
