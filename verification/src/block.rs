//! A bordered box around a widget, and the inner area it leaves free.

use vstd::prelude::*;
use crate::geometry::Rect;
use crate::style::Style;

verus! {

/// Which sides of a block carry a border line.
#[derive(Clone, Copy, Debug, PartialEq, Eq, Structural)]
pub struct Borders {
    pub left: bool,
    pub right: bool,
    pub top: bool,
    pub bottom: bool,
}

impl Borders {
    pub fn all() -> (r: Borders)
        ensures
            r == (Borders { left: true, right: true, top: true, bottom: true }),
    {
        Borders { left: true, right: true, top: true, bottom: true }
    }

    pub fn none() -> (r: Borders)
        ensures
            r == (Borders { left: false, right: false, top: false, bottom: false }),
    {
        Borders { left: false, right: false, top: false, bottom: false }
    }
}

/// A box drawn around a widget: border sides and the style of the lines.
#[derive(Clone, Copy, Debug, PartialEq, Eq, Structural)]
pub struct Block {
    pub borders: Borders,
    pub style: Style,
}

impl Block {
    /// The area left inside the borders: one row or column is consumed per
    /// bordered side, saturating at emptiness when there is no room.
    pub open spec fn spec_inner(self, area: Rect) -> Rect {
        let x1 = if self.borders.left && area.width > 0 { area.x + 1 } else { area.x as int };
        let w1 = if self.borders.left && area.width > 0 { area.width - 1 } else {
            area.width as int
        };
        let y1 = if self.borders.top && area.height > 0 { area.y + 1 } else { area.y as int };
        let h1 = if self.borders.top && area.height > 0 { area.height - 1 } else {
            area.height as int
        };
        let w2 = if self.borders.right && w1 > 0 { w1 - 1 } else { w1 };
        let h2 = if self.borders.bottom && h1 > 0 { h1 - 1 } else { h1 };
        Rect { x: x1 as u16, y: y1 as u16, width: w2 as u16, height: h2 as u16 }
    }

    pub fn inner(&self, area: Rect) -> (r: Rect)
        requires
            area.wf(),
        ensures
            r == self.spec_inner(area),
            r.wf(),
    {
        let mut x: u16 = area.x;
        let mut y: u16 = area.y;
        let mut width: u16 = area.width;
        let mut height: u16 = area.height;
        if self.borders.left && width > 0 {
            x = x + 1;
            width = width - 1;
        }
        if self.borders.top && height > 0 {
            y = y + 1;
            height = height - 1;
        }
        if self.borders.right && width > 0 {
            width = width - 1;
        }
        if self.borders.bottom && height > 0 {
            height = height - 1;
        }
        Rect { x, y, width, height }
    }
}

impl Default for Block {
    fn default() -> (r: Block)
        ensures
            r == (Block {
                borders: Borders { left: false, right: false, top: false, bottom: false },
                style: Style { fg: None, bg: None },
            }),
    {
        Block {
            borders: Borders { left: false, right: false, top: false, bottom: false },
            style: Style { fg: None, bg: None },
        }
    }
}

} // verus!
