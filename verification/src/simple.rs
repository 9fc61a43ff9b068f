//! A minimal CPU widget that prints a fixed caption.

use vstd::prelude::*;
use crate::geometry::Rect;
use crate::grid::{Grid, spec_patch, Cell, CellSym};
use crate::style::Style;
use crate::text::chars_of;

verus! {

/// A widget displaying simple CPU stats.
pub struct CpuSimple {
}

impl CpuSimple {
    pub fn build() -> (r: CpuSimple) {
        CpuSimple {  }
    }

    /// Write the caption at the top-left of `area`, clipped to its width.
    pub fn draw(&self, grid: &mut Grid, area: Rect)
        requires
            old(grid).wf(),
        ensures
            final(grid).wf(),
            old(grid).same_frame(*final(grid)),
            forall|a: int, b: int|
                final(grid).in_bounds(a, b) ==> final(grid).cell_at(a, b) == (if b == area.y
                    && area.x <= a < area.x + Grid::spec_char_span(
                    final(grid).width as int,
                    area.x as int,
                    "CPU Simple"@.len() as int,
                    area.width as int,
                ) {
                    Cell {
                        sym: CellSym::Glyph("CPU Simple"@[a - area.x]),
                        style: spec_patch(
                            old(grid).cell_at(a, b).style,
                            Style { fg: None, bg: None },
                        ),
                    }
                } else {
                    old(grid).cell_at(a, b)
                }),
    {
        let caption = chars_of("CPU Simple");
        grid.set_chars(area.x, area.y, &caption, area.width, Style { fg: None, bg: None });
    }
}

} // verus!
