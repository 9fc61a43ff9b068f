//! Scroll position tracker.
//!
//! A pure reducer from `(previous offset, selected index, visible rows,
//! direction, resize flag)` to the index of the first visible item. The
//! offset is always clamped into `[0, max(0, item_count - visible_rows)]`.
//! A resize clamps the previous offset just far enough that the selection
//! stays inside the window, keeping the view stable across resizes rather
//! than snapping to the top.

use vstd::prelude::*;

verus! {

/// The scroll signal accompanying the current call.
#[derive(Clone, Copy, Debug, PartialEq, Eq, Structural)]
pub enum ScrollDirection {
    Up,
    Down,
    Still,
}

/// The largest valid offset: scrolling past it would leave blank rows.
pub open spec fn spec_max_offset(item_count: u64, visible_rows: u64) -> int {
    if item_count > visible_rows {
        item_count - visible_rows
    } else {
        0
    }
}

/// The tracker as a function of its inputs: re-anchor on resize, shift on
/// overflow in the scroll direction, then clamp.
pub open spec fn spec_start_position(
    item_count: u64,
    visible_rows: u64,
    direction: ScrollDirection,
    previous_offset: u64,
    selected: u64,
    resized: bool,
) -> int {
    if visible_rows == 0 {
        0
    } else {
        let o0 = previous_offset as int;
        let o1 = if resized {
            if selected < o0 {
                selected as int
            } else if selected >= o0 + visible_rows {
                selected - visible_rows + 1
            } else {
                o0
            }
        } else {
            o0
        };
        let o2 = match direction {
            ScrollDirection::Down => if selected >= o1 + visible_rows {
                selected - visible_rows + 1
            } else {
                o1
            },
            ScrollDirection::Up => if selected < o1 {
                selected as int
            } else {
                o1
            },
            ScrollDirection::Still => o1,
        };
        if item_count <= visible_rows {
            0
        } else if o2 > spec_max_offset(item_count, visible_rows) {
            spec_max_offset(item_count, visible_rows)
        } else {
            o2
        }
    }
}

/// The index of the first visible item for this draw call.
///
/// The returned offset is always within `[0, max(0, item_count -
/// visible_rows)]`; when `item_count <= visible_rows` it is `0`. After a
/// resize, a selection that still exists stays inside the visible window.
pub fn get_start_position(
    item_count: u64,
    visible_rows: u64,
    direction: ScrollDirection,
    previous_offset: u64,
    selected: u64,
    resized: bool,
) -> (r: u64)
    ensures
        r == spec_start_position(item_count, visible_rows, direction, previous_offset, selected, resized),
        0 <= r <= spec_max_offset(item_count, visible_rows),
        item_count <= visible_rows ==> r == 0,
        resized && visible_rows > 0 && selected < item_count ==> r <= selected < r + visible_rows,
{
    if visible_rows == 0 {
        return 0;
    }
    let mut offset: u64 = previous_offset;
    if resized {
        if selected < offset {
            offset = selected;
        } else if selected - offset >= visible_rows {
            offset = selected - visible_rows + 1;
        }
    }
    match direction {
        ScrollDirection::Down => {
            if selected >= offset && selected - offset >= visible_rows {
                offset = selected - visible_rows + 1;
            }
        },
        ScrollDirection::Up => {
            if selected < offset {
                offset = selected;
            }
        },
        ScrollDirection::Still => {},
    }
    if item_count <= visible_rows {
        0
    } else if offset > item_count - visible_rows {
        item_count - visible_rows
    } else {
        offset
    }
}

} // verus!
