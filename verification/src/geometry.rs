//! Geometry primitives: rectangles in cell coordinates and size constraints.

use vstd::prelude::*;

verus! {

/// An axis-aligned rectangle of character cells, given by its top-left
/// corner and its extent. A rectangle with `width == 0 || height == 0` is
/// empty and short-circuits all layout and render logic downstream.
#[derive(Clone, Copy, Debug, PartialEq, Eq, Structural)]
pub struct Rect {
    pub x: u16,
    pub y: u16,
    pub width: u16,
    pub height: u16,
}

impl Rect {
    /// Well-formed: the far edges still fit in cell coordinates.
    pub open spec fn wf(self) -> bool {
        self.x + self.width <= u16::MAX && self.y + self.height <= u16::MAX
    }

    pub open spec fn spec_left(self) -> int {
        self.x as int
    }

    pub open spec fn spec_right(self) -> int {
        self.x + self.width
    }

    pub open spec fn spec_top(self) -> int {
        self.y as int
    }

    pub open spec fn spec_bottom(self) -> int {
        self.y + self.height
    }

    pub open spec fn is_empty(self) -> bool {
        self.width == 0 || self.height == 0
    }

    /// Whether cell `(x, y)` lies inside this rectangle.
    pub open spec fn spec_contains(self, x: int, y: int) -> bool {
        self.x <= x < self.x + self.width && self.y <= y < self.y + self.height
    }

    /// The all-zero rectangle.
    pub open spec fn spec_zero() -> Rect {
        Rect { x: 0, y: 0, width: 0, height: 0 }
    }

    pub fn new(x: u16, y: u16, width: u16, height: u16) -> (r: Rect)
        requires
            x + width <= u16::MAX,
            y + height <= u16::MAX,
        ensures
            r == (Rect { x, y, width, height }),
            r.wf(),
    {
        Rect { x, y, width, height }
    }

    pub fn zero() -> (r: Rect)
        ensures
            r == Rect::spec_zero(),
            r.wf(),
    {
        Rect { x: 0, y: 0, width: 0, height: 0 }
    }

    pub fn left(&self) -> (r: u16)
        ensures
            r == self.spec_left(),
    {
        self.x
    }

    pub fn right(&self) -> (r: u16)
        requires
            self.wf(),
        ensures
            r == self.spec_right(),
    {
        self.x + self.width
    }

    pub fn top(&self) -> (r: u16)
        ensures
            r == self.spec_top(),
    {
        self.y
    }

    pub fn bottom(&self) -> (r: u16)
        requires
            self.wf(),
        ensures
            r == self.spec_bottom(),
    {
        self.y + self.height
    }
}

impl Default for Rect {
    fn default() -> (r: Rect)
        ensures
            r == Rect::spec_zero(),
    {
        Rect { x: 0, y: 0, width: 0, height: 0 }
    }
}

/// A size constraint, applied to an available length to yield a bound.
///
/// `apply` saturates at `u16::MAX` instead of overflowing, and treats a
/// zero-denominator ratio as yielding zero, so it is total: degenerate
/// constraints produce a degenerate bound, never a fault.
#[derive(Clone, Copy, Debug, PartialEq, Eq, Structural)]
pub enum Constraint {
    Percentage(u16),
    Ratio(u32, u32),
    Length(u16),
    Max(u16),
    Min(u16),
}

impl Constraint {
    /// The unclamped value of the constraint applied to `length`.
    pub open spec fn spec_apply_raw(self, length: u16) -> int {
        match self {
            Constraint::Percentage(p) => length * p / 100,
            Constraint::Ratio(num, den) => if den == 0 {
                0
            } else {
                num * length / (den as int)
            },
            Constraint::Length(l) => if length < l { length as int } else { l as int },
            Constraint::Max(m) => if length < m { length as int } else { m as int },
            Constraint::Min(m) => if length > m { length as int } else { m as int },
        }
    }

    /// `apply`, clamped into `u16`.
    pub open spec fn spec_apply(self, length: u16) -> u16 {
        if self.spec_apply_raw(length) > u16::MAX {
            u16::MAX
        } else {
            self.spec_apply_raw(length) as u16
        }
    }

    /// The largest length this constraint allows out of `length` available.
    pub fn apply(&self, length: u16) -> (r: u16)
        ensures
            r == self.spec_apply(length),
    {
        match *self {
            Constraint::Percentage(p) => {
                proof {
                    assert((length as u64) * (p as u64) < 0x1_0000_0000u64) by (nonlinear_arith)
                        requires length <= 0xFFFFu64, p <= 0xFFFFu64,
                    ;
                }
                let v: u64 = (length as u64) * (p as u64) / 100;
                if v > u16::MAX as u64 {
                    u16::MAX
                } else {
                    v as u16
                }
            },
            Constraint::Ratio(num, den) => {
                if den == 0 {
                    0
                } else {
                    proof {
                        assert((num as u64) * (length as u64) <= 0xFFFF_FFFF_FFFF_FFFFu64)
                            by (nonlinear_arith)
                            requires num <= 0xFFFF_FFFFu64, length <= 0xFFFFu64,
                        ;
                    }
                    let v: u64 = (num as u64) * (length as u64) / (den as u64);
                    if v > u16::MAX as u64 {
                        u16::MAX
                    } else {
                        v as u16
                    }
                }
            },
            Constraint::Length(l) => if length < l { length } else { l },
            Constraint::Max(m) => if length < m { length } else { m },
            Constraint::Min(m) => if length > m { length } else { m },
        }
    }
}

/// Applying a constraint is monotonic in the available length: more room
/// never yields a smaller bound.
pub proof fn lemma_apply_monotonic(c: Constraint, a: u16, b: u16)
    requires
        a <= b,
    ensures
        c.spec_apply(a) <= c.spec_apply(b),
{
    match c {
        Constraint::Percentage(p) => {
            assert(a * p <= b * p) by (nonlinear_arith)
                requires a <= b,
            ;
            assert(a * p / 100 <= b * p / 100) by {
                vstd::arithmetic::div_mod::lemma_div_is_ordered(a * p, b * p, 100);
            }
        },
        Constraint::Ratio(num, den) => {
            if den != 0 {
                assert(num * a <= num * b) by (nonlinear_arith)
                    requires a <= b,
                ;
                assert(num * a / (den as int) <= num * b / (den as int)) by {
                    vstd::arithmetic::div_mod::lemma_div_is_ordered(
                        num * a,
                        num * b,
                        den as int,
                    );
                }
            }
        },
        Constraint::Length(_) => {},
        Constraint::Max(_) => {},
        Constraint::Min(_) => {},
    }
}

} // verus!
