//! The width budget and indentation threaded through layout decisions.

use vstd::prelude::*;

verus! {

/// The number of columns still available for a rendered unit.  The
/// unbounded variant disables wrap-forcing by width; comments may still
/// force a break.
#[derive(Clone, Copy, Debug, PartialEq, Eq, Structural)]
pub enum WidthBudget {
    Bounded(usize),
    Unbounded,
}

/// Whether a unit of `n` columns fits in the budget `w`.
pub open spec fn fits(n: int, w: WidthBudget) -> bool {
    match w {
        WidthBudget::Bounded(k) => n <= k,
        WidthBudget::Unbounded => true,
    }
}

/// Remaining column width together with the current indentation, derived
/// from the surrounding context of one formatting call.
#[derive(Clone, Copy, Debug, PartialEq, Eq, Structural)]
pub struct Shape {
    pub width: WidthBudget,
    pub indent: usize,
}

impl Shape {
    pub fn new(width: WidthBudget, indent: usize) -> (s: Shape)
        ensures
            s == (Shape { width, indent }),
    {
        Shape { width, indent }
    }

    /// The same shape with the width limit lifted, used when a unit must
    /// render on one line if at all possible.
    pub fn infinite_width(self) -> (s: Shape)
        ensures
            s == (Shape { width: WidthBudget::Unbounded, indent: self.indent }),
    {
        Shape { width: WidthBudget::Unbounded, indent: self.indent }
    }
}

/// Decides whether `left_len + 1 + right_len` columns fit in `w`, without
/// overflowing machine arithmetic.
pub fn fits_joined(left_len: usize, right_len: usize, w: WidthBudget) -> (b: bool)
    ensures
        b == fits(left_len + 1 + right_len, w),
{
    match w {
        WidthBudget::Bounded(k) => {
            left_len <= k && k - left_len >= 1 && right_len <= k - left_len - 1
        },
        WidthBudget::Unbounded => true,
    }
}

} // verus!
