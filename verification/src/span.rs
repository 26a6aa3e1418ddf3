//! Byte spans into the original source buffer.

use vstd::prelude::*;

verus! {

/// A half-open byte range `[lo, hi)` into the original source text.
#[derive(Clone, Copy, Debug, PartialEq, Eq, Structural)]
pub struct Span {
    pub lo: usize,
    pub hi: usize,
}

impl Span {
    /// A span is well formed when it does not run backwards.
    pub open spec fn wf(self) -> bool {
        self.lo <= self.hi
    }

    /// A well-formed span lying inside a buffer of `n` bytes.
    pub open spec fn in_buf(self, n: int) -> bool {
        self.wf() && self.hi <= n
    }

    pub fn new(lo: usize, hi: usize) -> (s: Span)
        requires
            lo <= hi,
        ensures
            s == (Span { lo, hi }),
    {
        Span { lo, hi }
    }

    /// The placeholder span of a fragment that has no position in the
    /// source, such as an implicit qualifier.
    pub fn dummy() -> (s: Span)
        ensures
            s == (Span { lo: 0usize, hi: 0usize }),
    {
        Span { lo: 0, hi: 0 }
    }

    /// The gap between this span and a following one: everything strictly
    /// after `self` and strictly before `next`.
    pub fn between(self, next: Span) -> (g: Span)
        requires
            self.hi <= next.lo,
        ensures
            g == (Span { lo: self.hi, hi: next.lo }),
    {
        Span { lo: self.hi, hi: next.lo }
    }
}

} // verus!
