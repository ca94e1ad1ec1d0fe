use vstd::prelude::*;

verus! {

/// A length of game time in whole nanoseconds.
///
/// It stands for `std::time::Duration` in the verified rules: every span
/// the game uses (cooldowns, lifetimes, frame times) is a nonnegative
/// whole number of nanoseconds.
#[derive(Debug, Clone, Copy, PartialEq, Eq, Structural)]
pub struct Span {
    pub nanos: u128,
}

/// `a - b`, or zero where `b` is the longer span.
pub open spec fn sat_sub(a: Span, b: Span) -> Span {
    if a.nanos >= b.nanos {
        Span { nanos: (a.nanos - b.nanos) as u128 }
    } else {
        Span { nanos: 0 }
    }
}

impl Span {
    /// The empty span.
    pub fn zero() -> (r: Span)
        ensures
            r.nanos == 0,
    {
        Span { nanos: 0 }
    }

    /// A span of `nanos` nanoseconds.
    pub fn from_nanos(nanos: u128) -> (r: Span)
        ensures
            r.nanos == nanos,
    {
        Span { nanos }
    }

    /// Whether the span is empty.
    pub fn is_zero(&self) -> (r: bool)
        ensures
            r == (self.nanos == 0),
    {
        self.nanos == 0
    }

    /// `self - other`, clamped at zero.
    pub fn saturating_sub(self, other: Span) -> (r: Span)
        ensures
            r == sat_sub(self, other),
    {
        if self.nanos >= other.nanos {
            Span { nanos: self.nanos - other.nanos }
        } else {
            Span { nanos: 0 }
        }
    }
}

/// Subtracting step by step never leaves more than subtracting the total
/// at once, and both reach zero together: `(a - b) - c == a - (b + c)`.
pub proof fn lemma_sat_sub_twice(a: Span, b: Span, c: Span)
    requires
        b.nanos + c.nanos <= u128::MAX,
    ensures
        sat_sub(sat_sub(a, b), c) == sat_sub(a, Span { nanos: (b.nanos + c.nanos) as u128 }),
{
}

} // verus!
