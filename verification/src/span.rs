use vstd::prelude::*;

verus! {

/// A half-open byte range into the source text. Every syntax node and
/// attribute owns exactly one; diagnostics anchor to the narrowest such range.
#[derive(Clone, Copy, PartialEq, Eq, Structural, Debug)]
pub struct Span {
    pub lo: usize,
    pub hi: usize,
}

pub open spec fn span_wf(s: Span) -> bool {
    s.lo <= s.hi
}

/// `inner` lies within `outer`.
pub open spec fn span_in(inner: Span, outer: Span) -> bool {
    outer.lo <= inner.lo && inner.hi <= outer.hi
}

/// The two ranges share no byte.
pub open spec fn span_disjoint(a: Span, b: Span) -> bool {
    a.hi <= b.lo || b.hi <= a.lo
}

/// The smallest range covering both arguments.
pub open spec fn span_hull_spec(a: Span, b: Span) -> Span {
    Span {
        lo: if a.lo <= b.lo {
            a.lo
        } else {
            b.lo
        },
        hi: if a.hi >= b.hi {
            a.hi
        } else {
            b.hi
        },
    }
}

pub fn span_hull(a: Span, b: Span) -> (r: Span)
    ensures
        r == span_hull_spec(a, b),
{
    Span {
        lo: if a.lo <= b.lo {
            a.lo
        } else {
            b.lo
        },
        hi: if a.hi >= b.hi {
            a.hi
        } else {
            b.hi
        },
    }
}

} // verus!
