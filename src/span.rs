use vstd::prelude::*;

verus! {

/// A range of offsets into the source text.
#[derive(Copy, Clone, PartialEq, Eq, Hash, Debug, Structural)]
pub struct Span {
    pub start: usize,
    pub end: usize,
}

impl Span {
    /// A span is well formed when it does not end before it starts.
    pub open spec fn wf(self) -> bool {
        self.start <= self.end
    }

    pub fn new(start: usize, end: usize) -> (r: Span)
        requires
            start <= end,
        ensures
            r.start == start,
            r.end == end,
            r.wf(),
    {
        Span { start, end }
    }
}

/// The smallest span that covers both `a` and `b`.
pub open spec fn span_union(a: Span, b: Span) -> Span {
    Span {
        start: if a.start <= b.start { a.start } else { b.start },
        end: if a.end >= b.end { a.end } else { b.end },
    }
}

/// Joins two spans into the smallest span covering both.
pub fn merge(a: &Span, b: &Span) -> (r: Span)
    ensures
        r == span_union(*a, *b),
        a.wf() && b.wf() ==> r.wf(),
{
    let start = if a.start <= b.start { a.start } else { b.start };
    let end = if a.end >= b.end { a.end } else { b.end };
    Span { start, end }
}

} // verus!
