//! Source ranges and values tagged with them.

use vstd::prelude::*;

verus! {

/// A half-open range of byte offsets into the source text.
#[derive(Debug, Clone, Copy, PartialEq, Eq, Structural)]
pub struct Span {
    pub start: usize,
    pub end: usize,
}

/// A value together with the range of source text it came from.
#[derive(Debug, Clone, PartialEq)]
pub struct Spanned<T> {
    pub span: Span,
    pub data: T,
}

impl<T: View> View for Spanned<T> {
    type V = Spanned<T::V>;

    open spec fn view(&self) -> Spanned<T::V> {
        Spanned { span: self.span, data: self.data@ }
    }
}

impl Span {
    /// A span never ends before it starts.
    pub open spec fn well_formed(self) -> bool {
        self.start <= self.end
    }

    /// The smallest span that encloses both `self` and `other`.
    pub open spec fn merged(self, other: Span) -> Span {
        Span {
            start: if self.start <= other.start { self.start } else { other.start },
            end: if self.end >= other.end { self.end } else { other.end },
        }
    }

    /// The span of the single byte at `pos`.
    pub fn single(pos: usize) -> (r: Span)
        requires
            pos < usize::MAX,
        ensures
            r == (Span { start: pos, end: (pos + 1) as usize }),
            r.well_formed(),
    {
        Span { start: pos, end: pos + 1 }
    }

    /// The span of the `n` bytes that start at `pos`.
    pub fn from(pos: usize, n: usize) -> (r: Span)
        requires
            pos + n <= usize::MAX,
        ensures
            r == (Span { start: pos, end: (pos + n) as usize }),
            r.well_formed(),
    {
        Span { start: pos, end: pos + n }
    }

    /// The enclosing span of `self` and `other`: the smaller start, the larger end.
    pub fn merge(&self, other: &Span) -> (r: Span)
        ensures
            r == self.merged(*other),
            self.well_formed() || other.well_formed() ==> r.well_formed(),
    {
        Span {
            start: if self.start <= other.start { self.start } else { other.start },
            end: if self.end >= other.end { self.end } else { other.end },
        }
    }
}

/// Merging is commutative, associative and idempotent, and the merged span
/// covers both of its arguments.
pub proof fn law_merge_is_enclosing(a: Span, b: Span, c: Span)
    ensures
        a.merged(b) == b.merged(a),
        a.merged(b).merged(c) == a.merged(b.merged(c)),
        a.merged(a) == a,
        a.merged(b).start <= a.start && a.merged(b).start <= b.start,
        a.merged(b).end >= a.end && a.merged(b).end >= b.end,
        a.merged(b).start == a.start || a.merged(b).start == b.start,
        a.merged(b).end == a.end || a.merged(b).end == b.end,
{
}

} // verus!
