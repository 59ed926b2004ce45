//! Half-open byte ranges into a source text.

use crate::util::text::{decimal_text, push_decimal};
use vstd::prelude::*;
use vstd::string::StringExecFns;

verus! {

/// A half-open range `start..end` of byte offsets.
#[derive(Debug, Clone, Copy, PartialEq, Eq, PartialOrd, Ord, Structural)]
pub struct Span {
    pub start: usize,
    pub end: usize,
}

impl Span {
    /// A span is well formed when it does not end before it starts.
    pub open spec fn wf(&self) -> bool {
        self.start <= self.end
    }

    /// Number of bytes covered, as a mathematical integer.
    pub open spec fn spec_len(&self) -> int {
        self.end - self.start
    }

    /// Whether every offset of `other` lies between this span's bounds.
    pub open spec fn covers(&self, other: Span) -> bool {
        self.start <= other.start && other.end <= self.end
    }

    /// The smallest span that covers both `self` and `other`.
    pub open spec fn spec_union(&self, other: Span) -> Span {
        Span {
            start: if self.start <= other.start { self.start } else { other.start },
            end: if self.end >= other.end { self.end } else { other.end },
        }
    }

    /// The text a span is shown as in messages.
    pub open spec fn spec_text(&self) -> Seq<char> {
        "Span { start: "@ + decimal_text(self.start as nat) + ", end: "@ + decimal_text(
            self.end as nat,
        ) + " }"@
    }

    /// Writes the span behind `text`, as it is shown in messages.
    pub fn write_to(&self, text: &mut String)
        ensures
            final(text)@ == old(text)@ + self.spec_text(),
    {
        text.append("Span { start: ");
        push_decimal(text, self.start);
        text.append(", end: ");
        push_decimal(text, self.end);
        text.append(" }");
        proof {
            assert(text@ =~= old(text)@ + self.spec_text());
        }
    }

    pub fn new(start: usize, end: usize) -> (s: Span)
        requires
            start <= end,
        ensures
            s.start == start,
            s.end == end,
            s.wf(),
    {
        Span { start, end }
    }

    pub fn len(&self) -> (n: usize)
        requires
            self.wf(),
        ensures
            n == self.spec_len(),
    {
        self.end - self.start
    }

    pub fn is_empty(&self) -> (b: bool)
        ensures
            b == (self.start == self.end),
    {
        self.start == self.end
    }

    pub fn union(&self, other: Span) -> (u: Span)
        ensures
            u == self.spec_union(other),
            self.wf() && other.wf() ==> u.wf(),
    {
        Span {
            start: if self.start <= other.start { self.start } else { other.start },
            end: if self.end >= other.end { self.end } else { other.end },
        }
    }

    /// The union is the least span covering both operands: it covers each of
    /// them, and any well-formed span covering both covers the union.
    pub proof fn lemma_union_is_least_cover(a: Span, b: Span, c: Span)
        requires
            a.wf(),
            b.wf(),
        ensures
            a.spec_union(b).wf(),
            a.spec_union(b).covers(a),
            a.spec_union(b).covers(b),
            c.covers(a) && c.covers(b) ==> c.covers(a.spec_union(b)),
    {
    }
}

} // verus!
