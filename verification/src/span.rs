use vstd::prelude::*;

verus! {

/// Identity of one source text; spans from different texts never mix.
///
/// Source number zero is the anonymous source, so `SourceId::new(0)` and
/// `SourceId::ANONYMOUS` are the same identity.
#[allow(non_camel_case_types)]
#[derive(Clone, Copy, Debug, PartialEq, Eq, PartialOrd, Ord, Hash, Structural)]
pub enum SourceId {
    /// Text that was not loaded from a numbered source.
    ANONYMOUS,
    /// A numbered source; the number is never zero.
    Numbered(u32),
}

impl SourceId {
    /// The number of this source; zero for the anonymous source.
    pub open spec fn spec_number(self) -> nat {
        match self {
            SourceId::ANONYMOUS => 0,
            SourceId::Numbered(n) => n as nat,
        }
    }

    pub open spec fn spec_new(id: u32) -> SourceId {
        if id == 0 { SourceId::ANONYMOUS } else { SourceId::Numbered(id) }
    }

    pub fn new(id: u32) -> (result: SourceId)
        ensures
            result == SourceId::spec_new(id),
            result.spec_number() == id,
    {
        if id == 0 { SourceId::ANONYMOUS } else { SourceId::Numbered(id) }
    }

    pub fn number(self) -> (result: u32)
        ensures
            result == self.spec_number(),
    {
        match self {
            SourceId::ANONYMOUS => 0,
            SourceId::Numbered(n) => n,
        }
    }
}

/// A half-open byte range `start..end` inside one source text.
#[derive(Clone, Copy, Debug, PartialEq, Eq, Hash, Structural)]
pub struct Span {
    pub source_id: SourceId,
    pub start: usize,
    pub end: usize,
}

impl Span {
    /// A span of the anonymous source.
    pub fn new(start: usize, end: usize) -> (result: Span)
        ensures
            result == (Span { source_id: SourceId::ANONYMOUS, start, end }),
    {
        Span { source_id: SourceId::ANONYMOUS, start, end }
    }

    pub fn new_in(source_id: SourceId, start: usize, end: usize) -> (result: Span)
        ensures
            result == (Span { source_id, start, end }),
    {
        Span { source_id, start, end }
    }

    pub open spec fn spec_merge(self, other: Span) -> Span {
        Span {
            source_id: self.source_id,
            start: if self.start <= other.start { self.start } else { other.start },
            end: if self.end >= other.end { self.end } else { other.end },
        }
    }

    /// The smallest span that covers both spans, kept in the first span's source.
    pub fn merge(self, other: Span) -> (result: Span)
        ensures
            result == self.spec_merge(other),
    {
        Span {
            source_id: self.source_id,
            start: if self.start <= other.start { self.start } else { other.start },
            end: if self.end >= other.end { self.end } else { other.end },
        }
    }
}

} // verus!
