//! Source positions carried by terms and errors.
use vstd::prelude::*;

verus! {

/// A span of bytes in one source file. The file is named by the number the
/// source cache gave it.
#[derive(Debug, Clone, Copy, PartialEq, Eq, Structural)]
pub struct RawSpan {
    pub src_id: u32,
    pub start: u32,
    pub end: u32,
}

/// Where a term comes from.
///
/// `Original` marks a term written at that span, `Inherited` a term that was
/// computed from one written there, `Unknown` a term with no known origin.
#[derive(Debug, Clone, Copy, PartialEq, Eq, Structural)]
pub enum TermPos {
    Original(RawSpan),
    Inherited(RawSpan),
    Unknown,
}

impl TermPos {
    /// The position a value computed at `self` inherits.
    pub open spec fn inherited(self) -> TermPos {
        match self {
            TermPos::Original(span) => TermPos::Inherited(span),
            p => p,
        }
    }

    /// Turns an original position into an inherited one and leaves the others.
    pub fn into_inherited(self) -> (p: TermPos)
        ensures
            p == self.inherited(),
    {
        match self {
            TermPos::Original(span) => TermPos::Inherited(span),
            p => p,
        }
    }

    /// The span, if the position has one.
    pub fn as_opt(self) -> (span: Option<RawSpan>)
        ensures
            span == match self {
                TermPos::Original(s) => Some(s),
                TermPos::Inherited(s) => Some(s),
                TermPos::Unknown => None::<RawSpan>,
            },
    {
        match self {
            TermPos::Original(s) => Some(s),
            TermPos::Inherited(s) => Some(s),
            TermPos::Unknown => None,
        }
    }
}

} // verus!
