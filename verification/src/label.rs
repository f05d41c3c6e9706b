//! Labels: the provenance of a contract obligation.
use crate::identifier::Ident;
use crate::position::RawSpan;
use vstd::prelude::*;
use vstd::string::*;

verus! {

/// One step of the path from a contract to the part of it that was checked.
#[derive(Debug, PartialEq, Eq)]
pub enum PathElem {
    Domain,
    Codomain,
    Field(Ident),
    Array,
}

/// The view of a [`PathElem`].
pub enum PathElemView {
    Domain,
    Codomain,
    Field(Seq<char>),
    Array,
}

impl View for PathElem {
    type V = PathElemView;

    open spec fn view(&self) -> PathElemView {
        match self {
            PathElem::Domain => PathElemView::Domain,
            PathElem::Codomain => PathElemView::Codomain,
            PathElem::Field(id) => PathElemView::Field(id@),
            PathElem::Array => PathElemView::Array,
        }
    }
}

impl Clone for PathElem {
    fn clone(&self) -> (res: Self)
        ensures
            res == *self,
    {
        match self {
            PathElem::Domain => PathElem::Domain,
            PathElem::Codomain => PathElem::Codomain,
            PathElem::Field(id) => PathElem::Field(id.clone()),
            PathElem::Array => PathElem::Array,
        }
    }
}

/// What identifies a contract obligation: the message it was given, where
/// the contract stands, which side is to blame, and the path inside the
/// contract.
#[derive(Debug, PartialEq, Eq)]
pub struct Label {
    pub tag: String,
    pub span: RawSpan,
    pub polarity: bool,
    pub path: Vec<PathElem>,
}

/// The view of a [`Label`].
pub struct LabelView {
    pub tag: Seq<char>,
    pub span: RawSpan,
    pub polarity: bool,
    pub path: Seq<PathElemView>,
}

impl View for Label {
    type V = LabelView;

    open spec fn view(&self) -> LabelView {
        LabelView {
            tag: self.tag@,
            span: self.span,
            polarity: self.polarity,
            path: self.path@.map_values(|e: PathElem| e@),
        }
    }
}

impl Clone for Label {
    fn clone(&self) -> (res: Self)
        ensures
            res@ == self@,
    {
        let mut path: Vec<PathElem> = Vec::new();
        let mut i: usize = 0;
        while i < self.path.len()
            invariant
                i <= self.path.len(),
                path.len() == i,
                forall|j: int| 0 <= j < i ==> path[j] == self.path[j],
            decreases self.path.len() - i,
        {
            path.push(self.path[i].clone());
            i += 1;
        }
        assert(path@ =~= self.path@);
        Label { tag: self.tag.clone(), span: self.span, polarity: self.polarity, path }
    }
}

impl Label {
    /// A label for tests and examples: tagged `testing`, positive, with an
    /// empty path, at the first byte of file 0.
    pub fn dummy() -> (label: Label)
        ensures
            label@ == (LabelView {
                tag: "testing"@,
                span: RawSpan { src_id: 0, start: 0, end: 1 },
                polarity: true,
                path: Seq::<PathElemView>::empty(),
            }),
    {
        let label = Label {
            tag: String::from_str("testing"),
            span: RawSpan { src_id: 0, start: 0, end: 1 },
            polarity: true,
            path: Vec::new(),
        };
        assert(label@.path =~= Seq::<PathElemView>::empty());
        label
    }
}

} // verus!
