//! Identifiers of variables, record fields and enum tags.
use vstd::prelude::*;
use vstd::string::*;

verus! {

/// A name. Its view is the sequence of its characters; two identifiers are
/// the same name when their views are equal.
#[derive(Debug, PartialEq, Eq, Hash)]
pub struct Ident {
    pub label: String,
}

impl View for Ident {
    type V = Seq<char>;

    open spec fn view(&self) -> Seq<char> {
        self.label@
    }
}

impl Clone for Ident {
    fn clone(&self) -> (res: Self)
        ensures
            res == *self,
    {
        Ident { label: self.label.clone() }
    }
}

impl Ident {
    /// The identifier spelled `label`.
    pub fn new(label: &str) -> (id: Ident)
        ensures
            id@ == label@,
    {
        Ident { label: String::from_str(label) }
    }

    /// Whether `self` and `other` are the same name.
    pub fn same(&self, other: &Ident) -> (b: bool)
        ensures
            b == (self@ == other@),
    {
        self.label == other.label
    }

    /// Whether `self` is spelled `label`.
    pub fn is(&self, label: &str) -> (b: bool)
        ensures
            b == (self@ == label@),
    {
        let other = String::from_str(label);
        self.label == other
    }
}

impl From<&str> for Ident {
    fn from(label: &str) -> (id: Ident)
        ensures
            id@ == label@,
    {
        Ident::new(label)
    }
}

/// What the conversion from `&str` gives is stated by its `ensures`: no
/// spec function can build the string it holds.
impl vstd::std_specs::convert::FromSpecImpl<&str> for Ident {
    open spec fn obeys_from_spec() -> bool {
        false
    }

    open spec fn from_spec(label: &str) -> Ident {
        arbitrary()
    }
}

impl From<String> for Ident {
    fn from(label: String) -> (id: Ident)
        ensures
            id@ == label@,
    {
        Ident { label }
    }
}

impl vstd::std_specs::convert::FromSpecImpl<String> for Ident {
    open spec fn obeys_from_spec() -> bool {
        true
    }

    open spec fn from_spec(label: String) -> Ident {
        Ident { label }
    }
}

} // verus!
