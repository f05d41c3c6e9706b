//! Two import resolvers: one that knows no source, one that holds a table.
use crate::error::{ImportError, ImportErrorView};
use crate::import_resolution::{ImportResolver, Resolution};
use crate::position::TermPos;
use crate::term::{RichTerm, RichTermView};
use vstd::prelude::*;
use vstd::string::*;

verus! {

/// The resolver for terms without imports: it has no term for any name.
#[derive(Debug)]
pub struct DummyResolver {}

/// What resolvers say of a name they have no source for.
pub open spec fn unknown_source() -> Seq<char> {
    "no source of this name"@
}

impl ImportResolver for DummyResolver {
    open spec fn resolution(&self) -> Resolution {
        |name: Seq<char>, pos: TermPos| Err(ImportErrorView::IOError(name, unknown_source(), pos))
    }

    fn resolve(&mut self, name: &String, pos: TermPos) -> (r: Result<RichTerm, ImportError>) {
        Err(ImportError::IOError(name.clone(), String::from_str("no source of this name"), pos))
    }
}

/// What a [`SimpleResolver`] holds for a name: the term the source parses
/// to, or what the parser said against it.
#[derive(Debug)]
pub enum Source {
    Parsed(RichTerm),
    Invalid(String),
}

/// The view of a [`Source`].
pub enum SourceView {
    Parsed(RichTermView),
    Invalid(Seq<char>),
}

impl View for Source {
    type V = SourceView;

    open spec fn view(&self) -> SourceView {
        match self {
            Source::Parsed(t) => SourceView::Parsed(t@),
            Source::Invalid(msg) => SourceView::Invalid(msg@),
        }
    }
}

/// A resolver that holds its sources in a table. Of two sources added under
/// one name, the later one counts.
#[derive(Debug)]
pub struct SimpleResolver {
    pub sources: Vec<(String, Source)>,
}

/// The source of the name `name` among the first `n` of `sources`: the last
/// one of that name.
pub open spec fn source_of(
    sources: Seq<(Seq<char>, SourceView)>,
    name: Seq<char>,
    n: int,
) -> Option<SourceView>
    decreases n,
{
    if n <= 0 || n > sources.len() {
        None
    } else if sources[n - 1].0 == name {
        Some(sources[n - 1].1)
    } else {
        source_of(sources, name, n - 1)
    }
}

/// What a table gives for the import of `name` at `pos`.
pub open spec fn table_resolution(
    sources: Seq<(Seq<char>, SourceView)>,
    name: Seq<char>,
    pos: TermPos,
) -> Result<RichTermView, ImportErrorView> {
    match source_of(sources, name, sources.len() as int) {
        Some(SourceView::Parsed(t)) => Ok(t),
        Some(SourceView::Invalid(msg)) => Err(ImportErrorView::ParseErrors(msg, pos)),
        None => Err(ImportErrorView::IOError(name, unknown_source(), pos)),
    }
}

impl View for SimpleResolver {
    type V = Seq<(Seq<char>, SourceView)>;

    open spec fn view(&self) -> Seq<(Seq<char>, SourceView)> {
        self.sources@.map_values(|s: (String, Source)| (s.0@, s.1@))
    }
}

impl SimpleResolver {
    /// The resolver without sources.
    pub fn new() -> (r: SimpleResolver)
        ensures
            r@ == Seq::<(Seq<char>, SourceView)>::empty(),
    {
        let r = SimpleResolver { sources: Vec::new() };
        assert(r@ =~= Seq::<(Seq<char>, SourceView)>::empty());
        r
    }

    /// Adds the source `name`, which parses to `term`.
    pub fn add_source(&mut self, name: String, term: RichTerm)
        ensures
            final(self)@ == old(self)@.push((name@, SourceView::Parsed(term@))),
    {
        self.sources.push((name, Source::Parsed(term)));
        assert(self@ =~= old(self)@.push((name@, SourceView::Parsed(term@))));
    }

    /// Adds the source `name`, which does not parse: `message` is what the
    /// parser said.
    pub fn add_invalid(&mut self, name: String, message: String)
        ensures
            final(self)@ == old(self)@.push((name@, SourceView::Invalid(message@))),
    {
        self.sources.push((name, Source::Invalid(message)));
        assert(self@ =~= old(self)@.push((name@, SourceView::Invalid(message@))));
    }
}

impl ImportResolver for SimpleResolver {
    open spec fn resolution(&self) -> Resolution {
        |name: Seq<char>, pos: TermPos| table_resolution(self@, name, pos)
    }

    fn resolve(&mut self, name: &String, pos: TermPos) -> (r: Result<RichTerm, ImportError>) {
        let mut n: usize = self.sources.len();
        while n > 0
            invariant
                n <= self.sources.len(),
                *self == *old(self),
                source_of(self@, name@, n as int) == source_of(
                    self@,
                    name@,
                    self@.len() as int,
                ),
            decreases n,
        {
            n -= 1;
            if self.sources[n].0 == *name {
                match &self.sources[n].1 {
                    Source::Parsed(t) => {
                        return Ok(t.clone());
                    },
                    Source::Invalid(msg) => {
                        return Err(ImportError::ParseErrors(msg.clone(), pos));
                    },
                }
            }
        }
        Err(ImportError::IOError(name.clone(), String::from_str("no source of this name"), pos))
    }
}

} // verus!
