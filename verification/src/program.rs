//! What a program does with a term once it is parsed: queries on a path of
//! fields, and the documentation its records carry.
use crate::environment::{suspended, Closure, EnvView, Environment, IdentKind, Store, StoreView};
use crate::error::{eval_message, eval_position, import_message, import_position, EvalError};
use crate::error::{EvalErrorView, ImportError, ImportErrorView};
use crate::eval::{eval_meta, meta_whnf};
use crate::identifier::Ident;
use crate::position::{RawSpan, TermPos};
use crate::semantics::closed;
use crate::subst::{subst, subst_in};
use crate::term::make::plain;
use crate::term::{at, fields_view, lemma_term_view, RichTerm, RichTermView, Term, TermView};
use crate::term::{UnaryOp, UnaryOpView};
use vstd::prelude::*;
use vstd::string::*;

verus! {

/// An error of a program.
#[derive(Debug, PartialEq)]
pub enum Error {
    /// An error of evaluation.
    EvalError(EvalError),
    /// An error of import resolution.
    ImportError(ImportError),
    /// A text that does not parse; with the text.
    ParseErrors(String),
}

/// The view of an [`Error`].
pub enum ErrorView {
    EvalError(EvalErrorView),
    ImportError(ImportErrorView),
    ParseErrors(Seq<char>),
}

impl View for Error {
    type V = ErrorView;

    open spec fn view(&self) -> ErrorView {
        match self {
            Error::EvalError(e) => ErrorView::EvalError(e@),
            Error::ImportError(e) => ErrorView::ImportError(e@),
            Error::ParseErrors(s) => ErrorView::ParseErrors(s@),
        }
    }
}

impl Clone for Error {
    fn clone(&self) -> (res: Self)
        ensures
            res@ == self@,
    {
        match self {
            Error::EvalError(e) => Error::EvalError(e.clone()),
            Error::ImportError(e) => Error::ImportError(e.clone()),
            Error::ParseErrors(s) => Error::ParseErrors(s.clone()),
        }
    }
}

/// Whether an identifier may begin with `c`: a letter or `_`.
pub open spec fn is_ident_start(c: char) -> bool {
    c == '_' || ('a' <= c && c <= 'z') || ('A' <= c && c <= 'Z')
}

/// Whether an identifier may go on with `c`: a letter, a digit, `_`, `-` or
/// `'`.
pub open spec fn is_ident_char(c: char) -> bool {
    is_ident_start(c) || ('0' <= c && c <= '9') || c == '-' || c == '\''
}

/// Whether `s` is an identifier.
pub open spec fn is_ident(s: Seq<char>) -> bool {
    &&& s.len() > 0
    &&& is_ident_start(s[0])
    &&& forall|i: int| 0 < i < s.len() ==> is_ident_char(#[trigger] s[i])
}

/// The pieces of `s` from index `i` on that dots separate, the first one
/// after `current`.
pub open spec fn split(s: Seq<char>, i: int, current: Seq<char>) -> Seq<Seq<char>>
    decreases s.len() - i,
{
    if i < 0 || i >= s.len() {
        seq![current]
    } else if s[i] == '.' {
        seq![current] + split(s, i + 1, Seq::empty())
    } else {
        split(s, i + 1, current.push(s[i]))
    }
}

/// The access to the fields `names` from index `i` on, one inside the other,
/// starting from `base`.
pub open spec fn access(base: RichTermView, names: Seq<Seq<char>>, i: int) -> RichTermView
    decreases names.len() - i,
{
    if i < 0 || i >= names.len() {
        base
    } else {
        access(plain(TermView::Op1(UnaryOpView::StaticAccess(names[i]), base)), names, i + 1)
    }
}

/// The name the queried term is bound to.
pub open spec fn subject() -> Seq<char> {
    "x"@
}

/// The term a path stands for: the access to its fields from the variable
/// `x`; if all pieces of the path are identifiers.
pub open spec fn path_term(path: Seq<char>) -> Option<RichTermView> {
    let names = split(path, 0, Seq::empty());
    if forall|i: int| 0 <= i < names.len() ==> is_ident(#[trigger] names[i]) {
        Some(access(plain(TermView::Var(subject())), names, 0))
    } else {
        None
    }
}

/// Whether `s` is an identifier.
pub fn is_identifier(s: &str) -> (b: bool)
    ensures
        b == is_ident(s@),
{
    let n = s.unicode_len();
    if n == 0 {
        return false;
    }
    let first = s.get_char(0);
    if !(first == '_' || ('a' <= first && first <= 'z') || ('A' <= first && first <= 'Z')) {
        return false;
    }
    let mut i: usize = 1;
    while i < n
        invariant
            1 <= i <= n,
            n == s@.len(),
            forall|j: int| 0 < j < i ==> is_ident_char(#[trigger] s@[j]),
        decreases n - i,
    {
        let c = s.get_char(i);
        let ok = c == '_' || ('a' <= c && c <= 'z') || ('A' <= c && c <= 'Z') || ('0' <= c && c
            <= '9') || c == '-' || c == '\'';
        if !ok {
            return false;
        }
        i += 1;
    }
    true
}

/// The views of a sequence of strings.
pub open spec fn strings_view(strings: Seq<String>) -> Seq<Seq<char>> {
    strings.map_values(|s: String| s@)
}

/// The pieces of `path` that dots separate.
pub fn split_path(path: &str) -> (pieces: Vec<String>)
    ensures
        strings_view(pieces@) == split(path@, 0, Seq::empty()),
{
    let n = path.unicode_len();
    let mut pieces: Vec<String> = Vec::new();
    let mut start: usize = 0;
    let mut i: usize = 0;
    assert(strings_view(pieces@) =~= Seq::empty());
    assert(path@.subrange(0, 0) =~= Seq::empty());
    while i < n
        invariant
            start <= i <= n,
            n == path@.len(),
            strings_view(pieces@) + split(path@, i as int, path@.subrange(start as int, i as int))
                == split(path@, 0, Seq::empty()),
        decreases n - i,
    {
        let c = path.get_char(i);
        if c == '.' {
            let ghost before = strings_view(pieces@);
            let piece = path.substring_char(start, i);
            pieces.push(String::from_str(piece));
            start = i + 1;
            proof {
                assert(strings_view(pieces@) =~= before.push(piece@));
                assert(path@.subrange(start as int, start as int) =~= Seq::empty());
                assert(before + (seq![piece@] + split(path@, i as int + 1, Seq::empty()))
                    =~= before.push(piece@) + split(path@, i as int + 1, Seq::empty()));
            }
        } else {
            proof {
                assert(path@.subrange(start as int, i as int + 1) =~= path@.subrange(
                    start as int,
                    i as int,
                ).push(path@[i as int]));
            }
        }
        i += 1;
    }
    let ghost before = strings_view(pieces@);
    let piece = path.substring_char(start, n);
    pieces.push(String::from_str(piece));
    proof {
        assert(strings_view(pieces@) =~= before.push(piece@));
        assert(before + seq![piece@] =~= before.push(piece@));
    }
    pieces
}

/// The term a path stands for, if the path is one.
pub fn parse_path(path: &str) -> (term: Option<RichTerm>)
    ensures
        match term {
            Some(t) => path_term(path@) == Some(t@),
            None => path_term(path@) is None,
        },
{
    let pieces = split_path(path);
    let ghost names = strings_view(pieces@);
    let mut term = RichTerm::new(Term::Var(Ident::new("x")), TermPos::Unknown);
    let mut i: usize = 0;
    while i < pieces.len()
        invariant
            i <= pieces.len(),
            names == strings_view(pieces@),
            names == split(path@, 0, Seq::empty()),
            forall|j: int| 0 <= j < i ==> is_ident(#[trigger] names[j]),
            access(term@, names, i as int) == access(plain(TermView::Var(subject())), names, 0),
        decreases pieces.len() - i,
    {
        if !is_identifier(pieces[i].as_str()) {
            assert(!is_ident(names[i as int]));
            return None;
        }
        let name = Ident { label: pieces[i].clone() };
        term = RichTerm::new(Term::Op1(UnaryOp::StaticAccess(name), term), TermPos::Unknown);
        i += 1;
    }
    Some(term)
}

/// The outcome of a query: the term or the error, and the store.
pub struct QueryOutcome {
    pub result: Result<TermView, ErrorView>,
    pub store: StoreView,
}

/// What [`query`] gives.
///
/// Without a path the subject is `t`. With a path that parses, `t` goes to a
/// new thunk and the subject is the access that the path stands for, with
/// `t` in the place of its variable. The result is the subject evaluated as
/// [`eval_meta`] does.
pub open spec fn queried(
    store: StoreView,
    t: RichTermView,
    global: EnvView,
    path: Option<Seq<char>>,
    fuel: nat,
) -> QueryOutcome {
    let prepared = match path {
        None => Some((store, t)),
        Some(p) => match path_term(p) {
            None => None,
            Some(a) => {
                let with_t = store.push(suspended(closed(t), IdentKind::Let));
                Some(
                    (
                        with_t,
                        subst_in(
                            with_t,
                            a,
                            Map::empty(),
                            Map::<Seq<char>, nat>::empty().insert(subject(), store.len()),
                            Seq::empty(),
                            Seq::empty(),
                            with_t.len(),
                        ),
                    ),
                )
            },
        },
    };
    match prepared {
        None => QueryOutcome { result: Err(ErrorView::ParseErrors(path->Some_0)), store },
        Some((s, subject)) => {
            let out = meta_whnf(s, subject, global, fuel);
            QueryOutcome {
                result: match out.result {
                    Ok(v) => Ok(*v.term),
                    Err(e) => Err(ErrorView::EvalError(e)),
                },
                store: out.store,
            }
        },
    }
}

/// The view of the result of a query.
pub open spec fn query_result_view(r: Result<Term, Error>) -> Result<TermView, ErrorView> {
    match r {
        Ok(t) => Ok(t@),
        Err(e) => Err(e@),
    }
}

/// Queries the metadata of the term `t`, or of what a path of fields leads
/// to in it.
///
/// The path is a list of identifiers with dots between them: with the path
/// `a.b`, what is evaluated is the field `b` of the field `a` of `t`. The
/// evaluation stops at the first metavalue, so that its documentation and
/// contracts can be read, with the value inside evaluated as well. A path
/// that is none gives `ParseErrors` with the path, and changes nothing.
pub fn query(
    t: RichTerm,
    global_env: &Environment,
    store: &mut Store,
    path: Option<String>,
    fuel: u64,
) -> (result: Result<Term, Error>)
    ensures
        query_result_view(result) == queried(
            old(store)@,
            t@,
            global_env@,
            match path {
                Some(p) => Some(p@),
                None => None,
            },
            fuel as nat,
        ).result,
        final(store)@ == queried(
            old(store)@,
            t@,
            global_env@,
            match path {
                Some(p) => Some(p@),
                None => None,
            },
            fuel as nat,
        ).store,
{
    let subject = match path {
        None => t,
        Some(p) => match parse_path(p.as_str()) {
            None => {
                return Err(Error::ParseErrors(p));
            },
            Some(a) => {
                let thunk = store.suspend(Closure::atomic_closure(t), IdentKind::Let);
                let mut env = Environment::new();
                env.insert(Ident::new("x"), thunk);
                let global = Environment::new();
                subst(store, a, &global, &env)
            },
        },
    };
    match eval_meta(subject, global_env, store, fuel) {
        Ok(v) => Ok(v.into_term()),
        Err(e) => Err(Error::EvalError(e)),
    }
}

/// One piece of the documentation of a term.
#[derive(Debug, PartialEq, Eq)]
pub enum DocItem {
    /// The header of a field: its level and the name of the field.
    Header(u32, String),
    /// The documentation of a value, in markdown, under a header of that
    /// level.
    Text(u32, String),
}

/// The view of a [`DocItem`].
pub enum DocItemView {
    Header(nat, Seq<char>),
    Text(nat, Seq<char>),
}

impl View for DocItem {
    type V = DocItemView;

    open spec fn view(&self) -> DocItemView {
        match self {
            DocItem::Header(level, name) => DocItemView::Header(*level as nat, name@),
            DocItem::Text(level, text) => DocItemView::Text(*level as nat, text@),
        }
    }
}

/// The views of a sequence of items.
pub open spec fn items_view(items: Seq<DocItem>) -> Seq<DocItemView> {
    items.map_values(|d: DocItem| d@)
}

/// The level of the headers under a header of level `level`: one more, up to
/// the largest level there is.
pub open spec fn deeper(level: nat) -> nat {
    if level < u32::MAX {
        level + 1
    } else {
        level
    }
}

/// The documentation of the term `rt` under a header of level `level`: the
/// documentation of a documented value; for a record, the header of each
/// field followed by the documentation of the field, one level deeper; and
/// nothing for any other term.
pub open spec fn documentation(rt: RichTermView, level: nat) -> Seq<DocItemView>
    decreases rt, 0int,
{
    match *rt.term {
        TermView::MetaValue(m) => match m.doc {
            Some(text) => seq![DocItemView::Text(level, text)],
            None => Seq::empty(),
        },
        TermView::Record(fields) => fields_documentation(fields, level, 0),
        TermView::RecRecord(fields) => fields_documentation(fields, level, 0),
        _ => Seq::empty(),
    }
}

/// The headers and the documentation of the fields from index `i` on.
pub open spec fn fields_documentation(
    fields: Seq<(Seq<char>, RichTermView)>,
    level: nat,
    i: int,
) -> Seq<DocItemView>
    decreases fields, fields.len() - i,
{
    if i < 0 || i >= fields.len() {
        Seq::empty()
    } else {
        seq![DocItemView::Header(deeper(level), fields[i].0)] + documentation(
            fields[i].1,
            deeper(level),
        ) + fields_documentation(fields, level, i + 1)
    }
}

/// Adds the documentation of `rt` under a header of level `header_level` to
/// `items`.
pub fn to_markdown(rt: &RichTerm, header_level: u32, items: &mut Vec<DocItem>)
    ensures
        items_view(final(items)@) == items_view(old(items)@) + documentation(
            rt@,
            header_level as nat,
        ),
    decreases rt, 1int,
{
    proof {
        lemma_term_view(&*rt.term);
    }
    match &*rt.term {
        Term::MetaValue(m) => match &m.doc {
            Some(text) => {
                items.push(DocItem::Text(header_level, text.clone()));
                assert(items_view(items@) =~= items_view(old(items)@) + seq![
                    DocItemView::Text(header_level as nat, text@),
                ]);
            },
            None => {
                assert(items_view(items@) =~= items_view(old(items)@) + Seq::empty());
            },
        },
        Term::Record(fields) => fields_to_markdown(fields, header_level, items),
        Term::RecRecord(fields) => fields_to_markdown(fields, header_level, items),
        _ => {
            assert(items_view(items@) =~= items_view(old(items)@) + Seq::empty());
        },
    }
}

/// Adds the headers and the documentation of `fields` to `items`.
fn fields_to_markdown(fields: &Vec<(Ident, RichTerm)>, header_level: u32, items: &mut Vec<DocItem>)
    ensures
        items_view(final(items)@) == items_view(old(items)@) + fields_documentation(
            fields_view(fields@),
            header_level as nat,
            0,
        ),
    decreases fields, 0int,
{
    let ghost fv = fields_view(fields@);
    let ghost level = header_level as nat;
    let inner: u32 = if header_level < u32::MAX {
        header_level + 1
    } else {
        header_level
    };
    let mut i: usize = 0;
    while i < fields.len()
        invariant
            i <= fields.len(),
            fv == fields_view(fields@),
            level == header_level as nat,
            inner as nat == deeper(level),
            items_view(items@) + fields_documentation(fv, level, i as int) == items_view(
                old(items)@,
            ) + fields_documentation(fv, level, 0),
        decreases fields.len() - i,
    {
        let ghost before = items_view(items@);
        let ghost rest = fields_documentation(fv, level, i as int + 1);
        items.push(DocItem::Header(inner, fields[i].0.label.clone()));
        assert(items_view(items@) =~= before.push(
            DocItemView::Header(inner as nat, fv[i as int].0),
        ));
        to_markdown(&fields[i].1, inner, items);
        assert(items_view(items@) + rest =~= before + fields_documentation(fv, level, i as int));
        i += 1;
    }
    assert(items_view(items@) + Seq::<DocItemView>::empty() =~= items_view(items@));
}

/// The documentation of the term `rt`, from the top level.
pub fn output_doc(rt: &RichTerm) -> (items: Vec<DocItem>)
    ensures
        items_view(items@) == documentation(rt@, 0),
{
    let mut items: Vec<DocItem> = Vec::new();
    assert(items_view(items@) =~= Seq::empty());
    to_markdown(rt, 0, &mut items);
    assert(Seq::<DocItemView>::empty() + documentation(rt@, 0) =~= documentation(rt@, 0));
    items
}

/// The level of a header of level `level` that stands in documentation
/// under a header of level `header_level`: the sum, up to the largest level
/// there is.
pub fn increase_header_level(header_level: u32, level: u32) -> (raised: u32)
    ensures
        raised == if header_level + level <= u32::MAX {
            header_level + level
        } else {
            u32::MAX as int
        },
{
    header_level.saturating_add(level)
}

/// What a label of a diagnostic points at.
#[derive(Debug, Clone, Copy, PartialEq, Eq, Structural)]
pub enum LabelKind {
    /// Where the error happened.
    Here,
    /// Where the contract that was violated stands.
    Contract,
}

/// What is reported of an error: what it says, and the spans it points at.
#[derive(Debug, PartialEq, Eq)]
pub struct Diagnostic {
    pub message: String,
    pub labels: Vec<(RawSpan, LabelKind)>,
}

/// The spans an error points at: where it happened, if that is known; and,
/// for a violated contract, where the contract stands. A span in the source
/// `skip` is left out.
pub open spec fn labels_of(error: ErrorView, skip: Option<u32>) -> Seq<(RawSpan, LabelKind)> {
    let here = match error {
        ErrorView::EvalError(e) => match eval_position(e) {
            TermPos::Original(span) => Some(span),
            TermPos::Inherited(span) => Some(span),
            TermPos::Unknown => None,
        },
        ErrorView::ImportError(e) => match import_position(e) {
            TermPos::Original(span) => Some(span),
            TermPos::Inherited(span) => Some(span),
            TermPos::Unknown => None,
        },
        ErrorView::ParseErrors(_) => None,
    };
    let contract = match error {
        ErrorView::EvalError(EvalErrorView::BlameError(label, _)) => Some(label.span),
        _ => None,
    };
    shown(here, LabelKind::Here, skip) + shown(contract, LabelKind::Contract, skip)
}

/// The label of a span, if there is a span and it is not in the source
/// `skip`.
pub open spec fn shown(span: Option<RawSpan>, kind: LabelKind, skip: Option<u32>) -> Seq<
    (RawSpan, LabelKind),
> {
    match span {
        Some(s) => if skip == Some(s.src_id) {
            Seq::empty()
        } else {
            seq![(s, kind)]
        },
        None => Seq::empty(),
    }
}

/// What an error says.
pub open spec fn message_of(error: ErrorView) -> Seq<char> {
    match error {
        ErrorView::EvalError(e) => eval_message(e),
        ErrorView::ImportError(e) => import_message(e),
        ErrorView::ParseErrors(_) => "the text does not parse"@,
    }
}

/// Adds the label of a span to `labels`, if there is a span and it is not in
/// the source `skip`.
fn show(
    labels: &mut Vec<(RawSpan, LabelKind)>,
    span: Option<RawSpan>,
    kind: LabelKind,
    skip: Option<u32>,
)
    ensures
        final(labels)@ == old(labels)@ + shown(span, kind, skip),
{
    match span {
        Some(s) => {
            let skipped = match skip {
                Some(id) => id == s.src_id,
                None => false,
            };
            if !skipped {
                labels.push((s, kind));
                assert(labels@ =~= old(labels)@ + seq![(s, kind)]);
            } else {
                assert(labels@ =~= old(labels)@ + Seq::empty());
            }
        },
        None => {
            assert(labels@ =~= old(labels)@ + Seq::empty());
        },
    }
}

impl Error {
    /// What is reported of the error. Spans in the source `skip` are not
    /// pointed at: contracts of the standard library are of no use to who
    /// reads the report.
    pub fn to_diagnostic(&self, skip: Option<u32>) -> (d: Diagnostic)
        ensures
            d.message@ == message_of(self@),
            d.labels@ == labels_of(self@, skip),
    {
        let message = match self {
            Error::EvalError(e) => e.message(),
            Error::ImportError(e) => e.message(),
            Error::ParseErrors(_) => String::from_str("the text does not parse"),
        };
        let here = match self {
            Error::EvalError(e) => e.position().as_opt(),
            Error::ImportError(e) => e.position().as_opt(),
            Error::ParseErrors(_) => None,
        };
        let contract = match self {
            Error::EvalError(EvalError::BlameError(label, _)) => Some(label.span),
            _ => None,
        };
        let mut labels: Vec<(RawSpan, LabelKind)> = Vec::new();
        show(&mut labels, here, LabelKind::Here, skip);
        show(&mut labels, contract, LabelKind::Contract, skip);
        assert(labels@ =~= labels_of(self@, skip));
        Diagnostic { message, labels }
    }
}

/// One text of a reply to a hover, with the language it is written in.
#[derive(Debug, PartialEq, Eq)]
pub struct HoverText {
    pub language: String,
    pub value: String,
}

/// The reply to a hover: the texts to show, and the span they are about.
#[derive(Debug, PartialEq, Eq)]
pub struct HoverReply {
    pub contents: Vec<HoverText>,
    pub span: Option<RawSpan>,
}

/// The lines from index `i` on, one after the other, with a line break
/// between two of them.
pub open spec fn joined(lines: Seq<Seq<char>>, i: int) -> Seq<char>
    decreases lines.len() - i,
{
    if i < 0 || i >= lines.len() {
        Seq::empty()
    } else if i == lines.len() - 1 {
        lines[i]
    } else {
        lines[i] + seq!['\n'] + joined(lines, i + 1)
    }
}

/// The lines, one after the other, with a line break between two of them.
pub fn join_lines(lines: &Vec<String>) -> (text: String)
    ensures
        text@ == joined(strings_view(lines@), 0),
{
    let ghost all = strings_view(lines@);
    let mut text = String::new();
    let mut i: usize = 0;
    assert(text@ + joined(all, 0) =~= joined(all, 0));
    while i < lines.len()
        invariant
            i <= lines.len(),
            all == strings_view(lines@),
            text@ + joined(all, i as int) == joined(all, 0),
        decreases lines.len() - i,
    {
        let ghost before = text@;
        text.append(lines[i].as_str());
        if i + 1 < lines.len() {
            text.append("\n");
            proof {
                reveal_strlit("\n");
                assert("\n"@ =~= seq!['\n']);
                assert(text@ + joined(all, i as int + 1) =~= before + joined(all, i as int));
            }
        } else {
            assert(text@ + joined(all, i as int + 1) =~= before + joined(all, i as int));
        }
        i += 1;
    }
    assert(text@ + Seq::<char>::empty() =~= text@);
    text
}

/// The reply to a hover over an item at `pos`, whose type reads `ty`, whose
/// metadata reads `meta` line by line, and that `debug` describes: the type
/// as code of the language, the metadata and the description as plain text,
/// about the span of the item if it has one.
pub fn hover(pos: TermPos, ty: String, meta: &Vec<String>, debug: String) -> (reply: HoverReply)
    ensures
        reply.contents@.len() == 3,
        reply.contents@[0].language@ == "nickel"@,
        reply.contents@[0].value@ == ty@,
        reply.contents@[1].language@ == "plain"@,
        reply.contents@[1].value@ == joined(strings_view(meta@), 0),
        reply.contents@[2].language@ == "plain"@,
        reply.contents@[2].value@ == debug@,
        reply.span == match pos {
            TermPos::Original(s) => Some(s),
            TermPos::Inherited(s) => Some(s),
            TermPos::Unknown => None::<RawSpan>,
        },
{
    let mut contents: Vec<HoverText> = Vec::new();
    contents.push(HoverText { language: String::from_str("nickel"), value: ty });
    contents.push(HoverText { language: String::from_str("plain"), value: join_lines(meta) });
    contents.push(HoverText { language: String::from_str("plain"), value: debug });
    HoverReply { contents, span: pos.as_opt() }
}

} // verus!
