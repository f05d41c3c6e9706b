//! Terms: the expressions the evaluator reduces, and their views.
//!
//! Every executable type here has a view made of sequences and integers. The
//! semantics is stated over the views, so that two terms that read the same
//! evaluate the same, however they are held in memory.
use crate::identifier::Ident;
use crate::label::{Label, LabelView};
use crate::number::Number;
use crate::position::TermPos;
use crate::shared::share;
use std::rc::Rc;
use vstd::prelude::*;

pub mod make;

verus! {

/// How strongly a value holds its place in a merge. `Default` is the weakest.
#[derive(Debug, Clone, Copy, PartialEq, Eq, Structural)]
pub enum MergePriority {
    Default,
    Normal,
}

impl MergePriority {
    /// The place of the priority in the order: a higher rank overrides a
    /// lower one.
    pub open spec fn rank(self) -> int {
        match self {
            MergePriority::Default => 0,
            MergePriority::Normal => 1,
        }
    }

    /// Whether `self` overrides `other`.
    pub fn overrides(self, other: MergePriority) -> (b: bool)
        ensures
            b == (self.rank() > other.rank()),
    {
        match (self, other) {
            (MergePriority::Normal, MergePriority::Default) => true,
            _ => false,
        }
    }
}

/// A type or contract annotation: the type as it was written, and the label
/// that names the obligation. The evaluator carries annotations and never
/// reads the type.
#[derive(Debug, PartialEq, Eq)]
pub struct Contract {
    pub types: String,
    pub label: Label,
}

/// The view of a [`Contract`].
pub struct ContractView {
    pub types: Seq<char>,
    pub label: LabelView,
}

impl View for Contract {
    type V = ContractView;

    open spec fn view(&self) -> ContractView {
        ContractView { types: self.types@, label: self.label@ }
    }
}

impl Clone for Contract {
    fn clone(&self) -> (res: Self)
        ensures
            res@ == self@,
    {
        Contract { types: self.types.clone(), label: self.label.clone() }
    }
}

/// The views of a sequence of contracts.
pub open spec fn contracts_view(contracts: Seq<Contract>) -> Seq<ContractView> {
    contracts.map_values(|c: Contract| c@)
}

/// A copy of `contracts`.
pub fn clone_contracts(contracts: &Vec<Contract>) -> (res: Vec<Contract>)
    ensures
        contracts_view(res@) == contracts_view(contracts@),
{
    let mut res: Vec<Contract> = Vec::new();
    let mut i: usize = 0;
    while i < contracts.len()
        invariant
            i <= contracts.len(),
            res.len() == i,
            forall|j: int| 0 <= j < i ==> res[j]@ == contracts[j]@,
        decreases contracts.len() - i,
    {
        res.push(contracts[i].clone());
        i += 1;
    }
    assert(contracts_view(res@) =~= contracts_view(contracts@));
    res
}

/// A copy of an optional string.
pub fn clone_doc(doc: &Option<String>) -> (res: Option<String>)
    ensures
        doc_view(res) == doc_view(*doc),
{
    match doc {
        Some(s) => Some(s.clone()),
        None => None,
    }
}

/// The view of an optional string.
pub open spec fn doc_view(doc: Option<String>) -> Option<Seq<char>> {
    match doc {
        Some(s) => Some(s@),
        None => None,
    }
}

/// The view of an optional contract.
pub open spec fn types_view(types: Option<Contract>) -> Option<ContractView> {
    match types {
        Some(c) => Some(c@),
        None => None,
    }
}

/// A copy of an optional contract.
pub fn clone_types(types: &Option<Contract>) -> (res: Option<Contract>)
    ensures
        types_view(res) == types_view(*types),
{
    match types {
        Some(c) => Some(c.clone()),
        None => None,
    }
}

/// The primitive operations of one operand.
#[derive(Debug, PartialEq, Eq)]
pub enum UnaryOp {
    /// Whether the operand is a number.
    IsNum(),
    /// Whether the operand is a boolean.
    IsBool(),
    /// Whether the operand is a string.
    IsStr(),
    /// Whether the operand is a function.
    IsFun(),
    /// Whether the operand is a record.
    IsRecord(),
    /// Whether the operand is an array.
    IsArray(),
    /// Raises the blame error of the label that is the operand.
    Blame(),
    /// The field of that name of the record that is the operand.
    StaticAccess(Ident),
}

/// The view of a [`UnaryOp`].
pub enum UnaryOpView {
    IsNum,
    IsBool,
    IsStr,
    IsFun,
    IsRecord,
    IsArray,
    Blame,
    StaticAccess(Seq<char>),
}

impl View for UnaryOp {
    type V = UnaryOpView;

    open spec fn view(&self) -> UnaryOpView {
        match self {
            UnaryOp::IsNum() => UnaryOpView::IsNum,
            UnaryOp::IsBool() => UnaryOpView::IsBool,
            UnaryOp::IsStr() => UnaryOpView::IsStr,
            UnaryOp::IsFun() => UnaryOpView::IsFun,
            UnaryOp::IsRecord() => UnaryOpView::IsRecord,
            UnaryOp::IsArray() => UnaryOpView::IsArray,
            UnaryOp::Blame() => UnaryOpView::Blame,
            UnaryOp::StaticAccess(id) => UnaryOpView::StaticAccess(id@),
        }
    }
}

impl Clone for UnaryOp {
    fn clone(&self) -> (res: Self)
        ensures
            res == *self,
    {
        match self {
            UnaryOp::IsNum() => UnaryOp::IsNum(),
            UnaryOp::IsBool() => UnaryOp::IsBool(),
            UnaryOp::IsStr() => UnaryOp::IsStr(),
            UnaryOp::IsFun() => UnaryOp::IsFun(),
            UnaryOp::IsRecord() => UnaryOp::IsRecord(),
            UnaryOp::IsArray() => UnaryOp::IsArray(),
            UnaryOp::Blame() => UnaryOp::Blame(),
            UnaryOp::StaticAccess(id) => UnaryOp::StaticAccess(id.clone()),
        }
    }
}

/// The primitive operations of two operands.
#[derive(Debug, Clone, Copy, PartialEq, Eq, Structural)]
pub enum BinaryOp {
    /// The sum of two numbers.
    Plus(),
    /// Two strings, one after the other.
    StrConcat(),
    /// The merge of two values.
    Merge(),
    /// The merge of two values that both came with the priority `Default`:
    /// it differs from `Merge` only in the error it gives for unequal values.
    MergeDefaults(),
}

/// A piece of an interpolated string.
#[derive(Debug, PartialEq)]
pub enum StrChunk {
    /// Text taken as it is.
    Literal(String),
    /// An expression whose value, a string, is put in its place.
    Expr(RichTerm),
}

/// The view of a [`StrChunk`].
pub enum StrChunkView {
    Literal(Seq<char>),
    Expr(RichTermView),
}

/// A value with what is known about it: documentation, a type annotation,
/// contracts, and its priority in merges.
#[derive(Debug, PartialEq)]
pub struct MetaValue {
    pub doc: Option<String>,
    pub types: Option<Contract>,
    pub contracts: Vec<Contract>,
    pub priority: MergePriority,
    pub value: RichTerm,
}

/// The view of a [`MetaValue`].
pub struct MetaValueView {
    pub doc: Option<Seq<char>>,
    pub types: Option<ContractView>,
    pub contracts: Seq<ContractView>,
    pub priority: MergePriority,
    pub value: RichTermView,
}

/// An expression.
#[derive(Debug, PartialEq)]
pub enum Term {
    /// A boolean.
    Bool(bool),
    /// A number.
    Num(Number),
    /// A string.
    Str(String),
    /// An interpolated string. The chunks are held last first: the chunk
    /// that comes first in the source is the last of the vector.
    StrChunks(Vec<StrChunk>),
    /// A function of one parameter.
    Fun(Ident, RichTerm),
    /// A label.
    Lbl(Label),
    /// `let x = bound in body`.
    Let(Ident, RichTerm, RichTerm),
    /// An application.
    App(RichTerm, RichTerm),
    /// A variable.
    Var(Ident),
    /// An enum tag.
    Enum(Ident),
    /// A record whose fields do not see each other.
    Record(Vec<(Ident, RichTerm)>),
    /// A record whose fields may refer to each other by name.
    RecRecord(Vec<(Ident, RichTerm)>),
    /// A choice by the tag of the first term among the cases, with an
    /// optional default.
    Switch(RichTerm, Vec<(Ident, RichTerm)>, Option<RichTerm>),
    /// An array.
    Array(Vec<RichTerm>),
    /// A primitive operation of one operand.
    Op1(UnaryOp, RichTerm),
    /// A primitive operation of two operands.
    Op2(BinaryOp, RichTerm, RichTerm),
    /// `if cond then t else e`.
    If(RichTerm, RichTerm, RichTerm),
    /// A value with metadata.
    MetaValue(MetaValue),
    /// The import of another source by name, not yet resolved.
    Import(String),
}

/// The view of a [`Term`].
pub enum TermView {
    Bool(bool),
    Num(int),
    Str(Seq<char>),
    StrChunks(Seq<StrChunkView>),
    Fun(Seq<char>, RichTermView),
    Lbl(LabelView),
    Let(Seq<char>, RichTermView, RichTermView),
    App(RichTermView, RichTermView),
    Var(Seq<char>),
    Enum(Seq<char>),
    Record(Seq<(Seq<char>, RichTermView)>),
    RecRecord(Seq<(Seq<char>, RichTermView)>),
    Switch(RichTermView, Seq<(Seq<char>, RichTermView)>, Option<RichTermView>),
    Array(Seq<RichTermView>),
    Op1(UnaryOpView, RichTermView),
    Op2(BinaryOp, RichTermView, RichTermView),
    If(RichTermView, RichTermView, RichTermView),
    MetaValue(MetaValueView),
    Import(Seq<char>),
}

/// A term with its position. The term is shared: a copy of a `RichTerm` is a
/// second pointer to the same term.
#[derive(Debug, PartialEq)]
pub struct RichTerm {
    pub term: Rc<Term>,
    pub pos: TermPos,
}

/// The view of a [`RichTerm`].
pub struct RichTermView {
    pub term: Box<TermView>,
    pub pos: TermPos,
}

/// A term at a position.
pub open spec fn at(term: TermView, pos: TermPos) -> RichTermView {
    RichTermView { term: Box::new(term), pos }
}

impl Clone for RichTerm {
    fn clone(&self) -> (res: Self)
        ensures
            res == *self,
    {
        RichTerm { term: share(&self.term), pos: self.pos }
    }
}

impl RichTerm {
    /// The view: the view of the term, at the same position.
    pub open spec fn model(&self) -> RichTermView
        decreases self,
    {
        RichTermView { term: Box::new(self.term.model()), pos: self.pos }
    }

    /// The term `term` at the position `pos`.
    pub fn new(term: Term, pos: TermPos) -> (rt: RichTerm)
        ensures
            rt@ == at(term@, pos),
            *rt.term == term,
            rt.pos == pos,
    {
        RichTerm { term: Rc::new(term), pos }
    }

    /// The same term at no position.
    pub fn without_pos(self) -> (rt: RichTerm)
        ensures
            rt@ == at(*self@.term, TermPos::Unknown),
    {
        RichTerm { term: self.term, pos: TermPos::Unknown }
    }

    /// The same term at the position `pos`.
    pub fn with_pos(self, pos: TermPos) -> (rt: RichTerm)
        ensures
            rt@ == at(*self@.term, pos),
    {
        RichTerm { term: self.term, pos }
    }

    /// The term, without its position.
    pub fn into_term(self) -> (t: Term)
        ensures
            t@ == *self@.term,
    {
        match Rc::try_unwrap(self.term) {
            Ok(t) => t,
            Err(shared) => (*shared).clone(),
        }
    }
}

impl From<Term> for RichTerm {
    /// The term at no position.
    fn from(term: Term) -> (rt: RichTerm)
        ensures
            rt@ == at(term@, TermPos::Unknown),
    {
        RichTerm::new(term, TermPos::Unknown)
    }
}

impl vstd::std_specs::convert::FromSpecImpl<Term> for RichTerm {
    open spec fn obeys_from_spec() -> bool {
        true
    }

    open spec fn from_spec(term: Term) -> RichTerm {
        RichTerm { term: Rc::new(term), pos: TermPos::Unknown }
    }
}

impl From<RichTerm> for Term {
    /// The term, without its position.
    fn from(rt: RichTerm) -> (t: Term)
        ensures
            t@ == *rt@.term,
    {
        rt.into_term()
    }
}

/// What the conversion from a `RichTerm` gives is stated by its `ensures`:
/// where the term is shared, the result is a copy that has the same view.
impl vstd::std_specs::convert::FromSpecImpl<RichTerm> for Term {
    open spec fn obeys_from_spec() -> bool {
        false
    }

    open spec fn from_spec(rt: RichTerm) -> Term {
        *rt.term
    }
}

/// A copy of `terms`.
pub fn clone_terms(terms: &Vec<RichTerm>) -> (res: Vec<RichTerm>)
    ensures
        res@ == terms@,
{
    let mut res: Vec<RichTerm> = Vec::new();
    let mut i: usize = 0;
    while i < terms.len()
        invariant
            i <= terms.len(),
            res.len() == i,
            forall|j: int| 0 <= j < i ==> res[j] == terms[j],
        decreases terms.len() - i,
    {
        res.push(terms[i].clone());
        i += 1;
    }
    assert(res@ =~= terms@);
    res
}

/// A copy of `fields`.
pub fn clone_fields(fields: &Vec<(Ident, RichTerm)>) -> (res: Vec<(Ident, RichTerm)>)
    ensures
        res@ == fields@,
{
    let mut res: Vec<(Ident, RichTerm)> = Vec::new();
    let mut i: usize = 0;
    while i < fields.len()
        invariant
            i <= fields.len(),
            res.len() == i,
            forall|j: int| 0 <= j < i ==> res[j] == fields[j],
        decreases fields.len() - i,
    {
        res.push((fields[i].0.clone(), fields[i].1.clone()));
        i += 1;
    }
    assert(res@ =~= fields@);
    res
}

/// A copy of `chunks`.
pub fn clone_chunks(chunks: &Vec<StrChunk>) -> (res: Vec<StrChunk>)
    ensures
        res@ == chunks@,
{
    let mut res: Vec<StrChunk> = Vec::new();
    let mut i: usize = 0;
    while i < chunks.len()
        invariant
            i <= chunks.len(),
            res.len() == i,
            forall|j: int| 0 <= j < i ==> res[j] == chunks[j],
        decreases chunks.len() - i,
    {
        res.push(chunks[i].clone());
        i += 1;
    }
    assert(res@ =~= chunks@);
    res
}

/// A copy of an optional term.
pub fn clone_opt_term(t: &Option<RichTerm>) -> (res: Option<RichTerm>)
    ensures
        res == *t,
{
    match t {
        Some(t) => Some(t.clone()),
        None => None,
    }
}

impl Clone for StrChunk {
    fn clone(&self) -> (res: Self)
        ensures
            res == *self,
    {
        match self {
            StrChunk::Literal(s) => StrChunk::Literal(s.clone()),
            StrChunk::Expr(e) => StrChunk::Expr(e.clone()),
        }
    }
}

impl Clone for MetaValue {
    fn clone(&self) -> (res: Self)
        ensures
            res@ == self@,
    {
        MetaValue {
            doc: clone_doc(&self.doc),
            types: clone_types(&self.types),
            contracts: clone_contracts(&self.contracts),
            priority: self.priority,
            value: self.value.clone(),
        }
    }
}

impl Clone for Term {
    /// A copy of the node. What is below it is shared with `self`.
    fn clone(&self) -> (res: Self)
        ensures
            res@ == self@,
    {
        let res = match self {
            Term::Bool(b) => Term::Bool(*b),
            Term::Num(n) => Term::Num(*n),
            Term::Str(s) => Term::Str(s.clone()),
            Term::StrChunks(chunks) => Term::StrChunks(clone_chunks(chunks)),
            Term::Fun(x, body) => Term::Fun(x.clone(), body.clone()),
            Term::Lbl(l) => Term::Lbl(l.clone()),
            Term::Let(x, bound, body) => Term::Let(x.clone(), bound.clone(), body.clone()),
            Term::App(f, a) => Term::App(f.clone(), a.clone()),
            Term::Var(x) => Term::Var(x.clone()),
            Term::Enum(tag) => Term::Enum(tag.clone()),
            Term::Record(fields) => Term::Record(clone_fields(fields)),
            Term::RecRecord(fields) => Term::RecRecord(clone_fields(fields)),
            Term::Switch(s, cases, default) => Term::Switch(
                s.clone(),
                clone_fields(cases),
                clone_opt_term(default),
            ),
            Term::Array(elems) => Term::Array(clone_terms(elems)),
            Term::Op1(op, a) => Term::Op1(op.clone(), a.clone()),
            Term::Op2(op, a, b) => Term::Op2(*op, a.clone(), b.clone()),
            Term::If(c, t, e) => Term::If(c.clone(), t.clone(), e.clone()),
            Term::MetaValue(m) => Term::MetaValue(m.clone()),
            Term::Import(name) => Term::Import(name.clone()),
        };
        proof {
            lemma_term_view(&res);
            lemma_term_view(self);
        }
        res
    }
}

impl StrChunk {
    pub open spec fn model(&self) -> StrChunkView
        decreases self,
    {
        match self {
            StrChunk::Literal(s) => StrChunkView::Literal(s@),
            StrChunk::Expr(e) => StrChunkView::Expr(e.model()),
        }
    }

    /// The chunk that stands for the value of `e`.
    pub fn expr(e: RichTerm) -> (chunk: StrChunk)
        ensures
            chunk == StrChunk::Expr(e),
    {
        StrChunk::Expr(e)
    }
}

impl MetaValue {
    pub open spec fn model(&self) -> MetaValueView
        decreases self,
    {
        MetaValueView {
            doc: doc_view(self.doc),
            types: types_view(self.types),
            contracts: contracts_view(self.contracts@),
            priority: self.priority,
            value: self.value.model(),
        }
    }
}

impl Term {
    /// The view, variant by variant.
    pub open spec fn model(&self) -> TermView
        decreases self,
    {
        match self {
            Term::Bool(b) => TermView::Bool(*b),
            Term::Num(n) => TermView::Num(n@),
            Term::Str(s) => TermView::Str(s@),
            Term::StrChunks(chunks) => TermView::StrChunks(
                Seq::new(
                    chunks.len() as nat,
                    |i: int|
                        if 0 <= i < chunks.len() {
                            chunks[i].model()
                        } else {
                            arbitrary()
                        },
                ),
            ),
            Term::Fun(x, body) => TermView::Fun(x@, body.model()),
            Term::Lbl(l) => TermView::Lbl(l@),
            Term::Let(x, bound, body) => TermView::Let(x@, bound.model(), body.model()),
            Term::App(f, a) => TermView::App(f.model(), a.model()),
            Term::Var(x) => TermView::Var(x@),
            Term::Enum(tag) => TermView::Enum(tag@),
            Term::Record(fields) => TermView::Record(
                Seq::new(
                    fields.len() as nat,
                    |i: int|
                        if 0 <= i < fields.len() {
                            (fields[i].0@, fields[i].1.model())
                        } else {
                            arbitrary()
                        },
                ),
            ),
            Term::RecRecord(fields) => TermView::RecRecord(
                Seq::new(
                    fields.len() as nat,
                    |i: int|
                        if 0 <= i < fields.len() {
                            (fields[i].0@, fields[i].1.model())
                        } else {
                            arbitrary()
                        },
                ),
            ),
            Term::Switch(scrutinee, cases, default) => TermView::Switch(
                scrutinee.model(),
                Seq::new(
                    cases.len() as nat,
                    |i: int|
                        if 0 <= i < cases.len() {
                            (cases[i].0@, cases[i].1.model())
                        } else {
                            arbitrary()
                        },
                ),
                match default {
                    Some(d) => Some(d.model()),
                    None => None,
                },
            ),
            Term::Array(elems) => TermView::Array(
                Seq::new(
                    elems.len() as nat,
                    |i: int|
                        if 0 <= i < elems.len() {
                            elems[i].model()
                        } else {
                            arbitrary()
                        },
                ),
            ),
            Term::Op1(op, a) => TermView::Op1(op@, a.model()),
            Term::Op2(op, a, b) => TermView::Op2(*op, a.model(), b.model()),
            Term::If(c, t, e) => TermView::If(c.model(), t.model(), e.model()),
            Term::MetaValue(m) => TermView::MetaValue(m.model()),
            Term::Import(name) => TermView::Import(name@),
        }
    }
}

impl View for RichTerm {
    type V = RichTermView;

    open spec fn view(&self) -> RichTermView {
        self.model()
    }
}

impl View for Term {
    type V = TermView;

    open spec fn view(&self) -> TermView {
        self.model()
    }
}

impl View for StrChunk {
    type V = StrChunkView;

    open spec fn view(&self) -> StrChunkView {
        self.model()
    }
}

impl View for MetaValue {
    type V = MetaValueView;

    open spec fn view(&self) -> MetaValueView {
        self.model()
    }
}

/// The views of a sequence of terms.
pub open spec fn terms_view(terms: Seq<RichTerm>) -> Seq<RichTermView> {
    terms.map_values(|t: RichTerm| t@)
}

/// The views of a sequence of named terms: the fields of a record, or the
/// cases of a switch.
pub open spec fn fields_view(fields: Seq<(Ident, RichTerm)>) -> Seq<(Seq<char>, RichTermView)> {
    fields.map_values(|f: (Ident, RichTerm)| (f.0@, f.1@))
}

/// The views of a sequence of chunks.
pub open spec fn chunks_view(chunks: Seq<StrChunk>) -> Seq<StrChunkView> {
    chunks.map_values(|c: StrChunk| c@)
}

/// The view of an optional term.
pub open spec fn opt_term_view(t: Option<RichTerm>) -> Option<RichTermView> {
    match t {
        Some(t) => Some(t@),
        None => None,
    }
}

/// The view of a term is made of the views of its parts.
pub proof fn lemma_term_view(t: &Term)
    ensures
        t@ == match *t {
            Term::Bool(b) => TermView::Bool(b),
            Term::Num(n) => TermView::Num(n@),
            Term::Str(s) => TermView::Str(s@),
            Term::StrChunks(chunks) => TermView::StrChunks(chunks_view(chunks@)),
            Term::Fun(x, body) => TermView::Fun(x@, body@),
            Term::Lbl(l) => TermView::Lbl(l@),
            Term::Let(x, bound, body) => TermView::Let(x@, bound@, body@),
            Term::App(f, a) => TermView::App(f@, a@),
            Term::Var(x) => TermView::Var(x@),
            Term::Enum(tag) => TermView::Enum(tag@),
            Term::Record(fields) => TermView::Record(fields_view(fields@)),
            Term::RecRecord(fields) => TermView::RecRecord(fields_view(fields@)),
            Term::Switch(s, cases, default) => TermView::Switch(
                s@,
                fields_view(cases@),
                opt_term_view(default),
            ),
            Term::Array(elems) => TermView::Array(terms_view(elems@)),
            Term::Op1(op, a) => TermView::Op1(op@, a@),
            Term::Op2(op, a, b) => TermView::Op2(op, a@, b@),
            Term::If(c, t, e) => TermView::If(c@, t@, e@),
            Term::MetaValue(m) => TermView::MetaValue(m@),
            Term::Import(name) => TermView::Import(name@),
        },
{
    match *t {
        Term::StrChunks(chunks) => {
            assert(t@->StrChunks_0 =~= chunks_view(chunks@));
        },
        Term::Record(fields) => {
            assert(t@->Record_0 =~= fields_view(fields@));
        },
        Term::RecRecord(fields) => {
            assert(t@->RecRecord_0 =~= fields_view(fields@));
        },
        Term::Switch(s, cases, default) => {
            assert(t@->Switch_1 =~= fields_view(cases@));
        },
        Term::Array(elems) => {
            assert(t@->Array_0 =~= terms_view(elems@));
        },
        _ => {},
    }
}

} // verus!
