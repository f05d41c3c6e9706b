//! Builders of terms without positions.
use crate::identifier::Ident;
use crate::merge::{lift, lift_value};
use crate::position::TermPos;
use crate::term::{at, fields_view, lemma_term_view, BinaryOp, MergePriority, MetaValueView};
use crate::term::{RichTerm, RichTermView, Term, TermView, UnaryOp};
use vstd::prelude::*;
use vstd::string::*;

verus! {

/// A term at no position.
pub open spec fn plain(term: TermView) -> RichTermView {
    at(term, TermPos::Unknown)
}

/// The variable `name`.
pub fn var(name: &str) -> (rt: RichTerm)
    ensures
        rt@ == plain(TermView::Var(name@)),
{
    RichTerm::new(Term::Var(Ident::new(name)), TermPos::Unknown)
}

/// `let name = bound in body`.
pub fn let_in(name: &str, bound: RichTerm, body: RichTerm) -> (rt: RichTerm)
    ensures
        rt@ == plain(TermView::Let(name@, bound@, body@)),
{
    RichTerm::new(Term::Let(Ident::new(name), bound, body), TermPos::Unknown)
}

/// `if cond then t else e`.
pub fn if_then_else(cond: RichTerm, t: RichTerm, e: RichTerm) -> (rt: RichTerm)
    ensures
        rt@ == plain(TermView::If(cond@, t@, e@)),
{
    RichTerm::new(Term::If(cond, t, e), TermPos::Unknown)
}

/// The operation `op` on `t`.
pub fn op1(op: UnaryOp, t: RichTerm) -> (rt: RichTerm)
    ensures
        rt@ == plain(TermView::Op1(op@, t@)),
{
    RichTerm::new(Term::Op1(op, t), TermPos::Unknown)
}

/// The operation `op` on `t1` and `t2`.
pub fn op2(op: BinaryOp, t1: RichTerm, t2: RichTerm) -> (rt: RichTerm)
    ensures
        rt@ == plain(TermView::Op2(op, t1@, t2@)),
{
    RichTerm::new(Term::Op2(op, t1, t2), TermPos::Unknown)
}

/// The string `s`.
pub fn string(s: &str) -> (rt: RichTerm)
    ensures
        rt@ == plain(TermView::Str(s@)),
{
    RichTerm::new(Term::Str(String::from_str(s)), TermPos::Unknown)
}

/// The identity function, `fun x => x`.
pub fn id() -> (rt: RichTerm)
    ensures
        rt@ == plain(TermView::Fun("x"@, plain(TermView::Var("x"@)))),
{
    mk_fun("x", var("x"))
}

/// The import of the source named `name`.
pub fn import(name: &str) -> (rt: RichTerm)
    ensures
        rt@ == plain(TermView::Import(name@)),
{
    RichTerm::new(Term::Import(String::from_str(name)), TermPos::Unknown)
}

/// The application of `f` to `a`.
pub fn mk_app(f: RichTerm, a: RichTerm) -> (rt: RichTerm)
    ensures
        rt@ == plain(TermView::App(f@, a@)),
{
    RichTerm::new(Term::App(f, a), TermPos::Unknown)
}

/// The function of parameter `param` and body `body`.
pub fn mk_fun(param: &str, body: RichTerm) -> (rt: RichTerm)
    ensures
        rt@ == plain(TermView::Fun(param@, body@)),
{
    RichTerm::new(Term::Fun(Ident::new(param), body), TermPos::Unknown)
}

/// The record of `fields`.
pub fn mk_record(fields: Vec<(Ident, RichTerm)>) -> (rt: RichTerm)
    ensures
        rt@ == plain(TermView::Record(fields_view(fields@))),
{
    let record = Term::Record(fields);
    proof {
        lemma_term_view(&record);
    }
    RichTerm::new(record, TermPos::Unknown)
}

/// The term `t` as a value of the priority `Default`, with no other
/// metadata.
pub fn mk_default(t: RichTerm) -> (term: Term)
    ensures
        term@ == TermView::MetaValue(
            MetaValueView { priority: MergePriority::Default, ..lift(t@) },
        ),
{
    let mut meta = lift_value(t);
    meta.priority = MergePriority::Default;
    Term::MetaValue(meta)
}

/// The term `t` with the documentation `doc`, and no other metadata.
pub fn mk_docstring(t: RichTerm, doc: &str) -> (term: Term)
    ensures
        term@ == TermView::MetaValue(MetaValueView { doc: Some(doc@), ..lift(t@) }),
{
    let mut meta = lift_value(t);
    meta.doc = Some(String::from_str(doc));
    Term::MetaValue(meta)
}

} // verus!
