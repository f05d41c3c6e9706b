//! Substitution: a term with its free variables replaced by what the
//! environments bind them to.
//!
//! A variable that a binder of the term itself binds (the parameter of a
//! function, the name of a `let`, a field of a recursive record) is left as
//! it is. A free variable bound to a thunk is replaced by the term of that
//! thunk, substituted in turn in the environment of the thunk. A variable
//! whose thunk is already being substituted, as happens in a recursive
//! record, is left as it is as well, so that substitution always ends.
use crate::environment::{EnvView, Environment, Store, StoreView, Thunk};
use crate::identifier::Ident;
use crate::merge::field_names;
use crate::semantics::lookup;
use crate::term::{at, chunks_view, clone_contracts, clone_doc, clone_types, fields_view};
use crate::term::{lemma_term_view, terms_view, MetaValue, MetaValueView, RichTerm, RichTermView};
use crate::term::{StrChunk, StrChunkView, Term, TermView};
use vstd::prelude::*;

verus! {

/// The thunk whose term replaces the variable `x`, if it is to be replaced:
/// `x` is not bound by the term, an environment binds it to a thunk of the
/// store, that thunk is not being substituted already, and `depth` is left.
pub open spec fn replaced_by(
    store: StoreView,
    x: Seq<char>,
    global: EnvView,
    env: EnvView,
    bound: Seq<Seq<char>>,
    visiting: Seq<nat>,
    depth: nat,
) -> Option<nat> {
    if bound.contains(x) || depth == 0 {
        None
    } else {
        match lookup(env, global, x) {
            Some(i) => if i < store.len() && !visiting.contains(i) {
                Some(i)
            } else {
                None
            },
            None => None,
        }
    }
}

/// The term `rt` with its free variables replaced.
///
/// `bound` holds the names that binders around `rt` bind, `visiting` the
/// thunks whose terms are being substituted, and `depth` how many thunks
/// deep the substitution may still go.
pub open spec fn subst_in(
    store: StoreView,
    rt: RichTermView,
    global: EnvView,
    env: EnvView,
    bound: Seq<Seq<char>>,
    visiting: Seq<nat>,
    depth: nat,
) -> RichTermView
    decreases depth, rt,
{
    match *rt.term {
        TermView::Var(x) => match replaced_by(store, x, global, env, bound, visiting, depth) {
            Some(i) => {
                let c = store[i as int].closure;
                subst_in(
                    store,
                    c.body,
                    global,
                    c.env,
                    Seq::empty(),
                    visiting.push(i),
                    (depth - 1) as nat,
                )
            },
            None => rt,
        },
        TermView::Fun(x, body) => at(
            TermView::Fun(x, subst_in(store, body, global, env, bound.push(x), visiting, depth)),
            rt.pos,
        ),
        TermView::Let(x, a, b) => at(
            TermView::Let(
                x,
                subst_in(store, a, global, env, bound, visiting, depth),
                subst_in(store, b, global, env, bound.push(x), visiting, depth),
            ),
            rt.pos,
        ),
        TermView::App(f, a) => at(
            TermView::App(
                subst_in(store, f, global, env, bound, visiting, depth),
                subst_in(store, a, global, env, bound, visiting, depth),
            ),
            rt.pos,
        ),
        TermView::Op1(op, a) => at(
            TermView::Op1(op, subst_in(store, a, global, env, bound, visiting, depth)),
            rt.pos,
        ),
        TermView::Op2(op, a, b) => at(
            TermView::Op2(
                op,
                subst_in(store, a, global, env, bound, visiting, depth),
                subst_in(store, b, global, env, bound, visiting, depth),
            ),
            rt.pos,
        ),
        TermView::If(c, t, e) => at(
            TermView::If(
                subst_in(store, c, global, env, bound, visiting, depth),
                subst_in(store, t, global, env, bound, visiting, depth),
                subst_in(store, e, global, env, bound, visiting, depth),
            ),
            rt.pos,
        ),
        TermView::StrChunks(chunks) => at(
            TermView::StrChunks(
                Seq::new(
                    chunks.len(),
                    |i: int|
                        if 0 <= i < chunks.len() {
                            match chunks[i] {
                                StrChunkView::Literal(s) => StrChunkView::Literal(s),
                                StrChunkView::Expr(e) => StrChunkView::Expr(
                                    subst_in(store, e, global, env, bound, visiting, depth),
                                ),
                            }
                        } else {
                            arbitrary()
                        },
                ),
            ),
            rt.pos,
        ),
        TermView::Record(fields) => at(
            TermView::Record(
                Seq::new(
                    fields.len(),
                    |i: int|
                        if 0 <= i < fields.len() {
                            (
                                fields[i].0,
                                subst_in(store, fields[i].1, global, env, bound, visiting, depth),
                            )
                        } else {
                            arbitrary()
                        },
                ),
            ),
            rt.pos,
        ),
        TermView::RecRecord(fields) => at(
            TermView::RecRecord(
                Seq::new(
                    fields.len(),
                    |i: int|
                        if 0 <= i < fields.len() {
                            (
                                fields[i].0,
                                subst_in(
                                    store,
                                    fields[i].1,
                                    global,
                                    env,
                                    bound + field_names(fields),
                                    visiting,
                                    depth,
                                ),
                            )
                        } else {
                            arbitrary()
                        },
                ),
            ),
            rt.pos,
        ),
        TermView::Switch(s, cases, default) => at(
            TermView::Switch(
                subst_in(store, s, global, env, bound, visiting, depth),
                Seq::new(
                    cases.len(),
                    |i: int|
                        if 0 <= i < cases.len() {
                            (
                                cases[i].0,
                                subst_in(store, cases[i].1, global, env, bound, visiting, depth),
                            )
                        } else {
                            arbitrary()
                        },
                ),
                match default {
                    Some(d) => Some(subst_in(store, d, global, env, bound, visiting, depth)),
                    None => None,
                },
            ),
            rt.pos,
        ),
        TermView::Array(elems) => at(
            TermView::Array(
                Seq::new(
                    elems.len(),
                    |i: int|
                        if 0 <= i < elems.len() {
                            subst_in(store, elems[i], global, env, bound, visiting, depth)
                        } else {
                            arbitrary()
                        },
                ),
            ),
            rt.pos,
        ),
        TermView::MetaValue(m) => at(
            TermView::MetaValue(
                MetaValueView {
                    value: subst_in(store, m.value, global, env, bound, visiting, depth),
                    ..m
                },
            ),
            rt.pos,
        ),
        _ => rt,
    }
}

/// The fields with their terms substituted.
pub open spec fn subst_fields_in(
    store: StoreView,
    fields: Seq<(Seq<char>, RichTermView)>,
    global: EnvView,
    env: EnvView,
    bound: Seq<Seq<char>>,
    visiting: Seq<nat>,
    depth: nat,
) -> Seq<(Seq<char>, RichTermView)> {
    Seq::new(
        fields.len(),
        |i: int| (fields[i].0, subst_in(store, fields[i].1, global, env, bound, visiting, depth)),
    )
}

/// The terms, substituted.
pub open spec fn subst_terms_in(
    store: StoreView,
    terms: Seq<RichTermView>,
    global: EnvView,
    env: EnvView,
    bound: Seq<Seq<char>>,
    visiting: Seq<nat>,
    depth: nat,
) -> Seq<RichTermView> {
    Seq::new(
        terms.len(),
        |i: int| subst_in(store, terms[i], global, env, bound, visiting, depth),
    )
}

/// The chunk with its expression, if it is one, substituted.
pub open spec fn subst_chunk_in(
    store: StoreView,
    chunk: StrChunkView,
    global: EnvView,
    env: EnvView,
    bound: Seq<Seq<char>>,
    visiting: Seq<nat>,
    depth: nat,
) -> StrChunkView {
    match chunk {
        StrChunkView::Literal(s) => StrChunkView::Literal(s),
        StrChunkView::Expr(e) => StrChunkView::Expr(
            subst_in(store, e, global, env, bound, visiting, depth),
        ),
    }
}

/// The chunks, substituted.
pub open spec fn subst_chunks_in(
    store: StoreView,
    chunks: Seq<StrChunkView>,
    global: EnvView,
    env: EnvView,
    bound: Seq<Seq<char>>,
    visiting: Seq<nat>,
    depth: nat,
) -> Seq<StrChunkView> {
    Seq::new(
        chunks.len(),
        |i: int| subst_chunk_in(store, chunks[i], global, env, bound, visiting, depth),
    )
}

/// What substitution gives for each form of term, in terms of the
/// substitution of its parts.
pub proof fn lemma_subst_unfold(
    store: StoreView,
    rt: RichTermView,
    global: EnvView,
    env: EnvView,
    bound: Seq<Seq<char>>,
    visiting: Seq<nat>,
    depth: nat,
)
    ensures
        subst_in(store, rt, global, env, bound, visiting, depth) == match *rt.term {
            TermView::Var(x) => match replaced_by(store, x, global, env, bound, visiting, depth) {
                Some(i) => subst_in(
                    store,
                    store[i as int].closure.body,
                    global,
                    store[i as int].closure.env,
                    Seq::empty(),
                    visiting.push(i),
                    (depth - 1) as nat,
                ),
                None => rt,
            },
            TermView::Fun(x, body) => at(
                TermView::Fun(
                    x,
                    subst_in(store, body, global, env, bound.push(x), visiting, depth),
                ),
                rt.pos,
            ),
            TermView::Let(x, a, b) => at(
                TermView::Let(
                    x,
                    subst_in(store, a, global, env, bound, visiting, depth),
                    subst_in(store, b, global, env, bound.push(x), visiting, depth),
                ),
                rt.pos,
            ),
            TermView::App(f, a) => at(
                TermView::App(
                    subst_in(store, f, global, env, bound, visiting, depth),
                    subst_in(store, a, global, env, bound, visiting, depth),
                ),
                rt.pos,
            ),
            TermView::Op1(op, a) => at(
                TermView::Op1(op, subst_in(store, a, global, env, bound, visiting, depth)),
                rt.pos,
            ),
            TermView::Op2(op, a, b) => at(
                TermView::Op2(
                    op,
                    subst_in(store, a, global, env, bound, visiting, depth),
                    subst_in(store, b, global, env, bound, visiting, depth),
                ),
                rt.pos,
            ),
            TermView::If(c, t, e) => at(
                TermView::If(
                    subst_in(store, c, global, env, bound, visiting, depth),
                    subst_in(store, t, global, env, bound, visiting, depth),
                    subst_in(store, e, global, env, bound, visiting, depth),
                ),
                rt.pos,
            ),
            TermView::StrChunks(chunks) => at(
                TermView::StrChunks(
                    subst_chunks_in(store, chunks, global, env, bound, visiting, depth),
                ),
                rt.pos,
            ),
            TermView::Record(fields) => at(
                TermView::Record(
                    subst_fields_in(store, fields, global, env, bound, visiting, depth),
                ),
                rt.pos,
            ),
            TermView::RecRecord(fields) => at(
                TermView::RecRecord(
                    subst_fields_in(
                        store,
                        fields,
                        global,
                        env,
                        bound + field_names(fields),
                        visiting,
                        depth,
                    ),
                ),
                rt.pos,
            ),
            TermView::Switch(s, cases, default) => at(
                TermView::Switch(
                    subst_in(store, s, global, env, bound, visiting, depth),
                    subst_fields_in(store, cases, global, env, bound, visiting, depth),
                    match default {
                        Some(d) => Some(subst_in(store, d, global, env, bound, visiting, depth)),
                        None => None,
                    },
                ),
                rt.pos,
            ),
            TermView::Array(elems) => at(
                TermView::Array(subst_terms_in(store, elems, global, env, bound, visiting, depth)),
                rt.pos,
            ),
            TermView::MetaValue(m) => at(
                TermView::MetaValue(
                    MetaValueView {
                        value: subst_in(store, m.value, global, env, bound, visiting, depth),
                        ..m
                    },
                ),
                rt.pos,
            ),
            _ => rt,
        },
{
    let r = subst_in(store, rt, global, env, bound, visiting, depth);
    match *rt.term {
        TermView::StrChunks(chunks) => {
            assert(r.term->StrChunks_0 =~= subst_chunks_in(
                store,
                chunks,
                global,
                env,
                bound,
                visiting,
                depth,
            ));
        },
        TermView::Record(fields) => {
            assert(r.term->Record_0 =~= subst_fields_in(
                store,
                fields,
                global,
                env,
                bound,
                visiting,
                depth,
            ));
        },
        TermView::RecRecord(fields) => {
            assert(r.term->RecRecord_0 =~= subst_fields_in(
                store,
                fields,
                global,
                env,
                bound + field_names(fields),
                visiting,
                depth,
            ));
        },
        TermView::Switch(s, cases, default) => {
            assert(r.term->Switch_1 =~= subst_fields_in(
                store,
                cases,
                global,
                env,
                bound,
                visiting,
                depth,
            ));
        },
        TermView::Array(elems) => {
            assert(r.term->Array_0 =~= subst_terms_in(
                store,
                elems,
                global,
                env,
                bound,
                visiting,
                depth,
            ));
        },
        _ => {},
    }
}

/// The views of a sequence of identifiers.
pub open spec fn idents_view(ids: Seq<Ident>) -> Seq<Seq<char>> {
    ids.map_values(|id: Ident| id@)
}

/// The views of a sequence of thunks.
pub open spec fn thunks_view(thunks: Seq<Thunk>) -> Seq<nat> {
    thunks.map_values(|t: Thunk| t@)
}

/// Whether `x` is one of `ids`.
fn has_ident(ids: &Vec<Ident>, x: &Ident) -> (found: bool)
    ensures
        found == idents_view(ids@).contains(x@),
{
    let mut i: usize = 0;
    while i < ids.len()
        invariant
            i <= ids.len(),
            forall|j: int| 0 <= j < i ==> idents_view(ids@)[j] != x@,
        decreases ids.len() - i,
    {
        if ids[i].same(x) {
            assert(idents_view(ids@)[i as int] == x@);
            return true;
        }
        i += 1;
    }
    false
}

/// Whether `t` is one of `thunks`.
fn has_thunk(thunks: &Vec<Thunk>, t: Thunk) -> (found: bool)
    ensures
        found == thunks_view(thunks@).contains(t@),
{
    let mut i: usize = 0;
    while i < thunks.len()
        invariant
            i <= thunks.len(),
            forall|j: int| 0 <= j < i ==> thunks_view(thunks@)[j] != t@,
        decreases thunks.len() - i,
    {
        if thunks[i].index == t.index {
            assert(thunks_view(thunks@)[i as int] == t@);
            return true;
        }
        i += 1;
    }
    false
}

/// The thunk whose term replaces the variable `x`, if it is to be replaced.
fn replacement(
    store: &Store,
    x: &Ident,
    global: &Environment,
    env: &Environment,
    bound: &Vec<Ident>,
    visiting: &Vec<Thunk>,
    depth: usize,
) -> (thunk: Option<Thunk>)
    ensures
        match thunk {
            Some(t) => replaced_by(
                store@,
                x@,
                global@,
                env@,
                idents_view(bound@),
                thunks_view(visiting@),
                depth as nat,
            ) == Some(t@) && t@ < store@.len() && depth > 0,
            None => replaced_by(
                store@,
                x@,
                global@,
                env@,
                idents_view(bound@),
                thunks_view(visiting@),
                depth as nat,
            ) is None,
        },
{
    if depth == 0 || has_ident(bound, x) {
        return None;
    }
    let found = match env.get(x) {
        Some(t) => Some(t),
        None => global.get(x),
    };
    match found {
        Some(t) => {
            if t.index < store.len() && !has_thunk(visiting, t) {
                Some(t)
            } else {
                None
            }
        },
        None => None,
    }
}

/// Pushes a name.
fn push_ident(ids: &mut Vec<Ident>, id: Ident)
    ensures
        idents_view(final(ids)@) == idents_view(old(ids)@).push(id@),
        final(ids)@.len() == old(ids)@.len() + 1,
{
    ids.push(id);
    assert(idents_view(ids@) =~= idents_view(old(ids)@).push(id@));
}

/// Drops the names from index `len` on.
fn cut_idents(ids: &mut Vec<Ident>, len: usize, Ghost(before): Ghost<Seq<Seq<char>>>)
    requires
        len <= old(ids)@.len(),
        idents_view(old(ids)@).take(len as int) == before,
    ensures
        idents_view(final(ids)@) == before,
        final(ids)@.len() == len,
{
    ids.truncate(len);
    assert(idents_view(ids@) =~= idents_view(old(ids)@).take(len as int));
}

/// The term `rt` with its free variables replaced: [`subst_in`], computed.
/// `bound` and `visiting` are left as they were.
pub fn subst_term(
    store: &Store,
    rt: &RichTerm,
    global: &Environment,
    env: &Environment,
    bound: &mut Vec<Ident>,
    visiting: &mut Vec<Thunk>,
    depth: usize,
) -> (res: RichTerm)
    ensures
        res@ == subst_in(
            store@,
            rt@,
            global@,
            env@,
            idents_view(old(bound)@),
            thunks_view(old(visiting)@),
            depth as nat,
        ),
        idents_view(final(bound)@) == idents_view(old(bound)@),
        final(bound)@.len() == old(bound)@.len(),
        thunks_view(final(visiting)@) == thunks_view(old(visiting)@),
    decreases depth, rt, 1int,
{
    let ghost b = idents_view(bound@);
    let ghost v = thunks_view(visiting@);
    let ghost d = depth as nat;
    proof {
        lemma_term_view(&*rt.term);
        lemma_subst_unfold(store@, rt@, global@, env@, b, v, d);
    }
    let term = match &*rt.term {
        Term::Var(x) => {
            return subst_var(store, rt, x, global, env, bound, visiting, depth);
        },
        Term::Fun(x, body) => Term::Fun(
            x.clone(),
            subst_under(store, body, x, global, env, bound, visiting, depth),
        ),
        Term::Let(x, bound_term, body) => {
            let bound_term = subst_term(store, bound_term, global, env, bound, visiting, depth);
            let body = subst_under(store, body, x, global, env, bound, visiting, depth);
            Term::Let(x.clone(), bound_term, body)
        },
        Term::App(f, a) => {
            let f = subst_term(store, f, global, env, bound, visiting, depth);
            let a = subst_term(store, a, global, env, bound, visiting, depth);
            Term::App(f, a)
        },
        Term::Op1(op, a) => {
            let a = subst_term(store, a, global, env, bound, visiting, depth);
            Term::Op1(op.clone(), a)
        },
        Term::Op2(op, a, b) => {
            let a = subst_term(store, a, global, env, bound, visiting, depth);
            let b = subst_term(store, b, global, env, bound, visiting, depth);
            Term::Op2(*op, a, b)
        },
        Term::If(c, t, e) => {
            let c = subst_term(store, c, global, env, bound, visiting, depth);
            let t = subst_term(store, t, global, env, bound, visiting, depth);
            let e = subst_term(store, e, global, env, bound, visiting, depth);
            Term::If(c, t, e)
        },
        Term::StrChunks(chunks) => Term::StrChunks(
            subst_chunks(store, chunks, global, env, bound, visiting, depth),
        ),
        Term::Record(fields) => Term::Record(
            subst_fields(store, fields, global, env, bound, visiting, depth),
        ),
        Term::RecRecord(fields) => Term::RecRecord(
            subst_rec_fields(store, fields, global, env, bound, visiting, depth),
        ),
        Term::Switch(scrutinee, cases, default) => {
            let scrutinee = subst_term(store, scrutinee, global, env, bound, visiting, depth);
            let cases = subst_fields(store, cases, global, env, bound, visiting, depth);
            let default = match default {
                Some(d) => Some(subst_term(store, d, global, env, bound, visiting, depth)),
                None => None,
            };
            Term::Switch(scrutinee, cases, default)
        },
        Term::Array(elems) => Term::Array(
            subst_terms(store, elems, global, env, bound, visiting, depth),
        ),
        Term::MetaValue(m) => {
            let value = subst_term(store, &m.value, global, env, bound, visiting, depth);
            Term::MetaValue(
                MetaValue {
                    doc: clone_doc(&m.doc),
                    types: clone_types(&m.types),
                    contracts: clone_contracts(&m.contracts),
                    priority: m.priority,
                    value,
                },
            )
        },
        _ => {
            return rt.clone();
        },
    };
    proof {
        lemma_term_view(&term);
    }
    RichTerm::new(term, rt.pos)
}

/// Drops the last name.
fn pop_ident(ids: &mut Vec<Ident>)
    requires
        old(ids)@.len() > 0,
    ensures
        idents_view(final(ids)@) == idents_view(old(ids)@).drop_last(),
        final(ids)@.len() == old(ids)@.len() - 1,
{
    ids.pop();
    assert(idents_view(ids@) =~= idents_view(old(ids)@).drop_last());
}

/// The substitution of `body` under a binder of `x`.
fn subst_under(
    store: &Store,
    body: &RichTerm,
    x: &Ident,
    global: &Environment,
    env: &Environment,
    bound: &mut Vec<Ident>,
    visiting: &mut Vec<Thunk>,
    depth: usize,
) -> (res: RichTerm)
    ensures
        res@ == subst_in(
            store@,
            body@,
            global@,
            env@,
            idents_view(old(bound)@).push(x@),
            thunks_view(old(visiting)@),
            depth as nat,
        ),
        idents_view(final(bound)@) == idents_view(old(bound)@),
        final(bound)@.len() == old(bound)@.len(),
        thunks_view(final(visiting)@) == thunks_view(old(visiting)@),
    decreases depth, body, 2int,
{
    let ghost b = idents_view(bound@);
    push_ident(bound, x.clone());
    let res = subst_term(store, body, global, env, bound, visiting, depth);
    pop_ident(bound);
    assert(b.push(x@).drop_last() =~= b);
    res
}

/// Pushes a thunk.
fn push_thunk(thunks: &mut Vec<Thunk>, t: Thunk)
    ensures
        thunks_view(final(thunks)@) == thunks_view(old(thunks)@).push(t@),
{
    thunks.push(t);
    assert(thunks_view(thunks@) =~= thunks_view(old(thunks)@).push(t@));
}

/// Drops the last thunk.
fn pop_thunk(thunks: &mut Vec<Thunk>)
    requires
        old(thunks)@.len() > 0,
    ensures
        thunks_view(final(thunks)@) == thunks_view(old(thunks)@).drop_last(),
{
    thunks.pop();
    assert(thunks_view(thunks@) =~= thunks_view(old(thunks)@).drop_last());
}

/// The substitution of the variable `x`, which is the term of `rt`.
fn subst_var(
    store: &Store,
    rt: &RichTerm,
    x: &Ident,
    global: &Environment,
    env: &Environment,
    bound: &Vec<Ident>,
    visiting: &mut Vec<Thunk>,
    depth: usize,
) -> (res: RichTerm)
    requires
        *rt@.term == TermView::Var(x@),
    ensures
        res@ == subst_in(
            store@,
            rt@,
            global@,
            env@,
            idents_view(bound@),
            thunks_view(old(visiting)@),
            depth as nat,
        ),
        thunks_view(final(visiting)@) == thunks_view(old(visiting)@),
    decreases depth, rt, 0int,
{
    let ghost v = thunks_view(visiting@);
    match replacement(store, x, global, env, bound, visiting, depth) {
        Some(t) => {
            let c = store.closure(t);
            let mut inner: Vec<Ident> = Vec::new();
            assert(idents_view(inner@) =~= Seq::empty());
            push_thunk(visiting, t);
            let res = subst_term(store, &c.body, global, &c.env, &mut inner, visiting, depth - 1);
            assert(thunks_view(visiting@).len() > 0);
            pop_thunk(visiting);
            assert(v.push(t@).drop_last() =~= v);
            res
        },
        None => rt.clone(),
    }
}

/// The fields of a recursive record with their terms substituted: the names
/// of the fields are bound in all of them.
fn subst_rec_fields(
    store: &Store,
    fields: &Vec<(Ident, RichTerm)>,
    global: &Environment,
    env: &Environment,
    bound: &mut Vec<Ident>,
    visiting: &mut Vec<Thunk>,
    depth: usize,
) -> (res: Vec<(Ident, RichTerm)>)
    ensures
        fields_view(res@) == subst_fields_in(
            store@,
            fields_view(fields@),
            global@,
            env@,
            idents_view(old(bound)@) + field_names(fields_view(fields@)),
            thunks_view(old(visiting)@),
            depth as nat,
        ),
        idents_view(final(bound)@) == idents_view(old(bound)@),
        final(bound)@.len() == old(bound)@.len(),
        thunks_view(final(visiting)@) == thunks_view(old(visiting)@),
    decreases depth, fields, 1int,
{
    let ghost b = idents_view(bound@);
    let len = bound.len();
    let mut i: usize = 0;
    assert(idents_view(bound@) =~= b + field_names(fields_view(fields@)).take(0));
    while i < fields.len()
        invariant
            i <= fields.len(),
            len == old(bound)@.len(),
            bound@.len() == len + i,
            b == idents_view(old(bound)@),
            idents_view(bound@) == b + field_names(fields_view(fields@)).take(i as int),
        decreases fields.len() - i,
    {
        push_ident(bound, fields[i].0.clone());
        assert(field_names(fields_view(fields@)).take(i as int + 1) =~= field_names(
            fields_view(fields@),
        ).take(i as int).push(fields[i as int].0@));
        assert(idents_view(bound@) =~= b + field_names(fields_view(fields@)).take(i as int + 1));
        i += 1;
    }
    assert(field_names(fields_view(fields@)).take(i as int) =~= field_names(fields_view(fields@)));
    let res = subst_fields(store, fields, global, env, bound, visiting, depth);
    assert(idents_view(bound@).take(len as int) =~= b);
    cut_idents(bound, len, Ghost(b));
    res
}

/// The fields with their terms substituted.
fn subst_fields(
    store: &Store,
    fields: &Vec<(Ident, RichTerm)>,
    global: &Environment,
    env: &Environment,
    bound: &mut Vec<Ident>,
    visiting: &mut Vec<Thunk>,
    depth: usize,
) -> (res: Vec<(Ident, RichTerm)>)
    ensures
        fields_view(res@) == subst_fields_in(
            store@,
            fields_view(fields@),
            global@,
            env@,
            idents_view(old(bound)@),
            thunks_view(old(visiting)@),
            depth as nat,
        ),
        idents_view(final(bound)@) == idents_view(old(bound)@),
        final(bound)@.len() == old(bound)@.len(),
        thunks_view(final(visiting)@) == thunks_view(old(visiting)@),
    decreases depth, fields, 0int,
{
    let ghost goal = subst_fields_in(
        store@,
        fields_view(fields@),
        global@,
        env@,
        idents_view(bound@),
        thunks_view(visiting@),
        depth as nat,
    );
    let mut res: Vec<(Ident, RichTerm)> = Vec::new();
    let mut i: usize = 0;
    assert(fields_view(res@) =~= goal.take(0));
    while i < fields.len()
        invariant
            i <= fields.len(),
            goal == subst_fields_in(
                store@,
                fields_view(fields@),
                global@,
                env@,
                idents_view(old(bound)@),
                thunks_view(old(visiting)@),
                depth as nat,
            ),
            fields_view(res@) == goal.take(i as int),
            idents_view(bound@) == idents_view(old(bound)@),
            bound@.len() == old(bound)@.len(),
            thunks_view(visiting@) == thunks_view(old(visiting)@),
        decreases fields.len() - i,
    {
        let ghost before = fields_view(res@);
        let t = subst_term(store, &fields[i].1, global, env, bound, visiting, depth);
        res.push((fields[i].0.clone(), t));
        assert(fields_view(res@) =~= before.push(goal[i as int]));
        assert(goal.take(i as int + 1) =~= goal.take(i as int).push(goal[i as int]));
        i += 1;
    }
    assert(goal.take(i as int) =~= goal);
    res
}

/// The terms, substituted.
fn subst_terms(
    store: &Store,
    terms: &Vec<RichTerm>,
    global: &Environment,
    env: &Environment,
    bound: &mut Vec<Ident>,
    visiting: &mut Vec<Thunk>,
    depth: usize,
) -> (res: Vec<RichTerm>)
    ensures
        terms_view(res@) == subst_terms_in(
            store@,
            terms_view(terms@),
            global@,
            env@,
            idents_view(old(bound)@),
            thunks_view(old(visiting)@),
            depth as nat,
        ),
        idents_view(final(bound)@) == idents_view(old(bound)@),
        final(bound)@.len() == old(bound)@.len(),
        thunks_view(final(visiting)@) == thunks_view(old(visiting)@),
    decreases depth, terms, 0int,
{
    let ghost goal = subst_terms_in(
        store@,
        terms_view(terms@),
        global@,
        env@,
        idents_view(bound@),
        thunks_view(visiting@),
        depth as nat,
    );
    let mut res: Vec<RichTerm> = Vec::new();
    let mut i: usize = 0;
    assert(terms_view(res@) =~= goal.take(0));
    while i < terms.len()
        invariant
            i <= terms.len(),
            goal == subst_terms_in(
                store@,
                terms_view(terms@),
                global@,
                env@,
                idents_view(old(bound)@),
                thunks_view(old(visiting)@),
                depth as nat,
            ),
            terms_view(res@) == goal.take(i as int),
            idents_view(bound@) == idents_view(old(bound)@),
            bound@.len() == old(bound)@.len(),
            thunks_view(visiting@) == thunks_view(old(visiting)@),
        decreases terms.len() - i,
    {
        let ghost before = terms_view(res@);
        let t = subst_term(store, &terms[i], global, env, bound, visiting, depth);
        res.push(t);
        assert(terms_view(res@) =~= before.push(goal[i as int]));
        assert(goal.take(i as int + 1) =~= goal.take(i as int).push(goal[i as int]));
        i += 1;
    }
    assert(goal.take(i as int) =~= goal);
    res
}

/// The chunks, substituted.
fn subst_chunks(
    store: &Store,
    chunks: &Vec<StrChunk>,
    global: &Environment,
    env: &Environment,
    bound: &mut Vec<Ident>,
    visiting: &mut Vec<Thunk>,
    depth: usize,
) -> (res: Vec<StrChunk>)
    ensures
        chunks_view(res@) == subst_chunks_in(
            store@,
            chunks_view(chunks@),
            global@,
            env@,
            idents_view(old(bound)@),
            thunks_view(old(visiting)@),
            depth as nat,
        ),
        idents_view(final(bound)@) == idents_view(old(bound)@),
        final(bound)@.len() == old(bound)@.len(),
        thunks_view(final(visiting)@) == thunks_view(old(visiting)@),
    decreases depth, chunks, 0int,
{
    let ghost goal = subst_chunks_in(
        store@,
        chunks_view(chunks@),
        global@,
        env@,
        idents_view(bound@),
        thunks_view(visiting@),
        depth as nat,
    );
    let mut res: Vec<StrChunk> = Vec::new();
    let mut i: usize = 0;
    assert(chunks_view(res@) =~= goal.take(0));
    while i < chunks.len()
        invariant
            i <= chunks.len(),
            goal == subst_chunks_in(
                store@,
                chunks_view(chunks@),
                global@,
                env@,
                idents_view(old(bound)@),
                thunks_view(old(visiting)@),
                depth as nat,
            ),
            chunks_view(res@) == goal.take(i as int),
            idents_view(bound@) == idents_view(old(bound)@),
            bound@.len() == old(bound)@.len(),
            thunks_view(visiting@) == thunks_view(old(visiting)@),
        decreases chunks.len() - i,
    {
        let ghost before = chunks_view(res@);
        let chunk = match &chunks[i] {
            StrChunk::Literal(s) => StrChunk::Literal(s.clone()),
            StrChunk::Expr(e) => StrChunk::Expr(
                subst_term(store, e, global, env, bound, visiting, depth),
            ),
        };
        res.push(chunk);
        assert(chunks_view(res@) =~= before.push(goal[i as int]));
        assert(goal.take(i as int + 1) =~= goal.take(i as int).push(goal[i as int]));
        i += 1;
    }
    assert(goal.take(i as int) =~= goal);
    res
}

/// The term `rt` with every free variable that `env` or, failing that,
/// `global_env` binds replaced by the term it is bound to, substituted in
/// turn. Variables that the term binds itself stay.
pub fn subst(store: &Store, rt: RichTerm, global_env: &Environment, env: &Environment) -> (res:
    RichTerm)
    ensures
        res@ == subst_in(
            store@,
            rt@,
            global_env@,
            env@,
            Seq::empty(),
            Seq::empty(),
            store@.len(),
        ),
{
    let mut bound: Vec<Ident> = Vec::new();
    let mut visiting: Vec<Thunk> = Vec::new();
    assert(idents_view(bound@) =~= Seq::empty());
    assert(thunks_view(visiting@) =~= Seq::empty());
    subst_term(store, &rt, global_env, env, &mut bound, &mut visiting, store.len())
}

} // verus!
