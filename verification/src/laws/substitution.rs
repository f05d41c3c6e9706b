//! Substitution leaves what the term binds itself.
use crate::environment::{EnvView, StoreView};
use crate::merge::field_names;
use crate::position::TermPos;
use crate::semantics::lookup;
use crate::subst::{lemma_subst_unfold, replaced_by, subst_chunk_in, subst_chunks_in};
use crate::subst::{subst_fields_in, subst_in, subst_terms_in};
use crate::term::{at, RichTermView, StrChunkView, TermView};
use vstd::prelude::*;
use vstd::set_lib::{lemma_int_range, lemma_len_subset, set_int_range};

verus! {

/// Whether every variable of `rt` is bound: by a binder of `rt` itself, or
/// by one of the names `bound` around it.
pub open spec fn all_bound(rt: RichTermView, bound: Seq<Seq<char>>) -> bool
    decreases rt, 0int,
{
    match *rt.term {
        TermView::Var(x) => bound.contains(x),
        TermView::Fun(x, body) => all_bound(body, bound.push(x)),
        TermView::Let(x, a, b) => all_bound(a, bound) && all_bound(b, bound.push(x)),
        TermView::App(f, a) => all_bound(f, bound) && all_bound(a, bound),
        TermView::Op1(_, a) => all_bound(a, bound),
        TermView::Op2(_, a, b) => all_bound(a, bound) && all_bound(b, bound),
        TermView::If(c, t, e) => all_bound(c, bound) && all_bound(t, bound) && all_bound(e, bound),
        TermView::StrChunks(chunks) => all_bound_chunks(chunks, bound, 0),
        TermView::Record(fields) => all_bound_fields(fields, bound, 0),
        TermView::RecRecord(fields) => all_bound_fields(fields, bound + field_names(fields), 0),
        TermView::Switch(s, cases, default) => {
            &&& all_bound(s, bound)
            &&& all_bound_fields(cases, bound, 0)
            &&& match default {
                Some(d) => all_bound(d, bound),
                None => true,
            }
        },
        TermView::Array(elems) => all_bound_terms(elems, bound, 0),
        TermView::MetaValue(m) => all_bound(m.value, bound),
        _ => true,
    }
}

/// Whether every variable of the fields from index `i` on is bound.
pub open spec fn all_bound_fields(
    fields: Seq<(Seq<char>, RichTermView)>,
    bound: Seq<Seq<char>>,
    i: int,
) -> bool
    decreases fields, fields.len() - i,
{
    if i < 0 || i >= fields.len() {
        true
    } else {
        all_bound(fields[i].1, bound) && all_bound_fields(fields, bound, i + 1)
    }
}

/// Whether every variable of the terms from index `i` on is bound.
pub open spec fn all_bound_terms(terms: Seq<RichTermView>, bound: Seq<Seq<char>>, i: int) -> bool
    decreases terms, terms.len() - i,
{
    if i < 0 || i >= terms.len() {
        true
    } else {
        all_bound(terms[i], bound) && all_bound_terms(terms, bound, i + 1)
    }
}

/// Whether every variable of the chunks from index `i` on is bound.
pub open spec fn all_bound_chunks(chunks: Seq<StrChunkView>, bound: Seq<Seq<char>>, i: int) -> bool
    decreases chunks, chunks.len() - i,
{
    if i < 0 || i >= chunks.len() {
        true
    } else {
        (match chunks[i] {
            StrChunkView::Literal(_) => true,
            StrChunkView::Expr(e) => all_bound(e, bound),
        }) && all_bound_chunks(chunks, bound, i + 1)
    }
}

/// Substitution leaves a bound variable as it is, whatever the environments
/// bind its name to.
pub proof fn lemma_subst_keeps_bound(
    store: StoreView,
    x: Seq<char>,
    pos: TermPos,
    global: EnvView,
    env: EnvView,
    bound: Seq<Seq<char>>,
    visiting: Seq<nat>,
    depth: nat,
)
    requires
        bound.contains(x),
    ensures
        subst_in(store, at(TermView::Var(x), pos), global, env, bound, visiting, depth) == at(
            TermView::Var(x),
            pos,
        ),
{
}

/// In the body of `let x = a in body`, the name `x` is
/// bound, so that a body that is the variable `x` stays the variable `x`,
/// whatever the environments bind `x` to. Only `a` is substituted.
pub proof fn lemma_subst_let_shadows(
    store: StoreView,
    x: Seq<char>,
    a: RichTermView,
    body_pos: TermPos,
    pos: TermPos,
    global: EnvView,
    env: EnvView,
    bound: Seq<Seq<char>>,
    visiting: Seq<nat>,
    depth: nat,
)
    ensures
        subst_in(
            store,
            at(TermView::Let(x, a, at(TermView::Var(x), body_pos)), pos),
            global,
            env,
            bound,
            visiting,
            depth,
        ) == at(
            TermView::Let(
                x,
                subst_in(store, a, global, env, bound, visiting, depth),
                at(TermView::Var(x), body_pos),
            ),
            pos,
        ),
{
    assert(bound.push(x)[bound.len() as int] == x);
    lemma_subst_keeps_bound(store, x, body_pos, global, env, bound.push(x), visiting, depth);
}

/// Substitution leaves the fields from index `i` on as they are if all
/// their variables are bound.
proof fn lemma_subst_fields_identity(
    store: StoreView,
    fields: Seq<(Seq<char>, RichTermView)>,
    global: EnvView,
    env: EnvView,
    bound: Seq<Seq<char>>,
    visiting: Seq<nat>,
    depth: nat,
    i: int,
)
    requires
        0 <= i,
        all_bound_fields(fields, bound, i),
    ensures
        forall|n: int|
            i <= n < fields.len() ==> subst_in(
                store,
                (#[trigger] fields[n]).1,
                global,
                env,
                bound,
                visiting,
                depth,
            ) == fields[n].1,
    decreases fields, fields.len() - i,
{
    if i < fields.len() {
        lemma_subst_bound_is_identity(store, fields[i].1, global, env, bound, visiting, depth);
        lemma_subst_fields_identity(store, fields, global, env, bound, visiting, depth, i + 1);
    }
}

/// Substitution leaves the terms from index `i` on as they are if all their
/// variables are bound.
proof fn lemma_subst_terms_identity(
    store: StoreView,
    terms: Seq<RichTermView>,
    global: EnvView,
    env: EnvView,
    bound: Seq<Seq<char>>,
    visiting: Seq<nat>,
    depth: nat,
    i: int,
)
    requires
        0 <= i,
        all_bound_terms(terms, bound, i),
    ensures
        forall|n: int|
            i <= n < terms.len() ==> subst_in(
                store,
                #[trigger] terms[n],
                global,
                env,
                bound,
                visiting,
                depth,
            ) == terms[n],
    decreases terms, terms.len() - i,
{
    if i < terms.len() {
        lemma_subst_bound_is_identity(store, terms[i], global, env, bound, visiting, depth);
        lemma_subst_terms_identity(store, terms, global, env, bound, visiting, depth, i + 1);
    }
}

/// Substitution leaves the chunks from index `i` on as they are if all
/// their variables are bound.
proof fn lemma_subst_chunks_identity(
    store: StoreView,
    chunks: Seq<StrChunkView>,
    global: EnvView,
    env: EnvView,
    bound: Seq<Seq<char>>,
    visiting: Seq<nat>,
    depth: nat,
    i: int,
)
    requires
        0 <= i,
        all_bound_chunks(chunks, bound, i),
    ensures
        forall|n: int|
            i <= n < chunks.len() ==> subst_chunk_in(
                store,
                #[trigger] chunks[n],
                global,
                env,
                bound,
                visiting,
                depth,
            ) == chunks[n],
    decreases chunks, chunks.len() - i,
{
    if i < chunks.len() {
        match chunks[i] {
            StrChunkView::Literal(_) => {},
            StrChunkView::Expr(e) => {
                lemma_subst_bound_is_identity(store, e, global, env, bound, visiting, depth);
            },
        }
        lemma_subst_chunks_identity(store, chunks, global, env, bound, visiting, depth, i + 1);
    }
}

/// A term whose variables are all bound, by its
/// own binders or by those around it, is left as it is. No binding of the
/// environments replaces a variable that a `let`, a function or a recursive
/// record of the term binds again.
pub proof fn lemma_subst_bound_is_identity(
    store: StoreView,
    rt: RichTermView,
    global: EnvView,
    env: EnvView,
    bound: Seq<Seq<char>>,
    visiting: Seq<nat>,
    depth: nat,
)
    requires
        all_bound(rt, bound),
    ensures
        subst_in(store, rt, global, env, bound, visiting, depth) == rt,
    decreases rt, 0int,
{
    lemma_subst_unfold(store, rt, global, env, bound, visiting, depth);
    match *rt.term {
        TermView::Fun(x, body) => {
            lemma_subst_bound_is_identity(store, body, global, env, bound.push(x), visiting, depth);
        },
        TermView::Let(x, a, b) => {
            lemma_subst_bound_is_identity(store, a, global, env, bound, visiting, depth);
            lemma_subst_bound_is_identity(store, b, global, env, bound.push(x), visiting, depth);
        },
        TermView::App(f, a) => {
            lemma_subst_bound_is_identity(store, f, global, env, bound, visiting, depth);
            lemma_subst_bound_is_identity(store, a, global, env, bound, visiting, depth);
        },
        TermView::Op1(_, a) => {
            lemma_subst_bound_is_identity(store, a, global, env, bound, visiting, depth);
        },
        TermView::Op2(_, a, b) => {
            lemma_subst_bound_is_identity(store, a, global, env, bound, visiting, depth);
            lemma_subst_bound_is_identity(store, b, global, env, bound, visiting, depth);
        },
        TermView::If(c, t, e) => {
            lemma_subst_bound_is_identity(store, c, global, env, bound, visiting, depth);
            lemma_subst_bound_is_identity(store, t, global, env, bound, visiting, depth);
            lemma_subst_bound_is_identity(store, e, global, env, bound, visiting, depth);
        },
        TermView::StrChunks(chunks) => {
            lemma_subst_chunks_identity(store, chunks, global, env, bound, visiting, depth, 0);
            assert(subst_chunks_in(store, chunks, global, env, bound, visiting, depth) =~= chunks);
        },
        TermView::Record(fields) => {
            lemma_subst_fields_identity(store, fields, global, env, bound, visiting, depth, 0);
            assert(subst_fields_in(store, fields, global, env, bound, visiting, depth) =~= fields);
        },
        TermView::RecRecord(fields) => {
            let inner = bound + field_names(fields);
            lemma_subst_fields_identity(store, fields, global, env, inner, visiting, depth, 0);
            assert(subst_fields_in(store, fields, global, env, inner, visiting, depth) =~= fields);
        },
        TermView::Switch(s, cases, default) => {
            lemma_subst_bound_is_identity(store, s, global, env, bound, visiting, depth);
            lemma_subst_fields_identity(store, cases, global, env, bound, visiting, depth, 0);
            assert(subst_fields_in(store, cases, global, env, bound, visiting, depth) =~= cases);
            match default {
                Some(d) => {
                    lemma_subst_bound_is_identity(store, d, global, env, bound, visiting, depth);
                },
                None => {},
            }
        },
        TermView::Array(elems) => {
            lemma_subst_terms_identity(store, elems, global, env, bound, visiting, depth, 0);
            assert(subst_terms_in(store, elems, global, env, bound, visiting, depth) =~= elems);
        },
        TermView::MetaValue(m) => {
            lemma_subst_bound_is_identity(store, m.value, global, env, bound, visiting, depth);
        },
        _ => {},
    }
}

/// Whether `visiting` holds thunks of the store, none of them twice.
pub open spec fn visits_thunks(store: StoreView, visiting: Seq<nat>) -> bool {
    &&& visiting.no_duplicates()
    &&& forall|i: int| 0 <= i < visiting.len() ==> #[trigger] visiting[i] < store.len()
}

/// There are no more thunks under substitution than there are thunks.
pub proof fn lemma_visits_are_few(store: StoreView, visiting: Seq<nat>)
    requires
        visits_thunks(store, visiting),
    ensures
        visiting.len() <= store.len(),
{
    let ints = Seq::new(visiting.len(), |i: int| visiting[i] as int);
    assert(ints.no_duplicates()) by {
        assert forall|i: int, j: int| 0 <= i < ints.len() && 0 <= j < ints.len() && i
            != j implies ints[i] != ints[j] by {
            assert(visiting[i] != visiting[j]);
        }
    }
    let range = set_int_range(0, store.len() as int);
    lemma_int_range(0, store.len() as int);
    assert(ints.to_set().subset_of(range)) by {
        assert forall|k: int| ints.to_set().contains(k) implies range.contains(k) by {
            let i = choose|i: int| 0 <= i < ints.len() && ints[i] == k;
            assert(visiting[i] < store.len());
        }
    }
    lemma_len_subset(ints.to_set(), range);
    ints.unique_seq_to_set();
}

/// The depth of a substitution is never what stops it: a substitution that
/// may go as deep as there are thunks that are not under substitution goes
/// as deep as any. What [`crate::subst::subst`] gives, which begins with the
/// number of thunks of the store, is what any greater depth gives.
pub proof fn lemma_subst_depth_suffices(
    store: StoreView,
    rt: RichTermView,
    global: EnvView,
    env: EnvView,
    bound: Seq<Seq<char>>,
    visiting: Seq<nat>,
    depth: nat,
    more: nat,
)
    requires
        visits_thunks(store, visiting),
        depth + visiting.len() >= store.len(),
        more + visiting.len() >= store.len(),
    ensures
        subst_in(store, rt, global, env, bound, visiting, depth) == subst_in(
            store,
            rt,
            global,
            env,
            bound,
            visiting,
            more,
        ),
    decreases depth, rt, 0int,
{
    lemma_subst_unfold(store, rt, global, env, bound, visiting, depth);
    lemma_subst_unfold(store, rt, global, env, bound, visiting, more);
    match *rt.term {
        TermView::Var(x) => {
            if !bound.contains(x) {
                match lookup(env, global, x) {
                    Some(i) => {
                        if i < store.len() && !visiting.contains(i) {
                            let next = visiting.push(i);
                            assert(visits_thunks(store, next)) by {
                                assert forall|a: int, b: int|
                                    0 <= a < next.len() && 0 <= b < next.len() && a
                                        != b implies next[a] != next[b] by {
                                    if a < visiting.len() && b < visiting.len() {
                                        assert(visiting[a] != visiting[b]);
                                    } else if a < visiting.len() {
                                        assert(visiting.contains(visiting[a]));
                                    } else {
                                        assert(visiting.contains(visiting[b]));
                                    }
                                }
                            }
                            lemma_visits_are_few(store, next);
                            assert(depth > 0 && more > 0);
                            assert(replaced_by(store, x, global, env, bound, visiting, depth)
                                == Some(i));
                            assert(replaced_by(store, x, global, env, bound, visiting, more)
                                == Some(i));
                            let c = store[i as int].closure;
                            lemma_subst_depth_suffices(
                                store,
                                c.body,
                                global,
                                c.env,
                                Seq::empty(),
                                next,
                                (depth - 1) as nat,
                                (more - 1) as nat,
                            );
                        }
                    },
                    None => {},
                }
            }
        },
        TermView::Fun(x, body) => {
            lemma_subst_depth_suffices(
                store,
                body,
                global,
                env,
                bound.push(x),
                visiting,
                depth,
                more,
            );
        },
        TermView::Let(x, a, b) => {
            lemma_subst_depth_suffices(store, a, global, env, bound, visiting, depth, more);
            lemma_subst_depth_suffices(
                store,
                b,
                global,
                env,
                bound.push(x),
                visiting,
                depth,
                more,
            );
        },
        TermView::App(f, a) => {
            lemma_subst_depth_suffices(store, f, global, env, bound, visiting, depth, more);
            lemma_subst_depth_suffices(store, a, global, env, bound, visiting, depth, more);
        },
        TermView::Op1(_, a) => {
            lemma_subst_depth_suffices(store, a, global, env, bound, visiting, depth, more);
        },
        TermView::Op2(_, a, b) => {
            lemma_subst_depth_suffices(store, a, global, env, bound, visiting, depth, more);
            lemma_subst_depth_suffices(store, b, global, env, bound, visiting, depth, more);
        },
        TermView::If(c, t, e) => {
            lemma_subst_depth_suffices(store, c, global, env, bound, visiting, depth, more);
            lemma_subst_depth_suffices(store, t, global, env, bound, visiting, depth, more);
            lemma_subst_depth_suffices(store, e, global, env, bound, visiting, depth, more);
        },
        TermView::StrChunks(chunks) => {
            assert forall|i: int| 0 <= i < chunks.len() implies subst_chunk_in(
                store,
                #[trigger] chunks[i],
                global,
                env,
                bound,
                visiting,
                depth,
            ) == subst_chunk_in(store, chunks[i], global, env, bound, visiting, more) by {
                match chunks[i] {
                    StrChunkView::Literal(_) => {},
                    StrChunkView::Expr(e) => {
                        lemma_subst_depth_suffices(
                            store,
                            e,
                            global,
                            env,
                            bound,
                            visiting,
                            depth,
                            more,
                        );
                    },
                }
            }
            assert(subst_chunks_in(store, chunks, global, env, bound, visiting, depth)
                =~= subst_chunks_in(store, chunks, global, env, bound, visiting, more));
        },
        TermView::Record(fields) => {
            lemma_subst_fields_depth(store, fields, global, env, bound, visiting, depth, more);
        },
        TermView::RecRecord(fields) => {
            lemma_subst_fields_depth(
                store,
                fields,
                global,
                env,
                bound + field_names(fields),
                visiting,
                depth,
                more,
            );
        },
        TermView::Switch(s, cases, default) => {
            lemma_subst_depth_suffices(store, s, global, env, bound, visiting, depth, more);
            lemma_subst_fields_depth(store, cases, global, env, bound, visiting, depth, more);
            match default {
                Some(d) => {
                    lemma_subst_depth_suffices(
                        store,
                        d,
                        global,
                        env,
                        bound,
                        visiting,
                        depth,
                        more,
                    );
                },
                None => {},
            }
        },
        TermView::Array(elems) => {
            assert forall|i: int| 0 <= i < elems.len() implies subst_in(
                store,
                #[trigger] elems[i],
                global,
                env,
                bound,
                visiting,
                depth,
            ) == subst_in(store, elems[i], global, env, bound, visiting, more) by {
                lemma_subst_depth_suffices(
                    store,
                    elems[i],
                    global,
                    env,
                    bound,
                    visiting,
                    depth,
                    more,
                );
            }
            assert(subst_terms_in(store, elems, global, env, bound, visiting, depth)
                =~= subst_terms_in(store, elems, global, env, bound, visiting, more));
        },
        TermView::MetaValue(m) => {
            lemma_subst_depth_suffices(store, m.value, global, env, bound, visiting, depth, more);
        },
        _ => {},
    }
}

/// The depth of a substitution is not what stops it in any field.
proof fn lemma_subst_fields_depth(
    store: StoreView,
    fields: Seq<(Seq<char>, RichTermView)>,
    global: EnvView,
    env: EnvView,
    bound: Seq<Seq<char>>,
    visiting: Seq<nat>,
    depth: nat,
    more: nat,
)
    requires
        visits_thunks(store, visiting),
        depth + visiting.len() >= store.len(),
        more + visiting.len() >= store.len(),
    ensures
        subst_fields_in(store, fields, global, env, bound, visiting, depth) == subst_fields_in(
            store,
            fields,
            global,
            env,
            bound,
            visiting,
            more,
        ),
    decreases depth, fields, 0int,
{
    assert forall|i: int| 0 <= i < fields.len() implies subst_in(
        store,
        (#[trigger] fields[i]).1,
        global,
        env,
        bound,
        visiting,
        depth,
    ) == subst_in(store, fields[i].1, global, env, bound, visiting, more) by {
        lemma_subst_depth_suffices(store, fields[i].1, global, env, bound, visiting, depth, more);
    }
    assert(subst_fields_in(store, fields, global, env, bound, visiting, depth)
        =~= subst_fields_in(store, fields, global, env, bound, visiting, more));
}

} // verus!
