//! Full evaluation leaves nothing to evaluate.
use crate::environment::{ClosureView, EnvView, StoreView};
use crate::full::{closed_term, is_normal, normal_fields, normal_terms, normalize, normalize_fields};
use crate::full::normalize_terms;
use crate::laws::evaluation::lemma_run_gives_whnf;
use crate::semantics::{is_whnf, run, start, Mode};
use crate::subst::lemma_subst_unfold;
use crate::term::{RichTermView, TermView};
use vstd::prelude::*;

verus! {

/// Fields are values all through from an index on if each of them is.
proof fn lemma_normal_fields(fields: Seq<(Seq<char>, RichTermView)>, i: int)
    requires
        0 <= i,
        forall|n: int| i <= n < fields.len() ==> is_normal((#[trigger] fields[n]).1),
    ensures
        normal_fields(fields, i),
    decreases fields.len() - i,
{
    if i < fields.len() {
        lemma_normal_fields(fields, i + 1);
    }
}

/// Terms are values all through from an index on if each of them is.
proof fn lemma_normal_terms(terms: Seq<RichTermView>, i: int)
    requires
        0 <= i,
        forall|n: int| i <= n < terms.len() ==> is_normal(#[trigger] terms[n]),
    ensures
        normal_terms(terms, i),
    decreases terms.len() - i,
{
    if i < terms.len() {
        lemma_normal_terms(terms, i + 1);
    }
}

/// The full evaluation of fields gives fields that are values all through.
proof fn lemma_normalize_fields_normal(
    store: StoreView,
    fields: Seq<(Seq<char>, RichTermView)>,
    env: EnvView,
    global: EnvView,
    substitute: bool,
    fuel: nat,
    i: int,
    done: Seq<(Seq<char>, RichTermView)>,
)
    requires
        0 <= i,
        forall|n: int| 0 <= n < done.len() ==> is_normal((#[trigger] done[n]).1),
    ensures
        normalize_fields(store, fields, env, global, substitute, fuel, i, done).result matches Ok(
            out,
        ) ==> forall|n: int| 0 <= n < out.len() ==> is_normal((#[trigger] out[n]).1),
    decreases fuel, 1int, fields.len() - i,
{
    if i < fields.len() {
        let c = ClosureView { body: fields[i].1, env };
        lemma_full_evaluation_is_normal(store, c, global, substitute, fuel);
        let one = normalize(store, c, global, substitute, fuel);
        match one.result {
            Ok(t) => {
                lemma_normalize_fields_normal(
                    one.store,
                    fields,
                    env,
                    global,
                    substitute,
                    fuel,
                    i + 1,
                    done.push((fields[i].0, t)),
                );
            },
            Err(_) => {},
        }
    }
}

/// The full evaluation of terms gives terms that are values all through.
proof fn lemma_normalize_terms_normal(
    store: StoreView,
    terms: Seq<RichTermView>,
    env: EnvView,
    global: EnvView,
    substitute: bool,
    fuel: nat,
    i: int,
    done: Seq<RichTermView>,
)
    requires
        0 <= i,
        forall|n: int| 0 <= n < done.len() ==> is_normal(#[trigger] done[n]),
    ensures
        normalize_terms(store, terms, env, global, substitute, fuel, i, done).result matches Ok(
            out,
        ) ==> forall|n: int| 0 <= n < out.len() ==> is_normal(#[trigger] out[n]),
    decreases fuel, 1int, terms.len() - i,
{
    if i < terms.len() {
        let c = ClosureView { body: terms[i], env };
        lemma_full_evaluation_is_normal(store, c, global, substitute, fuel);
        let one = normalize(store, c, global, substitute, fuel);
        match one.result {
            Ok(t) => {
                lemma_normalize_terms_normal(
                    one.store,
                    terms,
                    env,
                    global,
                    substitute,
                    fuel,
                    i + 1,
                    done.push(t),
                );
            },
            Err(_) => {},
        }
    }
}

/// Full evaluation leaves nothing to evaluate: the term it gives is a value,
/// and so is every field of every record and every element of every array
/// in it, however deep.
pub proof fn lemma_full_evaluation_is_normal(
    store: StoreView,
    c: ClosureView,
    global: EnvView,
    substitute: bool,
    fuel: nat,
)
    ensures
        normalize(store, c, global, substitute, fuel).result matches Ok(t) ==> is_normal(t),
    decreases fuel, 0int, 0int,
{
    if fuel > 0 {
        let out = run(start(store, c), global, Mode::Strict, fuel);
        lemma_run_gives_whnf(start(store, c), global, Mode::Strict, fuel);
        match out.result {
            Ok(v) => match *v.body.term {
                TermView::Record(fields) => {
                    lemma_normalize_fields_normal(
                        out.store,
                        fields,
                        v.env,
                        global,
                        substitute,
                        (fuel - 1) as nat,
                        0,
                        Seq::empty(),
                    );
                    let parts = normalize_fields(
                        out.store,
                        fields,
                        v.env,
                        global,
                        substitute,
                        (fuel - 1) as nat,
                        0,
                        Seq::empty(),
                    );
                    match parts.result {
                        Ok(fs) => {
                            lemma_normal_fields(fs, 0);
                        },
                        Err(_) => {},
                    }
                },
                TermView::Array(elems) => {
                    lemma_normalize_terms_normal(
                        out.store,
                        elems,
                        v.env,
                        global,
                        substitute,
                        (fuel - 1) as nat,
                        0,
                        Seq::empty(),
                    );
                    let parts = normalize_terms(
                        out.store,
                        elems,
                        v.env,
                        global,
                        substitute,
                        (fuel - 1) as nat,
                        0,
                        Seq::empty(),
                    );
                    match parts.result {
                        Ok(ts) => {
                            lemma_normal_terms(ts, 0);
                        },
                        Err(_) => {},
                    }
                },
                _ => {
                    lemma_subst_unfold(
                        out.store,
                        v.body,
                        global,
                        v.env,
                        Seq::empty(),
                        Seq::empty(),
                        out.store.len(),
                    );
                    assert(is_whnf(*closed_term(out.store, v, global).term));
                },
            },
            Err(_) => {},
        }
    }
}

} // verus!
