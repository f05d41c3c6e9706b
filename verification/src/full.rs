//! Full evaluation: a value with all its parts evaluated.
//!
//! A term is reduced to weak head normal form; where that is a record or an
//! array, every field and element is evaluated in turn in the same way, in
//! the store the one before left. What is no record and no array is the end
//! of it: `eval_full` substitutes its free variables, `eval_deep` leaves it
//! as it is.
use crate::environment::{keeps_values, Closure, ClosureView, EnvView, Environment, Store};
use crate::environment::StoreView;
use crate::error::{EvalError, EvalErrorView};
use crate::eval::{run, term_result_view, Outcome};
use crate::identifier::Ident;
use crate::semantics;
use crate::semantics::{closed, is_whnf, Mode};
use crate::subst::{subst, subst_in};
use crate::term::{at, fields_view, lemma_term_view, terms_view, RichTerm, RichTermView, Term};
use crate::term::TermView;
use vstd::prelude::*;

verus! {

/// The outcome of evaluating a sequence of fields: the fields evaluated, or
/// the first error; and the store.
pub struct FieldsOutcome {
    pub result: Result<Seq<(Seq<char>, RichTermView)>, EvalErrorView>,
    pub store: StoreView,
}

/// The outcome of evaluating a sequence of terms: the terms evaluated, or the
/// first error; and the store.
pub struct TermsOutcome {
    pub result: Result<Seq<RichTermView>, EvalErrorView>,
    pub store: StoreView,
}

/// The term of `v` with its free variables replaced by what `v.env` and
/// `global` bind them to.
pub open spec fn closed_term(store: StoreView, v: ClosureView, global: EnvView) -> RichTermView {
    subst_in(store, v.body, global, v.env, Seq::empty(), Seq::empty(), store.len())
}

/// The full evaluation of the closure `c`.
///
/// `fuel` bounds the steps of each reduction to weak head normal form, and
/// how deep records and arrays may nest in the result: the parts of a value
/// have `fuel - 1`.
pub open spec fn normalize(
    store: StoreView,
    c: ClosureView,
    global: EnvView,
    substitute: bool,
    fuel: nat,
) -> Outcome
    decreases fuel, 0int, 0int,
{
    if fuel == 0 {
        Outcome { result: Err(EvalErrorView::StepLimit), store }
    } else {
        let out = semantics::run(semantics::start(store, c), global, Mode::Strict, fuel);
        match out.result {
            Err(e) => Outcome { result: Err(e), store: out.store },
            Ok(v) => match *v.body.term {
                TermView::Record(fields) => {
                    let parts = normalize_fields(
                        out.store,
                        fields,
                        v.env,
                        global,
                        substitute,
                        (fuel - 1) as nat,
                        0,
                        Seq::empty(),
                    );
                    Outcome {
                        result: match parts.result {
                            Ok(fs) => Ok(at(TermView::Record(fs), v.body.pos)),
                            Err(e) => Err(e),
                        },
                        store: parts.store,
                    }
                },
                TermView::Array(elems) => {
                    let parts = normalize_terms(
                        out.store,
                        elems,
                        v.env,
                        global,
                        substitute,
                        (fuel - 1) as nat,
                        0,
                        Seq::empty(),
                    );
                    Outcome {
                        result: match parts.result {
                            Ok(ts) => Ok(at(TermView::Array(ts), v.body.pos)),
                            Err(e) => Err(e),
                        },
                        store: parts.store,
                    }
                },
                _ => Outcome {
                    result: Ok(
                        if substitute {
                            closed_term(out.store, v, global)
                        } else {
                            v.body
                        },
                    ),
                    store: out.store,
                },
            },
        }
    }
}

/// The full evaluation of the fields from index `i` on, one after the other,
/// after `done`.
pub open spec fn normalize_fields(
    store: StoreView,
    fields: Seq<(Seq<char>, RichTermView)>,
    env: EnvView,
    global: EnvView,
    substitute: bool,
    fuel: nat,
    i: int,
    done: Seq<(Seq<char>, RichTermView)>,
) -> FieldsOutcome
    decreases fuel, 1int, fields.len() - i,
{
    if i < 0 || i >= fields.len() {
        FieldsOutcome { result: Ok(done), store }
    } else {
        let one = normalize(
            store,
            ClosureView { body: fields[i].1, env },
            global,
            substitute,
            fuel,
        );
        match one.result {
            Err(e) => FieldsOutcome { result: Err(e), store: one.store },
            Ok(t) => normalize_fields(
                one.store,
                fields,
                env,
                global,
                substitute,
                fuel,
                i + 1,
                done.push((fields[i].0, t)),
            ),
        }
    }
}

/// The full evaluation of the terms from index `i` on, one after the other,
/// after `done`.
pub open spec fn normalize_terms(
    store: StoreView,
    terms: Seq<RichTermView>,
    env: EnvView,
    global: EnvView,
    substitute: bool,
    fuel: nat,
    i: int,
    done: Seq<RichTermView>,
) -> TermsOutcome
    decreases fuel, 1int, terms.len() - i,
{
    if i < 0 || i >= terms.len() {
        TermsOutcome { result: Ok(done), store }
    } else {
        let one = normalize(store, ClosureView { body: terms[i], env }, global, substitute, fuel);
        match one.result {
            Err(e) => TermsOutcome { result: Err(e), store: one.store },
            Ok(t) => normalize_terms(
                one.store,
                terms,
                env,
                global,
                substitute,
                fuel,
                i + 1,
                done.push(t),
            ),
        }
    }
}

/// Whether the term is a value all through: a record whose fields are, an
/// array whose elements are, or any other term in weak head normal form.
pub open spec fn is_normal(t: RichTermView) -> bool
    decreases t, 0int,
{
    match *t.term {
        TermView::Record(fields) => normal_fields(fields, 0),
        TermView::Array(elems) => normal_terms(elems, 0),
        other => is_whnf(other),
    }
}

/// Whether the fields from index `i` on are values all through.
pub open spec fn normal_fields(fields: Seq<(Seq<char>, RichTermView)>, i: int) -> bool
    decreases fields, fields.len() - i,
{
    if i < 0 || i >= fields.len() {
        true
    } else {
        is_normal(fields[i].1) && normal_fields(fields, i + 1)
    }
}

/// Whether the terms from index `i` on are values all through.
pub open spec fn normal_terms(terms: Seq<RichTermView>, i: int) -> bool
    decreases terms, terms.len() - i,
{
    if i < 0 || i >= terms.len() {
        true
    } else {
        is_normal(terms[i]) && normal_terms(terms, i + 1)
    }
}

/// Evaluates the closure `c` in full: [`normalize`], computed.
#[verifier::loop_isolation(false)]
pub fn normalize_closure(
    store: &mut Store,
    c: Closure,
    global: &Environment,
    substitute: bool,
    fuel: u64,
) -> (result: Result<RichTerm, EvalError>)
    ensures
        term_result_view(result) == normalize(
            old(store)@,
            c@,
            global@,
            substitute,
            fuel as nat,
        ).result,
        final(store)@ == normalize(old(store)@, c@, global@, substitute, fuel as nat).store,
        result matches Ok(v) ==> is_normal(v@),
        keeps_values(old(store)@, final(store)@),
    decreases fuel,
{
    proof {
        crate::laws::full_evaluation::lemma_full_evaluation_is_normal(
            old(store)@,
            c@,
            global@,
            substitute,
            fuel as nat,
        );
        crate::laws::memoization::lemma_normalize_keeps_values(
            old(store)@,
            c@,
            global@,
            substitute,
            fuel as nat,
        );
    }
    if fuel == 0 {
        return Err(EvalError::StepLimit);
    }
    let v = match run(store, c, global, Mode::Strict, fuel) {
        Ok(v) => v,
        Err(e) => {
            return Err(e);
        },
    };
    proof {
        lemma_term_view(&*v.body.term);
    }
    let ghost reached = store@;
    match &*v.body.term {
        Term::Record(fields) => {
            let ghost fv = fields_view(fields@);
            let ghost goal = normalize_fields(
                reached,
                fv,
                v.env@,
                global@,
                substitute,
                (fuel - 1) as nat,
                0,
                Seq::empty(),
            );
            let mut done: Vec<(Ident, RichTerm)> = Vec::new();
            let mut i: usize = 0;
            assert(fields_view(done@) =~= Seq::empty());
            while i < fields.len()
                invariant
                    i <= fields.len(),
                    fuel > 0,
                    fv == fields_view(fields@),
                    normalize_fields(
                        store@,
                        fv,
                        v.env@,
                        global@,
                        substitute,
                        (fuel - 1) as nat,
                        i as int,
                        fields_view(done@),
                    ) == goal,
                decreases fields.len() - i,
            {
                let ghost before = fields_view(done@);
                let part = Closure { body: fields[i].1.clone(), env: v.env.clone() };
                match normalize_closure(store, part, global, substitute, fuel - 1) {
                    Err(e) => {
                        return Err(e);
                    },
                    Ok(t) => {
                        done.push((fields[i].0.clone(), t));
                        assert(fields_view(done@) =~= before.push((fv[i as int].0, t@)));
                    },
                }
                i += 1;
            }
            let record = Term::Record(done);
            proof {
                lemma_term_view(&record);
            }
            Ok(RichTerm::new(record, v.body.pos))
        },
        Term::Array(elems) => {
            let ghost ev = terms_view(elems@);
            let ghost goal = normalize_terms(
                reached,
                ev,
                v.env@,
                global@,
                substitute,
                (fuel - 1) as nat,
                0,
                Seq::empty(),
            );
            let mut done: Vec<RichTerm> = Vec::new();
            let mut i: usize = 0;
            assert(terms_view(done@) =~= Seq::empty());
            while i < elems.len()
                invariant
                    i <= elems.len(),
                    fuel > 0,
                    ev == terms_view(elems@),
                    normalize_terms(
                        store@,
                        ev,
                        v.env@,
                        global@,
                        substitute,
                        (fuel - 1) as nat,
                        i as int,
                        terms_view(done@),
                    ) == goal,
                decreases elems.len() - i,
            {
                let ghost before = terms_view(done@);
                let part = Closure { body: elems[i].clone(), env: v.env.clone() };
                match normalize_closure(store, part, global, substitute, fuel - 1) {
                    Err(e) => {
                        return Err(e);
                    },
                    Ok(t) => {
                        done.push(t);
                        assert(terms_view(done@) =~= before.push(t@));
                    },
                }
                i += 1;
            }
            let array = Term::Array(done);
            proof {
                lemma_term_view(&array);
            }
            Ok(RichTerm::new(array, v.body.pos))
        },
        _ => {
            if substitute {
                Ok(subst(store, v.body.clone(), global, &v.env))
            } else {
                Ok(v.body.clone())
            }
        },
    }
}

/// Evaluates the term `t` in full: every field of every record and every
/// element of every array of the result is evaluated, and what is left of
/// variables is replaced by what they are bound to.
pub fn eval_full(t: RichTerm, global_env: &Environment, store: &mut Store, fuel: u64) -> (result:
    Result<RichTerm, EvalError>)
    ensures
        term_result_view(result) == normalize(
            old(store)@,
            closed(t@),
            global_env@,
            true,
            fuel as nat,
        ).result,
        final(store)@ == normalize(old(store)@, closed(t@), global_env@, true, fuel as nat).store,
        result matches Ok(v) ==> is_normal(v@),
        keeps_values(old(store)@, final(store)@),
{
    normalize_closure(store, Closure::atomic_closure(t), global_env, true, fuel)
}

/// Evaluates the term `t` as [`eval_full`] does, but leaves the variables of
/// what is no record and no array as they are.
pub fn eval_deep(t: RichTerm, global_env: &Environment, store: &mut Store, fuel: u64) -> (result:
    Result<RichTerm, EvalError>)
    ensures
        term_result_view(result) == normalize(
            old(store)@,
            closed(t@),
            global_env@,
            false,
            fuel as nat,
        ).result,
        final(store)@ == normalize(old(store)@, closed(t@), global_env@, false, fuel as nat).store,
        result matches Ok(v) ==> is_normal(v@),
        keeps_values(old(store)@, final(store)@),
{
    normalize_closure(store, Closure::atomic_closure(t), global_env, false, fuel)
}

} // verus!
