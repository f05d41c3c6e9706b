//! A thunk is evaluated at most once.
//!
//! No transition changes a thunk that is evaluated, so that whoever reads
//! the thunk later reads the value that the first evaluation gave.
use crate::environment::{keeps_values, ClosureView, EnvView, StoreView, ThunkDataView, ThunkState};
use crate::eval::meta_whnf;
use crate::full::{normalize, normalize_fields, normalize_terms};
use crate::merge::lemma_merge_extends;
use crate::semantics::{closed, lookup, run, start, step, unwind, FrameView, MachineView, Mode};
use crate::semantics::StepView;
use crate::term::{at, RichTermView, TermView};
use vstd::prelude::*;

verus! {

/// A transition never takes a thunk away,
/// and never changes a thunk that was evaluated.
pub proof fn lemma_step_keeps_values(m: MachineView, global: EnvView, mode: Mode)
    ensures
        step(m, global, mode) matches StepView::Next(next) ==> keeps_values(m.store, next.store),
{
    match step(m, global, mode) {
        StepView::Next(next) => {
            if m.stack.len() > 0 {
                match m.stack.last() {
                    FrameView::Op2Second(op, first, pos) => {
                        lemma_merge_extends(m.store, first, m.control, true, pos);
                        lemma_merge_extends(m.store, first, m.control, false, pos);
                    },
                    _ => {},
                }
            }
        },
        _ => {},
    }
}

/// A thunk that is evaluated is not evaluated again. The
/// transition for a variable bound to an evaluated thunk takes the value of
/// the thunk as it is, and changes neither the store nor the stack.
pub proof fn lemma_forced_once(m: MachineView, global: EnvView, mode: Mode, x: Seq<char>, i: nat)
    requires
        *m.control.body.term == TermView::Var(x),
        lookup(m.control.env, global, x) == Some(i),
        i < m.store.len(),
        m.store[i as int].state == ThunkState::Evaluated,
    ensures
        step(m, global, mode) == StepView::Next(
            MachineView { control: m.store[i as int].closure, ..m },
        ),
{
}

/// Giving up an evaluation changes no thunk that was evaluated.
pub proof fn lemma_unwind_keeps_values(store: StoreView, stack: Seq<FrameView>)
    ensures
        keeps_values(store, unwind(store, stack)),
        unwind(store, stack).len() == store.len(),
    decreases stack.len(),
{
    if stack.len() > 0 {
        let next = match stack.last() {
            FrameView::Update(i) => if i < store.len() && store[i as int].state
                == ThunkState::Blackholed {
                store.update(
                    i as int,
                    ThunkDataView {
                        state: ThunkState::Suspended,
                        ..store[i as int]
                    },
                )
            } else {
                store
            },
            _ => store,
        };
        lemma_unwind_keeps_values(next, stack.drop_last());
    }
}

/// Whatever the outcome, the store that a run
/// leaves has every thunk of the store it began with, and the thunks that
/// were evaluated then are unchanged.
pub proof fn lemma_run_keeps_values(m: MachineView, global: EnvView, mode: Mode, fuel: nat)
    ensures
        keeps_values(m.store, run(m, global, mode, fuel).store),
    decreases fuel,
{
    lemma_unwind_keeps_values(m.store, m.stack);
    if fuel > 0 {
        match step(m, global, mode) {
            StepView::Next(next) => {
                lemma_step_keeps_values(m, global, mode);
                lemma_run_keeps_values(next, global, mode, (fuel - 1) as nat);
            },
            _ => {},
        }
    }
}

/// What was kept twice was kept.
pub proof fn lemma_keeps_values_transitive(a: StoreView, b: StoreView, c: StoreView)
    requires
        keeps_values(a, b),
        keeps_values(b, c),
    ensures
        keeps_values(a, c),
{
    assert forall|i: int| 0 <= i < a.len() && a[i].state == ThunkState::Evaluated implies c[i]
        == a[i] by {
        assert(b[i] == a[i]);
    }
}

/// A full evaluation keeps every thunk, and changes
/// none that was evaluated.
pub proof fn lemma_normalize_keeps_values(
    store: StoreView,
    c: ClosureView,
    global: EnvView,
    substitute: bool,
    fuel: nat,
)
    ensures
        keeps_values(store, normalize(store, c, global, substitute, fuel).store),
    decreases fuel, 0int, 0int,
{
    if fuel > 0 {
        let out = run(start(store, c), global, Mode::Strict, fuel);
        lemma_run_keeps_values(start(store, c), global, Mode::Strict, fuel);
        match out.result {
            Ok(v) => match *v.body.term {
                TermView::Record(fields) => {
                    lemma_normalize_fields_keep_values(
                        out.store,
                        fields,
                        v.env,
                        global,
                        substitute,
                        (fuel - 1) as nat,
                        0,
                        Seq::empty(),
                    );
                    lemma_keeps_values_transitive(
                        store,
                        out.store,
                        normalize(store, c, global, substitute, fuel).store,
                    );
                },
                TermView::Array(elems) => {
                    lemma_normalize_terms_keep_values(
                        out.store,
                        elems,
                        v.env,
                        global,
                        substitute,
                        (fuel - 1) as nat,
                        0,
                        Seq::empty(),
                    );
                    lemma_keeps_values_transitive(
                        store,
                        out.store,
                        normalize(store, c, global, substitute, fuel).store,
                    );
                },
                _ => {},
            },
            Err(_) => {},
        }
    }
}

/// The full evaluation of fields keeps every thunk, and changes none that
/// was evaluated.
pub proof fn lemma_normalize_fields_keep_values(
    store: StoreView,
    fields: Seq<(Seq<char>, RichTermView)>,
    env: EnvView,
    global: EnvView,
    substitute: bool,
    fuel: nat,
    i: int,
    done: Seq<(Seq<char>, RichTermView)>,
)
    ensures
        keeps_values(
            store,
            normalize_fields(store, fields, env, global, substitute, fuel, i, done).store,
        ),
    decreases fuel, 1int, fields.len() - i,
{
    if 0 <= i < fields.len() {
        let c = ClosureView { body: fields[i].1, env };
        let one = normalize(store, c, global, substitute, fuel);
        lemma_normalize_keeps_values(store, c, global, substitute, fuel);
        match one.result {
            Ok(t) => {
                lemma_normalize_fields_keep_values(
                    one.store,
                    fields,
                    env,
                    global,
                    substitute,
                    fuel,
                    i + 1,
                    done.push((fields[i].0, t)),
                );
                lemma_keeps_values_transitive(
                    store,
                    one.store,
                    normalize_fields(store, fields, env, global, substitute, fuel, i, done).store,
                );
            },
            Err(_) => {},
        }
    }
}

/// The full evaluation of terms keeps every thunk, and changes none that was
/// evaluated.
pub proof fn lemma_normalize_terms_keep_values(
    store: StoreView,
    terms: Seq<RichTermView>,
    env: EnvView,
    global: EnvView,
    substitute: bool,
    fuel: nat,
    i: int,
    done: Seq<RichTermView>,
)
    ensures
        keeps_values(
            store,
            normalize_terms(store, terms, env, global, substitute, fuel, i, done).store,
        ),
    decreases fuel, 1int, terms.len() - i,
{
    if 0 <= i < terms.len() {
        let c = ClosureView { body: terms[i], env };
        let one = normalize(store, c, global, substitute, fuel);
        lemma_normalize_keeps_values(store, c, global, substitute, fuel);
        match one.result {
            Ok(t) => {
                lemma_normalize_terms_keep_values(
                    one.store,
                    terms,
                    env,
                    global,
                    substitute,
                    fuel,
                    i + 1,
                    done.push(t),
                );
                lemma_keeps_values_transitive(
                    store,
                    one.store,
                    normalize_terms(store, terms, env, global, substitute, fuel, i, done).store,
                );
            },
            Err(_) => {},
        }
    }
}

/// An evaluation that stops at a metavalue keeps every
/// thunk, and changes none that was evaluated.
pub proof fn lemma_meta_keeps_values(store: StoreView, t: RichTermView, global: EnvView, fuel: nat)
    ensures
        keeps_values(store, meta_whnf(store, t, global, fuel).store),
{
    let first = run(start(store, closed(t)), global, Mode::Weak, fuel);
    lemma_run_keeps_values(start(store, closed(t)), global, Mode::Weak, fuel);
    match first.result {
        Ok(c) => match *c.body.term {
            TermView::MetaValue(m) => {
                let inner = start(first.store, ClosureView { body: m.value, env: c.env });
                lemma_run_keeps_values(inner, global, Mode::Strict, fuel);
                lemma_keeps_values_transitive(
                    store,
                    first.store,
                    run(inner, global, Mode::Strict, fuel).store,
                );
            },
            _ => {},
        },
        Err(_) => {},
    }
}

} // verus!
