//! Strict evaluation looks through metadata.
use crate::environment::{ClosureView, EnvView, StoreView, ThunkDataView};
use crate::error::EvalErrorView;
use crate::eval::{plain_whnf, whnf, STEP_LIMIT};
use crate::position::TermPos;
use crate::semantics::{closed, keeps_metavalue, run, start, step, Mode, StepView};
use crate::term::{at, MetaValueView, RichTermView, TermView};
use vstd::prelude::*;

verus! {

/// The strict evaluation of a metavalue
/// is the evaluation of the value inside it, one step later. The metadata
/// (documentation, annotations, priority) makes no difference.
pub proof fn lemma_metavalue_transparent(
    store: StoreView,
    meta: MetaValueView,
    pos: TermPos,
    env: EnvView,
    global: EnvView,
    fuel: nat,
)
    ensures
        run(
            start(store, ClosureView { body: at(TermView::MetaValue(meta), pos), env }),
            global,
            Mode::Strict,
            fuel + 1,
        ) == run(
            start(store, ClosureView { body: meta.value, env }),
            global,
            Mode::Strict,
            fuel,
        ),
{
    let m = start(store, ClosureView { body: at(TermView::MetaValue(meta), pos), env });
    assert(m.stack.len() == 0);
    assert(!keeps_metavalue(m.stack, Mode::Strict));
    assert(step(m, global, Mode::Strict) == StepView::Next(
        start(store, ClosureView { body: meta.value, env }),
    ));
}

/// The term `t` under the layers of metadata `layers`, the first one
/// outermost. Each layer gives the metadata; the value it holds is what the
/// layers after it make.
pub open spec fn wrapped(layers: Seq<(MetaValueView, TermPos)>, t: RichTermView) -> RichTermView
    decreases layers.len(),
{
    if layers.len() == 0 {
        t
    } else {
        at(
            TermView::MetaValue(
                MetaValueView { value: wrapped(layers.drop_first(), t), ..layers[0].0 },
            ),
            layers[0].1,
        )
    }
}

/// The strict evaluation of a term under any number
/// of layers of metadata is the evaluation of the term itself, one step
/// later for each layer.
pub proof fn lemma_metavalues_transparent(
    store: StoreView,
    layers: Seq<(MetaValueView, TermPos)>,
    t: RichTermView,
    env: EnvView,
    global: EnvView,
    fuel: nat,
)
    ensures
        run(
            start(store, ClosureView { body: wrapped(layers, t), env }),
            global,
            Mode::Strict,
            fuel + layers.len(),
        ) == run(start(store, ClosureView { body: t, env }), global, Mode::Strict, fuel),
    decreases layers.len(),
{
    if layers.len() > 0 {
        let inner = wrapped(layers.drop_first(), t);
        lemma_metavalue_transparent(
            store,
            MetaValueView { value: inner, ..layers[0].0 },
            layers[0].1,
            env,
            global,
            (fuel + layers.len() - 1) as nat,
        );
        lemma_metavalues_transparent(store, layers.drop_first(), t, env, global, fuel);
    }
}

/// For [`crate::eval::eval_no_import`], a term under layers of metadata
/// evaluates to what the term itself evaluates to,
/// if the term needs no more than the steps that are left once one step was
/// spent on each layer.
pub proof fn lemma_plain_metavalues_transparent(
    layers: Seq<(MetaValueView, TermPos)>,
    t: RichTermView,
)
    requires
        layers.len() <= STEP_LIMIT,
        whnf(Seq::empty(), t, Map::empty(), (STEP_LIMIT - layers.len()) as nat).result != Err::<
            RichTermView,
            EvalErrorView,
        >(EvalErrorView::StepLimit),
    ensures
        plain_whnf(wrapped(layers, t)) == plain_whnf(t),
{
    let store = Seq::<ThunkDataView>::empty();
    let global = Map::<Seq<char>, nat>::empty();
    let less = (STEP_LIMIT - layers.len()) as nat;
    lemma_metavalues_transparent(store, layers, t, Map::empty(), global, less);
    crate::laws::evaluation::lemma_fuel_monotone(
        start(store, closed(t)),
        global,
        Mode::Strict,
        less,
        STEP_LIMIT as nat,
    );
}

} // verus!
