//! What holds of every run of the machine.
use crate::environment::{ClosureView, EnvView, StoreView};
use crate::error::EvalErrorView;
use crate::semantics::{is_whnf, run, start, step, FrameView, MachineView, Mode, StepView};
use crate::term::{at, TermView};
use vstd::prelude::*;

verus! {

/// More steps do not change an outcome: a run that ends without `StepLimit`
/// ends the same with any larger number of steps.
pub proof fn lemma_fuel_monotone(
    m: MachineView,
    global: EnvView,
    mode: Mode,
    fuel: nat,
    more: nat,
)
    requires
        run(m, global, mode, fuel).result != Err::<ClosureView, EvalErrorView>(
            EvalErrorView::StepLimit,
        ),
        fuel <= more,
    ensures
        run(m, global, mode, more) == run(m, global, mode, fuel),
    decreases fuel,
{
    if fuel > 0 {
        match step(m, global, mode) {
            StepView::Next(next) => {
                lemma_fuel_monotone(next, global, mode, (fuel - 1) as nat, (more - 1) as nat);
            },
            _ => {},
        }
    }
}

/// No transition gives `StepLimit`: that error only says that the steps ran
/// out.
pub proof fn lemma_step_never_limits(m: MachineView, global: EnvView, mode: Mode)
    ensures
        step(m, global, mode) != StepView::Fail(EvalErrorView::StepLimit),
{
}

/// The result of an evaluation is in weak head normal form; in weak mode it
/// may also be a metavalue.
pub proof fn lemma_run_gives_whnf(m: MachineView, global: EnvView, mode: Mode, fuel: nat)
    ensures
        run(m, global, mode, fuel).result matches Ok(v) ==> is_whnf(*v.body.term) || (mode
            == Mode::Weak && *v.body.term is MetaValue),
    decreases fuel,
{
    if fuel > 0 {
        match step(m, global, mode) {
            StepView::Next(next) => {
                lemma_run_gives_whnf(next, global, mode, (fuel - 1) as nat);
            },
            _ => {},
        }
    }
}

/// A value is its own weak head normal form: its evaluation ends at once,
/// with the store as it was.
pub proof fn lemma_value_evaluates_to_itself(
    store: StoreView,
    v: ClosureView,
    global: EnvView,
    mode: Mode,
    fuel: nat,
)
    requires
        is_whnf(*v.body.term),
        fuel > 0,
    ensures
        run(start(store, v), global, mode, fuel).result == Ok::<ClosureView, EvalErrorView>(v),
        run(start(store, v), global, mode, fuel).store == store,
{
}

/// The mode matters only at the end: a machine that has not come to an end
/// of its own makes the same transition in both modes.
pub proof fn lemma_mode_matters_at_the_end_only(m: MachineView, global: EnvView)
    requires
        !is_at_an_end(m),
    ensures
        step(m, global, Mode::Strict) == step(m, global, Mode::Weak),
{
}

/// The machine `m` with the frames `below` under its stack.
pub open spec fn over(below: Seq<FrameView>, m: MachineView) -> MachineView {
    MachineView { stack: below + m.stack, ..m }
}

/// Whether the machine has come to an end of its own: its stack is empty and
/// its control is a value or a metavalue, so that what comes next is up to
/// what the machine is run for.
pub open spec fn is_at_an_end(m: MachineView) -> bool {
    m.stack.len() == 0 && (is_whnf(*m.control.body.term) || *m.control.body.term is MetaValue)
}

/// A transition looks at the top of the stack only: with more frames below,
/// a machine that has not come to an end of its own makes the same
/// transition, and what is below is still below after it.
pub proof fn lemma_step_ignores_what_is_below(
    below: Seq<FrameView>,
    m: MachineView,
    global: EnvView,
    mode: Mode,
)
    requires
        !is_at_an_end(m),
    ensures
        step(over(below, m), global, mode) == match step(m, global, mode) {
            StepView::Next(next) => StepView::Next(over(below, next)),
            other => other,
        },
{
    lemma_pushes_and_pops(below, m, global, mode);
}

/// What a transition of a machine with frames of its own gives, with more
/// frames below: the same store, control and error, and a stack that is the
/// frames below and then the stack the machine alone would have.
proof fn lemma_pushes_and_pops(
    below: Seq<FrameView>,
    m: MachineView,
    global: EnvView,
    mode: Mode,
)
    requires
        !is_at_an_end(m),
    ensures
        match (step(m, global, mode), step(over(below, m), global, mode)) {
            (StepView::Next(a), StepView::Next(b)) => a.store == b.store && a.control == b.control
                && b.stack == below + a.stack,
            (StepView::Fail(a), StepView::Fail(b)) => a == b,
            _ => false,
        },
{
    let with = over(below, m);
    assert forall|f: FrameView| #[trigger] with.stack.push(f) =~= below + m.stack.push(f) by {}
    if m.stack.len() > 0 {
        let top = m.stack.last();
        let rest = m.stack.drop_last();
        assert(with.stack.last() == top);
        assert(with.stack.drop_last() =~= below + rest);
        assert forall|f: FrameView| #[trigger]
            (below + rest).push(f) =~= below + rest.push(f) by {}
        match top {
            FrameView::Chunks(acc, chunks, env, pos) => {
                match *m.control.body.term {
                    TermView::Str(s) => {
                        lemma_read_chunks_over(below, m.store, rest, acc + s, chunks, env, pos);
                    },
                    _ => {},
                }
            },
            _ => {},
        }
    }
    match *m.control.body.term {
        TermView::StrChunks(chunks) => {
            lemma_read_chunks_over(
                below,
                m.store,
                m.stack,
                Seq::empty(),
                chunks,
                m.control.env,
                m.control.body.pos,
            );
        },
        _ => {},
    }
}

/// Reading chunks leaves what is below the stack below it.
proof fn lemma_read_chunks_over(
    below: Seq<FrameView>,
    store: StoreView,
    stack: Seq<FrameView>,
    acc: Seq<char>,
    chunks: Seq<crate::term::StrChunkView>,
    env: EnvView,
    pos: crate::position::TermPos,
)
    ensures
        crate::semantics::read_chunks(store, below + stack, acc, chunks, env, pos) == over(
            below,
            crate::semantics::read_chunks(store, stack, acc, chunks, env, pos),
        ),
{
    let (text, rest, next) = crate::semantics::take_literals(acc, chunks);
    match next {
        Some(e) => {
            let f = FrameView::Chunks(text, rest, env, pos);
            assert((below + stack).push(f) =~= below + stack.push(f));
        },
        None => {},
    }
}

/// How the run of `m` comes to an end of its own within `fuel` steps: the
/// machine it comes to and the steps it takes; or nothing, if an error or
/// the end of the steps comes first.
pub open spec fn end_of(m: MachineView, global: EnvView, fuel: nat) -> Option<(MachineView, nat)>
    decreases fuel,
{
    if is_at_an_end(m) {
        Some((m, 0nat))
    } else if fuel == 0 {
        None
    } else {
        match step(m, global, Mode::Strict) {
            StepView::Next(next) => match end_of(next, global, (fuel - 1) as nat) {
                Some((end, steps)) => Some((end, steps + 1)),
                None => None,
            },
            _ => None,
        }
    }
}

/// The run to an end takes no more steps than there are.
pub proof fn lemma_end_is_within_fuel(m: MachineView, global: EnvView, fuel: nat)
    ensures
        end_of(m, global, fuel) matches Some((_, steps)) ==> steps <= fuel,
    decreases fuel,
{
    if !is_at_an_end(m) && fuel > 0 {
        match step(m, global, Mode::Strict) {
            StepView::Next(next) => {
                lemma_end_is_within_fuel(next, global, (fuel - 1) as nat);
            },
            _ => {},
        }
    }
}

/// Evaluation composes: the run of a machine with frames below its stack is
/// the run of the machine alone to its end, and from there the run of what
/// the frames below ask for, with the steps that are left. Where the machine
/// alone fails before it comes to an end, so does the machine with the
/// frames below, with the same error.
pub proof fn lemma_run_composes(
    below: Seq<FrameView>,
    m: MachineView,
    global: EnvView,
    mode: Mode,
    fuel: nat,
)
    ensures
        match end_of(m, global, fuel) {
            Some((end, steps)) => steps <= fuel && run(over(below, m), global, mode, fuel) == run(
                over(below, end),
                global,
                mode,
                (fuel - steps) as nat,
            ),
            None => run(over(below, m), global, mode, fuel).result == run(
                m,
                global,
                mode,
                fuel,
            ).result,
        },
    decreases fuel,
{
    lemma_end_is_within_fuel(m, global, fuel);
    if !is_at_an_end(m) && fuel > 0 {
        lemma_mode_matters_at_the_end_only(m, global);
        lemma_step_ignores_what_is_below(below, m, global, mode);
        match step(m, global, mode) {
            StepView::Next(next) => {
                lemma_run_composes(below, next, global, mode, (fuel - 1) as nat);
            },
            _ => {},
        }
    }
}

} // verus!
