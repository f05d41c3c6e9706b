//! The semantics: an abstract machine that reduces a term call-by-need.
//!
//! A machine is a store of thunks, a closure under evaluation (the control)
//! and a stack of what remains to be done with its value. [`step`] gives the
//! one transition a machine can make, [`run`] its outcome within a number of
//! steps. Everything here is specification: the executable evaluator is
//! proved against it.
use crate::environment::{suspended, ClosureView, EnvView, IdentKind, StoreView, ThunkDataView};
use crate::environment::ThunkState;
use crate::error::{EvalErrorView, Kind, Operation};
use crate::merge::{find, merge_result};
use crate::number::Number;
use crate::position::TermPos;
use crate::term::{at, BinaryOp, RichTermView, StrChunkView, TermView, UnaryOpView};
use vstd::prelude::*;

verus! {

/// What remains to be done with the value of the control.
pub enum FrameView {
    /// Apply it to this argument; with the position of the application.
    Arg(ClosureView, TermPos),
    /// Record it as the value of this thunk.
    Update(nat),
    /// Apply this operation to it.
    Op1(UnaryOpView, TermPos),
    /// It is the first operand of this operation: evaluate the second.
    Op2First(BinaryOp, ClosureView, TermPos),
    /// It is the second operand of this operation, and this is the first.
    Op2Second(BinaryOp, ClosureView, TermPos),
    /// It is the condition: go on with one of these two terms.
    If(RichTermView, RichTermView, EnvView, TermPos),
    /// It is the value of a chunk: add it to the text so far and go on with
    /// the chunks that are left.
    Chunks(Seq<char>, Seq<StrChunkView>, EnvView, TermPos),
    /// It is the tag: go on with the case it selects.
    Switch(Seq<(Seq<char>, RichTermView)>, Option<RichTermView>, EnvView, TermPos),
}

/// A state of the machine.
pub struct MachineView {
    pub store: StoreView,
    pub control: ClosureView,
    pub stack: Seq<FrameView>,
}

/// What the evaluation does with a metavalue that is the whole result.
#[derive(Debug, Clone, Copy, PartialEq, Eq, Structural)]
pub enum Mode {
    /// Go on with the value inside.
    Strict,
    /// Stop: the metavalue is the result.
    Weak,
}

/// What one transition gives.
pub enum StepView {
    /// The next state.
    Next(MachineView),
    /// Nothing: the control is the result.
    Done,
    /// An error.
    Fail(EvalErrorView),
}

/// A closure with the empty environment.
pub open spec fn closed(body: RichTermView) -> ClosureView {
    ClosureView { body, env: Map::empty() }
}

/// The thunk of `x`: in `env`, or else in `global`.
pub open spec fn lookup(env: EnvView, global: EnvView, x: Seq<char>) -> Option<nat> {
    if env.contains_key(x) {
        Some(env[x])
    } else if global.contains_key(x) {
        Some(global[x])
    } else {
        None
    }
}

/// Whether the term is in weak head normal form.
pub open spec fn is_whnf(t: TermView) -> bool {
    match t {
        TermView::Bool(_) => true,
        TermView::Num(_) => true,
        TermView::Str(_) => true,
        TermView::Fun(_, _) => true,
        TermView::Lbl(_) => true,
        TermView::Enum(_) => true,
        TermView::Record(_) => true,
        TermView::Array(_) => true,
        _ => false,
    }
}

/// Whether a metavalue is a value for what is on top of `stack`: for a merge,
/// and, in weak mode, as the whole result.
pub open spec fn keeps_metavalue(stack: Seq<FrameView>, mode: Mode) -> bool {
    if stack.len() == 0 {
        mode == Mode::Weak
    } else {
        match stack.last() {
            FrameView::Op2First(op, _, _) => op == BinaryOp::Merge() || op
                == BinaryOp::MergeDefaults(),
            FrameView::Op2Second(op, _, _) => op == BinaryOp::Merge() || op
                == BinaryOp::MergeDefaults(),
            _ => false,
        }
    }
}

/// The outcome of reading chunks from the last one back, with `acc` the text
/// so far: the text with the literals up to the next expression added, the
/// chunks before that expression, and the expression, if there is one.
pub open spec fn take_literals(acc: Seq<char>, chunks: Seq<StrChunkView>) -> (
    Seq<char>,
    Seq<StrChunkView>,
    Option<RichTermView>,
)
    decreases chunks.len(),
{
    if chunks.len() == 0 {
        (acc, chunks, None)
    } else {
        match chunks.last() {
            StrChunkView::Literal(s) => take_literals(acc + s, chunks.drop_last()),
            StrChunkView::Expr(e) => (acc, chunks.drop_last(), Some(e)),
        }
    }
}

/// The state after the text `acc` was read and `chunks` are left: the string
/// if no expression is left, and else the evaluation of the next expression.
pub open spec fn read_chunks(
    store: StoreView,
    stack: Seq<FrameView>,
    acc: Seq<char>,
    chunks: Seq<StrChunkView>,
    env: EnvView,
    pos: TermPos,
) -> MachineView {
    let (text, rest, next) = take_literals(acc, chunks);
    match next {
        None => MachineView {
            store,
            control: closed(at(TermView::Str(text), pos.inherited())),
            stack,
        },
        Some(e) => MachineView {
            store,
            control: ClosureView { body: e, env },
            stack: stack.push(FrameView::Chunks(text, rest, env, pos)),
        },
    }
}

/// The environment `env` with the first `n` of `fields` bound, the field of
/// index `i` to the thunk `base + i`.
pub open spec fn rec_env(
    env: EnvView,
    fields: Seq<(Seq<char>, RichTermView)>,
    base: nat,
    n: int,
) -> EnvView
    decreases n,
{
    if n <= 0 {
        env
    } else {
        rec_env(env, fields, base, n - 1).insert(fields[n - 1].0, (base + n - 1) as nat)
    }
}

/// One suspended thunk for each field, all in the environment `env`.
pub open spec fn field_thunks(fields: Seq<(Seq<char>, RichTermView)>, env: EnvView) -> Seq<
    ThunkDataView,
> {
    Seq::new(
        fields.len(),
        |i: int| suspended(ClosureView { body: fields[i].1, env }, IdentKind::Record),
    )
}

/// The fields, each one standing for the variable of its own name.
pub open spec fn var_fields(fields: Seq<(Seq<char>, RichTermView)>) -> Seq<
    (Seq<char>, RichTermView),
> {
    Seq::new(fields.len(), |i: int| (fields[i].0, at(TermView::Var(fields[i].0), fields[i].1.pos)))
}

/// The transition for a variable.
pub open spec fn step_var(m: MachineView, global: EnvView, x: Seq<char>, pos: TermPos) -> StepView {
    match lookup(m.control.env, global, x) {
        None => StepView::Fail(EvalErrorView::UnboundIdentifier(x, pos)),
        Some(i) => if i >= m.store.len() {
            StepView::Fail(EvalErrorView::UnboundIdentifier(x, pos))
        } else {
            let data = m.store[i as int];
            match data.state {
                ThunkState::Evaluated => StepView::Next(MachineView { control: data.closure, ..m }),
                ThunkState::Blackholed => StepView::Fail(
                    EvalErrorView::InfiniteRecursion(x, pos),
                ),
                ThunkState::Suspended => StepView::Next(
                    MachineView {
                        store: m.store.update(
                            i as int,
                            ThunkDataView { state: ThunkState::Blackholed, ..data },
                        ),
                        control: data.closure,
                        stack: m.stack.push(FrameView::Update(i)),
                    },
                ),
            }
        },
    }
}

/// The store with `value` recorded as the value of the thunk `i`. A thunk
/// takes a value once: one that is evaluated keeps the value it has.
pub open spec fn updated(store: StoreView, i: nat, value: ClosureView) -> StoreView {
    if i < store.len() && store[i as int].state != ThunkState::Evaluated {
        store.update(
            i as int,
            ThunkDataView { closure: value, state: ThunkState::Evaluated, ..store[i as int] },
        )
    } else {
        store
    }
}

/// The boolean as a closed term at the position a result of `pos` inherits.
pub open spec fn bool_result(b: bool, pos: TermPos) -> ClosureView {
    closed(at(TermView::Bool(b), pos.inherited()))
}

/// The transition that applies a unary operation to the value `v`.
pub open spec fn apply_op1(
    store: StoreView,
    stack: Seq<FrameView>,
    op: UnaryOpView,
    v: ClosureView,
    pos: TermPos,
) -> StepView {
    let t = *v.body.term;
    let next = |control: ClosureView| StepView::Next(MachineView { store, control, stack });
    match op {
        UnaryOpView::IsNum => next(bool_result(t is Num, pos)),
        UnaryOpView::IsBool => next(bool_result(t is Bool, pos)),
        UnaryOpView::IsStr => next(bool_result(t is Str, pos)),
        UnaryOpView::IsFun => next(bool_result(t is Fun, pos)),
        UnaryOpView::IsRecord => next(bool_result(t is Record, pos)),
        UnaryOpView::IsArray => next(bool_result(t is Array, pos)),
        UnaryOpView::Blame => match t {
            TermView::Lbl(label) => StepView::Fail(EvalErrorView::BlameError(label, pos)),
            _ => StepView::Fail(
                EvalErrorView::TypeMismatch(Operation::Blame, Kind::Label, v.body, pos),
            ),
        },
        UnaryOpView::StaticAccess(name) => match t {
            TermView::Record(fields) => match find(fields, name, 0) {
                Some(i) => next(ClosureView { body: fields[i].1, env: v.env }),
                None => StepView::Fail(EvalErrorView::MissingField(name, v.body, pos)),
            },
            _ => StepView::Fail(
                EvalErrorView::TypeMismatch(Operation::StaticAccess, Kind::Record, v.body, pos),
            ),
        },
    }
}

/// The transition that applies a binary operation to the values `first` and
/// `second`.
pub open spec fn apply_op2(
    store: StoreView,
    stack: Seq<FrameView>,
    op: BinaryOp,
    first: ClosureView,
    second: ClosureView,
    pos: TermPos,
) -> StepView {
    let t1 = *first.body.term;
    let t2 = *second.body.term;
    let next = |control: ClosureView| StepView::Next(MachineView { store, control, stack });
    match op {
        BinaryOp::Plus() => match (t1, t2) {
            (TermView::Num(a), TermView::Num(b)) => match Number::spec_sum(a, b) {
                Some(n) => next(closed(at(TermView::Num(n@), pos.inherited()))),
                None => StepView::Fail(EvalErrorView::NumberOverflow(pos)),
            },
            (TermView::Num(_), _) => StepView::Fail(
                EvalErrorView::TypeMismatch(Operation::Plus, Kind::Num, second.body, pos),
            ),
            _ => StepView::Fail(
                EvalErrorView::TypeMismatch(Operation::Plus, Kind::Num, first.body, pos),
            ),
        },
        BinaryOp::StrConcat() => match (t1, t2) {
            (TermView::Str(a), TermView::Str(b)) => next(
                closed(at(TermView::Str(a + b), pos.inherited())),
            ),
            (TermView::Str(_), _) => StepView::Fail(
                EvalErrorView::TypeMismatch(Operation::StrConcat, Kind::Str, second.body, pos),
            ),
            _ => StepView::Fail(
                EvalErrorView::TypeMismatch(Operation::StrConcat, Kind::Str, first.body, pos),
            ),
        },
        _ => match merge_result(store, first, second, op == BinaryOp::MergeDefaults(), pos) {
            Ok((merged_store, control)) => StepView::Next(
                MachineView { store: merged_store, control, stack },
            ),
            Err(e) => StepView::Fail(e),
        },
    }
}

/// The transition of a machine whose control `v` is a value: what the top of
/// the stack asks for.
pub open spec fn return_value(m: MachineView) -> StepView {
    let v = m.control;
    let t = *v.body.term;
    if m.stack.len() == 0 {
        StepView::Done
    } else {
        let rest = m.stack.drop_last();
        match m.stack.last() {
            FrameView::Update(i) => StepView::Next(
                MachineView { store: updated(m.store, i, v), control: v, stack: rest },
            ),
            FrameView::Arg(arg, pos) => match t {
                TermView::Fun(x, body) => StepView::Next(
                    MachineView {
                        store: m.store.push(suspended(arg, IdentKind::Lam)),
                        control: ClosureView { body, env: v.env.insert(x, m.store.len()) },
                        stack: rest,
                    },
                ),
                _ => StepView::Fail(EvalErrorView::NotAFunction(v.body, pos)),
            },
            FrameView::Op1(op, pos) => apply_op1(m.store, rest, op, v, pos),
            FrameView::Op2First(op, second, pos) => StepView::Next(
                MachineView {
                    store: m.store,
                    control: second,
                    stack: rest.push(FrameView::Op2Second(op, v, pos)),
                },
            ),
            FrameView::Op2Second(op, first, pos) => apply_op2(m.store, rest, op, first, v, pos),
            FrameView::If(then, otherwise, env, pos) => match t {
                TermView::Bool(b) => StepView::Next(
                    MachineView {
                        store: m.store,
                        control: ClosureView { body: if b { then } else { otherwise }, env },
                        stack: rest,
                    },
                ),
                _ => StepView::Fail(
                    EvalErrorView::TypeMismatch(Operation::If, Kind::Bool, v.body, pos),
                ),
            },
            FrameView::Chunks(acc, chunks, env, pos) => match t {
                TermView::Str(s) => StepView::Next(
                    read_chunks(m.store, rest, acc + s, chunks, env, pos),
                ),
                _ => StepView::Fail(
                    EvalErrorView::TypeMismatch(Operation::Interpolation, Kind::Str, v.body, pos),
                ),
            },
            FrameView::Switch(cases, default, env, pos) => {
                let selected = match t {
                    TermView::Enum(tag) => find(cases, tag, 0),
                    _ => None,
                };
                match (selected, default) {
                    (Some(i), _) => StepView::Next(
                        MachineView {
                            store: m.store,
                            control: ClosureView { body: cases[i].1, env },
                            stack: rest,
                        },
                    ),
                    (None, Some(d)) => StepView::Next(
                        MachineView {
                            store: m.store,
                            control: ClosureView { body: d, env },
                            stack: rest,
                        },
                    ),
                    (None, None) => if t is Enum {
                        StepView::Fail(EvalErrorView::NonExhaustiveSwitch(v.body, pos))
                    } else {
                        StepView::Fail(
                            EvalErrorView::TypeMismatch(Operation::Switch, Kind::Enum, v.body, pos),
                        )
                    },
                }
            },
        }
    }
}

/// The one transition of the machine `m`, with `global` the environment that
/// gives a meaning to the variables that no closure binds.
pub open spec fn step(m: MachineView, global: EnvView, mode: Mode) -> StepView {
    let rt = m.control.body;
    let env = m.control.env;
    let pos = rt.pos;
    match *rt.term {
        TermView::Var(x) => step_var(m, global, x, pos),
        TermView::App(f, a) => StepView::Next(
            MachineView {
                store: m.store,
                control: ClosureView { body: f, env },
                stack: m.stack.push(FrameView::Arg(ClosureView { body: a, env }, pos)),
            },
        ),
        TermView::Let(x, bound, body) => StepView::Next(
            MachineView {
                store: m.store.push(suspended(ClosureView { body: bound, env }, IdentKind::Let)),
                control: ClosureView { body, env: env.insert(x, m.store.len()) },
                stack: m.stack,
            },
        ),
        TermView::Op1(op, a) => StepView::Next(
            MachineView {
                store: m.store,
                control: ClosureView { body: a, env },
                stack: m.stack.push(FrameView::Op1(op, pos)),
            },
        ),
        TermView::Op2(op, a, b) => StepView::Next(
            MachineView {
                store: m.store,
                control: ClosureView { body: a, env },
                stack: m.stack.push(FrameView::Op2First(op, ClosureView { body: b, env }, pos)),
            },
        ),
        TermView::If(c, t, e) => StepView::Next(
            MachineView {
                store: m.store,
                control: ClosureView { body: c, env },
                stack: m.stack.push(FrameView::If(t, e, env, pos)),
            },
        ),
        TermView::StrChunks(chunks) => StepView::Next(
            read_chunks(m.store, m.stack, Seq::empty(), chunks, env, pos),
        ),
        TermView::Switch(scrutinee, cases, default) => StepView::Next(
            MachineView {
                store: m.store,
                control: ClosureView { body: scrutinee, env },
                stack: m.stack.push(FrameView::Switch(cases, default, env, pos)),
            },
        ),
        TermView::RecRecord(fields) => {
            let rec = rec_env(env, fields, m.store.len(), fields.len() as int);
            StepView::Next(
                MachineView {
                    store: m.store + field_thunks(fields, rec),
                    control: ClosureView {
                        body: at(TermView::Record(var_fields(fields)), pos),
                        env: rec,
                    },
                    stack: m.stack,
                },
            )
        },
        TermView::Import(name) => StepView::Fail(EvalErrorView::UnresolvedImport(name, pos)),
        TermView::MetaValue(meta) => if m.stack.len() > 0 && m.stack.last() is Update {
            return_value(m)
        } else if keeps_metavalue(m.stack, mode) {
            return_value(m)
        } else {
            StepView::Next(MachineView { control: ClosureView { body: meta.value, env }, ..m })
        },
        _ => return_value(m),
    }
}

/// The store after an evaluation was given up with `stack` left: the thunks
/// that were under evaluation are suspended again.
pub open spec fn unwind(store: StoreView, stack: Seq<FrameView>) -> StoreView
    decreases stack.len(),
{
    if stack.len() == 0 {
        store
    } else {
        let store = match stack.last() {
            FrameView::Update(i) => if i < store.len() && store[i as int].state
                == ThunkState::Blackholed {
                store.update(
                    i as int,
                    ThunkDataView { state: ThunkState::Suspended, ..store[i as int] },
                )
            } else {
                store
            },
            _ => store,
        };
        unwind(store, stack.drop_last())
    }
}

/// The outcome of a run: the value or the error, and the store it leaves.
pub struct RunView {
    pub result: Result<ClosureView, EvalErrorView>,
    pub store: StoreView,
}

/// The outcome of running the machine `m` for at most `fuel` steps: the
/// control of the first state that has no transition left, the first error,
/// or `StepLimit` when `fuel` steps did not reach either.
pub open spec fn run(m: MachineView, global: EnvView, mode: Mode, fuel: nat) -> RunView
    decreases fuel,
{
    if fuel == 0 {
        RunView { result: Err(EvalErrorView::StepLimit), store: unwind(m.store, m.stack) }
    } else {
        match step(m, global, mode) {
            StepView::Next(next) => run(next, global, mode, (fuel - 1) as nat),
            StepView::Done => RunView { result: Ok(m.control), store: m.store },
            StepView::Fail(e) => RunView { result: Err(e), store: unwind(m.store, m.stack) },
        }
    }
}

/// The machine that starts the evaluation of `closure`.
pub open spec fn start(store: StoreView, closure: ClosureView) -> MachineView {
    MachineView { store, control: closure, stack: Seq::empty() }
}

} // verus!
