//! What the evaluation of the simplest terms gives: application, sum, tests
//! of kind, choice.
use crate::environment::{ClosureView, EnvView, IdentKind, StoreView, ThunkDataView, ThunkState};
use crate::error::{EvalErrorView, Kind, Operation};
use crate::eval::{whnf, Outcome};
use crate::laws::evaluation::lemma_fuel_monotone;
use crate::number::Number;
use crate::position::TermPos;
use crate::semantics::{closed, is_whnf, run, start, step, unwind, FrameView, MachineView, Mode};
use crate::semantics::StepView;
use crate::term::{at, BinaryOp, RichTermView, TermView, UnaryOpView};
use vstd::prelude::*;

verus! {

/// Giving up with a stack that holds no update leaves the store as it is.
proof fn lemma_unwind_one(store: StoreView, frame: FrameView)
    requires
        !(frame is Update),
    ensures
        unwind(store, Seq::<FrameView>::empty().push(frame)) == store,
{
    let stack = Seq::<FrameView>::empty().push(frame);
    assert(stack.drop_last() =~= Seq::<FrameView>::empty());
    assert(unwind(store, stack.drop_last()) == store);
}

/// A function that gives back its parameter, applied to a value,
/// evaluates to that value. The one thunk the application makes holds the
/// value, evaluated.
pub proof fn lemma_identity_application(
    store: StoreView,
    x: Seq<char>,
    x_pos: TermPos,
    fun_pos: TermPos,
    v: RichTermView,
    pos: TermPos,
    global: EnvView,
    fuel: nat,
)
    requires
        is_whnf(*v.term),
        fuel >= 5,
    ensures
        whnf(
            store,
            at(TermView::App(at(TermView::Fun(x, at(TermView::Var(x), x_pos)), fun_pos), v), pos),
            global,
            fuel,
        ) == (Outcome {
            result: Ok(v),
            store: store.push(
                ThunkDataView {
                    closure: closed(v),
                    ident_kind: IdentKind::Lam,
                    state: ThunkState::Evaluated,
                },
            ),
        }),
{
    let e = Map::<Seq<char>, nat>::empty();
    let none = Seq::<FrameView>::empty();
    let id = at(TermView::Fun(x, at(TermView::Var(x), x_pos)), fun_pos);
    let cv = closed(v);
    reveal_with_fuel(run, 6);
    let m0 = start(store, closed(at(TermView::App(id, v), pos)));
    let m1 = MachineView { store, control: closed(id), stack: none.push(FrameView::Arg(cv, pos)) };
    assert(step(m0, global, Mode::Strict) == StepView::Next(m1));
    assert(m1.stack.drop_last() =~= none);
    let n = store.len();
    let suspended = ThunkDataView {
        closure: cv,
        ident_kind: IdentKind::Lam,
        state: ThunkState::Suspended,
    };
    let bound = e.insert(x, n);
    let m2 = MachineView {
        store: store.push(suspended),
        control: ClosureView { body: at(TermView::Var(x), x_pos), env: bound },
        stack: none,
    };
    assert(step(m1, global, Mode::Strict) == StepView::Next(m2));
    let m3 = MachineView {
        store: m2.store.update(
            n as int,
            ThunkDataView { state: ThunkState::Blackholed, ..suspended },
        ),
        control: cv,
        stack: none.push(FrameView::Update(n)),
    };
    assert(step(m2, global, Mode::Strict) == StepView::Next(m3));
    assert(m3.stack.drop_last() =~= none);
    let evaluated = ThunkDataView {
        closure: cv,
        ident_kind: IdentKind::Lam,
        state: ThunkState::Evaluated,
    };
    let m4 = MachineView { store: store.push(evaluated), control: cv, stack: none };
    assert(m3.store.update(n as int, evaluated) =~= store.push(evaluated));
    assert(step(m3, global, Mode::Strict) == StepView::Next(m4));
    assert(step(m4, global, Mode::Strict) == StepView::Done);
    lemma_fuel_monotone(m0, global, Mode::Strict, 5, fuel);
}

/// The application of a value that is no function
/// fails with `NotAFunction`, which names the value and the place of the
/// application. The argument is not looked at.
pub proof fn lemma_only_functions_apply(
    store: StoreView,
    f: RichTermView,
    a: RichTermView,
    pos: TermPos,
    global: EnvView,
    fuel: nat,
)
    requires
        is_whnf(*f.term),
        !(*f.term is Fun),
        fuel >= 2,
    ensures
        whnf(store, at(TermView::App(f, a), pos), global, fuel) == (Outcome {
            result: Err(EvalErrorView::NotAFunction(f, pos)),
            store,
        }),
{
    let none = Seq::<FrameView>::empty();
    reveal_with_fuel(run, 3);
    let m0 = start(store, closed(at(TermView::App(f, a), pos)));
    let frame = FrameView::Arg(closed(a), pos);
    let m1 = MachineView { store, control: closed(f), stack: none.push(frame) };
    assert(step(m0, global, Mode::Strict) == StepView::Next(m1));
    assert(step(m1, global, Mode::Strict) == StepView::Fail(EvalErrorView::NotAFunction(f, pos)));
    lemma_unwind_one(store, frame);
    lemma_fuel_monotone(m0, global, Mode::Strict, 2, fuel);
}

/// The sum of two numbers evaluates to the number that is their
/// sum, at the position the sum hands down; or to `NumberOverflow` where the
/// sum is out of range. Nothing else comes of it, and the store is as it
/// was.
pub proof fn lemma_sum_of_numbers(
    store: StoreView,
    a: int,
    a_pos: TermPos,
    b: int,
    b_pos: TermPos,
    pos: TermPos,
    global: EnvView,
    fuel: nat,
)
    requires
        fuel >= 4,
    ensures
        whnf(
            store,
            at(
                TermView::Op2(
                    BinaryOp::Plus(),
                    at(TermView::Num(a), a_pos),
                    at(TermView::Num(b), b_pos),
                ),
                pos,
            ),
            global,
            fuel,
        ) == (Outcome {
            result: match Number::spec_sum(a, b) {
                Some(n) => Ok(at(TermView::Num(a + b), pos.inherited())),
                None => Err(EvalErrorView::NumberOverflow(pos)),
            },
            store,
        }),
{
    let none = Seq::<FrameView>::empty();
    let ta = at(TermView::Num(a), a_pos);
    let tb = at(TermView::Num(b), b_pos);
    reveal_with_fuel(run, 5);
    let m0 = start(store, closed(at(TermView::Op2(BinaryOp::Plus(), ta, tb), pos)));
    let f1 = FrameView::Op2First(BinaryOp::Plus(), closed(tb), pos);
    let m1 = MachineView { store, control: closed(ta), stack: none.push(f1) };
    assert(step(m0, global, Mode::Strict) == StepView::Next(m1));
    assert(m1.stack.drop_last() =~= none);
    let f2 = FrameView::Op2Second(BinaryOp::Plus(), closed(ta), pos);
    let m2 = MachineView { store, control: closed(tb), stack: none.push(f2) };
    assert(step(m1, global, Mode::Strict) == StepView::Next(m2));
    assert(m2.stack.drop_last() =~= none);
    lemma_unwind_one(store, f2);
    match Number::spec_sum(a, b) {
        Some(n) => {
            let m3 = MachineView {
                store,
                control: closed(at(TermView::Num(a + b), pos.inherited())),
                stack: none,
            };
            assert(step(m2, global, Mode::Strict) == StepView::Next(m3));
            assert(step(m3, global, Mode::Strict) == StepView::Done);
        },
        None => {
            assert(step(m2, global, Mode::Strict) == StepView::Fail(
                EvalErrorView::NumberOverflow(pos),
            ));
        },
    }
    lemma_fuel_monotone(m0, global, Mode::Strict, 4, fuel);
}

/// The sum of a number and a value that is no number fails with
/// a `TypeMismatch` that names that value.
pub proof fn lemma_sum_needs_numbers(
    store: StoreView,
    a: int,
    a_pos: TermPos,
    v: RichTermView,
    pos: TermPos,
    global: EnvView,
    fuel: nat,
)
    requires
        is_whnf(*v.term),
        !(*v.term is Num),
        fuel >= 3,
    ensures
        whnf(
            store,
            at(TermView::Op2(BinaryOp::Plus(), at(TermView::Num(a), a_pos), v), pos),
            global,
            fuel,
        ) == (Outcome {
            result: Err(EvalErrorView::TypeMismatch(Operation::Plus, Kind::Num, v, pos)),
            store,
        }),
        whnf(
            store,
            at(TermView::Op2(BinaryOp::Plus(), v, at(TermView::Num(a), a_pos)), pos),
            global,
            fuel,
        ) == (Outcome {
            result: Err(EvalErrorView::TypeMismatch(Operation::Plus, Kind::Num, v, pos)),
            store,
        }),
{
    let none = Seq::<FrameView>::empty();
    let ta = at(TermView::Num(a), a_pos);
    let error = EvalErrorView::TypeMismatch(Operation::Plus, Kind::Num, v, pos);
    reveal_with_fuel(run, 4);
    // the number first
    let m0 = start(store, closed(at(TermView::Op2(BinaryOp::Plus(), ta, v), pos)));
    let f1 = FrameView::Op2First(BinaryOp::Plus(), closed(v), pos);
    let m1 = MachineView { store, control: closed(ta), stack: none.push(f1) };
    assert(step(m0, global, Mode::Strict) == StepView::Next(m1));
    assert(m1.stack.drop_last() =~= none);
    let f2 = FrameView::Op2Second(BinaryOp::Plus(), closed(ta), pos);
    let m2 = MachineView { store, control: closed(v), stack: none.push(f2) };
    assert(step(m1, global, Mode::Strict) == StepView::Next(m2));
    assert(m2.stack.drop_last() =~= none);
    assert(step(m2, global, Mode::Strict) == StepView::Fail(error));
    lemma_unwind_one(store, f2);
    lemma_fuel_monotone(m0, global, Mode::Strict, 3, fuel);
    // the number second
    let n0 = start(store, closed(at(TermView::Op2(BinaryOp::Plus(), v, ta), pos)));
    let g1 = FrameView::Op2First(BinaryOp::Plus(), closed(ta), pos);
    let n1 = MachineView { store, control: closed(v), stack: none.push(g1) };
    assert(step(n0, global, Mode::Strict) == StepView::Next(n1));
    assert(n1.stack.drop_last() =~= none);
    let g2 = FrameView::Op2Second(BinaryOp::Plus(), closed(v), pos);
    let n2 = MachineView { store, control: closed(ta), stack: none.push(g2) };
    assert(step(n1, global, Mode::Strict) == StepView::Next(n2));
    assert(n2.stack.drop_last() =~= none);
    assert(step(n2, global, Mode::Strict) == StepView::Fail(error));
    lemma_unwind_one(store, g2);
    lemma_fuel_monotone(n0, global, Mode::Strict, 3, fuel);
}

/// Whether the operation is a test of kind.
pub open spec fn is_kind_test(op: UnaryOpView) -> bool {
    op is IsNum || op is IsBool || op is IsStr || op is IsFun || op is IsRecord || op is IsArray
}

/// What a test of kind says of a value.
pub open spec fn kind_test(op: UnaryOpView, v: TermView) -> bool {
    match op {
        UnaryOpView::IsNum => v is Num,
        UnaryOpView::IsBool => v is Bool,
        UnaryOpView::IsStr => v is Str,
        UnaryOpView::IsFun => v is Fun,
        UnaryOpView::IsRecord => v is Record,
        _ => v is Array,
    }
}

/// A test of kind on a value evaluates to a boolean, which is
/// true exactly when the value is of that kind. No test fails.
pub proof fn lemma_kind_tests(
    store: StoreView,
    op: UnaryOpView,
    v: RichTermView,
    pos: TermPos,
    global: EnvView,
    fuel: nat,
)
    requires
        is_kind_test(op),
        is_whnf(*v.term),
        fuel >= 3,
    ensures
        whnf(store, at(TermView::Op1(op, v), pos), global, fuel) == (Outcome {
            result: Ok(at(TermView::Bool(kind_test(op, *v.term)), pos.inherited())),
            store,
        }),
{
    let none = Seq::<FrameView>::empty();
    reveal_with_fuel(run, 4);
    let m0 = start(store, closed(at(TermView::Op1(op, v), pos)));
    let m1 = MachineView { store, control: closed(v), stack: none.push(FrameView::Op1(op, pos)) };
    assert(step(m0, global, Mode::Strict) == StepView::Next(m1));
    assert(m1.stack.drop_last() =~= none);
    let m2 = MachineView {
        store,
        control: closed(at(TermView::Bool(kind_test(op, *v.term)), pos.inherited())),
        stack: none,
    };
    assert(step(m1, global, Mode::Strict) == StepView::Next(m2));
    assert(step(m2, global, Mode::Strict) == StepView::Done);
    lemma_fuel_monotone(m0, global, Mode::Strict, 3, fuel);
}

/// A value is of one kind: of the tests of kind, at most one is true of it.
pub proof fn lemma_kinds_exclude(v: TermView, op1: UnaryOpView, op2: UnaryOpView)
    requires
        is_kind_test(op1),
        is_kind_test(op2),
        kind_test(op1, v),
        kind_test(op2, v),
    ensures
        op1 == op2,
{
}

/// With a condition that is a boolean, `if` goes on with the branch
/// the boolean selects, two steps on; the other branch is not looked at.
pub proof fn lemma_if_selects(
    store: StoreView,
    c: bool,
    c_pos: TermPos,
    t: RichTermView,
    e: RichTermView,
    pos: TermPos,
    env: EnvView,
    global: EnvView,
    mode: Mode,
    fuel: nat,
)
    ensures
        run(
            start(
                store,
                ClosureView {
                    body: at(TermView::If(at(TermView::Bool(c), c_pos), t, e), pos),
                    env,
                },
            ),
            global,
            mode,
            fuel + 2,
        ) == run(
            start(
                store,
                ClosureView {
                    body: if c {
                        t
                    } else {
                        e
                    },
                    env,
                },
            ),
            global,
            mode,
            fuel,
        ),
{
    let none = Seq::<FrameView>::empty();
    let cond = at(TermView::Bool(c), c_pos);
    reveal_with_fuel(run, 3);
    let m0 = start(store, ClosureView { body: at(TermView::If(cond, t, e), pos), env });
    let m1 = MachineView {
        store,
        control: ClosureView { body: cond, env },
        stack: none.push(FrameView::If(t, e, env, pos)),
    };
    assert(step(m0, global, mode) == StepView::Next(m1));
    assert(m1.stack.drop_last() =~= none);
    let m2 = start(
        store,
        ClosureView {
            body: if c {
                t
            } else {
                e
            },
            env,
        },
    );
    assert(step(m1, global, mode) == StepView::Next(m2));
}

} // verus!
