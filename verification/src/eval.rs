//! The evaluator: the machine of [`crate::semantics`], run.
use crate::environment::{keeps_values, suspended, Closure, ClosureView, EnvView, Environment};
use crate::environment::{IdentKind, Store, StoreView, Thunk, ThunkState};
use crate::error::{EvalError, EvalErrorView, Kind, Operation};
use crate::identifier::Ident;
use crate::merge::{find_field, merge, var};
use crate::position::TermPos;
use crate::semantics;
use crate::semantics::{closed, FrameView, MachineView, Mode, StepView};
use crate::subst::{subst, subst_in};
use crate::term::{at, chunks_view, clone_chunks, clone_contracts, clone_doc, clone_fields};
use crate::term::{clone_opt_term, clone_types, fields_view, lemma_term_view, opt_term_view};
use crate::term::{BinaryOp, MetaValue, MetaValueView, RichTerm, RichTermView, StrChunk, Term};
use crate::term::{TermView, UnaryOp};
use vstd::prelude::*;
use vstd::string::*;

verus! {

/// What remains to be done with the value of the control. Each frame is
/// what its view, a [`FrameView`], says.
#[derive(Debug)]
pub enum Frame {
    /// Apply it to this argument.
    Arg(Closure, TermPos),
    /// Record it as the value of this thunk.
    Update(Thunk),
    /// Apply this operation to it.
    Op1(UnaryOp, TermPos),
    /// It is the first operand: evaluate the second, which is this.
    Op2First(BinaryOp, Closure, TermPos),
    /// It is the second operand: the first is this.
    Op2Second(BinaryOp, Closure, TermPos),
    /// It is the condition: go on with one of these two terms.
    If(RichTerm, RichTerm, Environment, TermPos),
    /// It is the value of a chunk: add it to this text and read these chunks.
    Chunks(String, Vec<StrChunk>, Environment, TermPos),
    /// It is the tag: go on with the case it selects among these.
    Switch(Vec<(Ident, RichTerm)>, Option<RichTerm>, Environment, TermPos),
}

impl View for Frame {
    type V = FrameView;

    open spec fn view(&self) -> FrameView {
        match self {
            Frame::Arg(c, pos) => FrameView::Arg(c@, *pos),
            Frame::Update(t) => FrameView::Update(t@),
            Frame::Op1(op, pos) => FrameView::Op1(op@, *pos),
            Frame::Op2First(op, c, pos) => FrameView::Op2First(*op, c@, *pos),
            Frame::Op2Second(op, c, pos) => FrameView::Op2Second(*op, c@, *pos),
            Frame::If(t, e, env, pos) => FrameView::If(t@, e@, env@, *pos),
            Frame::Chunks(acc, chunks, env, pos) => FrameView::Chunks(
                acc@,
                chunks_view(chunks@),
                env@,
                *pos,
            ),
            Frame::Switch(cases, default, env, pos) => FrameView::Switch(
                fields_view(cases@),
                opt_term_view(*default),
                env@,
                *pos,
            ),
        }
    }
}

/// The view of a stack.
pub open spec fn stack_view(stack: Seq<Frame>) -> Seq<FrameView> {
    stack.map_values(|f: Frame| f@)
}

/// What one transition of the evaluator gives.
pub enum Step {
    /// The control of the next state.
    Next(Closure),
    /// The result: the control, which is a value with nothing left to do.
    Done(Closure),
    /// An error.
    Fail(EvalError),
}

/// Whether the outcome `out` of a transition, with the store and the stack
/// it left, is what the semantics gives for the machine `pre`.
///
/// After an error the stack may have lost its top frame, but no thunk that
/// was under evaluation is forgotten: unwinding gives the same store.
pub open spec fn refines(
    out: Step,
    store: StoreView,
    stack: Seq<FrameView>,
    pre: MachineView,
    expected: StepView,
) -> bool {
    match expected {
        StepView::Next(m) => out matches Step::Next(c) && c@ == m.control && store == m.store
            && stack == m.stack,
        StepView::Done => out matches Step::Done(c) && c@ == pre.control && store == pre.store
            && stack == pre.stack,
        StepView::Fail(e) => out matches Step::Fail(err) && err@ == e && semantics::unwind(
            store,
            stack,
        ) == semantics::unwind(pre.store, pre.stack),
    }
}

/// Pushes a frame.
fn push_frame(stack: &mut Vec<Frame>, frame: Frame)
    ensures
        stack_view(final(stack)@) == stack_view(old(stack)@).push(frame@),
{
    stack.push(frame);
    assert(stack_view(stack@) =~= stack_view(old(stack)@).push(frame@));
}

/// Pops the top frame, if there is one.
fn pop_frame(stack: &mut Vec<Frame>) -> (frame: Option<Frame>)
    ensures
        match frame {
            Some(f) => old(stack)@.len() > 0 && f@ == stack_view(old(stack)@).last() && stack_view(
                final(stack)@,
            ) == stack_view(old(stack)@).drop_last(),
            None => old(stack)@.len() == 0 && final(stack)@ == old(stack)@,
        },
{
    let frame = stack.pop();
    assert(stack_view(stack@) =~= stack_view(old(stack)@).drop_last() || old(stack)@.len() == 0);
    frame
}

/// Reads `chunks` from the last one back, with `acc` the text so far.
fn read_chunks(
    stack: &mut Vec<Frame>,
    acc: String,
    chunks: Vec<StrChunk>,
    env: Environment,
    pos: TermPos,
    Ghost(store): Ghost<StoreView>,
) -> (control: Closure)
    ensures
        ({
            let m = semantics::read_chunks(
                store,
                stack_view(old(stack)@),
                acc@,
                chunks_view(chunks@),
                env@,
                pos,
            );
            control@ == m.control && stack_view(final(stack)@) == m.stack
        }),
{
    let mut text = acc;
    let mut rest = chunks;
    loop
        invariant
            semantics::take_literals(text@, chunks_view(rest@)) == semantics::take_literals(
                acc@,
                chunks_view(chunks@),
            ),
            stack@ == old(stack)@,
        decreases rest.len(),
    {
        let ghost before = chunks_view(rest@);
        match rest.pop() {
            None => {
                return Closure::atomic_closure(
                    RichTerm::new(Term::Str(text), pos.into_inherited()),
                );
            },
            Some(StrChunk::Literal(s)) => {
                assert(chunks_view(rest@) =~= before.drop_last());
                assert(before.last() == StrChunk::Literal(s)@);
                text.append(s.as_str());
            },
            Some(StrChunk::Expr(e)) => {
                assert(chunks_view(rest@) =~= before.drop_last());
                assert(before.last() == StrChunk::Expr(e)@);
                push_frame(stack, Frame::Chunks(text, rest, env.clone(), pos));
                return Closure { body: e, env };
            },
        }
    }
}

/// The transition for a variable.
fn step_var(
    store: &mut Store,
    stack: &mut Vec<Frame>,
    control: &Closure,
    global: &Environment,
    x: &Ident,
    pos: TermPos,
) -> (out: Step)
    ensures
        ({
            let pre = MachineView {
                store: old(store)@,
                control: control@,
                stack: stack_view(old(stack)@),
            };
            refines(
                out,
                final(store)@,
                stack_view(final(stack)@),
                pre,
                semantics::step_var(pre, global@, x@, pos),
            )
        }),
{
    let found = match control.env.get(x) {
        Some(t) => Some(t),
        None => global.get(x),
    };
    match found {
        None => Step::Fail(EvalError::UnboundIdentifier(x.clone(), pos)),
        Some(thunk) => {
            if thunk.index >= store.len() {
                Step::Fail(EvalError::UnboundIdentifier(x.clone(), pos))
            } else {
                match store.state(thunk) {
                    ThunkState::Evaluated => Step::Next(store.closure(thunk)),
                    ThunkState::Blackholed => Step::Fail(
                        EvalError::InfiniteRecursion(x.clone(), pos),
                    ),
                    ThunkState::Suspended => {
                        let c = store.closure(thunk);
                        store.set_state(thunk, ThunkState::Blackholed);
                        push_frame(stack, Frame::Update(thunk));
                        Step::Next(c)
                    },
                }
            }
        },
    }
}

/// The boolean as a closed term at the position a result of `pos` inherits.
fn bool_result(b: bool, pos: TermPos) -> (c: Closure)
    ensures
        c@ == semantics::bool_result(b, pos),
{
    Closure::atomic_closure(RichTerm::new(Term::Bool(b), pos.into_inherited()))
}

/// Applies a unary operation to the value `v`.
fn apply_op1(op: UnaryOp, v: Closure, pos: TermPos, Ghost(pre): Ghost<MachineView>) -> (out: Step)
    ensures
        refines(
            out,
            pre.store,
            pre.stack,
            pre,
            semantics::apply_op1(pre.store, pre.stack, op@, v@, pos),
        ),
{
    proof {
        lemma_term_view(&*v.body.term);
    }
    match op {
        UnaryOp::IsNum() => Step::Next(bool_result(matches!(&*v.body.term, Term::Num(_)), pos)),
        UnaryOp::IsBool() => Step::Next(bool_result(matches!(&*v.body.term, Term::Bool(_)), pos)),
        UnaryOp::IsStr() => Step::Next(bool_result(matches!(&*v.body.term, Term::Str(_)), pos)),
        UnaryOp::IsFun() => Step::Next(bool_result(matches!(&*v.body.term, Term::Fun(_, _)), pos)),
        UnaryOp::IsRecord() => Step::Next(
            bool_result(matches!(&*v.body.term, Term::Record(_)), pos),
        ),
        UnaryOp::IsArray() => Step::Next(
            bool_result(matches!(&*v.body.term, Term::Array(_)), pos),
        ),
        UnaryOp::Blame() => match &*v.body.term {
            Term::Lbl(label) => Step::Fail(EvalError::BlameError(label.clone(), pos)),
            _ => Step::Fail(
                EvalError::TypeMismatch(Operation::Blame, Kind::Label, v.body.clone(), pos),
            ),
        },
        UnaryOp::StaticAccess(name) => match &*v.body.term {
            Term::Record(fields) => match find_field(fields, &name) {
                Some(i) => Step::Next(Closure { body: fields[i].1.clone(), env: v.env.clone() }),
                None => Step::Fail(EvalError::MissingField(name, v.body.clone(), pos)),
            },
            _ => Step::Fail(
                EvalError::TypeMismatch(
                    Operation::StaticAccess,
                    Kind::Record,
                    v.body.clone(),
                    pos,
                ),
            ),
        },
    }
}

/// Applies a binary operation to the values `first` and `second`.
fn apply_op2(
    store: &mut Store,
    op: BinaryOp,
    first: Closure,
    second: Closure,
    pos: TermPos,
    Ghost(pre): Ghost<MachineView>,
) -> (out: Step)
    requires
        old(store)@ == pre.store,
    ensures
        refines(
            out,
            final(store)@,
            pre.stack,
            pre,
            semantics::apply_op2(pre.store, pre.stack, op, first@, second@, pos),
        ),
{
    match op {
        BinaryOp::Plus() => match (&*first.body.term, &*second.body.term) {
            (Term::Num(a), Term::Num(b)) => match a.checked_add(*b) {
                Some(n) => Step::Next(
                    Closure::atomic_closure(RichTerm::new(Term::Num(n), pos.into_inherited())),
                ),
                None => Step::Fail(EvalError::NumberOverflow(pos)),
            },
            (Term::Num(_), _) => Step::Fail(
                EvalError::TypeMismatch(Operation::Plus, Kind::Num, second.body.clone(), pos),
            ),
            _ => Step::Fail(
                EvalError::TypeMismatch(Operation::Plus, Kind::Num, first.body.clone(), pos),
            ),
        },
        BinaryOp::StrConcat() => match (&*first.body.term, &*second.body.term) {
            (Term::Str(a), Term::Str(b)) => {
                let mut s = a.clone();
                s.append(b.as_str());
                Step::Next(
                    Closure::atomic_closure(RichTerm::new(Term::Str(s), pos.into_inherited())),
                )
            },
            (Term::Str(_), _) => Step::Fail(
                EvalError::TypeMismatch(Operation::StrConcat, Kind::Str, second.body.clone(), pos),
            ),
            _ => Step::Fail(
                EvalError::TypeMismatch(Operation::StrConcat, Kind::Str, first.body.clone(), pos),
            ),
        },
        BinaryOp::Merge() => match merge(store, first, second, false, pos) {
            Ok(c) => Step::Next(c),
            Err(e) => Step::Fail(e),
        },
        BinaryOp::MergeDefaults() => match merge(store, first, second, true, pos) {
            Ok(c) => Step::Next(c),
            Err(e) => Step::Fail(e),
        },
    }
}

/// Unwinding forgets a frame that is not an update.
pub proof fn lemma_unwind_push(store: StoreView, stack: Seq<FrameView>, frame: FrameView)
    requires
        !(frame is Update),
    ensures
        semantics::unwind(store, stack.push(frame)) == semantics::unwind(store, stack),
{
    assert(stack.push(frame).drop_last() =~= stack);
}

/// The transition of a machine whose control is a value.
fn return_value(store: &mut Store, stack: &mut Vec<Frame>, v: Closure) -> (out: Step)
    ensures
        ({
            let pre = MachineView {
                store: old(store)@,
                control: v@,
                stack: stack_view(old(stack)@),
            };
            refines(
                out,
                final(store)@,
                stack_view(final(stack)@),
                pre,
                semantics::return_value(pre),
            )
        }),
{
    let ghost pre = MachineView { store: store@, control: v@, stack: stack_view(stack@) };
    let frame = pop_frame(stack);
    let ghost rest = MachineView { stack: stack_view(stack@), ..pre };
    proof {
        lemma_term_view(&*v.body.term);
        if frame is Some {
            let f = frame->Some_0@;
            assert(pre.stack =~= rest.stack.push(f));
            if !(f is Update) {
                lemma_unwind_push(pre.store, rest.stack, f);
            }
        }
    }
    match frame {
        None => Step::Done(v),
        Some(Frame::Update(thunk)) => {
            if thunk.index < store.len() {
                match store.state(thunk) {
                    ThunkState::Evaluated => {},
                    _ => {
                        store.update(thunk, v.clone());
                    },
                }
            }
            Step::Next(v)
        },
        Some(Frame::Arg(arg, pos)) => match &*v.body.term {
            Term::Fun(x, body) => {
                let thunk = store.suspend(arg, IdentKind::Lam);
                Step::Next(Closure { body: body.clone(), env: v.env.extended(x.clone(), thunk) })
            },
            _ => Step::Fail(EvalError::NotAFunction(v.body.clone(), pos)),
        },
        Some(Frame::Op1(op, pos)) => apply_op1(op, v, pos, Ghost(rest)),
        Some(Frame::Op2First(op, second, pos)) => {
            push_frame(stack, Frame::Op2Second(op, v, pos));
            Step::Next(second)
        },
        Some(Frame::Op2Second(op, first, pos)) => apply_op2(store, op, first, v, pos, Ghost(rest)),
        Some(Frame::If(then, otherwise, env, pos)) => match &*v.body.term {
            Term::Bool(b) => Step::Next(
                Closure {
                    body: if *b {
                        then
                    } else {
                        otherwise
                    },
                    env,
                },
            ),
            _ => Step::Fail(
                EvalError::TypeMismatch(Operation::If, Kind::Bool, v.body.clone(), pos),
            ),
        },
        Some(Frame::Chunks(acc, chunks, env, pos)) => match &*v.body.term {
            Term::Str(s) => {
                let mut acc = acc;
                acc.append(s.as_str());
                Step::Next(read_chunks(stack, acc, chunks, env, pos, Ghost(pre.store)))
            },
            _ => Step::Fail(
                EvalError::TypeMismatch(Operation::Interpolation, Kind::Str, v.body.clone(), pos),
            ),
        },
        Some(Frame::Switch(cases, default, env, pos)) => {
            let selected = match &*v.body.term {
                Term::Enum(tag) => find_field(&cases, tag),
                _ => None,
            };
            match (selected, default) {
                (Some(i), _) => Step::Next(Closure { body: cases[i].1.clone(), env }),
                (None, Some(d)) => Step::Next(Closure { body: d, env }),
                (None, None) => {
                    if matches!(&*v.body.term, Term::Enum(_)) {
                        Step::Fail(EvalError::NonExhaustiveSwitch(v.body.clone(), pos))
                    } else {
                        Step::Fail(
                            EvalError::TypeMismatch(
                                Operation::Switch,
                                Kind::Enum,
                                v.body.clone(),
                                pos,
                            ),
                        )
                    }
                },
            }
        },
    }
}

/// Makes the thunks of the fields of a recursive record, each in the
/// environment that binds all the fields, and gives the record of the
/// variables that stand for them.
fn close_record(
    store: &mut Store,
    fields: &Vec<(Ident, RichTerm)>,
    env: &Environment,
    pos: TermPos,
) -> (control: Closure)
    ensures
        ({
            let fv = fields_view(fields@);
            let rec = semantics::rec_env(env@, fv, old(store)@.len(), fv.len() as int);
            &&& final(store)@ == old(store)@ + semantics::field_thunks(fv, rec)
            &&& control@ == ClosureView {
                body: at(TermView::Record(semantics::var_fields(fv)), pos),
                env: rec,
            }
        }),
{
    let ghost fv = fields_view(fields@);
    let ghost base = store@.len();
    let first = store.len();
    let mut rec = env.clone();
    let mut vars: Vec<(Ident, RichTerm)> = Vec::new();
    let mut i: usize = 0;
    assert(store@ =~= old(store)@ + semantics::field_thunks(fv, env@).take(0));
    assert(fields_view(vars@) =~= semantics::var_fields(fv).take(0));
    while i < fields.len()
        invariant
            i <= fields.len(),
            fv == fields_view(fields@),
            base == old(store)@.len(),
            first == base,
            store@ == old(store)@ + semantics::field_thunks(fv, env@).take(i as int),
            rec@ == semantics::rec_env(env@, fv, base, i as int),
            fields_view(vars@) == semantics::var_fields(fv).take(i as int),
        decreases fields.len() - i,
    {
        let ghost before = fields_view(vars@);
        let thunk = store.suspend(
            Closure { body: fields[i].1.clone(), env: env.clone() },
            IdentKind::Record,
        );
        rec.insert(fields[i].0.clone(), thunk);
        vars.push((fields[i].0.clone(), var(fields[i].0.clone(), fields[i].1.pos)));
        proof {
            assert(fields_view(vars@) =~= before.push(semantics::var_fields(fv)[i as int]));
            assert(semantics::var_fields(fv).take(i as int + 1) =~= semantics::var_fields(
                fv,
            ).take(i as int).push(semantics::var_fields(fv)[i as int]));
            assert(store@ =~= old(store)@ + semantics::field_thunks(fv, env@).take(i as int + 1));
        }
        i += 1;
    }
    let mut k: usize = 0;
    assert(store@ =~= old(store)@ + Seq::new(
        fv.len(),
        |j: int|
            if j < 0 {
                semantics::field_thunks(fv, rec@)[j]
            } else {
                semantics::field_thunks(fv, env@)[j]
            },
    ));
    while k < fields.len()
        invariant
            k <= fields.len(),
            fv == fields_view(fields@),
            base == old(store)@.len(),
            first == base,
            store@ == old(store)@ + Seq::new(
                fv.len(),
                |j: int|
                    if j < k {
                        semantics::field_thunks(fv, rec@)[j]
                    } else {
                        semantics::field_thunks(fv, env@)[j]
                    },
            ),
        decreases fields.len() - k,
    {
        let total = store.len();
        assert(total == base + fv.len());
        store.set_closure(
            Thunk { index: first + k },
            Closure { body: fields[k].1.clone(), env: rec.clone() },
        );
        k += 1;
        assert(store@ =~= old(store)@ + Seq::new(
            fv.len(),
            |j: int|
                if j < k {
                    semantics::field_thunks(fv, rec@)[j]
                } else {
                    semantics::field_thunks(fv, env@)[j]
                },
        ));
    }
    assert(store@ =~= old(store)@ + semantics::field_thunks(fv, rec@));
    assert(semantics::var_fields(fv).take(fv.len() as int) =~= semantics::var_fields(fv));
    let record = Term::Record(vars);
    proof {
        lemma_term_view(&record);
    }
    Closure { body: RichTerm::new(record, pos), env: rec }
}

/// Whether the operation is a merge.
fn is_merge(op: BinaryOp) -> (b: bool)
    ensures
        b == (op == BinaryOp::Merge() || op == BinaryOp::MergeDefaults()),
{
    matches!(op, BinaryOp::Merge() | BinaryOp::MergeDefaults())
}

/// Whether a metavalue is a value for what is on top of `stack`.
fn keeps_metavalue(stack: &Vec<Frame>, mode: Mode) -> (keeps: bool)
    ensures
        keeps == semantics::keeps_metavalue(stack_view(stack@), mode),
{
    if stack.len() == 0 {
        match mode {
            Mode::Weak => true,
            Mode::Strict => false,
        }
    } else {
        match &stack[stack.len() - 1] {
            Frame::Op2First(op, _, _) => is_merge(*op),
            Frame::Op2Second(op, _, _) => is_merge(*op),
            _ => false,
        }
    }
}

/// Whether the top of `stack` is an update frame.
fn updates(stack: &Vec<Frame>) -> (b: bool)
    ensures
        b == (stack_view(stack@).len() > 0 && stack_view(stack@).last() is Update),
{
    stack.len() > 0 && matches!(&stack[stack.len() - 1], Frame::Update(_))
}

/// Makes one transition of the machine made of `store`, `control` and
/// `stack`: the transition that [`semantics::step`] gives.
pub fn step(
    store: &mut Store,
    stack: &mut Vec<Frame>,
    control: Closure,
    global: &Environment,
    mode: Mode,
) -> (out: Step)
    ensures
        ({
            let pre = MachineView {
                store: old(store)@,
                control: control@,
                stack: stack_view(old(stack)@),
            };
            refines(
                out,
                final(store)@,
                stack_view(final(stack)@),
                pre,
                semantics::step(pre, global@, mode),
            )
        }),
{
    proof {
        lemma_term_view(&*control.body.term);
    }
    let pos = control.body.pos;
    match &*control.body.term {
        Term::Var(x) => step_var(store, stack, &control, global, x, pos),
        Term::App(f, a) => {
            let arg = Closure { body: a.clone(), env: control.env.clone() };
            push_frame(stack, Frame::Arg(arg, pos));
            Step::Next(Closure { body: f.clone(), env: control.env.clone() })
        },
        Term::Let(x, bound, body) => {
            let thunk = store.suspend(
                Closure { body: bound.clone(), env: control.env.clone() },
                IdentKind::Let,
            );
            Step::Next(Closure { body: body.clone(), env: control.env.extended(x.clone(), thunk) })
        },
        Term::Op1(op, a) => {
            push_frame(stack, Frame::Op1(op.clone(), pos));
            Step::Next(Closure { body: a.clone(), env: control.env.clone() })
        },
        Term::Op2(op, a, b) => {
            push_frame(
                stack,
                Frame::Op2First(*op, Closure { body: b.clone(), env: control.env.clone() }, pos),
            );
            Step::Next(Closure { body: a.clone(), env: control.env.clone() })
        },
        Term::If(c, t, e) => {
            push_frame(stack, Frame::If(t.clone(), e.clone(), control.env.clone(), pos));
            Step::Next(Closure { body: c.clone(), env: control.env.clone() })
        },
        Term::StrChunks(chunks) => Step::Next(
            read_chunks(
                stack,
                String::new(),
                clone_chunks(chunks),
                control.env.clone(),
                pos,
                Ghost(store@),
            ),
        ),
        Term::Switch(scrutinee, cases, default) => {
            push_frame(
                stack,
                Frame::Switch(
                    clone_fields(cases),
                    clone_opt_term(default),
                    control.env.clone(),
                    pos,
                ),
            );
            Step::Next(Closure { body: scrutinee.clone(), env: control.env.clone() })
        },
        Term::RecRecord(fields) => Step::Next(close_record(store, fields, &control.env, pos)),
        Term::Import(name) => Step::Fail(EvalError::UnresolvedImport(name.clone(), pos)),
        Term::MetaValue(meta) => {
            if updates(stack) || keeps_metavalue(stack, mode) {
                return_value(store, stack, control)
            } else {
                Step::Next(Closure { body: meta.value.clone(), env: control.env.clone() })
            }
        },
        _ => return_value(store, stack, control),
    }
}

/// Suspends again the thunks that `stack` says were under evaluation.
pub fn unwind(store: &mut Store, stack: &Vec<Frame>)
    ensures
        final(store)@ == semantics::unwind(old(store)@, stack_view(stack@)),
{
    let mut n: usize = stack.len();
    assert(stack_view(stack@).take(n as int) =~= stack_view(stack@));
    while n > 0
        invariant
            n <= stack.len(),
            semantics::unwind(store@, stack_view(stack@).take(n as int)) == semantics::unwind(
                old(store)@,
                stack_view(stack@),
            ),
        decreases n,
    {
        assert(stack_view(stack@).take(n as int).drop_last() =~= stack_view(stack@).take(
            n as int - 1,
        ));
        n -= 1;
        match &stack[n] {
            Frame::Update(thunk) => {
                if thunk.index < store.len() {
                    match store.state(*thunk) {
                        ThunkState::Blackholed => {
                            store.set_state(*thunk, ThunkState::Suspended);
                        },
                        _ => {},
                    }
                }
            },
            _ => {},
        }
    }
}

/// The view of the result of a run.
pub open spec fn result_view(r: Result<Closure, EvalError>) -> Result<ClosureView, EvalErrorView> {
    match r {
        Ok(c) => Ok(c@),
        Err(e) => Err(e@),
    }
}

/// Runs the machine that starts on `control` for at most `fuel` steps.
///
/// The result and the store it leaves are those of [`semantics::run`]: the
/// value with its environment, the first error, or `StepLimit`.
pub fn run(
    store: &mut Store,
    control: Closure,
    global: &Environment,
    mode: Mode,
    fuel: u64,
) -> (result: Result<Closure, EvalError>)
    ensures
        ({
            let out = semantics::run(
                semantics::start(old(store)@, control@),
                global@,
                mode,
                fuel as nat,
            );
            result_view(result) == out.result && final(store)@ == out.store
        }),
        keeps_values(old(store)@, final(store)@),
{
    proof {
        crate::laws::memoization::lemma_run_keeps_values(
            semantics::start(old(store)@, control@),
            global@,
            mode,
            fuel as nat,
        );
    }
    let ghost goal = semantics::run(
        semantics::start(old(store)@, control@),
        global@,
        mode,
        fuel as nat,
    );
    let mut stack: Vec<Frame> = Vec::new();
    let mut current = control;
    let mut left = fuel;
    assert(stack_view(stack@) =~= Seq::empty());
    loop
        invariant
            goal == semantics::run(
                semantics::start(old(store)@, control@),
                global@,
                mode,
                fuel as nat,
            ),
            keeps_values(old(store)@, goal.store),
            semantics::run(
                MachineView { store: store@, control: current@, stack: stack_view(stack@) },
                global@,
                mode,
                left as nat,
            ) == goal,
        decreases left,
    {
        if left == 0 {
            unwind(store, &stack);
            return Err(EvalError::StepLimit);
        }
        match step(store, &mut stack, current, global, mode) {
            Step::Next(c) => {
                current = c;
                left = left - 1;
            },
            Step::Done(c) => {
                return Ok(c);
            },
            Step::Fail(e) => {
                unwind(store, &stack);
                return Err(e);
            },
        }
    }
}

/// The outcome of an evaluation: the term or the error, and the store the
/// evaluation leaves.
pub struct Outcome {
    pub result: Result<RichTermView, EvalErrorView>,
    pub store: StoreView,
}

/// The view of the result of an evaluation.
pub open spec fn term_result_view(r: Result<RichTerm, EvalError>) -> Result<
    RichTermView,
    EvalErrorView,
> {
    match r {
        Ok(t) => Ok(t@),
        Err(e) => Err(e@),
    }
}

/// The weak head normal form of the closed term `t`: the term of the value
/// the machine reaches from `t` within `fuel` steps, without the
/// environment of that value.
pub open spec fn whnf(store: StoreView, t: RichTermView, global: EnvView, fuel: nat) -> Outcome {
    let out = semantics::run(semantics::start(store, closed(t)), global, Mode::Strict, fuel);
    Outcome {
        result: match out.result {
            Ok(c) => Ok(c.body),
            Err(e) => Err(e),
        },
        store: out.store,
    }
}

/// Evaluates the term `t` to weak head normal form, in at most `fuel` steps
/// of the machine.
///
/// `global_env` gives a meaning to the free variables of `t`; its thunks are
/// in `store`, where the evaluation makes its own. The result is the term of
/// the value, whose parts are not evaluated; the first error; or `StepLimit`
/// when `fuel` steps were not enough.
pub fn eval(t: RichTerm, global_env: &Environment, store: &mut Store, fuel: u64) -> (result: Result<
    RichTerm,
    EvalError,
>)
    ensures
        term_result_view(result) == whnf(old(store)@, t@, global_env@, fuel as nat).result,
        final(store)@ == whnf(old(store)@, t@, global_env@, fuel as nat).store,
        result matches Ok(v) ==> semantics::is_whnf(*v@.term),
        keeps_values(old(store)@, final(store)@),
{
    proof {
        crate::laws::evaluation::lemma_run_gives_whnf(
            semantics::start(old(store)@, closed(t@)),
            global_env@,
            Mode::Strict,
            fuel as nat,
        );
    }
    match run(store, Closure::atomic_closure(t), global_env, Mode::Strict, fuel) {
        Ok(c) => Ok(c.body),
        Err(e) => Err(e),
    }
}

/// What [`eval_meta`] gives: the weak head normal form of `t` where a
/// metavalue counts as a value; and, where that is a metavalue, the same
/// metavalue around the weak head normal form of its value, substituted.
pub open spec fn meta_whnf(
    store: StoreView,
    t: RichTermView,
    global: EnvView,
    fuel: nat,
) -> Outcome {
    let first = semantics::run(semantics::start(store, closed(t)), global, Mode::Weak, fuel);
    match first.result {
        Err(e) => Outcome { result: Err(e), store: first.store },
        Ok(c) => match *c.body.term {
            TermView::MetaValue(m) => {
                let inner = semantics::run(
                    semantics::start(
                        first.store,
                        ClosureView { body: m.value, env: c.env },
                    ),
                    global,
                    Mode::Strict,
                    fuel,
                );
                match inner.result {
                    Err(e) => Outcome { result: Err(e), store: inner.store },
                    Ok(v) => Outcome {
                        result: Ok(
                            at(
                                TermView::MetaValue(
                                    MetaValueView {
                                        value: subst_in(
                                            inner.store,
                                            v.body,
                                            global,
                                            v.env,
                                            Seq::empty(),
                                            Seq::empty(),
                                            inner.store.len(),
                                        ),
                                        ..m
                                    },
                                ),
                                c.body.pos,
                            ),
                        ),
                        store: inner.store,
                    },
                }
            },
            _ => Outcome { result: Ok(c.body), store: first.store },
        },
    }
}

/// Evaluates `t` as far as the first metavalue, and the value inside it to
/// weak head normal form, so that the metadata stays to be read.
pub fn eval_meta(t: RichTerm, global_env: &Environment, store: &mut Store, fuel: u64) -> (result:
    Result<RichTerm, EvalError>)
    ensures
        term_result_view(result) == meta_whnf(old(store)@, t@, global_env@, fuel as nat).result,
        final(store)@ == meta_whnf(old(store)@, t@, global_env@, fuel as nat).store,
        keeps_values(old(store)@, final(store)@),
{
    proof {
        crate::laws::memoization::lemma_meta_keeps_values(
            old(store)@,
            t@,
            global_env@,
            fuel as nat,
        );
    }
    let c = match run(store, Closure::atomic_closure(t), global_env, Mode::Weak, fuel) {
        Ok(c) => c,
        Err(e) => {
            return Err(e);
        },
    };
    proof {
        lemma_term_view(&*c.body.term);
    }
    match &*c.body.term {
        Term::MetaValue(m) => {
            let inner = Closure { body: m.value.clone(), env: c.env.clone() };
            match run(store, inner, global_env, Mode::Strict, fuel) {
                Err(e) => Err(e),
                Ok(v) => {
                    let value = subst(store, v.body, global_env, &v.env);
                    let meta = Term::MetaValue(
                        MetaValue {
                            doc: clone_doc(&m.doc),
                            types: clone_types(&m.types),
                            contracts: clone_contracts(&m.contracts),
                            priority: m.priority,
                            value,
                        },
                    );
                    proof {
                        lemma_term_view(&meta);
                    }
                    Ok(RichTerm::new(meta, c.body.pos))
                },
            }
        },
        _ => Ok(c.body),
    }
}

/// The number of steps that [`eval_no_import`] gives an evaluation.
pub const STEP_LIMIT: u64 = 100_000_000;

/// The view of the result of [`eval_no_import`].
pub open spec fn plain_result_view(r: Result<Term, EvalError>) -> Result<TermView, EvalErrorView> {
    match r {
        Ok(t) => Ok(t@),
        Err(e) => Err(e@),
    }
}

/// What [`eval_no_import`] gives for `t`: a function of `t` alone.
pub open spec fn plain_whnf(t: RichTermView) -> Result<TermView, EvalErrorView> {
    match whnf(Seq::empty(), t, Map::empty(), STEP_LIMIT as nat).result {
        Ok(v) => Ok(*v.term),
        Err(e) => Err(e),
    }
}

/// Evaluates a closed term to weak head normal form, in a store of its own
/// and with [`STEP_LIMIT`] steps, and gives the value without its position.
pub fn eval_no_import(t: RichTerm) -> (result: Result<Term, EvalError>)
    ensures
        plain_result_view(result) == plain_whnf(t@),
        result matches Ok(v) ==> semantics::is_whnf(v@),
{
    let mut store = Store::new();
    let global = Environment::new();
    match eval(t, &global, &mut store, STEP_LIMIT) {
        Ok(v) => Ok(v.into_term()),
        Err(e) => Err(e),
    }
}

/// The pairs of a name and a term, by their views.
pub open spec fn bindings_view(bindings: Seq<(&str, RichTerm)>) -> Seq<(Seq<char>, RichTermView)> {
    bindings.map_values(|b: (&str, RichTerm)| (b.0@, b.1@))
}

/// One suspended thunk for each binding, closed.
pub open spec fn closed_thunks(bindings: Seq<(Seq<char>, RichTermView)>) -> StoreView {
    Seq::new(bindings.len(), |i: int| suspended(closed(bindings[i].1), IdentKind::Let))
}

/// The environment that binds each name to a new thunk of its term, which
/// needs no environment. A name bound twice keeps its last binding.
pub fn mk_env(store: &mut Store, bindings: Vec<(&str, RichTerm)>) -> (env: Environment)
    ensures
        final(store)@ == old(store)@ + closed_thunks(bindings_view(bindings@)),
        env@ == semantics::rec_env(
            Map::empty(),
            bindings_view(bindings@),
            old(store)@.len(),
            bindings@.len() as int,
        ),
{
    let ghost bv = bindings_view(bindings@);
    let mut env = Environment::new();
    let mut i: usize = 0;
    assert(store@ =~= old(store)@ + closed_thunks(bv).take(0));
    while i < bindings.len()
        invariant
            i <= bindings.len(),
            bv == bindings_view(bindings@),
            store@ == old(store)@ + closed_thunks(bv).take(i as int),
            env@ == semantics::rec_env(Map::empty(), bv, old(store)@.len(), i as int),
        decreases bindings.len() - i,
    {
        let thunk = store.suspend(Closure::atomic_closure(bindings[i].1.clone()), IdentKind::Let);
        env.insert(Ident::new(bindings[i].0), thunk);
        assert(store@ =~= old(store)@ + closed_thunks(bv).take(i as int + 1));
        i += 1;
    }
    assert(closed_thunks(bv).take(i as int) =~= closed_thunks(bv));
    env
}

/// Binds `id` in `env` to a new thunk of the term `rt` in the environment
/// `local_env`.
pub fn env_add(
    store: &mut Store,
    env: &mut Environment,
    id: Ident,
    rt: RichTerm,
    local_env: Environment,
)
    ensures
        final(store)@ == old(store)@.push(
            suspended(ClosureView { body: rt@, env: local_env@ }, IdentKind::Let),
        ),
        final(env)@ == old(env)@.insert(id@, old(store)@.len()),
{
    let thunk = store.suspend(Closure { body: rt, env: local_env }, IdentKind::Let);
    env.insert(id, thunk);
}

} // verus!
