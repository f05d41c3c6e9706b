//! The evaluation of a term depends on what it can reach only, and on
//! nothing else of the store it runs in.
//!
//! Two machines that run the same term in different stores make the same
//! transitions, one thunk for one thunk. The thunks that both stores share
//! go together one by one; the thunks that the evaluation makes in one store
//! have their likes in the other, at the same distance from where the
//! evaluation began to make them. What lies between is never read.
use crate::environment::{suspended, ClosureView, EnvView, IdentKind, StoreView, ThunkDataView};
use crate::environment::ThunkState;
use crate::error::EvalErrorView;
use crate::eval::whnf;
use crate::laws::evaluation::{end_of, is_at_an_end, lemma_run_composes, over};
use crate::merge::{defer, find, merge_left, merge_meta, merge_result, merge_right, Merged};
use crate::position::TermPos;
use crate::semantics::{apply_op1, apply_op2, closed, field_thunks, lookup, read_chunks, rec_env};
use crate::semantics::{return_value, run, start, step, step_var, FrameView, MachineView, Mode};
use crate::semantics::StepView;
use crate::term::{at, BinaryOp, MetaValueView, RichTermView, TermView};
use vstd::prelude::*;

verus! {

/// How the thunks of two stores go together: the first `shared` thunks of
/// both, one by one; and the thunks from `left` on in one store with those
/// from `right` on in the other. What lies between is in neither.
pub struct Bases {
    pub shared: nat,
    pub left: nat,
    pub right: nat,
}

/// Whether two thunks are alike: the same one of the shared thunks, or two
/// of the others that are as far from the bases.
pub open spec fn alike_thunk(b: Bases, i: nat, j: nat) -> bool {
    (i < b.shared && j == i) || (i >= b.left && j >= b.right && i - b.left == j - b.right)
}

/// Whether two environments are alike: they bind the same names, each to
/// thunks that are alike.
pub open spec fn alike_env(b: Bases, e1: EnvView, e2: EnvView) -> bool {
    forall|x: Seq<char>|
        (#[trigger] e1.contains_key(x) <==> e2.contains_key(x)) && (e1.contains_key(x)
            ==> alike_thunk(b, e1[x], e2[x]))
}

/// Whether two closures are alike: the same term, in environments that are
/// alike.
pub open spec fn alike_closure(b: Bases, c1: ClosureView, c2: ClosureView) -> bool {
    c1.body == c2.body && alike_env(b, c1.env, c2.env)
}

/// Whether what two thunks stand for is alike.
pub open spec fn alike_data(b: Bases, d1: ThunkDataView, d2: ThunkDataView) -> bool {
    alike_closure(b, d1.closure, d2.closure) && d1.ident_kind == d2.ident_kind && d1.state
        == d2.state
}

/// Whether two frames are alike.
pub open spec fn alike_frame(b: Bases, f1: FrameView, f2: FrameView) -> bool {
    match (f1, f2) {
        (FrameView::Arg(c1, p1), FrameView::Arg(c2, p2)) => alike_closure(b, c1, c2) && p1 == p2,
        (FrameView::Update(i), FrameView::Update(j)) => alike_thunk(b, i, j),
        (FrameView::Op1(o1, p1), FrameView::Op1(o2, p2)) => o1 == o2 && p1 == p2,
        (FrameView::Op2First(o1, c1, p1), FrameView::Op2First(o2, c2, p2)) => o1 == o2
            && alike_closure(b, c1, c2) && p1 == p2,
        (FrameView::Op2Second(o1, c1, p1), FrameView::Op2Second(o2, c2, p2)) => o1 == o2
            && alike_closure(b, c1, c2) && p1 == p2,
        (FrameView::If(t1, e1, env1, p1), FrameView::If(t2, e2, env2, p2)) => t1 == t2 && e1
            == e2 && alike_env(b, env1, env2) && p1 == p2,
        (FrameView::Chunks(a1, c1, env1, p1), FrameView::Chunks(a2, c2, env2, p2)) => a1 == a2
            && c1 == c2 && alike_env(b, env1, env2) && p1 == p2,
        (FrameView::Switch(c1, d1, env1, p1), FrameView::Switch(c2, d2, env2, p2)) => c1 == c2
            && d1 == d2 && alike_env(b, env1, env2) && p1 == p2,
        _ => false,
    }
}

/// Whether two stacks are alike, frame by frame.
pub open spec fn alike_stack(b: Bases, s1: Seq<FrameView>, s2: Seq<FrameView>) -> bool {
    s1.len() == s2.len() && forall|i: int|
        0 <= i < s1.len() ==> alike_frame(b, #[trigger] s1[i], s2[i])
}

/// Whether two stores are alike: their shared thunks are alike one by one,
/// they hold as many thunks beyond their bases, and these are alike one by
/// one.
pub open spec fn alike_store(b: Bases, s1: StoreView, s2: StoreView) -> bool {
    &&& b.shared <= b.left <= s1.len()
    &&& b.shared <= b.right <= s2.len()
    &&& s1.len() - b.left == s2.len() - b.right
    &&& forall|i: int| 0 <= i < b.shared ==> alike_data(b, #[trigger] s1[i], s2[i])
    &&& forall|i: int|
        0 <= i < s1.len() - b.left ==> alike_data(
            b,
            #[trigger] s1[b.left + i],
            s2[b.right + i],
        )
}

/// Whether two machines are alike.
pub open spec fn alike(b: Bases, m1: MachineView, m2: MachineView) -> bool {
    &&& alike_store(b, m1.store, m2.store)
    &&& alike_closure(b, m1.control, m2.control)
    &&& alike_stack(b, m1.stack, m2.stack)
}

/// Whether two transitions are alike: both go on, to machines that are
/// alike; or both are done; or both fail with the same error.
pub open spec fn alike_step(b: Bases, s1: StepView, s2: StepView) -> bool {
    match (s1, s2) {
        (StepView::Next(n1), StepView::Next(n2)) => alike(b, n1, n2),
        (StepView::Done, StepView::Done) => true,
        (StepView::Fail(e1), StepView::Fail(e2)) => e1 == e2,
        _ => false,
    }
}

/// Stores that are alike stay so when each gets one more thunk, and the two
/// are alike.
proof fn lemma_alike_push(
    b: Bases,
    s1: StoreView,
    s2: StoreView,
    d1: ThunkDataView,
    d2: ThunkDataView,
)
    requires
        alike_store(b, s1, s2),
        alike_data(b, d1, d2),
    ensures
        alike_store(b, s1.push(d1), s2.push(d2)),
        alike_thunk(b, s1.len(), s2.len()),
{
    let t1 = s1.push(d1);
    let t2 = s2.push(d2);
    assert forall|i: int| 0 <= i < t1.len() - b.left implies alike_data(
        b,
        #[trigger] t1[b.left + i],
        t2[b.right + i],
    ) by {
        if i < s1.len() - b.left {
            assert(t1[b.left + i] == s1[b.left + i]);
            assert(t2[b.right + i] == s2[b.right + i]);
        }
    }
}

/// Stores that are alike stay so when thunks that are alike are replaced by
/// what is alike.
proof fn lemma_alike_update(
    b: Bases,
    s1: StoreView,
    s2: StoreView,
    i: nat,
    j: nat,
    d1: ThunkDataView,
    d2: ThunkDataView,
)
    requires
        alike_store(b, s1, s2),
        alike_thunk(b, i, j),
        i < s1.len(),
        alike_data(b, d1, d2),
    ensures
        alike_store(b, s1.update(i as int, d1), s2.update(j as int, d2)),
{
    let t1 = s1.update(i as int, d1);
    let t2 = s2.update(j as int, d2);
    assert forall|n: int| 0 <= n < t1.len() - b.left implies alike_data(
        b,
        #[trigger] t1[b.left + n],
        t2[b.right + n],
    ) by {
        if b.left + n != i {
            assert(t1[b.left + n] == s1[b.left + n]);
            assert(t2[b.right + n] == s2[b.right + n]);
        }
    }
}

/// Environments that are alike stay so when each binds one more name, the
/// same one, to thunks that are alike.
proof fn lemma_alike_insert(
    b: Bases,
    e1: EnvView,
    e2: EnvView,
    x: Seq<char>,
    i: nat,
    j: nat,
)
    requires
        alike_env(b, e1, e2),
        alike_thunk(b, i, j),
    ensures
        alike_env(b, e1.insert(x, i), e2.insert(x, j)),
{
    assert forall|y: Seq<char>|
        (#[trigger] e1.insert(x, i).contains_key(y) <==> e2.insert(x, j).contains_key(y)) && (
        e1.insert(x, i).contains_key(y) ==> alike_thunk(
            b,
            e1.insert(x, i)[y],
            e2.insert(x, j)[y],
        )) by {
        if y != x {
            assert(e1.contains_key(y) <==> e2.contains_key(y));
        }
    }
}

/// The empty environment is like itself.
proof fn lemma_alike_empty(b: Bases)
    ensures
        alike_env(b, Map::empty(), Map::empty()),
{
}

/// What is alike at a thunk of one store is found at its like in the other.
proof fn lemma_alike_at(b: Bases, s1: StoreView, s2: StoreView, i: nat, j: nat)
    requires
        alike_store(b, s1, s2),
        alike_thunk(b, i, j),
    ensures
        i < s1.len() <==> j < s2.len(),
        i < s1.len() ==> alike_data(b, s1[i as int], s2[j as int]),
{
    if i < b.shared {
        assert(alike_data(b, s1[i as int], s2[i as int]));
    } else if i < s1.len() {
        let n = i - b.left;
        assert(alike_data(b, s1[b.left + n], s2[b.right + n]));
    }
}

/// Stores that are alike stay so when each gets the same number of thunks
/// more, alike one by one.
proof fn lemma_alike_append(
    b: Bases,
    s1: StoreView,
    s2: StoreView,
    more1: Seq<ThunkDataView>,
    more2: Seq<ThunkDataView>,
)
    requires
        alike_store(b, s1, s2),
        more1.len() == more2.len(),
        forall|i: int| 0 <= i < more1.len() ==> alike_data(b, #[trigger] more1[i], more2[i]),
    ensures
        alike_store(b, s1 + more1, s2 + more2),
{
    let t1 = s1 + more1;
    let t2 = s2 + more2;
    assert forall|i: int| 0 <= i < t1.len() - b.left implies alike_data(
        b,
        #[trigger] t1[b.left + i],
        t2[b.right + i],
    ) by {
        if b.left + i < s1.len() {
            assert(t1[b.left + i] == s1[b.left + i]);
            assert(t2[b.right + i] == s2[b.right + i]);
        } else {
            let n = b.left + i - s1.len();
            assert(t1[b.left + i] == more1[n]);
            assert(t2[b.right + i] == more2[n]);
        }
    }
}

/// The environments of a recursive record are alike in stores that are
/// alike.
proof fn lemma_alike_rec_env(
    b: Bases,
    e1: EnvView,
    e2: EnvView,
    fields: Seq<(Seq<char>, RichTermView)>,
    base1: nat,
    base2: nat,
    n: int,
)
    requires
        alike_env(b, e1, e2),
        base1 >= b.left,
        base2 >= b.right,
        base1 - b.left == base2 - b.right,
    ensures
        alike_env(b, rec_env(e1, fields, base1, n), rec_env(e2, fields, base2, n)),
    decreases n,
{
    if n > 0 {
        lemma_alike_rec_env(b, e1, e2, fields, base1, base2, n - 1);
        lemma_alike_insert(
            b,
            rec_env(e1, fields, base1, n - 1),
            rec_env(e2, fields, base2, n - 1),
            fields[n - 1].0,
            (base1 + n - 1) as nat,
            (base2 + n - 1) as nat,
        );
    }
}

/// The transition for a variable is alike in machines that are alike.
proof fn lemma_alike_step_var(
    b: Bases,
    m1: MachineView,
    m2: MachineView,
    g: EnvView,
    x: Seq<char>,
    pos: TermPos,
)
    requires
        alike(b, m1, m2),
        alike_env(b, g, g),
    ensures
        alike_step(b, step_var(m1, g, x, pos), step_var(m2, g, x, pos)),
{
    assert(m1.control.env.contains_key(x) <==> m2.control.env.contains_key(x));
    assert(g.contains_key(x) <==> g.contains_key(x));
    match lookup(m1.control.env, g, x) {
        None => {},
        Some(i) => {
            let j = lookup(m2.control.env, g, x)->Some_0;
            lemma_alike_at(b, m1.store, m2.store, i, j);
            if i < m1.store.len() {
                let d1 = m1.store[i as int];
                let d2 = m2.store[j as int];
                if d1.state == ThunkState::Suspended {
                    lemma_alike_update(
                        b,
                        m1.store,
                        m2.store,
                        i,
                        j,
                        ThunkDataView { state: ThunkState::Blackholed, ..d1 },
                        ThunkDataView { state: ThunkState::Blackholed, ..d2 },
                    );
                    lemma_alike_stack_push(
                        b,
                        m1.stack,
                        m2.stack,
                        FrameView::Update(i),
                        FrameView::Update(j),
                    );
                }
            }
        },
    }
}

/// Stacks that are alike stay so when each gets a frame, and the two are
/// alike.
proof fn lemma_alike_stack_push(
    b: Bases,
    s1: Seq<FrameView>,
    s2: Seq<FrameView>,
    f1: FrameView,
    f2: FrameView,
)
    requires
        alike_stack(b, s1, s2),
        alike_frame(b, f1, f2),
    ensures
        alike_stack(b, s1.push(f1), s2.push(f2)),
{
    assert forall|i: int| 0 <= i < s1.push(f1).len() implies alike_frame(
        b,
        #[trigger] s1.push(f1)[i],
        s2.push(f2)[i],
    ) by {
        if i < s1.len() {
            assert(s1.push(f1)[i] == s1[i]);
        }
    }
}

/// Stacks that are alike stay so without their top frames, which are alike.
proof fn lemma_alike_stack_pop(b: Bases, s1: Seq<FrameView>, s2: Seq<FrameView>)
    requires
        alike_stack(b, s1, s2),
        s1.len() > 0,
    ensures
        alike_stack(b, s1.drop_last(), s2.drop_last()),
        alike_frame(b, s1.last(), s2.last()),
{
    assert forall|i: int| 0 <= i < s1.drop_last().len() implies alike_frame(
        b,
        #[trigger] s1.drop_last()[i],
        s2.drop_last()[i],
    ) by {
        assert(s1.drop_last()[i] == s1[i]);
    }
}

/// Reading chunks is alike in machines that are alike.
proof fn lemma_alike_read_chunks(
    b: Bases,
    store1: StoreView,
    store2: StoreView,
    stack1: Seq<FrameView>,
    stack2: Seq<FrameView>,
    acc: Seq<char>,
    chunks: Seq<crate::term::StrChunkView>,
    env1: EnvView,
    env2: EnvView,
    pos: TermPos,
)
    requires
        alike_store(b, store1, store2),
        alike_stack(b, stack1, stack2),
        alike_env(b, env1, env2),
    ensures
        alike(
            b,
            read_chunks(store1, stack1, acc, chunks, env1, pos),
            read_chunks(store2, stack2, acc, chunks, env2, pos),
        ),
{
    let (text, rest, next) = crate::semantics::take_literals(acc, chunks);
    match next {
        None => {},
        Some(e) => {
            lemma_alike_stack_push(
                b,
                stack1,
                stack2,
                FrameView::Chunks(text, rest, env1, pos),
                FrameView::Chunks(text, rest, env2, pos),
            );
        },
    }
}

/// A unary operation gives the like in machines that are alike.
proof fn lemma_alike_op1(
    b: Bases,
    store1: StoreView,
    store2: StoreView,
    stack1: Seq<FrameView>,
    stack2: Seq<FrameView>,
    op: crate::term::UnaryOpView,
    v1: ClosureView,
    v2: ClosureView,
    pos: TermPos,
)
    requires
        alike_store(b, store1, store2),
        alike_stack(b, stack1, stack2),
        alike_closure(b, v1, v2),
    ensures
        alike_step(
            b,
            apply_op1(store1, stack1, op, v1, pos),
            apply_op1(store2, stack2, op, v2, pos),
        ),
{
}

/// The thunks of a deferred merge are alike in stores that are alike.
proof fn lemma_alike_defer(
    b: Bases,
    s1: StoreView,
    s2: StoreView,
    a1: ClosureView,
    a2: ClosureView,
    c1: ClosureView,
    c2: ClosureView,
    defaults: bool,
    pos: TermPos,
)
    requires
        alike_store(b, s1, s2),
        alike_closure(b, a1, a2),
        alike_closure(b, c1, c2),
    ensures
        alike_store(b, defer(s1, a1, c1, defaults, pos), defer(s2, a2, c2, defaults, pos)),
        alike_thunk(b, (s1.len() + 2) as nat, (s2.len() + 2) as nat),
        defer(s1, a1, c1, defaults, pos).len() == s1.len() + 3,
        defer(s2, a2, c2, defaults, pos).len() == s2.len() + 3,
{
    let d1a = suspended(a1, IdentKind::Record);
    let d2a = suspended(a2, IdentKind::Record);
    lemma_alike_push(b, s1, s2, d1a, d2a);
    let d1c = suspended(c1, IdentKind::Record);
    let d2c = suspended(c2, IdentKind::Record);
    lemma_alike_push(b, s1.push(d1a), s2.push(d2a), d1c, d2c);
    let e0 = Map::<Seq<char>, nat>::empty();
    lemma_alike_insert(b, e0, e0, crate::merge::left_name(), s1.len(), s2.len());
    lemma_alike_insert(
        b,
        e0.insert(crate::merge::left_name(), s1.len()),
        e0.insert(crate::merge::left_name(), s2.len()),
        crate::merge::right_name(),
        (s1.len() + 1) as nat,
        (s2.len() + 1) as nat,
    );
    let m1 = suspended(
        ClosureView {
            body: crate::merge::deferred_term(defaults, pos),
            env: e0.insert(crate::merge::left_name(), s1.len()).insert(
                crate::merge::right_name(),
                (s1.len() + 1) as nat,
            ),
        },
        IdentKind::Record,
    );
    let m2 = suspended(
        ClosureView {
            body: crate::merge::deferred_term(defaults, pos),
            env: e0.insert(crate::merge::left_name(), s2.len()).insert(
                crate::merge::right_name(),
                (s2.len() + 1) as nat,
            ),
        },
        IdentKind::Record,
    );
    lemma_alike_push(b, s1.push(d1a).push(d1c), s2.push(d2a).push(d2c), m1, m2);
}

/// Whether two merges in progress are alike.
pub open spec fn alike_merged(b: Bases, a1: Merged, a2: Merged) -> bool {
    alike_store(b, a1.store, a2.store) && alike_env(b, a1.env, a2.env) && a1.fields == a2.fields
}

/// The merge of the fields of the left record is alike in stores that are
/// alike.
proof fn lemma_alike_merge_left(
    b: Bases,
    left: Seq<(Seq<char>, RichTermView)>,
    le1: EnvView,
    le2: EnvView,
    right: Seq<(Seq<char>, RichTermView)>,
    re1: EnvView,
    re2: EnvView,
    pos: TermPos,
    i: int,
    a1: Merged,
    a2: Merged,
)
    requires
        alike_merged(b, a1, a2),
        alike_env(b, le1, le2),
        alike_env(b, re1, re2),
    ensures
        alike_merged(
            b,
            merge_left(left, le1, right, re1, pos, i, a1),
            merge_left(left, le2, right, re2, pos, i, a2),
        ),
    decreases left.len() - i,
{
    if 0 <= i < left.len() {
        let (name, t) = left[i];
        let mine1 = ClosureView { body: t, env: le1 };
        let mine2 = ClosureView { body: t, env: le2 };
        match find(right, name, 0) {
            Some(j) => {
                let other1 = ClosureView { body: right[j].1, env: re1 };
                let other2 = ClosureView { body: right[j].1, env: re2 };
                lemma_alike_defer(b, a1.store, a2.store, mine1, mine2, other1, other2, false, pos);
                lemma_alike_insert(
                    b,
                    a1.env,
                    a2.env,
                    name,
                    (a1.store.len() + 2) as nat,
                    (a2.store.len() + 2) as nat,
                );
                let n1 = a1.with_field(
                    defer(a1.store, mine1, other1, false, pos),
                    name,
                    (a1.store.len() + 2) as nat,
                    pos,
                );
                let n2 = a2.with_field(
                    defer(a2.store, mine2, other2, false, pos),
                    name,
                    (a2.store.len() + 2) as nat,
                    pos,
                );
                lemma_alike_merge_left(b, left, le1, le2, right, re1, re2, pos, i + 1, n1, n2);
            },
            None => {
                lemma_alike_push(
                    b,
                    a1.store,
                    a2.store,
                    suspended(mine1, IdentKind::Record),
                    suspended(mine2, IdentKind::Record),
                );
                lemma_alike_insert(b, a1.env, a2.env, name, a1.store.len(), a2.store.len());
                let n1 = a1.with_field(
                    a1.store.push(suspended(mine1, IdentKind::Record)),
                    name,
                    a1.store.len(),
                    pos,
                );
                let n2 = a2.with_field(
                    a2.store.push(suspended(mine2, IdentKind::Record)),
                    name,
                    a2.store.len(),
                    pos,
                );
                lemma_alike_merge_left(b, left, le1, le2, right, re1, re2, pos, i + 1, n1, n2);
            },
        }
    }
}

/// The merge of the fields of the right record is alike in stores that are
/// alike.
proof fn lemma_alike_merge_right(
    b: Bases,
    left: Seq<(Seq<char>, RichTermView)>,
    right: Seq<(Seq<char>, RichTermView)>,
    re1: EnvView,
    re2: EnvView,
    pos: TermPos,
    j: int,
    a1: Merged,
    a2: Merged,
)
    requires
        alike_merged(b, a1, a2),
        alike_env(b, re1, re2),
    ensures
        alike_merged(
            b,
            merge_right(left, right, re1, pos, j, a1),
            merge_right(left, right, re2, pos, j, a2),
        ),
    decreases right.len() - j,
{
    if 0 <= j < right.len() {
        let (name, t) = right[j];
        match find(left, name, 0) {
            Some(_) => {
                lemma_alike_merge_right(b, left, right, re1, re2, pos, j + 1, a1, a2);
            },
            None => {
                let c1 = ClosureView { body: t, env: re1 };
                let c2 = ClosureView { body: t, env: re2 };
                lemma_alike_push(
                    b,
                    a1.store,
                    a2.store,
                    suspended(c1, IdentKind::Record),
                    suspended(c2, IdentKind::Record),
                );
                lemma_alike_insert(b, a1.env, a2.env, name, a1.store.len(), a2.store.len());
                let n1 = a1.with_field(
                    a1.store.push(suspended(c1, IdentKind::Record)),
                    name,
                    a1.store.len(),
                    pos,
                );
                let n2 = a2.with_field(
                    a2.store.push(suspended(c2, IdentKind::Record)),
                    name,
                    a2.store.len(),
                    pos,
                );
                lemma_alike_merge_right(b, left, right, re1, re2, pos, j + 1, n1, n2);
            },
        }
    }
}

/// The merge of two metavalues is alike in stores that are alike.
proof fn lemma_alike_merge_meta(
    b: Bases,
    s1: StoreView,
    s2: StoreView,
    a: MetaValueView,
    ae1: EnvView,
    ae2: EnvView,
    c: MetaValueView,
    ce1: EnvView,
    ce2: EnvView,
    pos: TermPos,
)
    requires
        alike_store(b, s1, s2),
        alike_env(b, ae1, ae2),
        alike_env(b, ce1, ce2),
    ensures
        alike_store(
            b,
            merge_meta(s1, a, ae1, c, ce1, pos).0,
            merge_meta(s2, a, ae2, c, ce2, pos).0,
        ),
        alike_closure(
            b,
            merge_meta(s1, a, ae1, c, ce1, pos).1,
            merge_meta(s2, a, ae2, c, ce2, pos).1,
        ),
{
    if a.priority.rank() == c.priority.rank() {
        let defaults = a.priority == crate::term::MergePriority::Default;
        lemma_alike_defer(
            b,
            s1,
            s2,
            ClosureView { body: a.value, env: ae1 },
            ClosureView { body: a.value, env: ae2 },
            ClosureView { body: c.value, env: ce1 },
            ClosureView { body: c.value, env: ce2 },
            defaults,
            pos,
        );
        let e0 = Map::<Seq<char>, nat>::empty();
        lemma_alike_insert(
            b,
            e0,
            e0,
            crate::merge::merged_name(),
            (s1.len() + 2) as nat,
            (s2.len() + 2) as nat,
        );
    }
}

/// A merge is alike in stores that are alike.
proof fn lemma_alike_merge(
    b: Bases,
    s1: StoreView,
    s2: StoreView,
    f1: ClosureView,
    f2: ClosureView,
    g1: ClosureView,
    g2: ClosureView,
    defaults: bool,
    pos: TermPos,
)
    requires
        alike_store(b, s1, s2),
        alike_closure(b, f1, f2),
        alike_closure(b, g1, g2),
    ensures
        match (merge_result(s1, f1, g1, defaults, pos), merge_result(s2, f2, g2, defaults, pos)) {
            (Ok((t1, c1)), Ok((t2, c2))) => alike_store(b, t1, t2) && alike_closure(b, c1, c2),
            (Err(e1), Err(e2)) => e1 == e2,
            _ => false,
        },
{
    match (*f1.body.term, *g1.body.term) {
        (TermView::MetaValue(a), TermView::MetaValue(c)) => {
            lemma_alike_merge_meta(b, s1, s2, a, f1.env, f2.env, c, g1.env, g2.env, pos);
        },
        (TermView::MetaValue(a), _) => {
            lemma_alike_merge_meta(
                b,
                s1,
                s2,
                a,
                f1.env,
                f2.env,
                crate::merge::lift(g1.body),
                g1.env,
                g2.env,
                pos,
            );
        },
        (_, TermView::MetaValue(c)) => {
            lemma_alike_merge_meta(
                b,
                s1,
                s2,
                crate::merge::lift(f1.body),
                f1.env,
                f2.env,
                c,
                g1.env,
                g2.env,
                pos,
            );
        },
        (TermView::Record(left), TermView::Record(right)) => {
            let e0 = Map::<Seq<char>, nat>::empty();
            let start1 = Merged { store: s1, env: e0, fields: Seq::empty() };
            let start2 = Merged { store: s2, env: e0, fields: Seq::empty() };
            lemma_alike_merge_left(
                b,
                left,
                f1.env,
                f2.env,
                right,
                g1.env,
                g2.env,
                pos,
                0,
                start1,
                start2,
            );
            let half1 = merge_left(left, f1.env, right, g1.env, pos, 0, start1);
            let half2 = merge_left(left, f2.env, right, g2.env, pos, 0, start2);
            lemma_alike_merge_right(b, left, right, g1.env, g2.env, pos, 0, half1, half2);
        },
        _ => {},
    }
}

/// A binary operation gives the like in machines that are alike.
proof fn lemma_alike_op2(
    b: Bases,
    store1: StoreView,
    store2: StoreView,
    stack1: Seq<FrameView>,
    stack2: Seq<FrameView>,
    op: BinaryOp,
    f1: ClosureView,
    f2: ClosureView,
    g1: ClosureView,
    g2: ClosureView,
    pos: TermPos,
)
    requires
        alike_store(b, store1, store2),
        alike_stack(b, stack1, stack2),
        alike_closure(b, f1, f2),
        alike_closure(b, g1, g2),
    ensures
        alike_step(
            b,
            apply_op2(store1, stack1, op, f1, g1, pos),
            apply_op2(store2, stack2, op, f2, g2, pos),
        ),
{
    lemma_alike_merge(b, store1, store2, f1, f2, g1, g2, true, pos);
    lemma_alike_merge(b, store1, store2, f1, f2, g1, g2, false, pos);
}

/// The transition of a machine whose control is a value is alike in
/// machines that are alike.
proof fn lemma_alike_return(b: Bases, m1: MachineView, m2: MachineView)
    requires
        alike(b, m1, m2),
    ensures
        alike_step(b, return_value(m1), return_value(m2)),
{
    if m1.stack.len() > 0 {
        lemma_alike_stack_pop(b, m1.stack, m2.stack);
        let rest1 = m1.stack.drop_last();
        let rest2 = m2.stack.drop_last();
        let v1 = m1.control;
        let v2 = m2.control;
        match (m1.stack.last(), m2.stack.last()) {
            (FrameView::Update(i), FrameView::Update(j)) => {
                lemma_alike_at(b, m1.store, m2.store, i, j);
                if i < m1.store.len() && m1.store[i as int].state != ThunkState::Evaluated {
                    lemma_alike_update(
                        b,
                        m1.store,
                        m2.store,
                        i,
                        j,
                        ThunkDataView {
                            closure: v1,
                            state: ThunkState::Evaluated,
                            ..m1.store[i as int]
                        },
                        ThunkDataView {
                            closure: v2,
                            state: ThunkState::Evaluated,
                            ..m2.store[j as int]
                        },
                    );
                }
            },
            (FrameView::Arg(a1, _), FrameView::Arg(a2, _)) => {
                match *v1.body.term {
                    TermView::Fun(x, _) => {
                        lemma_alike_push(
                            b,
                            m1.store,
                            m2.store,
                            suspended(a1, IdentKind::Lam),
                            suspended(a2, IdentKind::Lam),
                        );
                        lemma_alike_insert(
                            b,
                            v1.env,
                            v2.env,
                            x,
                            m1.store.len(),
                            m2.store.len(),
                        );
                    },
                    _ => {},
                }
            },
            (FrameView::Op1(op, pos), FrameView::Op1(_, _)) => {
                lemma_alike_op1(b, m1.store, m2.store, rest1, rest2, op, v1, v2, pos);
            },
            (FrameView::Op2First(op, s1, pos), FrameView::Op2First(_, s2, _)) => {
                lemma_alike_stack_push(
                    b,
                    rest1,
                    rest2,
                    FrameView::Op2Second(op, v1, pos),
                    FrameView::Op2Second(op, v2, pos),
                );
            },
            (FrameView::Op2Second(op, f1, pos), FrameView::Op2Second(_, f2, _)) => {
                lemma_alike_op2(b, m1.store, m2.store, rest1, rest2, op, f1, f2, v1, v2, pos);
            },
            (FrameView::Chunks(acc, chunks, e1, pos), FrameView::Chunks(_, _, e2, _)) => {
                match *v1.body.term {
                    TermView::Str(text) => {
                        lemma_alike_read_chunks(
                            b,
                            m1.store,
                            m2.store,
                            rest1,
                            rest2,
                            acc + text,
                            chunks,
                            e1,
                            e2,
                            pos,
                        );
                    },
                    _ => {},
                }
            },
            _ => {},
        }
    }
}

/// One transition is alike in machines that are alike, where the global
/// environment binds shared thunks only.
proof fn lemma_alike_step(b: Bases, m1: MachineView, m2: MachineView, g: EnvView, mode: Mode)
    requires
        alike(b, m1, m2),
        alike_env(b, g, g),
    ensures
        alike_step(b, step(m1, g, mode), step(m2, g, mode)),
{
    let rt = m1.control.body;
    let e1 = m1.control.env;
    let e2 = m2.control.env;
    let pos = rt.pos;
    lemma_alike_return(b, m1, m2);
    match *rt.term {
        TermView::Var(x) => {
            lemma_alike_step_var(b, m1, m2, g, x, pos);
        },
        TermView::App(f, a) => {
            lemma_alike_stack_push(
                b,
                m1.stack,
                m2.stack,
                FrameView::Arg(ClosureView { body: a, env: e1 }, pos),
                FrameView::Arg(ClosureView { body: a, env: e2 }, pos),
            );
        },
        TermView::Let(x, bound, body) => {
            lemma_alike_push(
                b,
                m1.store,
                m2.store,
                suspended(ClosureView { body: bound, env: e1 }, IdentKind::Let),
                suspended(ClosureView { body: bound, env: e2 }, IdentKind::Let),
            );
            lemma_alike_insert(b, e1, e2, x, m1.store.len(), m2.store.len());
        },
        TermView::Op1(op, a) => {
            lemma_alike_stack_push(
                b,
                m1.stack,
                m2.stack,
                FrameView::Op1(op, pos),
                FrameView::Op1(op, pos),
            );
        },
        TermView::Op2(op, a, c) => {
            lemma_alike_stack_push(
                b,
                m1.stack,
                m2.stack,
                FrameView::Op2First(op, ClosureView { body: c, env: e1 }, pos),
                FrameView::Op2First(op, ClosureView { body: c, env: e2 }, pos),
            );
        },
        TermView::If(c, t, e) => {
            lemma_alike_stack_push(
                b,
                m1.stack,
                m2.stack,
                FrameView::If(t, e, e1, pos),
                FrameView::If(t, e, e2, pos),
            );
        },
        TermView::StrChunks(chunks) => {
            lemma_alike_read_chunks(
                b,
                m1.store,
                m2.store,
                m1.stack,
                m2.stack,
                Seq::empty(),
                chunks,
                e1,
                e2,
                pos,
            );
        },
        TermView::Switch(scrutinee, cases, default) => {
            lemma_alike_stack_push(
                b,
                m1.stack,
                m2.stack,
                FrameView::Switch(cases, default, e1, pos),
                FrameView::Switch(cases, default, e2, pos),
            );
        },
        TermView::RecRecord(fields) => {
            let n = fields.len() as int;
            lemma_alike_rec_env(b, e1, e2, fields, m1.store.len(), m2.store.len(), n);
            let r1 = rec_env(e1, fields, m1.store.len(), n);
            let r2 = rec_env(e2, fields, m2.store.len(), n);
            lemma_alike_append(
                b,
                m1.store,
                m2.store,
                field_thunks(fields, r1),
                field_thunks(fields, r2),
            );
        },
        TermView::MetaValue(meta) => {
            if m1.stack.len() > 0 {
                lemma_alike_stack_pop(b, m1.stack, m2.stack);
            }
        },
        _ => {},
    }
}

/// Whether the outcomes of two runs are alike: the same term as the value,
/// or the same error.
pub open spec fn alike_result(
    r1: Result<ClosureView, EvalErrorView>,
    r2: Result<ClosureView, EvalErrorView>,
) -> bool {
    match (r1, r2) {
        (Ok(c1), Ok(c2)) => c1.body == c2.body,
        (Err(e1), Err(e2)) => e1 == e2,
        _ => false,
    }
}

/// Machines that are alike run alike: to the same term, or to the same
/// error.
proof fn lemma_alike_run(
    b: Bases,
    m1: MachineView,
    m2: MachineView,
    g: EnvView,
    mode: Mode,
    fuel: nat,
)
    requires
        alike(b, m1, m2),
        alike_env(b, g, g),
    ensures
        alike_result(run(m1, g, mode, fuel).result, run(m2, g, mode, fuel).result),
    decreases fuel,
{
    if fuel > 0 {
        lemma_alike_step(b, m1, m2, g, mode);
        match (step(m1, g, mode), step(m2, g, mode)) {
            (StepView::Next(n1), StepView::Next(n2)) => {
                lemma_alike_run(b, n1, n2, g, mode, (fuel - 1) as nat);
            },
            _ => {},
        }
    }
}

/// What [`crate::eval::eval_no_import`] gives is a function of the term:
/// two terms that read the same evaluate the same.
pub proof fn lemma_plain_eval_is_a_function(t1: RichTermView, t2: RichTermView)
    requires
        t1 == t2,
    ensures
        crate::eval::plain_whnf(t1) == crate::eval::plain_whnf(t2),
{
}

/// The weak head normal form of a closed term is the same in
/// every store. Evaluating the term again, in the store that an earlier
/// evaluation left or in any other, gives the same term or the same error.
pub proof fn lemma_eval_is_deterministic(
    store1: StoreView,
    store2: StoreView,
    t: RichTermView,
    fuel: nat,
)
    ensures
        whnf(store1, t, Map::empty(), fuel).result == whnf(store2, t, Map::empty(), fuel).result,
{
    let b = Bases { shared: 0, left: store1.len(), right: store2.len() };
    lemma_alike_run(
        b,
        start(store1, closed(t)),
        start(store2, closed(t)),
        Map::empty(),
        Mode::Strict,
        fuel,
    );
}

/// Whether the environment binds none but the first `n` thunks.
pub open spec fn binds_below(env: EnvView, n: nat) -> bool {
    forall|x: Seq<char>| #[trigger] env.contains_key(x) ==> env[x] < n
}

/// Whether the first `n` thunks of the store are closed: each refers to none
/// but the first `n` thunks.
pub open spec fn closed_below(store: StoreView, n: nat) -> bool {
    n <= store.len() && forall|i: int|
        0 <= i < n ==> binds_below((#[trigger] store[i]).closure.env, n)
}

/// A store whose first thunks are closed is like any other store that
/// begins with the same thunks, when what comes after them is in neither.
proof fn lemma_alike_shared(shared: StoreView, more1: StoreView, more2: StoreView)
    requires
        closed_below(shared, shared.len()),
    ensures
        alike_store(
            Bases {
                shared: shared.len(),
                left: (shared + more1).len(),
                right: (shared + more2).len(),
            },
            shared + more1,
            shared + more2,
        ),
{
    let b = Bases {
        shared: shared.len(),
        left: (shared + more1).len(),
        right: (shared + more2).len(),
    };
    assert forall|i: int| 0 <= i < b.shared implies alike_data(
        b,
        #[trigger] (shared + more1)[i],
        (shared + more2)[i],
    ) by {
        assert((shared + more1)[i] == shared[i]);
        assert((shared + more2)[i] == shared[i]);
        assert(binds_below(shared[i].closure.env, shared.len()));
    }
}

/// Evaluation depends on what it can reach only: where the first thunks of a
/// store are closed and the global environment binds none but them, the
/// weak head normal form of a closed term is the same whatever thunks come
/// after them.
pub proof fn lemma_eval_reads_what_it_reaches(
    shared: StoreView,
    more1: StoreView,
    more2: StoreView,
    t: RichTermView,
    global: EnvView,
    fuel: nat,
)
    requires
        closed_below(shared, shared.len()),
        binds_below(global, shared.len()),
    ensures
        whnf(shared + more1, t, global, fuel).result == whnf(
            shared + more2,
            t,
            global,
            fuel,
        ).result,
{
    let b = Bases {
        shared: shared.len(),
        left: (shared + more1).len(),
        right: (shared + more2).len(),
    };
    lemma_alike_shared(shared, more1, more2);
    lemma_alike_run(
        b,
        start(shared + more1, closed(t)),
        start(shared + more2, closed(t)),
        global,
        Mode::Strict,
        fuel,
    );
}

/// Whether two ends of runs are alike: both runs fail to come to an end, or
/// both come to one in as many steps, in machines that are alike.
pub open spec fn alike_end(
    b: Bases,
    e1: Option<(MachineView, nat)>,
    e2: Option<(MachineView, nat)>,
) -> bool {
    match (e1, e2) {
        (Some((m1, k1)), Some((m2, k2))) => k1 == k2 && alike(b, m1, m2),
        (None, None) => true,
        _ => false,
    }
}

/// Machines that are alike come to their ends alike.
proof fn lemma_alike_end(b: Bases, m1: MachineView, m2: MachineView, g: EnvView, fuel: nat)
    requires
        alike(b, m1, m2),
        alike_env(b, g, g),
    ensures
        alike_end(b, end_of(m1, g, fuel), end_of(m2, g, fuel)),
    decreases fuel,
{
    if !is_at_an_end(m1) && fuel > 0 {
        lemma_alike_step(b, m1, m2, g, Mode::Strict);
        match (step(m1, g, Mode::Strict), step(m2, g, Mode::Strict)) {
            (StepView::Next(n1), StepView::Next(n2)) => {
                lemma_alike_end(b, n1, n2, g, (fuel - 1) as nat);
            },
            _ => {},
        }
    }
}

/// With more steps, a run comes to the same end.
proof fn lemma_end_of_more(m: MachineView, g: EnvView, fuel: nat, more: nat)
    requires
        end_of(m, g, fuel) is Some,
        fuel <= more,
    ensures
        end_of(m, g, more) == end_of(m, g, fuel),
    decreases fuel,
{
    if !is_at_an_end(m) {
        match step(m, g, Mode::Strict) {
            StepView::Next(next) => {
                lemma_end_of_more(next, g, (fuel - 1) as nat, (more - 1) as nat);
            },
            _ => {},
        }
    }
}

/// The identity function applied to any term evaluates to what the term
/// evaluates to, four steps later: the same value or the same error. This
/// holds where the store is closed and the global environment binds thunks
/// of the store, and where the steps are enough for the term alone.
pub proof fn lemma_identity_is_transparent(
    store: StoreView,
    x: Seq<char>,
    x_pos: TermPos,
    fun_pos: TermPos,
    a: RichTermView,
    pos: TermPos,
    global: EnvView,
    fuel: nat,
)
    requires
        closed_below(store, store.len()),
        binds_below(global, store.len()),
        whnf(store, a, global, fuel).result != Err::<RichTermView, EvalErrorView>(
            EvalErrorView::StepLimit,
        ),
    ensures
        whnf(
            store,
            at(TermView::App(at(TermView::Fun(x, at(TermView::Var(x), x_pos)), fun_pos), a), pos),
            global,
            fuel + 4,
        ).result == whnf(store, a, global, fuel).result,
{
    let e = Map::<Seq<char>, nat>::empty();
    let none = Seq::<FrameView>::empty();
    let id = at(TermView::Fun(x, at(TermView::Var(x), x_pos)), fun_pos);
    let ca = closed(a);
    let n = store.len();
    let s = Mode::Strict;
    // the three steps that lead to the argument
    let m0 = start(store, closed(at(TermView::App(id, a), pos)));
    let m1 = MachineView { store, control: closed(id), stack: none.push(FrameView::Arg(ca, pos)) };
    assert(step(m0, global, s) == StepView::Next(m1));
    assert(m1.stack.drop_last() =~= none);
    let suspended = ThunkDataView {
        closure: ca,
        ident_kind: IdentKind::Lam,
        state: ThunkState::Suspended,
    };
    let m2 = MachineView {
        store: store.push(suspended),
        control: ClosureView { body: at(TermView::Var(x), x_pos), env: e.insert(x, n) },
        stack: none,
    };
    assert(step(m1, global, s) == StepView::Next(m2));
    let held = store.push(ThunkDataView { state: ThunkState::Blackholed, ..suspended });
    assert(m2.store.update(
        n as int,
        ThunkDataView { state: ThunkState::Blackholed, ..suspended },
    ) =~= held);
    let update = none.push(FrameView::Update(n));
    let alone = MachineView { store: held, control: ca, stack: none };
    let m3 = over(update, alone);
    assert(m3.stack =~= update);
    assert(step(m2, global, s) == StepView::Next(m3));
    assert(run(m0, global, s, fuel + 4) == run(m3, global, s, fuel + 1)) by {
        reveal_with_fuel(run, 4);
    }
    // the argument alone, in the store with the thunk and in the store without
    let plain = start(store, ca);
    let b = Bases { shared: n, left: n + 1, right: n };
    assert(alike_store(b, held, store)) by {
        assert forall|i: int| 0 <= i < b.shared implies alike_data(
            b,
            #[trigger] held[i],
            store[i],
        ) by {
            assert(held[i] == store[i]);
            assert(binds_below(store[i].closure.env, n));
        }
    }
    assert(alike_env(b, global, global));
    lemma_alike_end(b, alone, plain, global, fuel);
    lemma_run_composes(none, plain, global, s, fuel);
    assert(over(none, plain) == plain) by {
        assert(none + plain.stack =~= plain.stack);
    }
    match end_of(plain, global, fuel) {
        Some((end2, k)) => {
            let end1 = end_of(alone, global, fuel)->Some_0.0;
            assert(over(none, end2) == end2) by {
                lemma_end_has_no_stack(plain, global, fuel);
                assert(none + end2.stack =~= end2.stack);
            }
            lemma_end_of_more(alone, global, fuel, fuel + 1);
            lemma_run_composes(update, alone, global, s, fuel + 1);
            lemma_end_has_no_stack(alone, global, fuel);
            let back = over(update, end1);
            assert(back.stack =~= update);
            assert(back.stack.drop_last() =~= none);
            let next1 = MachineView {
                store: crate::semantics::updated(end1.store, n, end1.control),
                control: end1.control,
                stack: none,
            };
            assert(step(back, global, s) == StepView::Next(next1));
            assert(alike_store(b, next1.store, end2.store)) by {
                assert forall|i: int| 0 <= i < b.shared implies alike_data(
                    b,
                    #[trigger] next1.store[i],
                    end2.store[i],
                ) by {
                    assert(next1.store[i] == end1.store[i]);
                }
                assert forall|i: int| 0 <= i < next1.store.len() - b.left implies alike_data(
                    b,
                    #[trigger] next1.store[b.left + i],
                    end2.store[b.right + i],
                ) by {
                    assert(next1.store[b.left + i] == end1.store[b.left + i]);
                }
            }
            assert(end2.stack =~= none);
            lemma_alike_run(b, next1, end2, global, s, (fuel - k) as nat);
            assert(run(back, global, s, (fuel + 1 - k) as nat) == run(
                next1,
                global,
                s,
                (fuel - k) as nat,
            ));
        },
        None => {
            lemma_run_composes(update, alone, global, s, fuel);
            lemma_alike_run(b, alone, plain, global, s, fuel);
            crate::laws::evaluation::lemma_fuel_monotone(m3, global, s, fuel, fuel + 1);
        },
    }
}

/// A run comes to an end with nothing on its stack.
proof fn lemma_end_has_no_stack(m: MachineView, g: EnvView, fuel: nat)
    ensures
        end_of(m, g, fuel) matches Some((end, _)) ==> is_at_an_end(end),
    decreases fuel,
{
    if !is_at_an_end(m) && fuel > 0 {
        match step(m, g, Mode::Strict) {
            StepView::Next(next) => {
                lemma_end_has_no_stack(next, g, (fuel - 1) as nat);
            },
            _ => {},
        }
    }
}

} // verus!
