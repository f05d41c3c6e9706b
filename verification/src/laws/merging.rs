//! What holds of every merge: priorities, plain values, records.
use crate::environment::{suspended, ClosureView, EnvView, IdentKind, StoreView, ThunkDataView};
use crate::environment::ThunkState;
use crate::error::{EvalErrorView, MergeError};
use crate::eval::{whnf, Outcome};
use crate::merge::{defer, deferred_term, extends, field_names, find, left_name};
use crate::merge::{lemma_find_is_field, lemma_find_unique, lemma_merge_left_extends};
use crate::merge::{lemma_merge_right_extends, lift, merge_left, merge_meta, merge_records};
use crate::merge::{merge_result, merge_right, right_name, same_scalar, Merged};
use crate::position::TermPos;
use crate::semantics::{closed, is_whnf, run, start, step, FrameView, MachineView, Mode, StepView};
use crate::term::{at, BinaryOp, MergePriority, MetaValueView, RichTermView, TermView};
use vstd::prelude::*;

verus! {

/// Of two metavalues, the one with the higher priority gives
/// the value; the other gives its metadata only, and no thunk is made.
pub proof fn lemma_higher_priority_wins(
    store: StoreView,
    a: MetaValueView,
    a_env: EnvView,
    b: MetaValueView,
    b_env: EnvView,
    pos: TermPos,
)
    requires
        a.priority.rank() != b.priority.rank(),
    ensures
        ({
            let (after, merged) = merge_meta(store, a, a_env, b, b_env, pos);
            let (winner, env) = if a.priority.rank() > b.priority.rank() {
                (a, a_env)
            } else {
                (b, b_env)
            };
            &&& after == store
            &&& merged.env == env
            &&& *merged.body.term matches TermView::MetaValue(m)
            &&& m.value == winner.value
            &&& m.priority == winner.priority
        }),
{
}

/// Whether the outcome of a merge is the value `v` under metadata, in the
/// environment of `v`, with the store `store`.
pub open spec fn yields(
    outcome: Result<(StoreView, ClosureView), EvalErrorView>,
    store: StoreView,
    v: ClosureView,
) -> bool {
    &&& outcome matches Ok((after, merged))
    &&& after == store
    &&& merged.env == v.env
    &&& *merged.body.term matches TermView::MetaValue(m)
    &&& m.value == v.body
}

/// A plain value merged with a default is the plain value.
/// The merge gives the plain value under metadata, which strict evaluation
/// takes off in one step.
pub proof fn lemma_default_yields(
    store: StoreView,
    v: ClosureView,
    d: MetaValueView,
    d_env: EnvView,
    pos: TermPos,
)
    requires
        !(*v.body.term is MetaValue),
        d.priority == MergePriority::Default,
    ensures
        yields(
            merge_result(
                store,
                v,
                ClosureView { body: at(TermView::MetaValue(d), pos), env: d_env },
                false,
                pos,
            ),
            store,
            v,
        ),
        yields(
            merge_result(
                store,
                ClosureView { body: at(TermView::MetaValue(d), pos), env: d_env },
                v,
                false,
                pos,
            ),
            store,
            v,
        ),
{
}

/// Two values that are no records and carry no
/// metadata merge exactly when they are the same boolean, number, string or
/// tag, and then the merge is that value; when they are not, the error is
/// `IncompatibleDefaults` if both came as defaults and `IncompatibleValues`
/// otherwise.
pub proof fn lemma_merge_scalars(
    store: StoreView,
    a: ClosureView,
    b: ClosureView,
    defaults: bool,
    pos: TermPos,
)
    requires
        !(*a.body.term is MetaValue),
        !(*b.body.term is MetaValue),
        !(*a.body.term is Record),
        !(*b.body.term is Record),
    ensures
        same_scalar(*a.body.term, *b.body.term) ==> merge_result(store, a, b, defaults, pos)
            == Ok::<(StoreView, ClosureView), EvalErrorView>((store, a)),
        !same_scalar(*a.body.term, *b.body.term) ==> merge_result(store, a, b, defaults, pos)
            == Err::<(StoreView, ClosureView), EvalErrorView>(
            EvalErrorView::MergeError(
                if defaults {
                    MergeError::IncompatibleDefaults
                } else {
                    MergeError::IncompatibleValues
                },
                a.body,
                b.body,
                pos,
            ),
        ),
{
}

/// The names of the first `j` fields of `right` that `left` lacks, in order.
pub open spec fn right_only(
    left: Seq<(Seq<char>, RichTermView)>,
    right: Seq<(Seq<char>, RichTermView)>,
    j: int,
) -> Seq<Seq<char>>
    decreases j,
{
    if j <= 0 {
        Seq::empty()
    } else {
        let before = right_only(left, right, j - 1);
        if find(left, right[j - 1].0, 0) is None {
            before.push(right[j - 1].0)
        } else {
            before
        }
    }
}

/// Whether the thunk `t` of `store` holds the term `body` in the environment
/// `env`, suspended.
pub open spec fn holds(store: StoreView, t: nat, body: RichTermView, env: EnvView) -> bool {
    t < store.len() && store[t as int] == suspended(ClosureView { body, env }, IdentKind::Record)
}

/// Whether `env` binds the field `k` to a thunk of `store` that is what the
/// merge of the records `left` and `right` owes for `k`: the field itself
/// where one record has it, and where both have it the merge of the two
/// fields, each in the environment of its record.
pub open spec fn merged_field(
    store: StoreView,
    env: EnvView,
    k: Seq<char>,
    left: Seq<(Seq<char>, RichTermView)>,
    left_env: EnvView,
    right: Seq<(Seq<char>, RichTermView)>,
    right_env: EnvView,
    pos: TermPos,
) -> bool {
    &&& env.contains_key(k)
    &&& env[k] < store.len()
    &&& match (find(left, k, 0), find(right, k, 0)) {
        (Some(i), Some(j)) => {
            let c = store[env[k] as int].closure;
            &&& c.body == deferred_term(false, pos)
            &&& c.env.contains_key(left_name())
            &&& c.env.contains_key(right_name())
            &&& holds(store, c.env[left_name()], left[i].1, left_env)
            &&& holds(store, c.env[right_name()], right[j].1, right_env)
        },
        (Some(i), None) => holds(store, env[k], left[i].1, left_env),
        (None, Some(j)) => holds(store, env[k], right[j].1, right_env),
        (None, None) => false,
    }
}

/// The two names of a deferred merge differ.
proof fn lemma_left_is_not_right()
    ensures
        left_name() != right_name(),
{
    reveal_strlit("left");
    reveal_strlit("right");
    assert(left_name().len() == 4);
    assert(right_name().len() == 5);
}

/// What holds of a merge in progress after the first `i` fields of the left
/// record: the fields so far are those `i` fields, as variables of their own
/// names, and each is bound as the merge asks.
pub open spec fn left_done(
    acc: Merged,
    left: Seq<(Seq<char>, RichTermView)>,
    left_env: EnvView,
    right: Seq<(Seq<char>, RichTermView)>,
    right_env: EnvView,
    pos: TermPos,
    i: int,
) -> bool {
    &&& acc.fields.len() == i
    &&& forall|n: int|
        0 <= n < i ==> #[trigger] acc.fields[n] == (left[n].0, at(TermView::Var(left[n].0), pos))
    &&& forall|n: int|
        0 <= n < i ==> merged_field(
            acc.store,
            acc.env,
            (#[trigger] left[n]).0,
            left,
            left_env,
            right,
            right_env,
            pos,
        )
}

/// A field that is bound as the merge asks stays so when thunks are added
/// and another name is bound.
proof fn lemma_merged_field_stays(
    store: StoreView,
    env: EnvView,
    after: StoreView,
    other: Seq<char>,
    thunk: nat,
    k: Seq<char>,
    left: Seq<(Seq<char>, RichTermView)>,
    left_env: EnvView,
    right: Seq<(Seq<char>, RichTermView)>,
    right_env: EnvView,
    pos: TermPos,
)
    requires
        merged_field(store, env, k, left, left_env, right, right_env, pos),
        extends(store, after),
        other != k,
    ensures
        merged_field(after, env.insert(other, thunk), k, left, left_env, right, right_env, pos),
{
}

/// The fields of the left record go into the merge as the merge asks.
proof fn lemma_merge_left(
    left: Seq<(Seq<char>, RichTermView)>,
    left_env: EnvView,
    right: Seq<(Seq<char>, RichTermView)>,
    right_env: EnvView,
    pos: TermPos,
    i: int,
    acc: Merged,
)
    requires
        field_names(left).no_duplicates(),
        0 <= i <= left.len(),
        left_done(acc, left, left_env, right, right_env, pos, i),
    ensures
        left_done(
            merge_left(left, left_env, right, right_env, pos, i, acc),
            left,
            left_env,
            right,
            right_env,
            pos,
            left.len() as int,
        ),
    decreases left.len() - i,
{
    if i < left.len() {
        let (name, t) = left[i];
        let mine = ClosureView { body: t, env: left_env };
        lemma_find_unique(left, i, 0);
        lemma_find_is_field(right, name, 0);
        lemma_left_is_not_right();
        let next = match find(right, name, 0) {
            Some(j) => acc.with_field(
                defer(
                    acc.store,
                    mine,
                    ClosureView { body: right[j].1, env: right_env },
                    false,
                    pos,
                ),
                name,
                (acc.store.len() + 2) as nat,
                pos,
            ),
            None => acc.with_field(
                acc.store.push(suspended(mine, IdentKind::Record)),
                name,
                acc.store.len(),
                pos,
            ),
        };
        assert(extends(acc.store, next.store));
        assert forall|n: int| 0 <= n < i + 1 implies merged_field(
            next.store,
            next.env,
            (#[trigger] left[n]).0,
            left,
            left_env,
            right,
            right_env,
            pos,
        ) by {
            if n < i {
                assert(field_names(left)[n] == left[n].0);
                assert(field_names(left)[i] == left[i].0);
                lemma_merged_field_stays(
                    acc.store,
                    acc.env,
                    next.store,
                    name,
                    next.env[name],
                    left[n].0,
                    left,
                    left_env,
                    right,
                    right_env,
                    pos,
                );
            }
        }
        lemma_merge_left(left, left_env, right, right_env, pos, i + 1, next);
    }
}

/// What holds of a merge in progress after the left record and the first
/// `j` fields of the right one.
pub open spec fn right_done(
    acc: Merged,
    left: Seq<(Seq<char>, RichTermView)>,
    left_env: EnvView,
    right: Seq<(Seq<char>, RichTermView)>,
    right_env: EnvView,
    pos: TermPos,
    j: int,
) -> bool {
    &&& field_names(acc.fields) == field_names(left) + right_only(left, right, j)
    &&& forall|n: int|
        0 <= n < acc.fields.len() ==> (#[trigger] acc.fields[n]).1 == at(
            TermView::Var(acc.fields[n].0),
            pos,
        )
    &&& forall|n: int|
        0 <= n < left.len() ==> merged_field(
            acc.store,
            acc.env,
            (#[trigger] left[n]).0,
            left,
            left_env,
            right,
            right_env,
            pos,
        )
    &&& forall|n: int|
        0 <= n < j ==> merged_field(
            acc.store,
            acc.env,
            (#[trigger] right[n]).0,
            left,
            left_env,
            right,
            right_env,
            pos,
        )
}

/// The fields of the right record that the left one lacks go into the merge
/// as the merge asks.
proof fn lemma_merge_right(
    left: Seq<(Seq<char>, RichTermView)>,
    left_env: EnvView,
    right: Seq<(Seq<char>, RichTermView)>,
    right_env: EnvView,
    pos: TermPos,
    j: int,
    acc: Merged,
)
    requires
        field_names(right).no_duplicates(),
        0 <= j <= right.len(),
        right_done(acc, left, left_env, right, right_env, pos, j),
    ensures
        right_done(
            merge_right(left, right, right_env, pos, j, acc),
            left,
            left_env,
            right,
            right_env,
            pos,
            right.len() as int,
        ),
    decreases right.len() - j,
{
    if j < right.len() {
        let (name, t) = right[j];
        lemma_find_unique(right, j, 0);
        lemma_find_is_field(left, name, 0);
        let next = match find(left, name, 0) {
            Some(_) => acc,
            None => acc.with_field(
                acc.store.push(
                    suspended(ClosureView { body: t, env: right_env }, IdentKind::Record),
                ),
                name,
                acc.store.len(),
                pos,
            ),
        };
        assert(extends(acc.store, next.store));
        if find(left, name, 0) is None {
            assert(field_names(next.fields) =~= field_names(acc.fields).push(name));
            assert(field_names(next.fields) =~= field_names(left) + right_only(left, right, j + 1));
            assert forall|n: int| 0 <= n < left.len() implies merged_field(
                next.store,
                next.env,
                (#[trigger] left[n]).0,
                left,
                left_env,
                right,
                right_env,
                pos,
            ) by {
                lemma_merged_field_stays(
                    acc.store,
                    acc.env,
                    next.store,
                    name,
                    next.env[name],
                    left[n].0,
                    left,
                    left_env,
                    right,
                    right_env,
                    pos,
                );
            }
            assert forall|n: int| 0 <= n < j + 1 implies merged_field(
                next.store,
                next.env,
                (#[trigger] right[n]).0,
                left,
                left_env,
                right,
                right_env,
                pos,
            ) by {
                if n < j {
                    assert(field_names(right)[n] == right[n].0);
                    assert(field_names(right)[j] == right[j].0);
                    lemma_merged_field_stays(
                        acc.store,
                        acc.env,
                        next.store,
                        name,
                        next.env[name],
                        right[n].0,
                        left,
                        left_env,
                        right,
                        right_env,
                        pos,
                    );
                }
            }
        } else {
            let i = find(left, name, 0)->Some_0;
            assert(left[i].0 == name);
        }
        lemma_merge_right(left, left_env, right, right_env, pos, j + 1, next);
    }
}

/// Every name among the fields that only the right record has is the name
/// of a field of the right record.
proof fn lemma_right_only_fields(
    left: Seq<(Seq<char>, RichTermView)>,
    right: Seq<(Seq<char>, RichTermView)>,
    j: int,
)
    requires
        0 <= j <= right.len(),
    ensures
        forall|n: int|
            0 <= n < right_only(left, right, j).len() ==> exists|m: int|
                0 <= m < j && (#[trigger] right[m]).0 == #[trigger] right_only(left, right, j)[n],
    decreases j,
{
    if j > 0 {
        lemma_right_only_fields(left, right, j - 1);
        let before = right_only(left, right, j - 1);
        let now = right_only(left, right, j);
        assert forall|n: int| 0 <= n < now.len() implies exists|m: int|
            0 <= m < j && (#[trigger] right[m]).0 == #[trigger] now[n] by {
            if n < before.len() {
                assert(now[n] == before[n]);
                let m = choose|m: int| 0 <= m < j - 1 && (#[trigger] right[m]).0 == before[n];
                assert(0 <= m < j && right[m].0 == now[n]);
            } else {
                assert(right[j - 1].0 == now[n]);
            }
        }
    }
}

/// The merge of two records, in each of which no name
/// stands twice, is the record of the union of their names. Its fields are
/// those of the left record in their order, then those of the right record
/// that the left one lacks. Each field is a variable of its own name, bound
/// to a new thunk: the field as it was where one record has it, and the
/// merge of the two fields where both have it.
pub proof fn lemma_merge_records(
    store: StoreView,
    left: Seq<(Seq<char>, RichTermView)>,
    left_env: EnvView,
    right: Seq<(Seq<char>, RichTermView)>,
    right_env: EnvView,
    pos: TermPos,
)
    requires
        field_names(left).no_duplicates(),
        field_names(right).no_duplicates(),
    ensures
        ({
            let (after, merged) = merge_records(store, left, left_env, right, right_env, pos);
            &&& extends(store, after)
            &&& *merged.body.term matches TermView::Record(fields)
            &&& field_names(fields) == field_names(left) + right_only(
                left,
                right,
                right.len() as int,
            )
            &&& forall|n: int|
                0 <= n < fields.len() ==> (#[trigger] fields[n]).1 == at(
                    TermView::Var(fields[n].0),
                    pos,
                )
            &&& forall|n: int|
                0 <= n < fields.len() ==> merged_field(
                    after,
                    merged.env,
                    (#[trigger] fields[n]).0,
                    left,
                    left_env,
                    right,
                    right_env,
                    pos,
                )
        }),
{
    let start = Merged { store, env: Map::empty(), fields: Seq::empty() };
    lemma_merge_left(left, left_env, right, right_env, pos, 0, start);
    let half = merge_left(left, left_env, right, right_env, pos, 0, start);
    assert(field_names(half.fields) =~= field_names(left) + right_only(left, right, 0));
    lemma_merge_right(left, left_env, right, right_env, pos, 0, half);
    let all = merge_right(left, right, right_env, pos, 0, half);
    lemma_merge_left_extends(left, left_env, right, right_env, pos, 0, start);
    lemma_merge_right_extends(left, right, right_env, pos, 0, half);
    lemma_right_only_fields(left, right, right.len() as int);
    assert forall|n: int| 0 <= n < all.fields.len() implies merged_field(
        all.store,
        all.env,
        (#[trigger] all.fields[n]).0,
        left,
        left_env,
        right,
        right_env,
        pos,
    ) by {
        let r = right_only(left, right, right.len() as int);
        let k = field_names(all.fields)[n];
        assert(k == all.fields[n].0);
        assert(field_names(left).len() == left.len());
        assert(field_names(all.fields).len() == all.fields.len());
        assert(k == (field_names(left) + r)[n]);
        if n < left.len() {
            assert(k == field_names(left)[n]);
            assert(k == left[n].0);
        } else {
            let idx = n - left.len();
            assert(0 <= idx < r.len());
            assert(k == r[idx]);
            let m = choose|m: int| 0 <= m < right.len() && (#[trigger] right[m]).0 == r[idx];
            assert(right[m].0 == k);
        }
    }
}

/// Whether a merge succeeds does not depend on the side each value is on.
pub proof fn lemma_merge_succeeds_on_both_sides(
    store: StoreView,
    a: ClosureView,
    b: ClosureView,
    defaults: bool,
    pos: TermPos,
)
    ensures
        merge_result(store, a, b, defaults, pos) is Ok <==> merge_result(
            store,
            b,
            a,
            defaults,
            pos,
        ) is Ok,
{
}

/// The merge of a value with a default of any
/// content evaluates to the value, in six steps, and leaves the store as it
/// was. The default may stand on either side.
pub proof fn lemma_value_overrides_default(
    store: StoreView,
    v: RichTermView,
    d: MetaValueView,
    d_pos: TermPos,
    pos: TermPos,
    global: EnvView,
    fuel: nat,
)
    requires
        is_whnf(*v.term),
        d.priority == MergePriority::Default,
        fuel >= 6,
    ensures
        whnf(
            store,
            at(TermView::Op2(BinaryOp::Merge(), v, at(TermView::MetaValue(d), d_pos)), pos),
            global,
            fuel,
        ) == (Outcome { result: Ok(v), store }),
        whnf(
            store,
            at(TermView::Op2(BinaryOp::Merge(), at(TermView::MetaValue(d), d_pos), v), pos),
            global,
            fuel,
        ) == (Outcome { result: Ok(v), store }),
{
    let e = Map::<Seq<char>, nat>::empty();
    let dv = at(TermView::MetaValue(d), d_pos);
    let cv = ClosureView { body: v, env: e };
    let cd = ClosureView { body: dv, env: e };
    let none = Seq::<FrameView>::empty();
    reveal_with_fuel(run, 7);
    // the value first
    let m0 = start(store, closed(at(TermView::Op2(BinaryOp::Merge(), v, dv), pos)));
    let f1 = FrameView::Op2First(BinaryOp::Merge(), cd, pos);
    let m1 = MachineView { store, control: cv, stack: none.push(f1) };
    assert(step(m0, global, Mode::Strict) == StepView::Next(m1));
    assert(m1.stack.drop_last() =~= none);
    let f2 = FrameView::Op2Second(BinaryOp::Merge(), cv, pos);
    let m2 = MachineView { store, control: cd, stack: none.push(f2) };
    assert(step(m1, global, Mode::Strict) == StepView::Next(m2));
    assert(m2.stack.drop_last() =~= none);
    let merged = merge_meta(store, lift(v), e, d, e, pos).1;
    let m3 = MachineView { store, control: merged, stack: none };
    assert(step(m2, global, Mode::Strict) == StepView::Next(m3));
    let m4 = MachineView { store, control: cv, stack: none };
    assert(step(m3, global, Mode::Strict) == StepView::Next(m4));
    assert(step(m4, global, Mode::Strict) == StepView::Done);
    crate::laws::evaluation::lemma_fuel_monotone(m0, global, Mode::Strict, 6, fuel);
    // the default first
    let n0 = start(store, closed(at(TermView::Op2(BinaryOp::Merge(), dv, v), pos)));
    let g1 = FrameView::Op2First(BinaryOp::Merge(), cv, pos);
    let n1 = MachineView { store, control: cd, stack: none.push(g1) };
    assert(step(n0, global, Mode::Strict) == StepView::Next(n1));
    assert(n1.stack.drop_last() =~= none);
    let g2 = FrameView::Op2Second(BinaryOp::Merge(), cd, pos);
    let n2 = MachineView { store, control: cv, stack: none.push(g2) };
    assert(step(n1, global, Mode::Strict) == StepView::Next(n2));
    assert(n2.stack.drop_last() =~= none);
    let merged_too = merge_meta(store, d, e, lift(v), e, pos).1;
    let n3 = MachineView { store, control: merged_too, stack: none };
    assert(step(n2, global, Mode::Strict) == StepView::Next(n3));
    assert(step(n3, global, Mode::Strict) == StepView::Next(m4));
    crate::laws::evaluation::lemma_fuel_monotone(n0, global, Mode::Strict, 6, fuel);
}

/// The merge of two defaults whose contents are
/// plain values evaluates to the content where both are the same boolean,
/// number, string or tag, and fails with `IncompatibleDefaults` where they
/// are not.
pub proof fn lemma_defaults_must_agree(
    store: StoreView,
    da: MetaValueView,
    a_pos: TermPos,
    db: MetaValueView,
    b_pos: TermPos,
    pos: TermPos,
    global: EnvView,
    fuel: nat,
)
    requires
        da.priority == MergePriority::Default,
        db.priority == MergePriority::Default,
        is_whnf(*da.value.term),
        is_whnf(*db.value.term),
        !(*da.value.term is Record),
        !(*db.value.term is Record),
        fuel >= 14,
    ensures
        whnf(
            store,
            at(
                TermView::Op2(
                    BinaryOp::Merge(),
                    at(TermView::MetaValue(da), a_pos),
                    at(TermView::MetaValue(db), b_pos),
                ),
                pos,
            ),
            global,
            fuel,
        ).result == if same_scalar(*da.value.term, *db.value.term) {
            Ok::<RichTermView, EvalErrorView>(da.value)
        } else {
            Err::<RichTermView, EvalErrorView>(
                EvalErrorView::MergeError(
                    MergeError::IncompatibleDefaults,
                    da.value,
                    db.value,
                    pos,
                ),
            )
        },
{
    let e = Map::<Seq<char>, nat>::empty();
    let none = Seq::<FrameView>::empty();
    let ta = at(TermView::MetaValue(da), a_pos);
    let tb = at(TermView::MetaValue(db), b_pos);
    let ca = ClosureView { body: ta, env: e };
    let cb = ClosureView { body: tb, env: e };
    let va = ClosureView { body: da.value, env: e };
    let vb = ClosureView { body: db.value, env: e };
    let s = Mode::Strict;
    let n = store.len() as int;
    lemma_left_is_not_right();
    reveal_with_fuel(run, 15);
    let m0 = start(store, closed(at(TermView::Op2(BinaryOp::Merge(), ta, tb), pos)));
    let m1 = MachineView {
        store,
        control: ca,
        stack: none.push(FrameView::Op2First(BinaryOp::Merge(), cb, pos)),
    };
    assert(step(m0, global, s) == StepView::Next(m1));
    assert(m1.stack.drop_last() =~= none);
    let m2 = MachineView {
        store,
        control: cb,
        stack: none.push(FrameView::Op2Second(BinaryOp::Merge(), ca, pos)),
    };
    assert(step(m1, global, s) == StepView::Next(m2));
    assert(m2.stack.drop_last() =~= none);
    let (store3, c3) = merge_meta(store, da, e, db, e, pos);
    let m3 = MachineView { store: store3, control: c3, stack: none };
    assert(step(m2, global, s) == StepView::Next(m3));
    let lr = e.insert(left_name(), n as nat).insert(right_name(), (n + 1) as nat);
    let deferred = ClosureView { body: deferred_term(true, pos), env: lr };
    let var_merged = ClosureView {
        body: at(TermView::Var(crate::merge::merged_name()), pos),
        env: e.insert(crate::merge::merged_name(), (n + 2) as nat),
    };
    let m4 = MachineView { store: store3, control: var_merged, stack: none };
    assert(step(m3, global, s) == StepView::Next(m4));
    let black = |d: ThunkDataView| ThunkDataView { state: ThunkState::Blackholed, ..d };
    let done = |d: ThunkDataView, c: ClosureView|
        ThunkDataView { closure: c, state: ThunkState::Evaluated, ..d };
    let u2 = FrameView::Update((n + 2) as nat);
    let store5 = store3.update(n + 2, black(store3[n + 2]));
    let m5 = MachineView { store: store5, control: deferred, stack: none.push(u2) };
    assert(step(m4, global, s) == StepView::Next(m5));
    let var_left = ClosureView { body: at(TermView::Var(left_name()), pos), env: lr };
    let var_right = ClosureView { body: at(TermView::Var(right_name()), pos), env: lr };
    let m6 = MachineView {
        store: store5,
        control: var_left,
        stack: m5.stack.push(FrameView::Op2First(BinaryOp::MergeDefaults(), var_right, pos)),
    };
    assert(step(m5, global, s) == StepView::Next(m6));
    let store7 = store5.update(n, black(store5[n]));
    let m7 = MachineView {
        store: store7,
        control: va,
        stack: m6.stack.push(FrameView::Update(n as nat)),
    };
    assert(step(m6, global, s) == StepView::Next(m7));
    assert(m7.stack.drop_last() =~= m6.stack);
    let store8 = store7.update(n, done(store7[n], va));
    let m8 = MachineView { store: store8, control: va, stack: m6.stack };
    assert(step(m7, global, s) == StepView::Next(m8));
    assert(m6.stack.drop_last() =~= m5.stack);
    let second = FrameView::Op2Second(BinaryOp::MergeDefaults(), va, pos);
    let m9 = MachineView { store: store8, control: var_right, stack: m5.stack.push(second) };
    assert(step(m8, global, s) == StepView::Next(m9));
    let store10 = store8.update(n + 1, black(store8[n + 1]));
    let m10 = MachineView {
        store: store10,
        control: vb,
        stack: m9.stack.push(FrameView::Update((n + 1) as nat)),
    };
    assert(step(m9, global, s) == StepView::Next(m10));
    assert(m10.stack.drop_last() =~= m9.stack);
    let store11 = store10.update(n + 1, done(store10[n + 1], vb));
    let m11 = MachineView { store: store11, control: vb, stack: m9.stack };
    assert(step(m10, global, s) == StepView::Next(m11));
    assert(m9.stack.drop_last() =~= m5.stack);
    lemma_merge_scalars(store11, va, vb, true, pos);
    if same_scalar(*da.value.term, *db.value.term) {
        let m12 = MachineView { store: store11, control: va, stack: m5.stack };
        assert(step(m11, global, s) == StepView::Next(m12));
        assert(m5.stack.drop_last() =~= none);
        let store13 = store11.update(n + 2, done(store11[n + 2], va));
        let m13 = MachineView { store: store13, control: va, stack: none };
        assert(step(m12, global, s) == StepView::Next(m13));
        assert(step(m13, global, s) == StepView::Done);
    } else {
        assert(step(m11, global, s) == StepView::Fail(
            EvalErrorView::MergeError(
                MergeError::IncompatibleDefaults,
                da.value,
                db.value,
                pos,
            ),
        ));
    }
    crate::laws::evaluation::lemma_fuel_monotone(m0, global, s, 14, fuel);
}

} // verus!
