//! The merge of two values.
//!
//! Records merge field by field, a value with metadata merges by priority,
//! and two plain values merge only when they are equal. What merges into a
//! record or under a metavalue is not evaluated here: its merge is left as a
//! term in a thunk, and happens when the field is needed.
use crate::environment::{suspended, Closure, ClosureView, EnvView, Environment, IdentKind, Store};
use crate::environment::{StoreView, Thunk};
use crate::error::{EvalError, EvalErrorView, MergeError};
use crate::identifier::Ident;
use crate::position::TermPos;
use crate::term::{at, clone_contracts, clone_doc, clone_types, contracts_view, fields_view};
use crate::term::{lemma_term_view, BinaryOp, Contract, ContractView, MergePriority, MetaValue};
use crate::term::{MetaValueView, RichTerm, RichTermView, Term, TermView};
use vstd::prelude::*;

verus! {

/// The index of the first of `fields` from index `from` on that is named
/// `name`.
pub open spec fn find(fields: Seq<(Seq<char>, RichTermView)>, name: Seq<char>, from: int) -> Option<
    int,
>
    decreases fields.len() - from,
{
    if from < 0 || from >= fields.len() {
        None
    } else if fields[from].0 == name {
        Some(from)
    } else {
        find(fields, name, from + 1)
    }
}

/// The names of `fields`, in order.
pub open spec fn field_names(fields: Seq<(Seq<char>, RichTermView)>) -> Seq<Seq<char>> {
    fields.map_values(|f: (Seq<char>, RichTermView)| f.0)
}

/// In a sequence of fields with no name twice, the first field of the name
/// of the field `i` is the field `i`.
pub proof fn lemma_find_unique(fields: Seq<(Seq<char>, RichTermView)>, i: int, from: int)
    requires
        field_names(fields).no_duplicates(),
        0 <= from <= i < fields.len(),
    ensures
        find(fields, fields[i].0, from) == Some(i),
    decreases i - from,
{
    if from < i {
        assert(field_names(fields)[from] == fields[from].0);
        assert(field_names(fields)[i] == fields[i].0);
        lemma_find_unique(fields, i, from + 1);
    }
}

/// What is found is a field of the name that was looked for.
pub proof fn lemma_find_is_field(fields: Seq<(Seq<char>, RichTermView)>, k: Seq<char>, from: int)
    requires
        0 <= from,
    ensures
        match find(fields, k, from) {
            Some(i) => from <= i < fields.len() && fields[i].0 == k,
            None => forall|i: int| from <= i < fields.len() ==> (#[trigger] fields[i]).0 != k,
        },
    decreases fields.len() - from,
{
    if from < fields.len() && fields[from].0 != k {
        lemma_find_is_field(fields, k, from + 1);
    }
}

/// The name the left operand of a deferred merge is bound to.
pub open spec fn left_name() -> Seq<char> {
    "left"@
}

/// The name the right operand of a deferred merge is bound to.
pub open spec fn right_name() -> Seq<char> {
    "right"@
}

/// The term of a deferred merge: the merge of the variables `left` and
/// `right`.
pub open spec fn deferred_term(defaults: bool, pos: TermPos) -> RichTermView {
    at(
        TermView::Op2(
            if defaults {
                BinaryOp::MergeDefaults()
            } else {
                BinaryOp::Merge()
            },
            at(TermView::Var(left_name()), pos),
            at(TermView::Var(right_name()), pos),
        ),
        pos,
    )
}

/// The store with three more thunks, at `store.len()` and the two indices
/// after it: `a`, `b`, and the deferred merge of the two.
pub open spec fn defer(
    store: StoreView,
    a: ClosureView,
    b: ClosureView,
    defaults: bool,
    pos: TermPos,
) -> StoreView {
    let left = store.len();
    let right = (store.len() + 1) as nat;
    store.push(suspended(a, IdentKind::Record)).push(suspended(b, IdentKind::Record)).push(
        suspended(
            ClosureView {
                body: deferred_term(defaults, pos),
                env: Map::<Seq<char>, nat>::empty().insert(left_name(), left).insert(
                    right_name(),
                    right,
                ),
            },
            IdentKind::Record,
        ),
    )
}

/// Whether two plain values are the same boolean, number, string or tag.
pub open spec fn same_scalar(a: TermView, b: TermView) -> bool {
    match (a, b) {
        (TermView::Bool(x), TermView::Bool(y)) => x == y,
        (TermView::Num(x), TermView::Num(y)) => x == y,
        (TermView::Str(x), TermView::Str(y)) => x == y,
        (TermView::Enum(x), TermView::Enum(y)) => x == y,
        _ => false,
    }
}

/// The metavalue that says nothing of `value`.
pub open spec fn lift(value: RichTermView) -> MetaValueView {
    MetaValueView {
        doc: None,
        types: None,
        contracts: Seq::empty(),
        priority: MergePriority::Normal,
        value,
    }
}

/// The documentation of a merge: that of the left side, or else of the right.
pub open spec fn merged_doc(a: Option<Seq<char>>, b: Option<Seq<char>>) -> Option<Seq<char>> {
    if a is Some {
        a
    } else {
        b
    }
}

/// The type annotation of a merge: that of the left side, or else of the
/// right.
pub open spec fn merged_types(a: Option<ContractView>, b: Option<ContractView>) -> Option<
    ContractView,
> {
    if a is Some {
        a
    } else {
        b
    }
}

/// The contracts of a merge: those of the left side, then those of the
/// right, then the type annotation of the right side where the left side has
/// one too.
pub open spec fn merged_contracts(a: MetaValueView, b: MetaValueView) -> Seq<ContractView> {
    let both = a.contracts + b.contracts;
    match (a.types, b.types) {
        (Some(_), Some(c)) => both.push(c),
        _ => both,
    }
}

/// The merge of two metavalues: the metadata of both, and the value of the
/// higher priority, or the deferred merge of both values where the
/// priorities are the same.
pub open spec fn merge_meta(
    store: StoreView,
    a: MetaValueView,
    a_env: EnvView,
    b: MetaValueView,
    b_env: EnvView,
    pos: TermPos,
) -> (StoreView, ClosureView) {
    let meta = |priority: MergePriority, value: RichTermView|
        at(
            TermView::MetaValue(
                MetaValueView {
                    doc: merged_doc(a.doc, b.doc),
                    types: merged_types(a.types, b.types),
                    contracts: merged_contracts(a, b),
                    priority,
                    value,
                },
            ),
            pos.inherited(),
        );
    if a.priority.rank() > b.priority.rank() {
        (store, ClosureView { body: meta(a.priority, a.value), env: a_env })
    } else if a.priority.rank() < b.priority.rank() {
        (store, ClosureView { body: meta(b.priority, b.value), env: b_env })
    } else {
        let defaults = a.priority == MergePriority::Default;
        (
            defer(
                store,
                ClosureView { body: a.value, env: a_env },
                ClosureView { body: b.value, env: b_env },
                defaults,
                pos,
            ),
            ClosureView {
                body: meta(a.priority, at(TermView::Var(merged_name()), pos)),
                env: Map::<Seq<char>, nat>::empty().insert(
                    merged_name(),
                    (store.len() + 2) as nat,
                ),
            },
        )
    }
}

/// The name a deferred merge is bound to under a metavalue.
pub open spec fn merged_name() -> Seq<char> {
    "merged"@
}

/// What the merge of two records has built so far: the store, and the fields
/// of the result with the environment that binds each to its thunk.
pub struct Merged {
    pub store: StoreView,
    pub env: EnvView,
    pub fields: Seq<(Seq<char>, RichTermView)>,
}

impl Merged {
    /// `self` with one more field, named `name`, bound to the thunk `thunk`.
    pub open spec fn with_field(
        self,
        store: StoreView,
        name: Seq<char>,
        thunk: nat,
        pos: TermPos,
    ) -> Merged {
        Merged {
            store,
            env: self.env.insert(name, thunk),
            fields: self.fields.push((name, at(TermView::Var(name), pos))),
        }
    }
}

/// `acc` after the fields of `left` from index `i` on went in: a field that
/// `right` has too as the deferred merge of the two, another one as it is.
pub open spec fn merge_left(
    left: Seq<(Seq<char>, RichTermView)>,
    left_env: EnvView,
    right: Seq<(Seq<char>, RichTermView)>,
    right_env: EnvView,
    pos: TermPos,
    i: int,
    acc: Merged,
) -> Merged
    decreases left.len() - i,
{
    if i < 0 || i >= left.len() {
        acc
    } else {
        let (name, t) = left[i];
        let mine = ClosureView { body: t, env: left_env };
        let next = match find(right, name, 0) {
            Some(j) => acc.with_field(
                defer(
                    acc.store,
                    mine,
                    ClosureView { body: right[j].1, env: right_env },
                    false,
                    pos,
                ),
                name,
                (acc.store.len() + 2) as nat,
                pos,
            ),
            None => acc.with_field(
                acc.store.push(suspended(mine, IdentKind::Record)),
                name,
                acc.store.len(),
                pos,
            ),
        };
        merge_left(left, left_env, right, right_env, pos, i + 1, next)
    }
}

/// `acc` after the fields of `right` from index `j` on that `left` lacks
/// went in.
pub open spec fn merge_right(
    left: Seq<(Seq<char>, RichTermView)>,
    right: Seq<(Seq<char>, RichTermView)>,
    right_env: EnvView,
    pos: TermPos,
    j: int,
    acc: Merged,
) -> Merged
    decreases right.len() - j,
{
    if j < 0 || j >= right.len() {
        acc
    } else {
        let (name, t) = right[j];
        let next = match find(left, name, 0) {
            Some(_) => acc,
            None => acc.with_field(
                acc.store.push(
                    suspended(ClosureView { body: t, env: right_env }, IdentKind::Record),
                ),
                name,
                acc.store.len(),
                pos,
            ),
        };
        merge_right(left, right, right_env, pos, j + 1, next)
    }
}

/// The merge of two records: the fields of the left one in their order, each
/// merged with the field of the same name of the right one if there is one,
/// then the other fields of the right one in their order. Every field of the
/// result is a variable bound to a new thunk.
pub open spec fn merge_records(
    store: StoreView,
    left: Seq<(Seq<char>, RichTermView)>,
    left_env: EnvView,
    right: Seq<(Seq<char>, RichTermView)>,
    right_env: EnvView,
    pos: TermPos,
) -> (StoreView, ClosureView) {
    let start = Merged { store, env: Map::empty(), fields: Seq::empty() };
    let half = merge_left(left, left_env, right, right_env, pos, 0, start);
    let all = merge_right(left, right, right_env, pos, 0, half);
    (
        all.store,
        ClosureView { body: at(TermView::Record(all.fields), pos.inherited()), env: all.env },
    )
}

/// The merge of the values `first` and `second`: the store with the thunks
/// the merge made, and the merged value; or the error. `defaults` says that
/// both values came with the priority `Default`.
pub open spec fn merge_result(
    store: StoreView,
    first: ClosureView,
    second: ClosureView,
    defaults: bool,
    pos: TermPos,
) -> Result<(StoreView, ClosureView), EvalErrorView> {
    let t1 = *first.body.term;
    let t2 = *second.body.term;
    match (t1, t2) {
        (TermView::MetaValue(a), TermView::MetaValue(b)) => Ok(
            merge_meta(store, a, first.env, b, second.env, pos),
        ),
        (TermView::MetaValue(a), _) => Ok(
            merge_meta(store, a, first.env, lift(second.body), second.env, pos),
        ),
        (_, TermView::MetaValue(b)) => Ok(
            merge_meta(store, lift(first.body), first.env, b, second.env, pos),
        ),
        (TermView::Record(left), TermView::Record(right)) => Ok(
            merge_records(store, left, first.env, right, second.env, pos),
        ),
        (TermView::Record(_), _) => Err(
            EvalErrorView::MergeError(MergeError::RecordVsScalar, first.body, second.body, pos),
        ),
        (_, TermView::Record(_)) => Err(
            EvalErrorView::MergeError(MergeError::RecordVsScalar, first.body, second.body, pos),
        ),
        _ => if same_scalar(t1, t2) {
            Ok((store, ClosureView { body: first.body, env: first.env }))
        } else {
            Err(
                EvalErrorView::MergeError(
                    if defaults {
                        MergeError::IncompatibleDefaults
                    } else {
                        MergeError::IncompatibleValues
                    },
                    first.body,
                    second.body,
                    pos,
                ),
            )
        },
    }
}

/// The thunks of a deferred merge go after the thunks of the store.
pub proof fn lemma_defer_extends(
    store: StoreView,
    a: ClosureView,
    b: ClosureView,
    defaults: bool,
    pos: TermPos,
)
    ensures
        defer(store, a, b, defaults, pos).len() == store.len() + 3,
        forall|i: int| 0 <= i < store.len() ==> #[trigger] defer(store, a, b, defaults, pos)[i]
            == store[i],
{
}

/// Whether `after` has the thunks of `before`, unchanged, and maybe more.
pub open spec fn extends(before: StoreView, after: StoreView) -> bool {
    &&& before.len() <= after.len()
    &&& forall|i: int| 0 <= i < before.len() ==> #[trigger] after[i] == before[i]
}

/// The merge of the fields of the left record adds thunks and changes none.
pub proof fn lemma_merge_left_extends(
    left: Seq<(Seq<char>, RichTermView)>,
    left_env: EnvView,
    right: Seq<(Seq<char>, RichTermView)>,
    right_env: EnvView,
    pos: TermPos,
    i: int,
    acc: Merged,
)
    ensures
        extends(acc.store, merge_left(left, left_env, right, right_env, pos, i, acc).store),
    decreases left.len() - i,
{
    if 0 <= i < left.len() {
        let (name, t) = left[i];
        let mine = ClosureView { body: t, env: left_env };
        let next = match find(right, name, 0) {
            Some(j) => acc.with_field(
                defer(
                    acc.store,
                    mine,
                    ClosureView { body: right[j].1, env: right_env },
                    false,
                    pos,
                ),
                name,
                (acc.store.len() + 2) as nat,
                pos,
            ),
            None => acc.with_field(
                acc.store.push(suspended(mine, IdentKind::Record)),
                name,
                acc.store.len(),
                pos,
            ),
        };
        lemma_merge_left_extends(left, left_env, right, right_env, pos, i + 1, next);
    }
}

/// The merge of the fields of the right record adds thunks and changes none.
pub proof fn lemma_merge_right_extends(
    left: Seq<(Seq<char>, RichTermView)>,
    right: Seq<(Seq<char>, RichTermView)>,
    right_env: EnvView,
    pos: TermPos,
    j: int,
    acc: Merged,
)
    ensures
        extends(acc.store, merge_right(left, right, right_env, pos, j, acc).store),
    decreases right.len() - j,
{
    if 0 <= j < right.len() {
        let (name, t) = right[j];
        let next = match find(left, name, 0) {
            Some(_) => acc,
            None => acc.with_field(
                acc.store.push(
                    suspended(ClosureView { body: t, env: right_env }, IdentKind::Record),
                ),
                name,
                acc.store.len(),
                pos,
            ),
        };
        lemma_merge_right_extends(left, right, right_env, pos, j + 1, next);
    }
}

/// A merge adds thunks to the store and changes none.
pub proof fn lemma_merge_extends(
    store: StoreView,
    first: ClosureView,
    second: ClosureView,
    defaults: bool,
    pos: TermPos,
)
    ensures
        merge_result(store, first, second, defaults, pos) matches Ok((after, _)) ==> extends(
            store,
            after,
        ),
{
    match (*first.body.term, *second.body.term) {
        (TermView::Record(left), TermView::Record(right)) => {
            let start = Merged { store, env: Map::empty(), fields: Seq::empty() };
            lemma_merge_left_extends(left, first.env, right, second.env, pos, 0, start);
            let half = merge_left(left, first.env, right, second.env, pos, 0, start);
            lemma_merge_right_extends(left, right, second.env, pos, 0, half);
        },
        _ => {},
    }
}

/// The index of the first of `fields` that is named `name`.
pub fn find_field(fields: &Vec<(Ident, RichTerm)>, name: &Ident) -> (found: Option<usize>)
    ensures
        match found {
            Some(i) => i < fields.len() && find(fields_view(fields@), name@, 0) == Some(i as int),
            None => find(fields_view(fields@), name@, 0) is None,
        },
{
    let mut i: usize = 0;
    while i < fields.len()
        invariant
            i <= fields.len(),
            find(fields_view(fields@), name@, 0) == find(fields_view(fields@), name@, i as int),
        decreases fields.len() - i,
    {
        if fields[i].0.same(name) {
            return Some(i);
        }
        i += 1;
    }
    None
}

/// The variable `name` at `pos`.
pub fn var(name: Ident, pos: TermPos) -> (rt: RichTerm)
    ensures
        rt@ == at(TermView::Var(name@), pos),
{
    RichTerm::new(Term::Var(name), pos)
}

/// Makes the thunks of a deferred merge of `a` and `b` and gives the thunk
/// of the merge.
pub fn defer_merge(
    store: &mut Store,
    a: Closure,
    b: Closure,
    defaults: bool,
    pos: TermPos,
) -> (merged: Thunk)
    ensures
        final(store)@ == defer(old(store)@, a@, b@, defaults, pos),
        merged@ == old(store)@.len() + 2,
{
    let left = store.suspend(a, IdentKind::Record);
    let right = store.suspend(b, IdentKind::Record);
    let mut env = Environment::new();
    env.insert(Ident::new("left"), left);
    env.insert(Ident::new("right"), right);
    let op = if defaults {
        BinaryOp::MergeDefaults()
    } else {
        BinaryOp::Merge()
    };
    let body = RichTerm::new(
        Term::Op2(op, var(Ident::new("left"), pos), var(Ident::new("right"), pos)),
        pos,
    );
    store.suspend(Closure { body, env }, IdentKind::Record)
}

/// Whether two plain values are the same boolean, number, string or tag.
pub fn is_same_scalar(a: &Term, b: &Term) -> (same: bool)
    ensures
        same == same_scalar(a@, b@),
{
    match (a, b) {
        (Term::Bool(x), Term::Bool(y)) => *x == *y,
        (Term::Num(x), Term::Num(y)) => x.units() == y.units(),
        (Term::Str(x), Term::Str(y)) => *x == *y,
        (Term::Enum(x), Term::Enum(y)) => x.same(y),
        _ => false,
    }
}

/// The metavalue that says nothing of `value`.
pub fn lift_value(value: RichTerm) -> (meta: MetaValue)
    ensures
        meta@ == lift(value@),
{
    let meta = MetaValue {
        doc: None,
        types: None,
        contracts: Vec::new(),
        priority: MergePriority::Normal,
        value,
    };
    assert(meta@.contracts =~= Seq::<ContractView>::empty());
    meta
}

/// The contracts of the merge of `a` and `b`.
fn merge_contracts(a: &MetaValue, b: &MetaValue) -> (res: Vec<Contract>)
    ensures
        contracts_view(res@) == merged_contracts(a@, b@),
{
    let mut res = clone_contracts(&a.contracts);
    let mut i: usize = 0;
    while i < b.contracts.len()
        invariant
            i <= b.contracts.len(),
            contracts_view(res@) == contracts_view(a.contracts@) + contracts_view(
                b.contracts@,
            ).take(i as int),
        decreases b.contracts.len() - i,
    {
        let ghost before = contracts_view(res@);
        res.push(b.contracts[i].clone());
        assert(contracts_view(res@) =~= before.push(b.contracts[i as int]@));
        assert(contracts_view(b.contracts@).take(i as int + 1) =~= contracts_view(
            b.contracts@,
        ).take(i as int).push(b.contracts[i as int]@));
        assert(contracts_view(res@) =~= contracts_view(a.contracts@) + contracts_view(
            b.contracts@,
        ).take(i as int + 1));
        i += 1;
    }
    assert(contracts_view(b.contracts@).take(i as int) =~= contracts_view(b.contracts@));
    match (&a.types, &b.types) {
        (Some(_), Some(c)) => {
            let ghost before = contracts_view(res@);
            res.push(c.clone());
            assert(contracts_view(res@) =~= before.push(c@));
        },
        _ => {},
    }
    res
}

/// The merge of two metavalues in their environments.
pub fn merge_metavalues(
    store: &mut Store,
    a: &MetaValue,
    a_env: &Environment,
    b: &MetaValue,
    b_env: &Environment,
    pos: TermPos,
) -> (merged: Closure)
    ensures
        (final(store)@, merged@) == merge_meta(old(store)@, a@, a_env@, b@, b_env@, pos),
{
    let doc = if a.doc.is_some() {
        clone_doc(&a.doc)
    } else {
        clone_doc(&b.doc)
    };
    let types = if a.types.is_some() {
        clone_types(&a.types)
    } else {
        clone_types(&b.types)
    };
    let contracts = merge_contracts(a, b);
    if a.priority.overrides(b.priority) {
        let value = a.value.clone();
        let meta = MetaValue { doc, types, contracts, priority: a.priority, value };
        Closure {
            body: RichTerm::new(Term::MetaValue(meta), pos.into_inherited()),
            env: a_env.clone(),
        }
    } else if b.priority.overrides(a.priority) {
        let value = b.value.clone();
        let meta = MetaValue { doc, types, contracts, priority: b.priority, value };
        Closure {
            body: RichTerm::new(Term::MetaValue(meta), pos.into_inherited()),
            env: b_env.clone(),
        }
    } else {
        let defaults = match a.priority {
            MergePriority::Default => true,
            MergePriority::Normal => false,
        };
        let thunk = defer_merge(
            store,
            Closure { body: a.value.clone(), env: a_env.clone() },
            Closure { body: b.value.clone(), env: b_env.clone() },
            defaults,
            pos,
        );
        let mut env = Environment::new();
        env.insert(Ident::new("merged"), thunk);
        let meta = MetaValue {
            doc,
            types,
            contracts,
            priority: a.priority,
            value: var(Ident::new("merged"), pos),
        };
        Closure { body: RichTerm::new(Term::MetaValue(meta), pos.into_inherited()), env }
    }
}

/// The merge of two records in their environments.
pub fn merge_fields(
    store: &mut Store,
    left: &Vec<(Ident, RichTerm)>,
    left_env: &Environment,
    right: &Vec<(Ident, RichTerm)>,
    right_env: &Environment,
    pos: TermPos,
) -> (merged: Closure)
    ensures
        (final(store)@, merged@) == merge_records(
            old(store)@,
            fields_view(left@),
            left_env@,
            fields_view(right@),
            right_env@,
            pos,
        ),
{
    let ghost lv = fields_view(left@);
    let ghost rv = fields_view(right@);
    let ghost start = Merged { store: store@, env: Map::empty(), fields: Seq::empty() };
    let mut env = Environment::new();
    let mut fields: Vec<(Ident, RichTerm)> = Vec::new();
    assert(fields_view(fields@) =~= Seq::empty());
    let mut i: usize = 0;
    while i < left.len()
        invariant
            i <= left.len(),
            lv == fields_view(left@),
            rv == fields_view(right@),
            merge_left(
                lv,
                left_env@,
                rv,
                right_env@,
                pos,
                i as int,
                Merged { store: store@, env: env@, fields: fields_view(fields@) },
            ) == merge_left(lv, left_env@, rv, right_env@, pos, 0, start),
        decreases left.len() - i,
    {
        let ghost before = Merged { store: store@, env: env@, fields: fields_view(fields@) };
        let name = left[i].0.clone();
        let mine = Closure { body: left[i].1.clone(), env: left_env.clone() };
        let thunk = match find_field(right, &name) {
            Some(j) => defer_merge(
                store,
                mine,
                Closure { body: right[j].1.clone(), env: right_env.clone() },
                false,
                pos,
            ),
            None => store.suspend(mine, IdentKind::Record),
        };
        env.insert(name.clone(), thunk);
        fields.push((name.clone(), var(name, pos)));
        proof {
            assert(fields_view(fields@) =~= before.fields.push(
                (lv[i as int].0, at(TermView::Var(lv[i as int].0), pos)),
            ));
        }
        i += 1;
    }
    let ghost half = Merged { store: store@, env: env@, fields: fields_view(fields@) };
    let mut j: usize = 0;
    while j < right.len()
        invariant
            j <= right.len(),
            lv == fields_view(left@),
            rv == fields_view(right@),
            merge_right(
                lv,
                rv,
                right_env@,
                pos,
                j as int,
                Merged { store: store@, env: env@, fields: fields_view(fields@) },
            ) == merge_right(lv, rv, right_env@, pos, 0, half),
        decreases right.len() - j,
    {
        let ghost before = Merged { store: store@, env: env@, fields: fields_view(fields@) };
        if find_field(left, &right[j].0).is_none() {
            let name = right[j].0.clone();
            let thunk = store.suspend(
                Closure { body: right[j].1.clone(), env: right_env.clone() },
                IdentKind::Record,
            );
            env.insert(name.clone(), thunk);
            fields.push((name.clone(), var(name, pos)));
            proof {
                assert(fields_view(fields@) =~= before.fields.push(
                    (rv[j as int].0, at(TermView::Var(rv[j as int].0), pos)),
                ));
            }
        }
        j += 1;
    }
    let record = Term::Record(fields);
    proof {
        lemma_term_view(&record);
    }
    Closure { body: RichTerm::new(record, pos.into_inherited()), env }
}

/// Merges the values `first` and `second`. `defaults` says that both came
/// with the priority `Default`, which decides the error for unequal values.
///
/// The result is what [`merge_result`] gives: on success the merged value,
/// with the thunks of the deferred merges added to the store; on failure the
/// error, with the store as it was.
pub fn merge(
    store: &mut Store,
    first: Closure,
    second: Closure,
    defaults: bool,
    pos: TermPos,
) -> (merged: Result<Closure, EvalError>)
    ensures
        match merge_result(old(store)@, first@, second@, defaults, pos) {
            Ok((s, c)) => merged matches Ok(m) && m@ == c && final(store)@ == s,
            Err(e) => merged matches Err(err) && err@ == e && final(store)@ == old(store)@,
        },
{
    proof {
        lemma_term_view(&*first.body.term);
        lemma_term_view(&*second.body.term);
    }
    match (&*first.body.term, &*second.body.term) {
        (Term::MetaValue(a), Term::MetaValue(b)) => Ok(
            merge_metavalues(store, a, &first.env, b, &second.env, pos),
        ),
        (Term::MetaValue(a), _) => {
            let b = lift_value(second.body.clone());
            Ok(merge_metavalues(store, a, &first.env, &b, &second.env, pos))
        },
        (_, Term::MetaValue(b)) => {
            let a = lift_value(first.body.clone());
            Ok(merge_metavalues(store, &a, &first.env, b, &second.env, pos))
        },
        (Term::Record(left), Term::Record(right)) => Ok(
            merge_fields(store, left, &first.env, right, &second.env, pos),
        ),
        (Term::Record(_), _) => Err(
            EvalError::MergeError(
                MergeError::RecordVsScalar,
                first.body.clone(),
                second.body.clone(),
                pos,
            ),
        ),
        (_, Term::Record(_)) => Err(
            EvalError::MergeError(
                MergeError::RecordVsScalar,
                first.body.clone(),
                second.body.clone(),
                pos,
            ),
        ),
        (a, b) => {
            if is_same_scalar(a, b) {
                Ok(first)
            } else {
                let kind = if defaults {
                    MergeError::IncompatibleDefaults
                } else {
                    MergeError::IncompatibleValues
                };
                Err(EvalError::MergeError(kind, first.body.clone(), second.body.clone(), pos))
            }
        },
    }
}

} // verus!
