//! Environments, closures, and the store of thunks.
//!
//! An environment maps identifiers to thunks. A thunk is a handle into a
//! [`Store`], which owns what the thunk stands for: a closure and whether it
//! was evaluated yet. Binding a name makes a new environment and leaves the
//! old one as it was.
use crate::identifier::Ident;
use crate::shared::share;
use crate::term::{RichTerm, RichTermView};
use std::rc::Rc;
use vstd::prelude::*;

verus! {

/// A handle to a suspended computation in a [`Store`].
#[derive(Debug, Clone, Copy, PartialEq, Eq, Structural)]
pub struct Thunk {
    pub index: usize,
}

impl View for Thunk {
    type V = nat;

    open spec fn view(&self) -> nat {
        self.index as nat
    }
}

/// What bound the identifier of a thunk.
#[derive(Debug, Clone, Copy, PartialEq, Eq, Structural)]
pub enum IdentKind {
    /// A `let`.
    Let,
    /// A function parameter.
    Lam,
    /// A field of a record.
    Record,
}

/// The view of an environment: which thunk each bound name stands for.
pub type EnvView = Map<Seq<char>, nat>;

/// One binding of an environment, and the environment it extends.
#[derive(Debug)]
pub struct Binding {
    pub name: Ident,
    pub thunk: Thunk,
    pub rest: Environment,
}

/// A mapping from identifiers to thunks.
#[derive(Debug)]
pub struct Environment {
    pub head: Option<Rc<Binding>>,
}

impl Environment {
    /// The mapping: the latest binding of each name.
    pub open spec fn bindings(&self) -> EnvView
        decreases self,
    {
        match self.head {
            None => Map::empty(),
            Some(b) => b.rest.bindings().insert(b.name@, b.thunk@),
        }
    }

    /// The environment that binds nothing.
    pub fn new() -> (env: Environment)
        ensures
            env@ == Map::<Seq<char>, nat>::empty(),
    {
        Environment { head: None }
    }

    /// Binds `id` to `thunk`, over any earlier binding of `id`. Copies of
    /// the environment made before keep the bindings they had.
    pub fn insert(&mut self, id: Ident, thunk: Thunk)
        ensures
            final(self)@ == old(self)@.insert(id@, thunk@),
    {
        let rest = Environment { head: self.take_head() };
        self.head = Some(Rc::new(Binding { name: id, thunk, rest }));
    }

    fn take_head(&mut self) -> (head: Option<Rc<Binding>>)
        ensures
            head == old(self).head,
    {
        let mut head: Option<Rc<Binding>> = None;
        std::mem::swap(&mut self.head, &mut head);
        head
    }

    /// The environment `self` with `id` bound to `thunk`.
    pub fn extended(&self, id: Ident, thunk: Thunk) -> (env: Environment)
        ensures
            env@ == self@.insert(id@, thunk@),
    {
        Environment { head: Some(Rc::new(Binding { name: id, thunk, rest: self.clone() })) }
    }

    /// The thunk that `id` is bound to, if it is bound.
    pub fn get(&self, id: &Ident) -> (thunk: Option<Thunk>)
        ensures
            thunk is Some <==> self@.contains_key(id@),
            thunk matches Some(t) ==> t@ == self@[id@],
    {
        let mut rest = self;
        loop
            invariant
                self@.contains_key(id@) <==> rest@.contains_key(id@),
                self@.contains_key(id@) ==> self@[id@] == rest@[id@],
            decreases rest,
        {
            match &rest.head {
                None => {
                    return None;
                },
                Some(b) => {
                    if b.name.same(id) {
                        return Some(b.thunk);
                    }
                    rest = &b.rest;
                },
            }
        }
    }
}

impl View for Environment {
    type V = EnvView;

    open spec fn view(&self) -> EnvView {
        self.bindings()
    }
}

impl Clone for Environment {
    fn clone(&self) -> (res: Self)
        ensures
            res == *self,
    {
        match &self.head {
            None => Environment { head: None },
            Some(b) => Environment { head: Some(share(b)) },
        }
    }
}

/// A term with the environment that gives its free variables a meaning.
#[derive(Debug)]
pub struct Closure {
    pub body: RichTerm,
    pub env: Environment,
}

/// The view of a [`Closure`].
pub struct ClosureView {
    pub body: RichTermView,
    pub env: EnvView,
}

impl View for Closure {
    type V = ClosureView;

    open spec fn view(&self) -> ClosureView {
        ClosureView { body: self.body@, env: self.env@ }
    }
}

impl Clone for Closure {
    fn clone(&self) -> (res: Self)
        ensures
            res == *self,
    {
        Closure { body: self.body.clone(), env: self.env.clone() }
    }
}

impl Closure {
    /// The closure of a term that needs no environment.
    pub fn atomic_closure(body: RichTerm) -> (c: Closure)
        ensures
            c@ == (ClosureView { body: body@, env: Map::empty() }),
    {
        Closure { body, env: Environment::new() }
    }
}

/// How far the evaluation of a thunk has come.
#[derive(Debug, Clone, Copy, PartialEq, Eq, Structural)]
pub enum ThunkState {
    /// Not evaluated: the closure is the computation to run.
    Suspended,
    /// Under evaluation: to need the value now is to need it for itself.
    Blackholed,
    /// Evaluated: the closure is the value.
    Evaluated,
}

/// What a thunk stands for.
#[derive(Debug)]
pub struct ThunkData {
    pub closure: Closure,
    pub ident_kind: IdentKind,
    pub state: ThunkState,
}

/// The view of a [`ThunkData`].
pub struct ThunkDataView {
    pub closure: ClosureView,
    pub ident_kind: IdentKind,
    pub state: ThunkState,
}

impl View for ThunkData {
    type V = ThunkDataView;

    open spec fn view(&self) -> ThunkDataView {
        ThunkDataView { closure: self.closure@, ident_kind: self.ident_kind, state: self.state }
    }
}

/// The view of a store: what each thunk stands for, by index.
pub type StoreView = Seq<ThunkDataView>;

/// The store: the owner of all thunks.
#[derive(Debug)]
pub struct Store {
    pub thunks: Vec<ThunkData>,
}

impl View for Store {
    type V = StoreView;

    open spec fn view(&self) -> StoreView {
        self.thunks@.map_values(|d: ThunkData| d@)
    }
}

/// Whether the store `after` is the store `before` grown older: it has all
/// the thunks of `before`, and a thunk that was evaluated in `before` is the
/// same in `after`.
pub open spec fn keeps_values(before: StoreView, after: StoreView) -> bool {
    &&& before.len() <= after.len()
    &&& forall|i: int|
        0 <= i < before.len() && before[i].state == ThunkState::Evaluated ==> #[trigger] after[i]
            == before[i]
}

/// A thunk that was not evaluated yet.
pub open spec fn suspended(closure: ClosureView, ident_kind: IdentKind) -> ThunkDataView {
    ThunkDataView { closure, ident_kind, state: ThunkState::Suspended }
}

impl Store {
    /// The store without thunks.
    pub fn new() -> (store: Store)
        ensures
            store@ == Seq::<ThunkDataView>::empty(),
    {
        let store = Store { thunks: Vec::new() };
        assert(store@ =~= Seq::<ThunkDataView>::empty());
        store
    }

    /// The number of thunks.
    pub fn len(&self) -> (n: usize)
        ensures
            n == self@.len(),
    {
        self.thunks.len()
    }

    /// Makes a thunk of `closure`, suspended. The thunks there were stay as
    /// they are.
    pub fn suspend(&mut self, closure: Closure, ident_kind: IdentKind) -> (thunk: Thunk)
        ensures
            thunk@ == old(self)@.len(),
            final(self)@ == old(self)@.push(suspended(closure@, ident_kind)),
    {
        let index = self.thunks.len();
        self.thunks.push(ThunkData { closure, ident_kind, state: ThunkState::Suspended });
        assert(self@ =~= old(self)@.push(suspended(closure@, ident_kind)));
        Thunk { index }
    }

    /// The state of a thunk.
    pub fn state(&self, thunk: Thunk) -> (state: ThunkState)
        requires
            thunk@ < self@.len(),
        ensures
            state == self@[thunk@ as int].state,
    {
        self.thunks[thunk.index].state
    }

    /// The closure of a thunk: the computation, or the value once evaluated.
    pub fn closure(&self, thunk: Thunk) -> (closure: Closure)
        requires
            thunk@ < self@.len(),
        ensures
            closure@ == self@[thunk@ as int].closure,
    {
        self.thunks[thunk.index].closure.clone()
    }

    /// Sets the state of a thunk and leaves its closure.
    pub(crate) fn set_state(&mut self, thunk: Thunk, state: ThunkState)
        requires
            thunk@ < old(self)@.len(),
        ensures
            final(self)@ == old(self)@.update(
                thunk@ as int,
                ThunkDataView { state, ..old(self)@[thunk@ as int] },
            ),
    {
        let data = &self.thunks[thunk.index];
        let new_data = ThunkData {
            closure: data.closure.clone(),
            ident_kind: data.ident_kind,
            state,
        };
        self.thunks.set(thunk.index, new_data);
        assert(self@ =~= old(self)@.update(
            thunk@ as int,
            ThunkDataView { state, ..old(self)@[thunk@ as int] },
        ));
    }

    /// Replaces the closure of a thunk and leaves its state.
    pub(crate) fn set_closure(&mut self, thunk: Thunk, closure: Closure)
        requires
            thunk@ < old(self)@.len(),
        ensures
            final(self)@ == old(self)@.update(
                thunk@ as int,
                ThunkDataView { closure: closure@, ..old(self)@[thunk@ as int] },
            ),
    {
        let ident_kind = self.thunks[thunk.index].ident_kind;
        let state = self.thunks[thunk.index].state;
        self.thunks.set(thunk.index, ThunkData { closure, ident_kind, state });
        assert(self@ =~= old(self)@.update(
            thunk@ as int,
            ThunkDataView { closure: closure@, ..old(self)@[thunk@ as int] },
        ));
    }

    /// Records `value` as the value of a thunk.
    pub(crate) fn update(&mut self, thunk: Thunk, value: Closure)
        requires
            thunk@ < old(self)@.len(),
        ensures
            final(self)@ == old(self)@.update(
                thunk@ as int,
                ThunkDataView {
                    closure: value@,
                    state: ThunkState::Evaluated,
                    ..old(self)@[thunk@ as int]
                },
            ),
    {
        let ident_kind = self.thunks[thunk.index].ident_kind;
        self.thunks.set(
            thunk.index,
            ThunkData { closure: value, ident_kind, state: ThunkState::Evaluated },
        );
        assert(self@ =~= old(self)@.update(
            thunk@ as int,
            ThunkDataView {
                closure: value@,
                state: ThunkState::Evaluated,
                ..old(self)@[thunk@ as int]
            },
        ));
    }
}

} // verus!
