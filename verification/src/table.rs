//! The binding table: every declared binding with its ownership state, and
//! every reference that was ever taken.

use vstd::prelude::*;
use crate::classify::Classification;
use crate::lifetime::{last_use, minimal_region, Region};
use crate::state::{next_state, rejection_of, step, Event, OwnState};
use crate::violation::{Rejection, Violation};

verus! {

/// A named value in a scope.
#[derive(Clone, Copy, Debug, PartialEq, Eq, Structural)]
pub struct Binding {
    /// The scope in which the binding was declared.
    pub scope: usize,
    /// Whether handing the value on copies or moves it.
    pub class: Classification,
    /// Whether the binding was declared mutable.
    pub mutable: bool,
    /// The current ownership state.
    pub state: OwnState,
    /// The program point of the last change of state; `None` until the
    /// first one.
    pub since: Option<u64>,
}

/// A non-owning access to a binding.
#[derive(Clone, Copy, Debug, PartialEq, Eq, Structural)]
pub struct Reference {
    /// The binding referred to.
    pub target: usize,
    /// True for an exclusive reference, false for a shared one.
    pub exclusive: bool,
    /// The program point at which the reference was created.
    pub start: u64,
    /// The program point at which its lifetime ended; `None` while it is
    /// live.
    pub end: Option<u64>,
}

impl Binding {
    /// A binding as its declaration leaves it: owned, with no change of
    /// state yet.
    pub open spec fn declared(scope: usize, class: Classification, mutable: bool) -> Binding {
        Binding { scope, class, mutable, state: OwnState::Owned, since: None }
    }
}

impl Reference {
    /// A reference as its creation at point `start` leaves it: live.
    pub open spec fn created(target: usize, exclusive: bool, start: u64) -> Reference {
        Reference { target, exclusive, start, end: None }
    }

    /// True while the lifetime of the reference has not ended.
    pub open spec fn is_live(self) -> bool {
        self.end is None
    }

    /// True if the reference is live, refers to `target` and is of the
    /// given kind.
    pub open spec fn counts_for(self, target: usize, exclusive: bool) -> bool {
        self.is_live() && self.target == target && self.exclusive == exclusive
    }

    /// What the reference adds to the number of live references of the
    /// given kind to `target`: one if it counts, nothing if not.
    pub open spec fn weight(self, target: usize, exclusive: bool) -> nat {
        if self.counts_for(target, exclusive) {
            1
        } else {
            0
        }
    }

    /// The event that the end of this reference is for its target.
    pub open spec fn end_event(self) -> Event {
        if self.exclusive {
            Event::ExclusiveEnd
        } else {
            Event::ShareEnd
        }
    }
}

/// The number of live references of one kind to one binding.
pub open spec fn live_refs(refs: Seq<Reference>, target: usize, exclusive: bool) -> nat
    decreases refs.len(),
{
    if refs.len() == 0 {
        0
    } else {
        live_refs(refs.drop_last(), target, exclusive) + refs.last().weight(target, exclusive)
    }
}

/// The ids of the bindings among the first `n` that a scope exit releases,
/// latest declaration first.
pub open spec fn release_order(bindings: Seq<Binding>, scope: usize, n: nat) -> Seq<usize>
    decreases n,
{
    if n == 0 {
        Seq::empty()
    } else {
        let rest = release_order(bindings, scope, (n - 1) as nat);
        if bindings[n - 1].scope == scope && bindings[n - 1].state is Owned {
            seq![(n - 1) as usize] + rest
        } else {
            rest
        }
    }
}

/// The mathematical content of a binding table.
pub struct TableView {
    /// The name of each binding, by id.
    pub names: Seq<Seq<char>>,
    /// Each binding, by id, in declaration order.
    pub bindings: Seq<Binding>,
    /// Each reference ever taken, by id, in creation order.
    pub refs: Seq<Reference>,
}

impl TableView {
    /// True if `id` names a binding of the table.
    pub open spec fn has(self, id: usize) -> bool {
        id < self.bindings.len()
    }

    /// The state of binding `b` agrees with the live references to it.
    pub open spec fn agrees(self, b: int) -> bool {
        let s = self.bindings[b].state;
        &&& s.wf()
        &&& s.shared_count() == live_refs(self.refs, b as usize, false)
        &&& s.exclusive_count() == live_refs(self.refs, b as usize, true)
    }

    /// The invariant of the table: every binding has a name, every
    /// reference refers to a binding, and the state of every binding counts
    /// exactly the live references to it.
    pub open spec fn wf(self) -> bool {
        &&& self.names.len() == self.bindings.len()
        &&& self.bindings.len() <= usize::MAX
        &&& forall|r: int|
            0 <= r < self.refs.len() ==> (#[trigger] self.refs[r]).target < self.bindings.len()
        &&& forall|b: int| 0 <= b < self.bindings.len() ==> #[trigger] self.agrees(b)
    }

    /// True if `later` can follow `self` in one analysis: every binding and
    /// reference of `self` is still there under its id, with the attributes
    /// it was made with; a binding that was moved out or dropped, and a
    /// reference that has ended, is exactly as it was.
    pub open spec fn precedes(self, later: TableView) -> bool {
        &&& self.bindings.len() <= later.bindings.len()
        &&& self.refs.len() <= later.refs.len()
        &&& forall|i: int|
            0 <= i < self.bindings.len() ==> {
                let a = #[trigger] self.bindings[i];
                let b = later.bindings[i];
                &&& later.names[i] == self.names[i]
                &&& b.scope == a.scope
                &&& b.class == a.class
                &&& b.mutable == a.mutable
                &&& a.state.is_terminal() ==> b == a
            }
        &&& forall|r: int|
            0 <= r < self.refs.len() ==> {
                let a = #[trigger] self.refs[r];
                let b = later.refs[r];
                &&& b.target == a.target
                &&& b.exclusive == a.exclusive
                &&& b.start == a.start
                &&& !a.is_live() ==> b == a
            }
    }

    /// The error with which event `ev` on binding `id` at point `at` is
    /// rejected, if it is.
    pub open spec fn rejection(self, id: usize, ev: Event, at: u64) -> Option<Rejection> {
        let b = self.bindings[id as int];
        match next_state(b.state, b.class, ev) {
            Ok(_) => None,
            Err(kind) => Some(Rejection { kind, binding: id, at, since: b.since }),
        }
    }

    /// The state that binding `id` is in after event `ev`, where `ev` is
    /// accepted.
    pub open spec fn state_after(self, id: usize, ev: Event) -> OwnState {
        let b = self.bindings[id as int];
        next_state(b.state, b.class, ev)->Ok_0
    }

    /// The table in which binding `id` has entered state `s` at point `at`.
    pub open spec fn touch(self, id: usize, s: OwnState, at: u64) -> TableView {
        TableView {
            bindings: self.bindings.update(
                id as int,
                Binding { state: s, since: Some(at), ..self.bindings[id as int] },
            ),
            ..self
        }
    }

    /// The table after the value of binding `id` was handed on at point
    /// `at`: unchanged for a Copy binding, with the binding moved out for a
    /// Move binding.
    pub open spec fn after_transfer(self, id: usize, at: u64) -> TableView {
        if self.bindings[id as int].class is Copy {
            self
        } else {
            self.touch(id, OwnState::MovedOut, at)
        }
    }

    /// The table with one more binding.
    pub open spec fn add_binding(self, name: Seq<char>, b: Binding) -> TableView {
        TableView { names: self.names.push(name), bindings: self.bindings.push(b), ..self }
    }

    /// The table with one more reference.
    pub open spec fn add_ref(self, r: Reference) -> TableView {
        TableView { refs: self.refs.push(r), ..self }
    }

    /// The table in which the lifetime of reference `r` has ended at `at`.
    pub open spec fn end_ref(self, r: usize, at: u64) -> TableView {
        TableView {
            refs: self.refs.update(r as int, Reference { end: Some(at), ..self.refs[r as int] }),
            ..self
        }
    }

    /// True if binding `b` belongs to `scope` and a reference to it is
    /// live, so that the reference would outlive it if the scope ended.
    pub open spec fn outlived_at(self, b: int, scope: usize) -> bool {
        self.bindings[b].scope == scope && self.bindings[b].state.is_borrowed()
    }

    /// The table after the exit of `scope` at point `at`: each binding of
    /// the scope that was still owned is dropped, every other one is as
    /// before.
    pub open spec fn after_scope_exit(self, scope: usize, at: u64) -> TableView {
        TableView {
            bindings: Seq::new(
                self.bindings.len(),
                |i: int|
                    if self.bindings[i].scope == scope && self.bindings[i].state is Owned {
                        Binding { state: OwnState::Dropped, since: Some(at), ..self.bindings[i] }
                    } else {
                        self.bindings[i]
                    },
            ),
            ..self
        }
    }
}

/// Adding a reference raises the count of its own kind for its own target
/// by one, if it is live, and no other count.
pub proof fn lemma_live_refs_push(
    refs: Seq<Reference>,
    r: Reference,
    target: usize,
    exclusive: bool,
)
    ensures
        live_refs(refs.push(r), target, exclusive) == live_refs(refs, target, exclusive) + r.weight(
            target,
            exclusive,
        ),
{
    assert(refs.push(r).drop_last() =~= refs);
}

/// Replacing a reference changes a count by what the new one adds less what
/// the old one added.
pub proof fn lemma_live_refs_update(
    refs: Seq<Reference>,
    i: int,
    r: Reference,
    target: usize,
    exclusive: bool,
)
    requires
        0 <= i < refs.len(),
    ensures
        live_refs(refs.update(i, r), target, exclusive) + refs[i].weight(target, exclusive)
            == live_refs(refs, target, exclusive) + r.weight(target, exclusive),
    decreases refs.len(),
{
    if i == refs.len() - 1 {
        assert(refs.update(i, r).drop_last() =~= refs.drop_last());
    } else {
        assert(refs.update(i, r).drop_last() =~= refs.drop_last().update(i, r));
        lemma_live_refs_update(refs.drop_last(), i, r, target, exclusive);
    }
}

/// No more references are live than were ever taken.
pub proof fn lemma_live_refs_bound(refs: Seq<Reference>, target: usize, exclusive: bool)
    ensures
        live_refs(refs, target, exclusive) <= refs.len(),
    decreases refs.len(),
{
    if refs.len() > 0 {
        lemma_live_refs_bound(refs.drop_last(), target, exclusive);
    }
}

/// A binding to which no reference refers has no live reference.
pub proof fn lemma_live_refs_none(refs: Seq<Reference>, target: usize, exclusive: bool)
    requires
        forall|r: int| 0 <= r < refs.len() ==> (#[trigger] refs[r]).target != target,
    ensures
        live_refs(refs, target, exclusive) == 0,
    decreases refs.len(),
{
    if refs.len() > 0 {
        assert(refs.last() == refs[refs.len() - 1]);
        lemma_live_refs_none(refs.drop_last(), target, exclusive);
    }
}

/// In a well-formed table, at most one exclusive reference to a binding is
/// live at a time, and none while a shared reference to it is live.
pub proof fn lemma_aliasing_rule(t: TableView, id: usize)
    requires
        t.wf(),
        t.has(id),
    ensures
        live_refs(t.refs, id, true) <= 1,
        live_refs(t.refs, id, true) > 0 ==> live_refs(t.refs, id, false) == 0,
        live_refs(t.refs, id, false) > 0 ==> live_refs(t.refs, id, true) == 0,
{
    assert(t.agrees(id as int));
}

/// A binding that was moved out or dropped has no live reference.
pub proof fn lemma_terminal_unreferenced(t: TableView, id: usize)
    requires
        t.wf(),
        t.has(id),
        t.bindings[id as int].state.is_terminal(),
    ensures
        live_refs(t.refs, id, true) == 0,
        live_refs(t.refs, id, false) == 0,
{
    assert(t.agrees(id as int));
}

/// Following is reflexive and transitive: what holds of one step of an
/// analysis holds of any number of steps.
pub proof fn lemma_precedes_order(a: TableView, b: TableView, c: TableView)
    ensures
        a.precedes(a),
        a.precedes(b) && b.precedes(c) ==> a.precedes(c),
{
    if a.precedes(b) && b.precedes(c) {
        assert forall|i: int| 0 <= i < a.bindings.len() implies {
            let x = #[trigger] a.bindings[i];
            let z = c.bindings[i];
            &&& c.names[i] == a.names[i]
            &&& z.scope == x.scope
            &&& z.class == x.class
            &&& z.mutable == x.mutable
            &&& x.state.is_terminal() ==> z == x
        } by {
            assert(b.bindings[i].scope == a.bindings[i].scope);
        }
        assert forall|r: int| 0 <= r < a.refs.len() implies {
            let x = #[trigger] a.refs[r];
            let z = c.refs[r];
            &&& z.target == x.target
            &&& z.exclusive == x.exclusive
            &&& z.start == x.start
            &&& !x.is_live() ==> z == x
        } by {
            assert(b.refs[r].target == a.refs[r].target);
        }
    }
}

/// Once a binding has been moved out, every use of it in any later table
/// of the analysis is rejected as a use after move, with the point of the
/// move as the conflicting point.
pub proof fn lemma_use_after_move(t: TableView, later: TableView, id: usize, point: u64)
    requires
        t.has(id),
        t.bindings[id as int].state is MovedOut,
        t.precedes(later),
    ensures
        later.has(id),
        later.bindings[id as int].state is MovedOut,
        later.rejection(id, Event::Use, point) == Some(
            Rejection {
                kind: Violation::UseAfterMove,
                binding: id,
                at: point,
                since: t.bindings[id as int].since,
            },
        ),
{
}

/// Once a binding has been dropped, every use of it in any later table of
/// the analysis is rejected as a use after drop.
pub proof fn lemma_use_after_drop(t: TableView, later: TableView, id: usize, point: u64)
    requires
        t.has(id),
        t.bindings[id as int].state is Dropped,
        t.precedes(later),
    ensures
        later.has(id),
        later.bindings[id as int].state is Dropped,
        later.rejection(id, Event::Use, point) == Some(
            Rejection {
                kind: Violation::UseAfterDrop,
                binding: id,
                at: point,
                since: t.bindings[id as int].since,
            },
        ),
{
}

/// A scope exit keeps the table well formed, drops each binding of the
/// scope that is still owned, and leaves every other binding as it is, a
/// moved-out one in particular.
pub proof fn lemma_scope_exit_effect(t: TableView, scope: usize, at: u64)
    requires
        t.wf(),
    ensures
        t.after_scope_exit(scope, at).wf(),
        t.precedes(t.after_scope_exit(scope, at)),
        forall|i: int|
            0 <= i < t.bindings.len() ==> (#[trigger] t.after_scope_exit(scope, at).bindings[i])
                == (if t.bindings[i].scope == scope && t.bindings[i].state is Owned {
                Binding { state: OwnState::Dropped, since: Some(at), ..t.bindings[i] }
            } else {
                t.bindings[i]
            }),
        forall|i: int|
            0 <= i < t.bindings.len() && t.bindings[i].state is MovedOut ==> (
            #[trigger] t.after_scope_exit(scope, at).bindings[i]) == t.bindings[i],
{
    let after = t.after_scope_exit(scope, at);
    assert forall|b: int| 0 <= b < after.bindings.len() implies #[trigger] after.agrees(b) by {
        assert(t.agrees(b));
    }
    assert forall|i: int| 0 <= i < t.bindings.len() implies {
        let a = #[trigger] t.bindings[i];
        let b = after.bindings[i];
        &&& after.names[i] == t.names[i]
        &&& b.scope == a.scope
        &&& b.class == a.class
        &&& b.mutable == a.mutable
        &&& a.state.is_terminal() ==> b == a
    } by {
        assert(after.names[i] == t.names[i]);
    }
}

/// The ids that a scope exit releases are exactly those of the bindings of
/// the scope that are still owned, and they come in reverse declaration
/// order: each id is smaller than the one before it.
pub proof fn lemma_release_order(bindings: Seq<Binding>, scope: usize, n: nat)
    requires
        n <= bindings.len(),
        bindings.len() <= usize::MAX,
    ensures
        forall|id: usize|
            release_order(bindings, scope, n).contains(id) <==> (id < n && bindings[id as int].scope
                == scope && bindings[id as int].state is Owned),
        forall|i: int, j: int|
            0 <= i < j < release_order(bindings, scope, n).len() ==> release_order(
                bindings,
                scope,
                n,
            )[i] > release_order(bindings, scope, n)[j],
        release_order(bindings, scope, n).len() <= n,
    decreases n,
{
    if n > 0 {
        let rest = release_order(bindings, scope, (n - 1) as nat);
        let all = release_order(bindings, scope, n);
        lemma_release_order(bindings, scope, (n - 1) as nat);
        if bindings[n - 1].scope == scope && bindings[n - 1].state is Owned {
            let head = seq![(n - 1) as usize];
            assert(all == head + rest);
            assert(all[0] == (n - 1) as usize);
            assert forall|id: usize| all.contains(id) <==> (id < n && bindings[id as int].scope
                == scope && bindings[id as int].state is Owned) by {
                if all.contains(id) {
                    let k = choose|k: int| 0 <= k < all.len() && all[k] == id;
                    if k > 0 {
                        assert(rest[k - 1] == id);
                        assert(rest.contains(id));
                    }
                }
                if id < n && bindings[id as int].scope == scope && bindings[id as int].state is Owned {
                    if id == n - 1 {
                        assert(all[0] == id);
                    } else {
                        assert(rest.contains(id));
                        let k = choose|k: int| 0 <= k < rest.len() && rest[k] == id;
                        assert(all[k + 1] == id);
                    }
                }
            }
            assert forall|i: int, j: int| 0 <= i < j < all.len() implies all[i] > all[j] by {
                assert(all[j] == rest[j - 1]);
                assert(rest.contains(rest[j - 1]));
                if i > 0 {
                    assert(all[i] == rest[i - 1]);
                }
            }
        }
    }
}

/// The binding table of one analysis.
pub struct BindingTable {
    names: Vec<String>,
    bindings: Vec<Binding>,
    refs: Vec<Reference>,
}

impl View for BindingTable {
    type V = TableView;

    closed spec fn view(&self) -> TableView {
        TableView {
            names: Seq::new(self.names@.len(), |i: int| self.names@[i]@),
            bindings: self.bindings@,
            refs: self.refs@,
        }
    }
}

impl BindingTable {
    /// An empty table.
    pub fn new() -> (t: BindingTable)
        ensures
            t@.wf(),
            t@.names.len() == 0,
            t@.bindings.len() == 0,
            t@.refs.len() == 0,
    {
        BindingTable { names: Vec::new(), bindings: Vec::new(), refs: Vec::new() }
    }

    /// The number of bindings declared so far.
    pub fn len(&self) -> (n: usize)
        ensures
            n == self@.bindings.len(),
    {
        self.bindings.len()
    }

    /// The number of references taken so far.
    pub fn ref_count(&self) -> (n: usize)
        ensures
            n == self@.refs.len(),
    {
        self.refs.len()
    }

    /// The binding with the given id.
    pub fn binding(&self, id: usize) -> (b: Binding)
        requires
            self@.has(id),
        ensures
            b == self@.bindings[id as int],
    {
        self.bindings[id]
    }

    /// The name under which the binding was declared.
    pub fn name_of(&self, id: usize) -> (name: &str)
        requires
            self@.wf(),
            self@.has(id),
        ensures
            name@ == self@.names[id as int],
    {
        self.names[id].as_str()
    }

    /// The reference with the given id.
    pub fn reference(&self, r: usize) -> (reference: Reference)
        requires
            r < self@.refs.len(),
        ensures
            reference == self@.refs[r as int],
    {
        self.refs[r]
    }

    /// Declares a binding and returns its id. The binding starts out owned.
    pub fn declare(&mut self, name: String, scope: usize, class: Classification, mutable: bool) -> (id:
        usize)
        requires
            old(self)@.wf(),
        ensures
            final(self)@.wf(),
            old(self)@.precedes(final(self)@),
            id == old(self)@.bindings.len(),
            final(self)@ == old(self)@.add_binding(name@, Binding::declared(scope, class, mutable)),
    {
        let id: usize = self.bindings.len();
        let ghost before = self@;
        let fresh = Binding { scope, class, mutable, state: OwnState::Owned, since: None };
        self.names.push(name);
        self.bindings.push(fresh);
        proof {
            let after = self@;
            assert(after.bindings.len() == self.bindings.len());
            assert(after.names =~= before.names.push(name@));
            assert(after == before.add_binding(name@, fresh));
            assert forall|b: int| 0 <= b < after.bindings.len() implies #[trigger] after.agrees(
                b,
            ) by {
                if b < id {
                    assert(before.agrees(b));
                } else {
                    lemma_live_refs_none(after.refs, id, false);
                    lemma_live_refs_none(after.refs, id, true);
                }
            }
        }
        id
    }

    /// Validates a use of the binding at `point`: it is accepted unless the
    /// binding was moved out or dropped.
    pub fn use_binding(&self, id: usize, point: u64) -> (r: Result<(), Rejection>)
        requires
            self@.has(id),
        ensures
            match self@.rejection(id, Event::Use, point) {
                Some(e) => r == Err::<(), Rejection>(e),
                None => r is Ok,
            },
            r is Ok <==> !self@.bindings[id as int].state.is_terminal(),
            self@.bindings[id as int].state is MovedOut ==> (r matches Err(e) && e.kind
                == Violation::UseAfterMove),
            self@.bindings[id as int].state is Dropped ==> (r matches Err(e) && e.kind
                == Violation::UseAfterDrop),
    {
        let b = self.bindings[id];
        match rejection_of(b.state, b.class, Event::Use) {
            Some(kind) => Err(Rejection { kind, binding: id, at: point, since: b.since }),
            None => Ok(()),
        }
    }

    /// Creates a reference to the binding at `point`, exclusive or shared,
    /// and returns its id.
    ///
    /// A shared reference is accepted on an owned or shared binding, an
    /// exclusive one on an owned binding only.
    pub fn borrow(&mut self, id: usize, exclusive: bool, point: u64) -> (r: Result<
        usize,
        Rejection,
    >)
        requires
            old(self)@.wf(),
            old(self)@.has(id),
        ensures
            final(self)@.wf(),
            old(self)@.precedes(final(self)@),
            ({
                let ev = if exclusive {
                    Event::ExclusiveStart
                } else {
                    Event::ShareStart
                };
                match old(self)@.rejection(id, ev, point) {
                    Some(e) => r == Err::<usize, Rejection>(e) && final(self)@ == old(self)@,
                    None => r == Ok::<usize, Rejection>(old(self)@.refs.len() as usize)
                        && final(self)@ == old(self)@.add_ref(
                        Reference::created(id, exclusive, point),
                    ).touch(id, old(self)@.state_after(id, ev), point),
                }
            }),
    {
        let ev = if exclusive {
            Event::ExclusiveStart
        } else {
            Event::ShareStart
        };
        let b = self.bindings[id];
        match rejection_of(b.state, b.class, ev) {
            Some(kind) => Err(Rejection { kind, binding: id, at: point, since: b.since }),
            None => {
                let ghost before = self@;
                let fresh = Reference { target: id, exclusive, start: point, end: None };
                let r: usize = self.refs.len();
                self.refs.push(fresh);
                proof {
                    assert(before.refs.len() + 1 == self.refs.len());
                    assert(before.agrees(id as int));
                    lemma_live_refs_bound(before.refs, id, false);
                }
                let next = match step(b.state, b.class, ev) {
                    Ok(s) => s,
                    Err(_) => b.state,
                };
                self.bindings.set(
                    id,
                    Binding {
                        scope: b.scope,
                        class: b.class,
                        mutable: b.mutable,
                        state: next,
                        since: Some(point),
                    },
                );
                proof {
                    let after = self@;
                    assert(after.names =~= before.names);
                    assert(after == before.add_ref(fresh).touch(
                        id,
                        before.state_after(id, ev),
                        point,
                    ));
                    assert forall|b: int|
                        0 <= b < after.bindings.len() implies #[trigger] after.agrees(b) by {
                        assert(before.agrees(b));
                        lemma_live_refs_push(before.refs, fresh, b as usize, false);
                        lemma_live_refs_push(before.refs, fresh, b as usize, true);
                    }
                }
                Ok(r)
            },
        }
    }

    /// Creates a shared reference to the binding at `point`.
    pub fn borrow_shared(&mut self, id: usize, point: u64) -> (r: Result<usize, Rejection>)
        requires
            old(self)@.wf(),
            old(self)@.has(id),
        ensures
            final(self)@.wf(),
            old(self)@.precedes(final(self)@),
            match old(self)@.rejection(id, Event::ShareStart, point) {
                Some(e) => r == Err::<usize, Rejection>(e) && final(self)@ == old(self)@,
                None => r == Ok::<usize, Rejection>(old(self)@.refs.len() as usize)
                    && final(self)@ == old(self)@.add_ref(
                    Reference::created(id, false, point),
                ).touch(id, old(self)@.state_after(id, Event::ShareStart), point),
            },
            r is Ok <==> (old(self)@.bindings[id as int].state is Owned
                || old(self)@.bindings[id as int].state is Shared),
            old(self)@.bindings[id as int].state is Exclusive ==> (r matches Err(e) && e.kind
                == Violation::BorrowConflict),
    {
        self.borrow(id, false, point)
    }

    /// Creates an exclusive reference to the binding at `point`.
    pub fn borrow_exclusive(&mut self, id: usize, point: u64) -> (r: Result<usize, Rejection>)
        requires
            old(self)@.wf(),
            old(self)@.has(id),
        ensures
            final(self)@.wf(),
            old(self)@.precedes(final(self)@),
            match old(self)@.rejection(id, Event::ExclusiveStart, point) {
                Some(e) => r == Err::<usize, Rejection>(e) && final(self)@ == old(self)@,
                None => r == Ok::<usize, Rejection>(old(self)@.refs.len() as usize)
                    && final(self)@ == old(self)@.add_ref(
                    Reference::created(id, true, point),
                ).touch(id, OwnState::Exclusive, point),
            },
            r is Ok <==> old(self)@.bindings[id as int].state is Owned,
            old(self)@.bindings[id as int].state.is_borrowed() ==> (r matches Err(e) && e.kind
                == Violation::BorrowConflict),
    {
        self.borrow(id, true, point)
    }

    /// Ends the lifetime of reference `r` at `point` and returns whether it
    /// was still live. Ending a reference a second time changes nothing.
    pub fn release(&mut self, r: usize, point: u64) -> (was_live: bool)
        requires
            old(self)@.wf(),
            r < old(self)@.refs.len(),
        ensures
            final(self)@.wf(),
            old(self)@.precedes(final(self)@),
            was_live == old(self)@.refs[r as int].is_live(),
            !was_live ==> final(self)@ == old(self)@,
            was_live ==> final(self)@ == old(self)@.end_ref(r, point).touch(
                old(self)@.refs[r as int].target,
                old(self)@.state_after(
                    old(self)@.refs[r as int].target,
                    old(self)@.refs[r as int].end_event(),
                ),
                point,
            ),
    {
        let reference = self.refs[r];
        if reference.end.is_some() {
            return false;
        }
        let ghost before = self@;
        let id: usize = reference.target;
        let ended = Reference {
            target: reference.target,
            exclusive: reference.exclusive,
            start: reference.start,
            end: Some(point),
        };
        let b = self.bindings[id];
        let ev = if reference.exclusive {
            Event::ExclusiveEnd
        } else {
            Event::ShareEnd
        };
        proof {
            assert(before.agrees(id as int));
            lemma_live_refs_update(before.refs, r as int, ended, id, reference.exclusive);
        }
        let next = match step(b.state, b.class, ev) {
            Ok(s) => s,
            Err(_) => b.state,
        };
        self.refs.set(r, ended);
        self.bindings.set(
            id,
            Binding {
                scope: b.scope,
                class: b.class,
                mutable: b.mutable,
                state: next,
                since: Some(point),
            },
        );
        proof {
            let after = self@;
            assert(after.names =~= before.names);
            assert(after == before.end_ref(r, point).touch(
                id,
                before.state_after(id, reference.end_event()),
                point,
            ));
            assert forall|b: int| 0 <= b < after.bindings.len() implies #[trigger] after.agrees(
                b,
            ) by {
                assert(before.agrees(b));
                lemma_live_refs_update(before.refs, r as int, ended, b as usize, false);
                lemma_live_refs_update(before.refs, r as int, ended, b as usize, true);
            }
        }
        true
    }

    /// Ends the lifetime of reference `r` at its last use: the reference
    /// gets its minimal region, from its creation to the last of `uses`, and
    /// the region is returned. A reference that has ended already keeps its
    /// end, and nothing is returned.
    pub fn release_after_last_use(&mut self, r: usize, uses: &Vec<u64>) -> (region: Option<Region>)
        requires
            old(self)@.wf(),
            r < old(self)@.refs.len(),
        ensures
            final(self)@.wf(),
            old(self)@.precedes(final(self)@),
            ({
                let reference = old(self)@.refs[r as int];
                let end = last_use(reference.start, uses@, uses@.len());
                if reference.is_live() {
                    &&& region == Some(Region::Span { start: reference.start, end })
                    &&& final(self)@ == old(self)@.end_ref(r, end).touch(
                        reference.target,
                        old(self)@.state_after(reference.target, reference.end_event()),
                        end,
                    )
                } else {
                    region.is_none() && final(self)@ == old(self)@
                }
            }),
    {
        let reference = self.refs[r];
        if reference.end.is_some() {
            return None;
        }
        let region = minimal_region(reference.start, uses);
        match region {
            Region::Span { start: _, end } => {
                self.release(r, end);
            },
            Region::Whole => {},
        }
        Some(region)
    }

    /// Assigns the value of the binding away or passes it as an argument at
    /// `point`.
    ///
    /// A Copy value is duplicated and the table stays as it is. A Move value
    /// leaves an owned binding moved out, and is refused while a reference
    /// to the binding is live.
    pub fn transfer(&mut self, id: usize, point: u64) -> (r: Result<(), Rejection>)
        requires
            old(self)@.wf(),
            old(self)@.has(id),
        ensures
            final(self)@.wf(),
            old(self)@.precedes(final(self)@),
            match old(self)@.rejection(id, Event::Transfer, point) {
                Some(e) => r == Err::<(), Rejection>(e) && final(self)@ == old(self)@,
                None => r is Ok && final(self)@ == old(self)@.after_transfer(id, point),
            },
            old(self)@.bindings[id as int].class is Copy ==> final(self)@ == old(self)@,
            old(self)@.bindings[id as int].class is Move
                && old(self)@.bindings[id as int].state.is_borrowed() ==> (r matches Err(e)
                && e.kind == Violation::MoveWhileBorrowed),
    {
        let b = self.bindings[id];
        match rejection_of(b.state, b.class, Event::Transfer) {
            Some(kind) => Err(Rejection { kind, binding: id, at: point, since: b.since }),
            None => {
                match b.class {
                    Classification::Copy => {},
                    Classification::Move => {
                        let ghost before = self@;
                        self.bindings.set(
                            id,
                            Binding {
                                scope: b.scope,
                                class: b.class,
                                mutable: b.mutable,
                                state: OwnState::MovedOut,
                                since: Some(point),
                            },
                        );
                        proof {
                            let after = self@;
                            assert(after.names =~= before.names);
                            assert(after == before.touch(id, OwnState::MovedOut, point));
                            assert forall|b: int|
                                0 <= b < after.bindings.len() implies #[trigger] after.agrees(b) by {
                                assert(before.agrees(b));
                            }
                        }
                    },
                }
                Ok(())
            },
        }
    }

    /// Moves or copies the value of binding `id` into a new binding of the
    /// same classification, declared under `name` in `scope`, and returns
    /// the id of the new binding.
    pub fn assign(&mut self, id: usize, name: String, scope: usize, mutable: bool, point: u64) -> (r:
        Result<usize, Rejection>)
        requires
            old(self)@.wf(),
            old(self)@.has(id),
        ensures
            final(self)@.wf(),
            old(self)@.precedes(final(self)@),
            match old(self)@.rejection(id, Event::Transfer, point) {
                Some(e) => r == Err::<usize, Rejection>(e) && final(self)@ == old(self)@,
                None => r == Ok::<usize, Rejection>(old(self)@.bindings.len() as usize)
                    && final(self)@ == old(self)@.after_transfer(id, point).add_binding(
                    name@,
                    Binding::declared(scope, old(self)@.bindings[id as int].class, mutable),
                ),
            },
            old(self)@.bindings[id as int].class is Copy ==> final(self)@.bindings[id as int]
                == old(self)@.bindings[id as int],
    {
        let class = self.bindings[id].class;
        match self.transfer(id, point) {
            Err(e) => Err(e),
            Ok(()) => Ok(self.declare(name, scope, class, mutable)),
        }
    }

    /// Duplicates the value of binding `id` on explicit request into a new
    /// owned binding, whatever its classification. The source stays as it
    /// is; it must be usable.
    pub fn duplicate(&mut self, id: usize, name: String, scope: usize, mutable: bool, point: u64) -> (r:
        Result<usize, Rejection>)
        requires
            old(self)@.wf(),
            old(self)@.has(id),
        ensures
            final(self)@.wf(),
            old(self)@.precedes(final(self)@),
            match old(self)@.rejection(id, Event::Use, point) {
                Some(e) => r == Err::<usize, Rejection>(e) && final(self)@ == old(self)@,
                None => r == Ok::<usize, Rejection>(old(self)@.bindings.len() as usize)
                    && final(self)@ == old(self)@.add_binding(
                    name@,
                    Binding::declared(scope, old(self)@.bindings[id as int].class, mutable),
                ),
            },
    {
        let class = self.bindings[id].class;
        match self.use_binding(id, point) {
            Err(e) => Err(e),
            Ok(()) => Ok(self.declare(name, scope, class, mutable)),
        }
    }

    /// Checks, before `scope` ends at `point`, that no reference outlives a
    /// binding of the scope: a binding declared in it that is still borrowed
    /// is a lifetime violation. The error names the earliest declared such
    /// binding.
    pub fn check_scope_exit(&self, scope: usize, point: u64) -> (r: Result<(), Rejection>)
        ensures
            r is Ok <==> forall|i: int|
                0 <= i < self@.bindings.len() ==> !(#[trigger] self@.outlived_at(i, scope)),
            r matches Err(e) ==> {
                &&& e.kind == Violation::LifetimeViolation
                &&& e.at == point
                &&& e.binding < self@.bindings.len()
                &&& self@.outlived_at(e.binding as int, scope)
                &&& e.since == self@.bindings[e.binding as int].since
                &&& forall|i: int| 0 <= i < e.binding ==> !(#[trigger] self@.outlived_at(i, scope))
            },
    {
        let mut i: usize = 0;
        while i < self.bindings.len()
            invariant
                i <= self@.bindings.len(),
                forall|k: int| 0 <= k < i ==> !(#[trigger] self@.outlived_at(k, scope)),
            decreases self@.bindings.len() - i,
        {
            let b = self.bindings[i];
            let borrowed = match b.state {
                OwnState::Shared(_) => true,
                OwnState::Exclusive => true,
                _ => false,
            };
            if b.scope == scope && borrowed {
                assert(self@.outlived_at(i as int, scope));
                return Err(
                    Rejection {
                        kind: Violation::LifetimeViolation,
                        binding: i,
                        at: point,
                        since: b.since,
                    },
                );
            }
            i = i + 1;
        }
        Ok(())
    }

    /// Ends `scope` at `point`: every binding declared in it that is still
    /// owned is dropped. Returns the ids of the dropped bindings in the
    /// order of their release, the latest declaration first.
    ///
    /// Bindings that were moved out, that are borrowed or that belong to
    /// another scope are left as they are.
    pub fn drop_scope(&mut self, scope: usize, point: u64) -> (released: Vec<usize>)
        requires
            old(self)@.wf(),
        ensures
            final(self)@.wf(),
            old(self)@.precedes(final(self)@),
            final(self)@ == old(self)@.after_scope_exit(scope, point),
            released@ == release_order(old(self)@.bindings, scope, old(self)@.bindings.len()),
            forall|id: usize|
                released@.contains(id) <==> (old(self)@.has(id) && old(self)@.bindings[id as int].scope
                    == scope && old(self)@.bindings[id as int].state is Owned),
            forall|i: int, j: int| 0 <= i < j < released@.len() ==> released@[i] > released@[j],
            forall|i: int|
                0 <= i < old(self)@.bindings.len() && !(old(self)@.bindings[i].state is Owned)
                    ==> final(self)@.bindings[i] == old(self)@.bindings[i],
    {
        let ghost before = self@;
        let n: usize = self.bindings.len();
        let mut released: Vec<usize> = Vec::new();
        let mut i: usize = n;
        while i > 0
            invariant
                i <= n,
                n == before.bindings.len(),
                self@.names == before.names,
                self@.refs == before.refs,
                self@.bindings.len() == n,
                forall|k: int| 0 <= k < i ==> self@.bindings[k] == before.bindings[k],
                forall|k: int|
                    i <= k < n ==> self@.bindings[k] == before.after_scope_exit(
                        scope,
                        point,
                    ).bindings[k],
                released@ + release_order(before.bindings, scope, i as nat) == release_order(
                    before.bindings,
                    scope,
                    n as nat,
                ),
            decreases i,
        {
            let ghost prev = self@;
            let ghost prev_released = released@;
            i = i - 1;
            let b = self.bindings[i];
            let owned = match b.state {
                OwnState::Owned => true,
                _ => false,
            };
            if b.scope == scope && owned {
                self.bindings.set(
                    i,
                    Binding {
                        scope: b.scope,
                        class: b.class,
                        mutable: b.mutable,
                        state: OwnState::Dropped,
                        since: Some(point),
                    },
                );
                released.push(i);
                proof {
                    assert(self@.names =~= prev.names);
                    assert(released@ + release_order(before.bindings, scope, i as nat)
                        =~= prev_released + (seq![i] + release_order(
                        before.bindings,
                        scope,
                        i as nat,
                    )));
                }
            }
        }
        proof {
            let after = self@;
            assert(after.bindings =~= before.after_scope_exit(scope, point).bindings);
            assert(released@ + Seq::<usize>::empty() =~= released@);
            lemma_release_order(before.bindings, scope, before.bindings.len());
            lemma_scope_exit_effect(before, scope, point);
        }
        released
    }
}

} // verus!
