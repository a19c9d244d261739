//! The ownership state of a single binding and its transitions.

use vstd::prelude::*;
use crate::classify::Classification;
use crate::violation::Violation;

verus! {

/// The ownership state of a binding at a program point.
#[derive(Clone, Copy, Debug, PartialEq, Eq, Structural)]
pub enum OwnState {
    /// The binding owns its value and no reference to it is live.
    Owned,
    /// The value has been transferred to another owner.
    MovedOut,
    /// The given number of shared references is live.
    Shared(usize),
    /// One exclusive reference is live.
    Exclusive,
    /// The scope of the binding has ended and its value has been released.
    Dropped,
}

/// Something that happens to a binding.
#[derive(Clone, Copy, Debug, PartialEq, Eq, Structural)]
pub enum Event {
    /// The value is read or written through the binding.
    Use,
    /// A shared reference is created.
    ShareStart,
    /// The lifetime of a shared reference ends.
    ShareEnd,
    /// An exclusive reference is created.
    ExclusiveStart,
    /// The lifetime of the exclusive reference ends.
    ExclusiveEnd,
    /// The value is assigned to another binding or passed as an argument.
    Transfer,
    /// The scope in which the binding was declared ends.
    ScopeExit,
}

impl OwnState {
    /// A shared state counts at least one reference.
    pub open spec fn wf(self) -> bool {
        self matches OwnState::Shared(n) ==> n >= 1
    }

    /// The number of live shared references in this state.
    pub open spec fn shared_count(self) -> nat {
        match self {
            OwnState::Shared(n) => n as nat,
            _ => 0,
        }
    }

    /// The number of live exclusive references in this state.
    pub open spec fn exclusive_count(self) -> nat {
        match self {
            OwnState::Exclusive => 1,
            _ => 0,
        }
    }

    /// True while some reference to the binding is live.
    pub open spec fn is_borrowed(self) -> bool {
        self is Shared || self is Exclusive
    }

    /// True once the binding can never be used again.
    pub open spec fn is_terminal(self) -> bool {
        self is MovedOut || self is Dropped
    }

    /// The rule that any use of a binding in this state breaks, if there is
    /// one.
    pub open spec fn unusable(self) -> Option<Violation> {
        match self {
            OwnState::MovedOut => Some(Violation::UseAfterMove),
            OwnState::Dropped => Some(Violation::UseAfterDrop),
            _ => None,
        }
    }
}

/// The state that follows `s` when `ev` happens to a binding of
/// classification `class`, or the rule that `ev` breaks in `s`.
///
/// A scope exit drops an owned binding; a binding that was moved out stays
/// moved out. An event that ends a reference of a kind of which none is
/// live, and a scope exit while a reference is live, leave the state as it
/// is. Every other event on a moved-out or dropped binding is a use of it
/// and is rejected.
pub open spec fn next_state(s: OwnState, class: Classification, ev: Event) -> Result<
    OwnState,
    Violation,
> {
    if ev is ScopeExit {
        Ok(if s is Owned { OwnState::Dropped } else { s })
    } else if ev is ShareEnd {
        Ok(
            match s {
                OwnState::Shared(n) => if n <= 1 {
                    OwnState::Owned
                } else {
                    OwnState::Shared((n - 1) as usize)
                },
                _ => s,
            },
        )
    } else if ev is ExclusiveEnd {
        Ok(if s is Exclusive { OwnState::Owned } else { s })
    } else if s.unusable() is Some {
        Err(s.unusable()->0)
    } else {
        match ev {
            Event::ShareStart => match s {
                OwnState::Owned => Ok(OwnState::Shared(1)),
                OwnState::Shared(n) => Ok(OwnState::Shared((n + 1) as usize)),
                _ => Err(Violation::BorrowConflict),
            },
            Event::ExclusiveStart => if s is Owned {
                Ok(OwnState::Exclusive)
            } else {
                Err(Violation::BorrowConflict)
            },
            Event::Transfer => if class is Copy {
                Ok(s)
            } else if s is Owned {
                Ok(OwnState::MovedOut)
            } else {
                Err(Violation::MoveWhileBorrowed)
            },
            _ => Ok(s),
        }
    }
}

/// Computes the transition of one binding.
pub fn step(s: OwnState, class: Classification, ev: Event) -> (r: Result<OwnState, Violation>)
    requires
        s.wf(),
        ev is ShareStart && s is Shared ==> s->Shared_0 < usize::MAX,
    ensures
        r == next_state(s, class, ev),
        r matches Ok(t) ==> t.wf(),
{
    match ev {
        Event::ScopeExit => match s {
            OwnState::Owned => Ok(OwnState::Dropped),
            _ => Ok(s),
        },
        Event::ShareEnd => match s {
            OwnState::Shared(n) => if n <= 1 {
                Ok(OwnState::Owned)
            } else {
                Ok(OwnState::Shared(n - 1))
            },
            _ => Ok(s),
        },
        Event::ExclusiveEnd => match s {
            OwnState::Exclusive => Ok(OwnState::Owned),
            _ => Ok(s),
        },
        _ => match s {
            OwnState::MovedOut => Err(Violation::UseAfterMove),
            OwnState::Dropped => Err(Violation::UseAfterDrop),
            _ => match ev {
                Event::ShareStart => match s {
                    OwnState::Owned => Ok(OwnState::Shared(1)),
                    OwnState::Shared(n) => Ok(OwnState::Shared(n + 1)),
                    _ => Err(Violation::BorrowConflict),
                },
                Event::ExclusiveStart => match s {
                    OwnState::Owned => Ok(OwnState::Exclusive),
                    _ => Err(Violation::BorrowConflict),
                },
                Event::Transfer => match class {
                    Classification::Copy => Ok(s),
                    Classification::Move => match s {
                        OwnState::Owned => Ok(OwnState::MovedOut),
                        _ => Err(Violation::MoveWhileBorrowed),
                    },
                },
                _ => Ok(s),
            },
        },
    }
}

/// The rule that `ev` breaks in state `s`, if it breaks one.
pub fn rejection_of(s: OwnState, class: Classification, ev: Event) -> (r: Option<Violation>)
    ensures
        match next_state(s, class, ev) {
            Ok(_) => r is None,
            Err(v) => r == Some(v),
        },
{
    match ev {
        Event::ScopeExit => None,
        Event::ShareEnd => None,
        Event::ExclusiveEnd => None,
        _ => match s {
            OwnState::MovedOut => Some(Violation::UseAfterMove),
            OwnState::Dropped => Some(Violation::UseAfterDrop),
            _ => match ev {
                Event::ShareStart => match s {
                    OwnState::Exclusive => Some(Violation::BorrowConflict),
                    _ => None,
                },
                Event::ExclusiveStart => match s {
                    OwnState::Owned => None,
                    _ => Some(Violation::BorrowConflict),
                },
                Event::Transfer => match class {
                    Classification::Copy => None,
                    Classification::Move => match s {
                        OwnState::Owned => None,
                        _ => Some(Violation::MoveWhileBorrowed),
                    },
                },
                _ => None,
            },
        },
    }
}

/// In every well-formed state at most one exclusive reference is live, and
/// none while a shared reference is live.
pub proof fn lemma_state_aliasing(s: OwnState)
    requires
        s.wf(),
    ensures
        s.exclusive_count() <= 1,
        s.exclusive_count() > 0 ==> s.shared_count() == 0,
        s.is_borrowed() <==> s.exclusive_count() + s.shared_count() > 0,
{
}

/// A transition that succeeds keeps the aliasing rule, and changes the
/// number of live references exactly as its event says.
pub proof fn lemma_step_counts(s: OwnState, class: Classification, ev: Event)
    requires
        s.wf(),
        ev is ShareStart && s is Shared ==> s->Shared_0 < usize::MAX,
        next_state(s, class, ev) is Ok,
    ensures
        ({
            let t = next_state(s, class, ev)->Ok_0;
            &&& t.wf()
            &&& t.exclusive_count() <= 1
            &&& t.exclusive_count() > 0 ==> t.shared_count() == 0
            &&& ev is ShareStart ==> t.shared_count() == s.shared_count() + 1
                && t.exclusive_count() == 0
            &&& ev is ExclusiveStart ==> t.exclusive_count() == 1 && s.exclusive_count() == 0
                && s.shared_count() == 0
            &&& ev is ShareEnd && s is Shared ==> t.shared_count() == s.shared_count() - 1
            &&& ev is ExclusiveEnd ==> t.exclusive_count() == 0
            &&& ev is Use || ev is Transfer || ev is ScopeExit ==> t.shared_count()
                == s.shared_count() && t.exclusive_count() == s.exclusive_count()
        }),
{
}

/// Once a Move binding has been moved out, every use of it is rejected as a
/// use after move, and no event brings it back: it stays moved out.
pub proof fn lemma_moved_out_is_final(class: Classification, ev: Event)
    ensures
        next_state(OwnState::MovedOut, class, Event::Use) == Err::<OwnState, Violation>(
            Violation::UseAfterMove,
        ),
        next_state(OwnState::MovedOut, class, ev) matches Ok(t) ==> t == OwnState::MovedOut,
        next_state(OwnState::MovedOut, class, ev) matches Err(v) ==> v == Violation::UseAfterMove,
{
}

/// A dropped binding stays dropped, and every use of it is rejected as a use
/// after drop.
pub proof fn lemma_dropped_is_final(class: Classification, ev: Event)
    ensures
        next_state(OwnState::Dropped, class, Event::Use) == Err::<OwnState, Violation>(
            Violation::UseAfterDrop,
        ),
        next_state(OwnState::Dropped, class, ev) matches Ok(t) ==> t == OwnState::Dropped,
        next_state(OwnState::Dropped, class, ev) matches Err(v) ==> v == Violation::UseAfterDrop,
{
}

/// Assigning or passing a Copy value never changes the state of its source:
/// where the transfer is accepted the state is the one before, and a Copy
/// binding is never moved out by it.
pub proof fn lemma_copy_transfer_keeps_state(s: OwnState)
    ensures
        next_state(s, Classification::Copy, Event::Transfer) matches Ok(t) ==> t == s,
        next_state(s, Classification::Copy, Event::Transfer) is Ok <==> !s.is_terminal(),
        !(s is MovedOut) ==> !(next_state(s, Classification::Copy, Event::Transfer) matches Ok(
            OwnState::MovedOut,
        )),
{
}

/// Transferring a Move value out of an owned, unborrowed binding moves it
/// out; while a reference is live the transfer is rejected.
pub proof fn lemma_move_transfer(s: OwnState)
    requires
        s.wf(),
    ensures
        s is Owned ==> next_state(s, Classification::Move, Event::Transfer) == Ok::<
            OwnState,
            Violation,
        >(OwnState::MovedOut),
        s.is_borrowed() ==> next_state(s, Classification::Move, Event::Transfer) == Err::<
            OwnState,
            Violation,
        >(Violation::MoveWhileBorrowed),
{
}

} // verus!
