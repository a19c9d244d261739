//! The ways in which a program can break the ownership rules.

use vstd::prelude::*;

verus! {

/// The rule that a construct breaks.
#[derive(Clone, Copy, Debug, PartialEq, Eq, Structural)]
pub enum Violation {
    /// A binding was used after its value had been moved away.
    UseAfterMove,
    /// A binding was used after its scope had ended.
    UseAfterDrop,
    /// An exclusive reference would overlap another reference.
    BorrowConflict,
    /// Ownership would be transferred while a reference is live.
    MoveWhileBorrowed,
    /// A reference would outlive what it must be contained in.
    LifetimeViolation,
}

/// A rejected construct: the rule broken, the binding concerned and the two
/// program points that conflict.
#[derive(Clone, Copy, Debug, PartialEq, Eq, Structural)]
pub struct Rejection {
    /// The rule that was broken.
    pub kind: Violation,
    /// The binding on which it was broken.
    pub binding: usize,
    /// The program point of the offending construct.
    pub at: u64,
    /// The program point at which the binding entered the state that the
    /// construct conflicts with; `None` if it has been in it since its
    /// declaration.
    pub since: Option<u64>,
}

} // verus!
