//! A small ownership and borrow analyzer.
//!
//! The crate tracks, per binding, who owns a value, which references to it are
//! live, and over which program points a reference stays valid. Every rule is
//! stated as a contract over a mathematical model and proved.
//!
//! - `classify`: whether handing a value on copies or moves it.
//! - `state`: the ownership states of one binding and their transitions.
//! - `table`: the binding table, with the references taken to each binding.
//! - `lifetime`: regions of program points and the containment checks.
//! - `violation`: the rules that a construct can break.
//! - `outcome`: results that carry a cause, for parsing numbers from text.

pub mod classify;
pub mod violation;
pub mod state;
pub mod table;
pub mod lifetime;
pub mod outcome;
