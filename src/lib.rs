//! A pushdown state machine: a stack of states with lifecycle callbacks,
//! driven by per-event and per-tick calls from an embedding loop.
//!
//! Each callback of a [`State`] has a spec function that says what it
//! does to the state and to the caller's context; the engine's contracts are
//! stated over those, so every operation of [`StateMachine`] has an
//! exact description of the order in which it runs the callbacks.

pub mod counting;
pub mod lifecycle;
pub mod machine;
pub mod state;

pub use counting::{Test, TestStateMachine};
pub use machine::StateMachine;
pub use state::{State, Step, Trans};
