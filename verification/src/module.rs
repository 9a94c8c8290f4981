//! The inter-module vocabulary: every subsystem is described by its event
//! types and a shared state snapshot.
//!
//! The bounded queues that carry the events between the orchestrator and a
//! module live with the async runtime outside the library; the library's
//! state machines consume and produce the event values.

use vstd::prelude::*;

verus! {

/// A read-only snapshot of a module's state, consulted by the orchestrator
/// before it issues back-pressured work.
pub trait State {
    /// Whether the module accepts new input now.
    spec fn accepts_input_spec(&self) -> bool;

    /// Whether the module accepts new input now.
    fn accepts_input(&self) -> (r: bool)
        ensures
            r == self.accepts_input_spec(),
    ;
}

/// A subsystem: what it consumes, what it produces, and what it shows of its
/// state.
pub trait Module {
    type InEvent;

    type OutEvent;

    type SharedState: State;
}

/// The shared state of a module that is always ready for input.
#[derive(PartialEq, Eq, Structural, Debug, Clone, Copy)]
pub struct AlwaysReady;

impl State for AlwaysReady {
    open spec fn accepts_input_spec(&self) -> bool {
        true
    }

    fn accepts_input(&self) -> (r: bool)
        ensures
            r == self.accepts_input_spec(),
    {
        true
    }
}

} // verus!
