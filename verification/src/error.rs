use vstd::prelude::*;

verus! {

/// The recoverable failures of the graph API.  Every host-facing operation
/// returns one of these instead of panicking; a failed operation never
/// partially mutates graph state.
#[derive(Clone, Copy, Debug, PartialEq, Eq, Structural)]
pub enum Error {
    /// The proposed connection would close a cycle in the event-flow graph.
    Cycle,
    /// A handle's referenced input set is unknown to this system.
    InputNotFound,
    /// A handle's referenced output set or output pin is unknown to this system.
    OutputNotFound,
    /// An erased event or handle failed to match a pin's declared event type.
    UnexpectedEventType,
    /// The event types of the output and input pins of a connection differ.
    IncompatiblePinTypes,
}

} // verus!
