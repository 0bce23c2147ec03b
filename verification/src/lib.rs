//! A reactive dataflow runtime.
//!
//! Independent computation units ("nodes") are wired into a directed graph at
//! run time; typed events are then propagated synchronously through the graph,
//! one round per externally injected event.  Event types are represented by
//! numeric tags carried on pins and handles, connections are validated for tag
//! compatibility and acyclicity, and each propagation round visits every dirty
//! node exactly once, in a topological order of the connection graph.

pub mod behaviour;
pub mod behaviours;
pub mod error;
pub mod graph;
pub mod input;
pub mod inputs;
pub mod output;
pub mod system;

pub use crate::behaviour::Behaviour;
pub use crate::behaviour::BehaviourInput;
pub use crate::behaviour::BehaviourNode;
pub use crate::behaviour::IntoBehaviourNode;
pub use crate::behaviours::inspector::Inspector;
pub use crate::behaviours::inspector::InspectorPinLayout;
pub use crate::error::Error;
pub use crate::input::DynamicInputSet;
pub use crate::input::FixedInputSet;
pub use crate::input::In;
pub use crate::input::InHandle;
pub use crate::input::InputSet;
pub use crate::input::InputSetId;
pub use crate::input::TypedInHandle;
pub use crate::inputs::store_last::StoreLast;
pub use crate::inputs::unbounded::Unbounded;
pub use crate::output::DynamicOutSet;
pub use crate::output::FixedOutSet;
pub use crate::output::Out;
pub use crate::output::OutHandle;
pub use crate::output::OutputSet;
pub use crate::output::OutputSetId;
pub use crate::output::TypedOutHandle;
pub use crate::system::Event;
pub use crate::system::System;
