//! Slot policies: buffering strategies for one input position.

pub mod store_last;
pub mod unbounded;
