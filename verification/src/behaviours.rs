//! Ready-made node behaviours.

pub mod inspector;
