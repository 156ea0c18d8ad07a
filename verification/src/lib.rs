//! Pointer derivation graphs built from a log of runtime pointer events.

pub mod events;
pub mod graph;
pub mod mir_loc;
pub mod builder;
pub mod laws;
pub mod text;
