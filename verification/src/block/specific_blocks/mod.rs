//! Blocks with a behaviour of their own.

pub mod and_gate;
