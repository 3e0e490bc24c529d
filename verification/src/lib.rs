//! The logic network of a block structure: which ports share a signal, and how signals move
//! through the network tick by tick.

pub mod block;
pub mod fluid;
pub mod logic;
pub mod netty;
pub mod registry;
pub mod structure;
