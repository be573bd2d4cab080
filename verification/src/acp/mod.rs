//! Connections to agents, and work that one agent hands to another.

pub mod delegation;
pub mod lifecycle;
pub mod types;
