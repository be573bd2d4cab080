//! Chat channels: the relay between agent sessions and a channel, and the
//! WeLink backend.

pub mod chunks;
pub mod cli;
pub mod completion;
pub mod history;
pub mod html;
pub mod session;
pub mod tool_detail;
pub mod types;
pub mod welink;
