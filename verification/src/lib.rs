//! The decision core of a coding-agent workspace: the delegation companion's
//! JSON-RPC protocol, the connection lifecycle, the chat-channel relay, the
//! WeLink backend and the in-place update endpoints.
//!
//! Every module holds decisions only. What talks to a socket, a database, a
//! process or a clock lives in the host, which performs the actions returned
//! here and hands back what it learned as plain values.

pub mod acp;
pub mod chat_channel;
pub mod decimal;
pub mod json;
pub mod keyed;
pub mod text;
pub mod web;
