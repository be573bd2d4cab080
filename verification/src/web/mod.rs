//! Endpoints of the server.

pub mod app_update;
