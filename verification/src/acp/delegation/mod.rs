//! The companion process through which an agent hands work to another.

pub mod companion;
pub mod schema;
