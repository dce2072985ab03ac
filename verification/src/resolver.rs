//! The resolver: where a node can be reached.

pub mod cache;
pub mod clock;
pub mod entry;
pub mod entry_laws;
pub mod held;
pub mod json;
pub mod json_laws;
pub mod laws;
pub mod list;
pub mod record;
pub mod row;
pub mod rpc;
pub mod service;
pub mod sqlite;
pub mod store;
