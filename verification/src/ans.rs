//! The agent name service: which agent has which name, and which can do what.

pub mod card;
pub mod laws;
pub mod rpc;
pub mod search;
pub mod service;
pub mod store;
