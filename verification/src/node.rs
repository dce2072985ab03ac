//! The node: what it does with packets, frames, addresses and arguments.

pub mod args;
pub mod config;
pub mod dll;
pub mod enroll;
pub mod lan;
pub mod outbound;
pub mod plane;
pub mod punch;
pub mod roam;
pub mod slots;
pub mod sock;
pub mod ticker;
