//! IPv8+ protocol library.

pub mod ans;
pub mod cert;
pub mod cli;
pub mod codec;
pub mod compat;
pub mod fec;
pub mod crypto;
pub mod ffi;
pub mod firewall;
pub mod messages;
pub mod node;
pub mod pop;
pub mod resolver;
pub mod rpc;
pub mod table;
pub mod text;
pub mod wire;
pub mod zone;
