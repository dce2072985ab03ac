//! The IPv8+ packet format.

pub mod compat;
pub mod decode;
pub mod encode;
pub mod flags;
pub mod formats;
pub mod fragment;
pub mod fragment_laws;
pub mod header;
pub mod laws;
pub mod layouts;
pub mod reassembly;
pub mod tags;
pub mod version;
