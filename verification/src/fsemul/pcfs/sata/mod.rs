//! The SATA flavour of PCFS.

pub mod client;
pub mod proto;
pub mod server;
