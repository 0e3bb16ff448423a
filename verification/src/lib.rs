//! Verified core of the cat-dev host tooling: the wire formats of the PCFS
//! SATA protocol, the boot system file and disk layout file formats, and the
//! small pieces of decision logic that sit around them.

pub mod cli;
pub mod errors;
pub mod fsemul;
pub mod wire;
