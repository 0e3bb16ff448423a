//! ATAPI emulation: a cat-dev's disk reads, answered from the host.
//!
//! This protocol is not the standard ATAPI, but a vendor variant of it.

pub mod proto;
