//! PCFS, the filesystem that a host PC serves to a cat-dev.

pub mod errors;
pub mod sata;
