//! Filesystem emulation: the file formats served to a cat-dev and the PCFS
//! protocol that exposes a host directory to it.

pub mod atapi;
pub mod bsf;
pub mod config;
pub mod dlf;
pub mod errors;
pub mod file_handles;
pub mod folder_cursor;
pub mod host_filesystem;
pub mod pcfs;
