//! Errors of file-system emulation.

use crate::fsemul::pcfs::errors::{PCFSApiError, SataProtocolError};
use vstd::prelude::*;

verus! {

/// A file-system emulation API was called with arguments it refuses.
#[derive(Clone, Debug, PartialEq, Eq)]
pub enum FSEmulAPIError {
    /// A disk layout address is too large (address, bound).
    DlfAddressTooLarge(u128, u128),
    /// Disk layout paths must be UTF-8; this one is not (its bytes).
    DlfPathMustBeUtf8(Vec<u8>),
    /// A disk layout file must keep its ending address.
    DlfMustHaveEnding,
    /// A disk layout entry was placed past the ending before the ending moved.
    DlfUpsertEndingFirst,
    /// A path had to be open first.
    PathNotOpen(String),
    /// Files were already opened, so how file handles are numbered can no
    /// longer change.
    CannotSwapFdStrategy,
    /// A PCFS specific API error.
    PCFS(PCFSApiError),
}

/// A file read for file-system emulation is malformed, or a path is missing.
#[derive(Clone, Debug, PartialEq, Eq)]
pub enum FSEmulFSError {
    /// No path to keep the file-system emulation configuration in.
    CantFindPath,
    /// No Cafe SDK directory was found.
    CantFindCafeSdkPath,
    /// The Cafe SDK directory lacks required directories.
    CafeSdkPathCorrupt,
    /// A disk layout line is not `<hex address>,"<path>"`.
    DlfCorruptLine(String),
    /// The last line of a disk layout file is not blank.
    DlfCorruptFinalLine(String),
    /// The first line of a disk layout file is not a version.
    DlfCorruptVersionLine(String),
}

/// Errors of the ATAPI protocol.
#[derive(Clone, Debug, PartialEq, Eq)]
pub enum ATAPIProtocolError {
    /// ATAPI client requests are exactly twelve bytes; this one was not.
    InvalidClientRequestLength(Vec<u8>),
}

/// Protocol errors of file-system emulation.
#[derive(Clone, Debug, PartialEq, Eq)]
pub enum FSEmulProtocolError {
    /// An ATAPI protocol error.
    ATAPI(ATAPIProtocolError),
    /// A PCFS SATA protocol error.
    PCFSSata(SataProtocolError),
}

} // verus!
