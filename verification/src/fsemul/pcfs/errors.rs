//! Errors of the PCFS protocols.

use vstd::prelude::*;

verus! {

/// A PCFS API was called with arguments it refuses.
#[derive(Clone, Debug, PartialEq, Eq)]
pub enum PCFSApiError {
    /// A file mode must match `(r|w|a)(b|+){0,2}`.
    BadModeString(String),
    /// A packet body does not fit the 32 bit length of a SATA packet.
    PacketTooLargeForSata(usize),
    /// Paths are at most 511 bytes long.
    PathTooLong(String),
    /// The path is not inside a mapped directory.
    PathNotMapped(String),
    /// A server extension that must be present was not.
    MissingCriticalExtension(String),
}

/// A PCFS SATA packet is malformed.
#[derive(Clone, Debug, PartialEq, Eq)]
pub enum SataProtocolError {
    /// A file mode must match `(r|w|a)(b|+){0,2}`.
    BadModeString(String),
    /// Headers end with eight zero bytes of padding; these were not.
    HeaderBadPadding([u8; 8]),
    /// A client set fields only the host may set (timestamp, pid).
    NonHostSetHostOnlyHeaderFields(u32, u32),
    /// An unknown packet type.
    UnknownPacketType(u32),
    /// An unknown query type for the get-info operation.
    UnknownGetInfoQueryType(u32),
    /// An unknown position to move a file pointer to.
    UnknownFileLocation(u32),
}

} // verus!
