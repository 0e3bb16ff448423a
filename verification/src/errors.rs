//! Errors shared across the crate: malformed data read from the network and
//! malformed files read from the host.

use crate::fsemul::errors::{FSEmulFSError, FSEmulProtocolError};
use crate::fsemul::pcfs::errors::SataProtocolError;
use crate::wire::copy_range;
use std::str::Utf8Error;
use std::string::FromUtf8Error;
use vstd::prelude::*;

verus! {

/// Someone sent us data that does not parse.
#[derive(Debug, PartialEq, Eq)]
pub enum NetworkParseError {
    /// A NUL terminated string field had no NUL byte.
    BadCString,
    /// A packet had to hold exactly the given bytes, and it did not.
    DoesntMatchStaticPayload(&'static str, &'static [u8], Vec<u8>),
    /// A field was not encoded as it must be (packet, field, encoding).
    FieldEncodedIncorrectly(&'static str, &'static str, &'static str),
    /// A field needs at least some number of bytes (packet, field, needed,
    /// had, bytes).
    FieldNotLongEnough(&'static str, &'static str, usize, usize, Vec<u8>),
    /// A field may hold at most some number of bytes (packet, field, max,
    /// had, bytes).
    FieldTooLong(&'static str, &'static str, usize, usize, Vec<u8>),
    /// A protocol specific error of file-system emulation.
    FSEmul(FSEmulProtocolError),
    /// The packet is too short (packet, needed, had, bytes).
    NotEnoughData(&'static str, usize, usize, Vec<u8>),
    /// Bytes left over at the end of a packet (packet, the extra bytes).
    UnexpectedTrailer(&'static str, Vec<u8>),
    /// A response carried a non-success return code.
    ErrorCode(u32),
    /// Data that had to be UTF-8 was not.
    Utf8Expected(FromUtf8Error),
    /// A slice that had to be UTF-8 was not.
    Utf8ExpectedSlice(Utf8Error),
}

/// The way every SATA protocol error is carried as a parse error.
pub open spec fn sata_parse_error(e: SataProtocolError) -> NetworkParseError {
    NetworkParseError::FSEmul(FSEmulProtocolError::PCFSSata(e))
}

/// Wrap a SATA protocol error as a parse error.
pub fn from_sata_error(e: SataProtocolError) -> (r: NetworkParseError)
    ensures
        r == sata_parse_error(e),
{
    NetworkParseError::FSEmul(FSEmulProtocolError::PCFSSata(e))
}

/// `e` reports that the body of `packet` needed `need` bytes and was
/// `data`.
pub open spec fn is_field_not_long_enough(
    e: NetworkParseError,
    packet: Seq<char>,
    need: nat,
    data: Seq<u8>,
) -> bool {
    &&& e matches NetworkParseError::FieldNotLongEnough(p, f, n, h, d)
    &&& p@ == packet
    &&& f@ == "Body"@
    &&& n == need
    &&& h == data.len()
    &&& d@ == data
}

/// `e` reports that `packet` was followed by the `extra` bytes.
pub open spec fn is_unexpected_trailer(e: NetworkParseError, packet: Seq<char>, extra: Seq<u8>) -> bool {
    &&& e matches NetworkParseError::UnexpectedTrailer(p, d)
    &&& p@ == packet
    &&& d@ == extra
}

/// `e` reports that `packet` needed `need` bytes and was `data`.
pub open spec fn is_not_enough_data(
    e: NetworkParseError,
    packet: Seq<char>,
    need: nat,
    data: Seq<u8>,
) -> bool {
    &&& e matches NetworkParseError::NotEnoughData(p, n, h, d)
    &&& p@ == packet
    &&& n == need
    &&& h == data.len()
    &&& d@ == data
}

/// The error for a body of `packet` that needed `need` bytes and was `data`.
pub fn field_not_long_enough(packet: &'static str, need: usize, data: &[u8]) -> (e:
    NetworkParseError)
    ensures
        is_field_not_long_enough(e, packet@, need as nat, data@),
{
    assert(data@.subrange(0, data@.len() as int) =~= data@);
    NetworkParseError::FieldNotLongEnough(packet, "Body", need, data.len(), copy_range(data, 0, data.len()))
}

/// The error for `packet` followed by the bytes `data[from..]`.
pub fn unexpected_trailer(packet: &'static str, data: &[u8], from: usize) -> (e: NetworkParseError)
    requires
        from <= data@.len(),
    ensures
        is_unexpected_trailer(e, packet@, data@.subrange(from as int, data@.len() as int)),
{
    NetworkParseError::UnexpectedTrailer(packet, copy_range(data, from, data.len()))
}

/// The error for `packet` that needed `need` bytes and was `data`.
pub fn not_enough_data(packet: &'static str, need: usize, data: &[u8]) -> (e: NetworkParseError)
    ensures
        is_not_enough_data(e, packet@, need as nat, data@),
{
    assert(data@.subrange(0, data@.len() as int) =~= data@);
    NetworkParseError::NotEnoughData(packet, need, data.len(), copy_range(data, 0, data.len()))
}

/// The errors that a body of `packet`, which must be exactly `need` bytes
/// long, gives when `data` is shorter or longer.
pub open spec fn exact_len_errors<T>(
    r: Result<T, NetworkParseError>,
    packet: Seq<char>,
    need: nat,
    data: Seq<u8>,
) -> bool {
    &&& data.len() < need ==> (r matches Err(e) && is_field_not_long_enough(e, packet, need, data))
    &&& data.len() > need ==> (r matches Err(e) && is_unexpected_trailer(
        e,
        packet,
        data.subrange(need as int, data.len() as int),
    ))
}

/// Check that a body of `packet` is exactly `need` bytes long.
pub fn check_exact_len(packet: &'static str, data: &[u8], need: usize) -> (r: Result<
    (),
    NetworkParseError,
>)
    ensures
        exact_len_errors(r, packet@, need as nat, data@),
        r is Ok <==> data@.len() == need,
{
    if data.len() < need {
        Err(field_not_long_enough(packet, need, data))
    } else if data.len() > need {
        Err(unexpected_trailer(packet, data, need))
    } else {
        Ok(())
    }
}

/// A file read from the host is not what it has to be.
#[derive(Debug, PartialEq, Eq)]
pub enum FSError {
    /// No default path to keep the list of host bridges in.
    CantFindHostEnvPath,
    /// A file-system emulation specific error.
    FSEmul(FSEmulFSError),
    /// The data had to be an INI file.
    InvalidDataNeedsToBeINI(String),
    /// A file's magic number did not match (expected, actual).
    InvalidFileMagic(u32, u32),
    /// A file did not have the size its header announces (expected, actual).
    InvalidFileSize(usize, usize),
    /// A file has fewer lines than it needs (lines, needed).
    TooFewLines(usize, usize),
    /// A file is larger than allowed (max, actual).
    TooLarge(usize, usize),
    /// A file is smaller than allowed (min, actual).
    TooSmall(usize, usize),
    /// A file had to be UTF-8 and was not.
    Utf8Expected(FromUtf8Error),
}

} // verus!
