//! Framing of the ATAPI emulation stream, and the one request it serves
//! from the disk layout: reading an address range.
//!
//! Every request towards ATAPI is exactly twelve bytes; replies may be of
//! any size.

use crate::fsemul::errors::ATAPIProtocolError;
use crate::wire::{copy_range, put_bytes, put_zeros, u32_at, read_u32, zeros};
use vstd::prelude::*;

verus! {

/// The length of every request towards ATAPI.
pub const ATAPI_REQUEST_LEN: usize = 12;

/// Server side framing: requests come in twelve bytes at a time; replies go
/// out as they are.
#[derive(Copy, Clone, Debug, PartialEq, Eq)]
pub struct ChunkATAPIEmulatorCodec;

impl ChunkATAPIEmulatorCodec {
    /// Take the next request off the front of `src`, once twelve bytes have
    /// arrived.
    pub fn decode(&self, src: &mut Vec<u8>) -> (r: Option<Vec<u8>>)
        ensures
            old(src)@.len() < 12 ==> r is None && final(src)@ == old(src)@,
            old(src)@.len() >= 12 ==> (r matches Some(p) && p@ == old(src)@.subrange(0, 12)
                && final(src)@ == old(src)@.subrange(12, old(src)@.len() as int)),
    {
        if src.len() < ATAPI_REQUEST_LEN {
            None
        } else {
            let head = copy_range(src.as_slice(), 0, ATAPI_REQUEST_LEN);
            let rest = copy_range(src.as_slice(), ATAPI_REQUEST_LEN, src.len());
            *src = rest;
            Some(head)
        }
    }

    /// Queue a reply, as it is.
    pub fn encode(&self, item: &[u8], dst: &mut Vec<u8>)
        ensures
            final(dst)@ == old(dst)@ + item@,
    {
        put_bytes(dst, item);
    }
}

/// Client side framing: whatever has arrived is the reply; requests must be
/// at least twelve bytes.
#[derive(Copy, Clone, Debug, PartialEq, Eq)]
pub struct ClientChunkedATAPIEmulatorCode;

impl ClientChunkedATAPIEmulatorCode {
    /// Take all that has arrived as the reply.
    pub fn decode(&self, src: &mut Vec<u8>) -> (r: Option<Vec<u8>>)
        ensures
            r matches Some(p) && p@ == old(src)@,
            final(src)@.len() == 0,
    {
        let all = copy_range(src.as_slice(), 0, src.len());
        assert(old(src)@.subrange(0, old(src)@.len() as int) =~= old(src)@);
        *src = Vec::new();
        Some(all)
    }

    /// Queue a request, refusing one shorter than twelve bytes.
    pub fn encode(&self, item: Vec<u8>, dst: &mut Vec<u8>) -> (r: Result<(), ATAPIProtocolError>)
        ensures
            item@.len() < 12 ==> r == Err::<(), ATAPIProtocolError>(
                ATAPIProtocolError::InvalidClientRequestLength(item),
            ) && final(dst)@ == old(dst)@,
            item@.len() >= 12 ==> r is Ok && final(dst)@ == old(dst)@ + item@,
    {
        if item.len() < ATAPI_REQUEST_LEN {
            Err(ATAPIProtocolError::InvalidClientRequestLength(item))
        } else {
            put_bytes(dst, item.as_slice());
            Ok(())
        }
    }
}

/// The disk address a read request starts at: its second big endian word,
/// in 2048 byte sectors.
pub open spec fn read_request_address(packet: Seq<u8>) -> nat {
    (u32_at(packet, 4) as nat) * 2048
}

/// The length a read request asks for: its third big endian word, in 2048
/// byte sectors.
pub open spec fn read_request_length(packet: Seq<u8>) -> nat {
    (u32_at(packet, 8) as nat) * 2048
}

/// The address and length, in bytes, that the read request `packet` asks
/// for.
pub fn parse_read_request(packet: &[u8]) -> (r: (u128, u128))
    requires
        packet@.len() >= 12,
    ensures
        r.0 == read_request_address(packet@),
        r.1 == read_request_length(packet@),
{
    let address = read_u32(packet, 4);
    let length = read_u32(packet, 8);
    assert((address as u128) << 11u128 == (address as u128) * 2048) by (bit_vector);
    assert((length as u128) << 11u128 == (length as u128) * 2048) by (bit_vector);
    ((address as u128) << 11u128, (length as u128) << 11u128)
}

/// The reply to a read of `length` bytes from the file data `data`: the
/// data, then zeros up to the length.
pub open spec fn read_reply(data: Seq<u8>, length: nat) -> Seq<u8> {
    data + zeros((length - data.len()) as nat)
}

/// How many bytes to read from a file `file_len` bytes long, from
/// `offset`, for a read of `length` bytes: all that is left, at most the
/// length.
pub fn read_amount(file_len: u64, offset: u64, length: usize) -> (r: usize)
    requires
        offset <= file_len,
    ensures
        r == if (file_len - offset) as int > usize::MAX as int {
            length as int
        } else if ((file_len - offset) as int) < length {
            (file_len - offset) as int
        } else {
            length as int
        },
{
    let left = file_len - offset;
    if left as u128 > usize::MAX as u128 {
        length
    } else if (left as usize) < length {
        left as usize
    } else {
        length
    }
}

/// Pad the data read for a read of `length` bytes with zeros up to that
/// length.
pub fn pad_read_reply(data: &mut Vec<u8>, length: usize)
    requires
        old(data)@.len() <= length,
    ensures
        final(data)@ == read_reply(old(data)@, length as nat),
{
    let n = data.len();
    put_zeros(data, length - n);
}

} // verus!
