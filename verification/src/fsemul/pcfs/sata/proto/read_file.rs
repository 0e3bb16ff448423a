//! The `ReadFile` packet: read blocks from an open file, optionally moving
//! its pointer first.

use super::location::{
    location_code, location_from_code, lemma_location_roundtrip, MoveToFileLocation,
};
use crate::errors::{check_exact_len, exact_len_errors, sata_parse_error, NetworkParseError};
use crate::fsemul::pcfs::errors::SataProtocolError;
use crate::wire::{
    be_i32, be_u32, i32_at, lemma_be_i32_roundtrip, lemma_be_u32_roundtrip, put_i32, put_u32,
    read_i32, read_u32, u32_at,
};
use vstd::prelude::*;

verus! {

/// The fields of a block transfer request, as read and write requests share
/// them.
pub struct BlockTransfer {
    pub block_count: u32,
    pub block_size: u32,
    pub file_descriptor: i32,
    pub move_to: MoveToFileLocation,
    pub should_move: bool,
}

/// The twenty bytes of a block transfer request.
pub open spec fn encode_block_transfer(m: BlockTransfer) -> Seq<u8> {
    be_u32(m.block_count) + be_u32(m.block_size) + be_i32(m.file_descriptor) + be_u32(
        location_code(m.move_to),
    ) + be_u32(if m.should_move { 1u32 } else { 0u32 })
}

/// The request twenty bytes stand for, if their position is known.
pub open spec fn decode_block_transfer(s: Seq<u8>) -> Option<BlockTransfer> {
    match location_from_code(u32_at(s, 12)) {
        Some(l) => Some(
            BlockTransfer {
                block_count: u32_at(s, 0),
                block_size: u32_at(s, 4),
                file_descriptor: i32_at(s, 8),
                move_to: l,
                should_move: u32_at(s, 16) & 1 != 0,
            },
        ),
        None => None,
    }
}

/// What parsing a block transfer body of `packet` gives, as a model.
pub open spec fn block_transfer_parsed(
    r: Result<BlockTransfer, NetworkParseError>,
    packet: Seq<char>,
    value: Seq<u8>,
) -> bool {
    &&& exact_len_errors(r, packet, 20, value)
    &&& value.len() == 20 ==> match decode_block_transfer(value) {
        Some(m) => r == Ok::<BlockTransfer, NetworkParseError>(m),
        None => r == Err::<BlockTransfer, NetworkParseError>(
            sata_parse_error(SataProtocolError::UnknownFileLocation(u32_at(value, 12))),
        ),
    }
}

/// Parse the twenty bytes of a block transfer request of `packet`.
pub fn parse_block_transfer(packet: &'static str, value: &[u8]) -> (r: Result<
    BlockTransfer,
    NetworkParseError,
>)
    ensures
        block_transfer_parsed(r, packet@, value@),
{
    match check_exact_len(packet, value, 20) {
        Err(e) => return Err(e),
        Ok(()) => {},
    }
    let block_count = read_u32(value, 0);
    let block_size = read_u32(value, 4);
    let file_descriptor = read_i32(value, 8);
    let move_to = match MoveToFileLocation::parse(read_u32(value, 12)) {
        Ok(l) => l,
        Err(e) => return Err(e),
    };
    let should_move = read_u32(value, 16) & 1 != 0;
    Ok(BlockTransfer { block_count, block_size, file_descriptor, move_to, should_move })
}

/// Write the twenty bytes of a block transfer request.
pub fn write_block_transfer(m: &BlockTransfer) -> (r: Vec<u8>)
    ensures
        r@ == encode_block_transfer(*m),
{
    let mut out: Vec<u8> = Vec::new();
    put_u32(&mut out, m.block_count);
    put_u32(&mut out, m.block_size);
    put_i32(&mut out, m.file_descriptor);
    put_u32(&mut out, m.move_to.to_u32());
    put_u32(&mut out, if m.should_move { 1u32 } else { 0u32 });
    out
}

/// Parsing the bytes of a block transfer request gives the request back.
pub proof fn lemma_block_transfer_roundtrip(m: BlockTransfer)
    ensures
        encode_block_transfer(m).len() == 20,
        decode_block_transfer(encode_block_transfer(m)) == Some(m),
{
    let s = encode_block_transfer(m);
    let sm: u32 = if m.should_move { 1u32 } else { 0u32 };
    lemma_be_u32_roundtrip(m.block_count);
    lemma_be_u32_roundtrip(m.block_size);
    lemma_be_i32_roundtrip(m.file_descriptor);
    lemma_be_u32_roundtrip(location_code(m.move_to));
    lemma_be_u32_roundtrip(sm);
    lemma_location_roundtrip(m.move_to);
    assert(s.subrange(0, 4) =~= be_u32(m.block_count));
    assert(s.subrange(4, 8) =~= be_u32(m.block_size));
    assert(s.subrange(8, 12) =~= be_i32(m.file_descriptor));
    assert(s.subrange(12, 16) =~= be_u32(location_code(m.move_to)));
    assert(s.subrange(16, 20) =~= be_u32(sm));
    assert((1u32 & 1u32 != 0u32) && !(0u32 & 1u32 != 0u32)) by (bit_vector);
}

/// A request to read blocks from an open file.
#[derive(Clone, Debug, PartialEq, Eq)]
pub struct SataReadFilePacketBody {
    block_count: u32,
    block_size: u32,
    handle: i32,
    move_to_pointer: MoveToFileLocation,
    should_move: bool,
}

impl View for SataReadFilePacketBody {
    type V = BlockTransfer;

    closed spec fn view(&self) -> BlockTransfer {
        BlockTransfer {
            block_count: self.block_count,
            block_size: self.block_size,
            file_descriptor: self.handle,
            move_to: self.move_to_pointer,
            should_move: self.should_move,
        }
    }
}

impl SataReadFilePacketBody {
    /// A read of `block_count` blocks of `block_size` bytes from
    /// `file_descriptor`, moving the pointer to `move_to` first if given.
    pub fn new(
        block_count: u32,
        block_size: u32,
        file_descriptor: i32,
        move_to: Option<MoveToFileLocation>,
    ) -> (r: Self)
        ensures
            r@.block_count == block_count,
            r@.block_size == block_size,
            r@.file_descriptor == file_descriptor,
            r@.move_to == (match move_to {
                Some(l) => l,
                None => MoveToFileLocation::Begin,
            }),
            r@.should_move == move_to is Some,
    {
        Self {
            block_count,
            block_size,
            handle: file_descriptor,
            move_to_pointer: match move_to {
                Some(l) => l,
                None => MoveToFileLocation::Begin,
            },
            should_move: move_to.is_some(),
        }
    }

    pub fn block_count(&self) -> (r: u32)
        ensures
            r == self@.block_count,
    {
        self.block_count
    }

    pub fn set_block_count(&mut self, new_count: u32)
        ensures
            final(self)@ == (BlockTransfer { block_count: new_count, ..old(self)@ }),
    {
        self.block_count = new_count;
    }

    pub fn block_size(&self) -> (r: u32)
        ensures
            r == self@.block_size,
    {
        self.block_size
    }

    pub fn set_block_size(&mut self, new_size: u32)
        ensures
            final(self)@ == (BlockTransfer { block_size: new_size, ..old(self)@ }),
    {
        self.block_size = new_size;
    }

    pub fn file_descriptor(&self) -> (r: i32)
        ensures
            r == self@.file_descriptor,
    {
        self.handle
    }

    pub fn set_file_descriptor(&mut self, new_fd: i32)
        ensures
            final(self)@ == (BlockTransfer { file_descriptor: new_fd, ..old(self)@ }),
    {
        self.handle = new_fd;
    }

    pub fn move_to_pointer(&self) -> (r: MoveToFileLocation)
        ensures
            r == self@.move_to,
    {
        self.move_to_pointer
    }

    /// Move the pointer to `new_move` first, or, given nothing, do not move
    /// it (the position then reads as the beginning).
    pub fn set_move_to(&mut self, new_move: Option<MoveToFileLocation>)
        ensures
            final(self)@ == (BlockTransfer {
                move_to: match new_move {
                    Some(l) => l,
                    None => MoveToFileLocation::Begin,
                },
                should_move: new_move is Some,
                ..old(self)@
            }),
    {
        match new_move {
            Some(l) => {
                self.move_to_pointer = l;
                self.should_move = true;
            },
            None => {
                self.move_to_pointer = MoveToFileLocation::Begin;
                self.should_move = false;
            },
        }
    }

    pub fn should_move(&self) -> (r: bool)
        ensures
            r == self@.should_move,
    {
        self.should_move
    }

    /// The twenty bytes of the request.
    pub fn to_bytes(&self) -> (r: Vec<u8>)
        ensures
            r@ == encode_block_transfer(self@),
    {
        write_block_transfer(
            &BlockTransfer {
                block_count: self.block_count,
                block_size: self.block_size,
                file_descriptor: self.handle,
                move_to: self.move_to_pointer,
                should_move: self.should_move,
            },
        )
    }

    /// Parse a read request: exactly twenty bytes, with a known position.
    pub fn try_from_bytes(value: &[u8]) -> (r: Result<Self, NetworkParseError>)
        ensures
            block_transfer_parsed(
                match r {
                    Ok(b) => Ok(b@),
                    Err(e) => Err(e),
                },
                "SataReadFile"@,
                value@,
            ),
    {
        match parse_block_transfer("SataReadFile", value) {
            Ok(m) => Ok(
                Self {
                    block_count: m.block_count,
                    block_size: m.block_size,
                    handle: m.file_descriptor,
                    move_to_pointer: m.move_to,
                    should_move: m.should_move,
                },
            ),
            Err(e) => Err(e),
        }
    }
}

} // verus!
