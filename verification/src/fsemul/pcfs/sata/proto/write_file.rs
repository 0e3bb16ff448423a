//! The `WriteFile` packet: write blocks to an open file, optionally moving
//! its pointer first.

use super::location::MoveToFileLocation;
use super::read_file::{
    block_transfer_parsed, encode_block_transfer, parse_block_transfer, write_block_transfer,
    BlockTransfer,
};
use crate::errors::NetworkParseError;
use vstd::prelude::*;

verus! {

/// A request to write blocks to an open file; the data follows the packet.
#[derive(Clone, Debug, PartialEq, Eq)]
pub struct SataWriteFilePacketBody {
    block_count: u32,
    block_size: u32,
    handle: i32,
    move_to_pointer: MoveToFileLocation,
    should_move: bool,
}

impl View for SataWriteFilePacketBody {
    type V = BlockTransfer;

    closed spec fn view(&self) -> BlockTransfer {
        BlockTransfer {
            block_count: self.block_count,
            block_size: self.block_size,
            file_descriptor: self.handle,
            move_to: self.move_to_pointer,
            should_move: self.should_move,
        }
    }
}

impl SataWriteFilePacketBody {
    /// A write of `block_count` blocks of `block_size` bytes to
    /// `file_descriptor`, moving the pointer to `move_to` first if given.
    pub fn new(
        block_count: u32,
        block_size: u32,
        file_descriptor: i32,
        move_to: Option<MoveToFileLocation>,
    ) -> (r: Self)
        ensures
            r@.block_count == block_count,
            r@.block_size == block_size,
            r@.file_descriptor == file_descriptor,
            r@.move_to == (match move_to {
                Some(l) => l,
                None => MoveToFileLocation::Begin,
            }),
            r@.should_move == move_to is Some,
    {
        Self {
            block_count,
            block_size,
            handle: file_descriptor,
            move_to_pointer: match move_to {
                Some(l) => l,
                None => MoveToFileLocation::Begin,
            },
            should_move: move_to.is_some(),
        }
    }

    pub fn block_count(&self) -> (r: u32)
        ensures
            r == self@.block_count,
    {
        self.block_count
    }

    pub fn set_block_count(&mut self, new_count: u32)
        ensures
            final(self)@ == (BlockTransfer { block_count: new_count, ..old(self)@ }),
    {
        self.block_count = new_count;
    }

    pub fn block_size(&self) -> (r: u32)
        ensures
            r == self@.block_size,
    {
        self.block_size
    }

    pub fn set_block_size(&mut self, new_size: u32)
        ensures
            final(self)@ == (BlockTransfer { block_size: new_size, ..old(self)@ }),
    {
        self.block_size = new_size;
    }

    pub fn file_descriptor(&self) -> (r: i32)
        ensures
            r == self@.file_descriptor,
    {
        self.handle
    }

    pub fn set_file_descriptor(&mut self, new_fd: i32)
        ensures
            final(self)@ == (BlockTransfer { file_descriptor: new_fd, ..old(self)@ }),
    {
        self.handle = new_fd;
    }

    pub fn move_to_pointer(&self) -> (r: MoveToFileLocation)
        ensures
            r == self@.move_to,
    {
        self.move_to_pointer
    }

    /// Move the pointer to `new_move` first, or, given nothing, do not move
    /// it (the position then reads as the beginning).
    pub fn set_move_to(&mut self, new_move: Option<MoveToFileLocation>)
        ensures
            final(self)@ == (BlockTransfer {
                move_to: match new_move {
                    Some(l) => l,
                    None => MoveToFileLocation::Begin,
                },
                should_move: new_move is Some,
                ..old(self)@
            }),
    {
        match new_move {
            Some(l) => {
                self.move_to_pointer = l;
                self.should_move = true;
            },
            None => {
                self.move_to_pointer = MoveToFileLocation::Begin;
                self.should_move = false;
            },
        }
    }

    pub fn should_move(&self) -> (r: bool)
        ensures
            r == self@.should_move,
    {
        self.should_move
    }

    /// The twenty bytes of the request.
    pub fn to_bytes(&self) -> (r: Vec<u8>)
        ensures
            r@ == encode_block_transfer(self@),
    {
        write_block_transfer(
            &BlockTransfer {
                block_count: self.block_count,
                block_size: self.block_size,
                file_descriptor: self.handle,
                move_to: self.move_to_pointer,
                should_move: self.should_move,
            },
        )
    }

    /// Parse a write request: exactly twenty bytes, with a known position.
    pub fn try_from_bytes(value: &[u8]) -> (r: Result<Self, NetworkParseError>)
        ensures
            block_transfer_parsed(
                match r {
                    Ok(b) => Ok(b@),
                    Err(e) => Err(e),
                },
                "SataWriteFile"@,
                value@,
            ),
    {
        match parse_block_transfer("SataWriteFile", value) {
            Ok(m) => Ok(
                Self {
                    block_count: m.block_count,
                    block_size: m.block_size,
                    handle: m.file_descriptor,
                    move_to_pointer: m.move_to,
                    should_move: m.should_move,
                },
            ),
            Err(e) => Err(e),
        }
    }
}

} // verus!
