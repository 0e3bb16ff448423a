//! The `SetFilePosition` packet: move the pointer of an open file.

use super::location::{
    lemma_location_roundtrip, location_code, location_from_code, MoveToFileLocation,
};
use crate::errors::{
    field_not_long_enough, is_field_not_long_enough, is_unexpected_trailer, sata_parse_error,
    unexpected_trailer, NetworkParseError,
};
use crate::fsemul::pcfs::errors::SataProtocolError;
use crate::wire::{
    be_i32, be_u32, i32_at, lemma_be_i32_roundtrip, lemma_be_u32_roundtrip, put_i32, put_u32,
    read_i32, read_u32, u32_at,
};
use vstd::prelude::*;

verus! {

/// A request to move the pointer of an open file.
#[derive(Clone, Debug, PartialEq, Eq)]
pub struct SataSetFilePositionPacketBody {
    handle: i32,
    move_to_pointer: MoveToFileLocation,
}

impl View for SataSetFilePositionPacketBody {
    /// (file descriptor, position)
    type V = (i32, MoveToFileLocation);

    closed spec fn view(&self) -> (i32, MoveToFileLocation) {
        (self.handle, self.move_to_pointer)
    }
}

/// The eight bytes of a set file position request.
pub open spec fn encode_set_file_position(m: (i32, MoveToFileLocation)) -> Seq<u8> {
    be_i32(m.0) + be_u32(location_code(m.1))
}

impl SataSetFilePositionPacketBody {
    pub fn new(file_descriptor: i32, move_to: MoveToFileLocation) -> (r: Self)
        ensures
            r@ == (file_descriptor, move_to),
    {
        Self { handle: file_descriptor, move_to_pointer: move_to }
    }

    pub fn file_descriptor(&self) -> (r: i32)
        ensures
            r == self@.0,
    {
        self.handle
    }

    pub fn set_file_descriptor(&mut self, new_fd: i32)
        ensures
            final(self)@ == (new_fd, old(self)@.1),
    {
        self.handle = new_fd;
    }

    pub fn move_to_pointer(&self) -> (r: MoveToFileLocation)
        ensures
            r == self@.1,
    {
        self.move_to_pointer
    }

    pub fn set_move_to_pointer(&mut self, new_move: MoveToFileLocation)
        ensures
            final(self)@ == (old(self)@.0, new_move),
    {
        self.move_to_pointer = new_move;
    }

    /// The eight bytes of the request.
    pub fn to_bytes(&self) -> (r: Vec<u8>)
        ensures
            r@ == encode_set_file_position(self@),
    {
        let mut out: Vec<u8> = Vec::new();
        put_i32(&mut out, self.handle);
        put_u32(&mut out, self.move_to_pointer.to_u32());
        out
    }

    /// Parse a request: at least eight and at most twelve bytes, of which
    /// the first eight are read.
    pub fn try_from_bytes(value: &[u8]) -> (r: Result<Self, NetworkParseError>)
        ensures
            value@.len() < 8 ==> (r matches Err(e) && is_field_not_long_enough(
                e,
                "SataSetFilePosition"@,
                8,
                value@,
            )),
            value@.len() > 12 ==> (r matches Err(e) && is_unexpected_trailer(
                e,
                "SataSetFilePosition"@,
                value@.subrange(12, value@.len() as int),
            )),
            8 <= value@.len() <= 12 ==> match location_from_code(u32_at(value@, 4)) {
                Some(l) => (r matches Ok(b) && b@ == (i32_at(value@, 0), l)),
                None => r == Err::<Self, NetworkParseError>(
                    sata_parse_error(SataProtocolError::UnknownFileLocation(u32_at(value@, 4))),
                ),
            },
    {
        if value.len() < 8 {
            return Err(field_not_long_enough("SataSetFilePosition", 8, value));
        }
        if value.len() > 12 {
            return Err(unexpected_trailer("SataSetFilePosition", value, 12));
        }
        let handle = read_i32(value, 0);
        match MoveToFileLocation::parse(read_u32(value, 4)) {
            Ok(l) => Ok(Self { handle, move_to_pointer: l }),
            Err(e) => Err(e),
        }
    }
}

/// Parsing the bytes of a request gives the request back.
pub proof fn lemma_set_file_position_roundtrip(m: (i32, MoveToFileLocation))
    ensures
        encode_set_file_position(m).len() == 8,
        i32_at(encode_set_file_position(m), 0) == m.0,
        location_from_code(u32_at(encode_set_file_position(m), 4)) == Some(m.1),
{
    let s = encode_set_file_position(m);
    lemma_be_i32_roundtrip(m.0);
    lemma_be_u32_roundtrip(location_code(m.1));
    lemma_location_roundtrip(m.1);
    assert(s.subrange(0, 4) =~= be_i32(m.0));
    assert(s.subrange(4, 8) =~= be_u32(location_code(m.1)));
}

} // verus!
