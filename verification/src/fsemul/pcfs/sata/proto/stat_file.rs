//! The `StatFile` packet: ask for information about an open file.

use crate::errors::{check_exact_len, exact_len_errors, NetworkParseError};
use crate::wire::{be_i32, i32_at, lemma_be_i32_roundtrip, put_i32, read_i32};
use vstd::prelude::*;

verus! {

/// A request for the details of the file behind a file descriptor.
#[derive(Clone, Debug, PartialEq, Eq)]
pub struct SataStatFilePacketBody {
    file_descriptor: i32,
}

impl View for SataStatFilePacketBody {
    type V = i32;

    closed spec fn view(&self) -> i32 {
        self.file_descriptor
    }
}

/// The bytes of a SataStatFile body for descriptor `fd`.
pub open spec fn encode_stat_file(fd: i32) -> Seq<u8> {
    be_i32(fd)
}

impl SataStatFilePacketBody {
    /// A request for the details of open file `fd`.
    pub fn new(fd: i32) -> (r: Self)
        ensures
            r@ == fd,
    {
        Self { file_descriptor: fd }
    }

    pub fn file_descriptor(&self) -> (r: i32)
        ensures
            r == self@,
    {
        self.file_descriptor
    }

    pub fn set_file_descriptor(&mut self, new_fd: i32)
        ensures
            final(self)@ == new_fd,
    {
        self.file_descriptor = new_fd;
    }

    /// Parse a body: exactly four bytes, the descriptor in big-endian.
    pub fn try_from_bytes(value: &[u8]) -> (r: Result<Self, NetworkParseError>)
        ensures
            exact_len_errors(r, "SataStatFile"@, 4, value@),
            value@.len() == 4 ==> (r matches Ok(b) && b@ == i32_at(value@, 0)),
    {
        match check_exact_len("SataStatFile", value, 4) {
            Err(e) => Err(e),
            Ok(()) => Ok(Self { file_descriptor: read_i32(value, 0) }),
        }
    }

    /// The four big-endian bytes of the descriptor.
    pub fn to_bytes(&self) -> (r: Vec<u8>)
        ensures
            r@ == encode_stat_file(self@),
    {
        let mut out: Vec<u8> = Vec::new();
        put_i32(&mut out, self.file_descriptor);
        out
    }
}

/// Parsing the bytes written for a SataStatFile body gives the body back.
pub proof fn lemma_stat_file_roundtrip(fd: i32)
    ensures
        encode_stat_file(fd).len() == 4,
        i32_at(encode_stat_file(fd), 0) == fd,
{
    lemma_be_i32_roundtrip(fd);
    assert(encode_stat_file(fd).subrange(0, 4) =~= encode_stat_file(fd));
}

} // verus!
