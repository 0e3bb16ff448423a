//! The `RewindFolder` packet: move the iterator of an open folder back.

use crate::errors::{check_exact_len, exact_len_errors, NetworkParseError};
use crate::wire::{be_i32, i32_at, lemma_be_i32_roundtrip, put_i32, read_i32};
use vstd::prelude::*;

verus! {

/// A request to start the folder behind a file descriptor over from its first entry.
#[derive(Clone, Debug, PartialEq, Eq)]
pub struct SataRewindFolderPacketBody {
    file_descriptor: i32,
}

impl View for SataRewindFolderPacketBody {
    type V = i32;

    closed spec fn view(&self) -> i32 {
        self.file_descriptor
    }
}

/// The bytes of a SataRewindDir body for descriptor `fd`.
pub open spec fn encode_rewind_folder(fd: i32) -> Seq<u8> {
    be_i32(fd)
}

impl SataRewindFolderPacketBody {
    /// A request to rewind folder `fd` to its first item.
    pub fn new(fd: i32) -> (r: Self)
        ensures
            r@ == fd,
    {
        Self { file_descriptor: fd }
    }

    pub fn file_descriptor(&self) -> (r: i32)
        ensures
            r == self@,
    {
        self.file_descriptor
    }

    pub fn set_file_descriptor(&mut self, new_fd: i32)
        ensures
            final(self)@ == new_fd,
    {
        self.file_descriptor = new_fd;
    }

    /// Parse a body: exactly four bytes, the descriptor in big-endian.
    pub fn try_from_bytes(value: &[u8]) -> (r: Result<Self, NetworkParseError>)
        ensures
            exact_len_errors(r, "SataRewindDir"@, 4, value@),
            value@.len() == 4 ==> (r matches Ok(b) && b@ == i32_at(value@, 0)),
    {
        match check_exact_len("SataRewindDir", value, 4) {
            Err(e) => Err(e),
            Ok(()) => Ok(Self { file_descriptor: read_i32(value, 0) }),
        }
    }

    /// The four big-endian bytes of the descriptor.
    pub fn to_bytes(&self) -> (r: Vec<u8>)
        ensures
            r@ == encode_rewind_folder(self@),
    {
        let mut out: Vec<u8> = Vec::new();
        put_i32(&mut out, self.file_descriptor);
        out
    }
}

/// Parsing the bytes written for a SataRewindDir body gives the body back.
pub proof fn lemma_rewind_folder_roundtrip(fd: i32)
    ensures
        encode_rewind_folder(fd).len() == 4,
        i32_at(encode_rewind_folder(fd), 0) == fd,
{
    lemma_be_i32_roundtrip(fd);
    assert(encode_rewind_folder(fd).subrange(0, 4) =~= encode_rewind_folder(fd));
}

} // verus!
