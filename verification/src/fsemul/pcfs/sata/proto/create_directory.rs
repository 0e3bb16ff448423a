//! The `CreateDirectory` packet: create a directory (and its parents),
//! read-only or writable.

use super::path_field::{
    check_path, encode_field, field_errors, lemma_field_chars_fit, lemma_field_roundtrip, path_fits,
    put_field, read_field,
};
use crate::errors::{check_exact_len, exact_len_errors, NetworkParseError};
use crate::fsemul::pcfs::errors::PCFSApiError;
use crate::wire::{be_u32, c_str_chars, lemma_be_u32_roundtrip, put_u32, read_u32, u32_at};
use vstd::prelude::*;

verus! {

/// A request to create a directory.
#[derive(Debug, PartialEq, Eq)]
pub struct SataCreateDirectoryPacketBody {
    path: String,
    set_write_mode: bool,
}

impl View for SataCreateDirectoryPacketBody {
    /// (path, whether the directory is writable)
    type V = (Seq<char>, bool);

    closed spec fn view(&self) -> (Seq<char>, bool) {
        (self.path@, self.set_write_mode)
    }
}

impl Clone for SataCreateDirectoryPacketBody {
    fn clone(&self) -> (r: Self)
        ensures
            r@ == self@,
    {
        proof {
            use_type_invariant(self);
        }
        Self { path: self.path.clone(), set_write_mode: self.set_write_mode }
    }
}

/// The permission word sent for a writable or a read-only directory.
pub open spec fn directory_mode_word(writable: bool) -> u32 {
    if writable {
        0x666
    } else {
        0x444
    }
}

/// The 516 bytes of a create directory request.
pub open spec fn encode_create_directory(m: (Seq<char>, bool)) -> Seq<u8> {
    encode_field(m.0, 0x200) + be_u32(directory_mode_word(m.1))
}

impl SataCreateDirectoryPacketBody {
    #[verifier::type_invariant]
    closed spec fn inv(&self) -> bool {
        path_fits(self.path@)
    }

    /// A request to create `path`, which must be at most 511 bytes long.
    pub fn new(path: String, set_write_mode: bool) -> (r: Result<Self, PCFSApiError>)
        ensures
            path_fits(path@) ==> (r matches Ok(b) && b@ == (path@, set_write_mode)),
            !path_fits(path@) ==> r == Err::<Self, PCFSApiError>(PCFSApiError::PathTooLong(path)),
    {
        match check_path(path) {
            Ok(p) => Ok(Self { path: p, set_write_mode }),
            Err(e) => Err(e),
        }
    }

    pub fn path(&self) -> (r: &str)
        ensures
            r@ == self@.0,
    {
        self.path.as_str()
    }

    /// Replace the path, unless `new_path` is longer than 511 bytes.
    pub fn set_path(&mut self, new_path: String) -> (r: Result<(), PCFSApiError>)
        ensures
            path_fits(new_path@) ==> r is Ok && final(self)@ == (new_path@, old(self)@.1),
            !path_fits(new_path@) ==> r == Err::<(), PCFSApiError>(PCFSApiError::PathTooLong(new_path))
                && final(self)@ == old(self)@,
    {
        match check_path(new_path) {
            Ok(p) => {
                self.path = p;
                Ok(())
            },
            Err(e) => Err(e),
        }
    }

    pub fn will_set_write_mode(&self) -> (r: bool)
        ensures
            r == self@.1,
    {
        self.set_write_mode
    }

    pub fn set_write_mode(&mut self, will_set: bool)
        ensures
            final(self)@ == (old(self)@.0, will_set),
    {
        proof {
            use_type_invariant(&*self);
        }
        self.set_write_mode = will_set;
    }

    /// The 516 bytes of the request.
    pub fn to_bytes(&self) -> (r: Vec<u8>)
        ensures
            r@ == encode_create_directory(self@),
    {
        proof {
            use_type_invariant(self);
        }
        let mut out: Vec<u8> = Vec::new();
        put_field(&mut out, self.path.as_str(), 0x200);
        put_u32(&mut out, if self.set_write_mode { 0x666u32 } else { 0x444u32 });
        out
    }

    /// Parse a request: exactly 516 bytes, a NUL terminated UTF-8 path in
    /// the first 512, then a permission word; any write bit makes the directory
    /// writable.
    pub fn try_from_bytes(value: &[u8]) -> (r: Result<Self, NetworkParseError>)
        ensures
            exact_len_errors(r, "SataCreateDirectory"@, 0x204, value@),
            value@.len() == 0x204 ==> field_errors(r, value@.subrange(0, 0x200)),
            r matches Ok(b) ==> b@ == (
                c_str_chars(value@.subrange(0, 0x200))->0,
                u32_at(value@, 0x200) & 0x222 != 0,
            ),
    {
        match check_exact_len("SataCreateDirectory", value, 0x204) {
            Err(e) => return Err(e),
            Ok(()) => {},
        }
        let path = match read_field(value, 0, 0x200) {
            Ok(p) => p,
            Err(e) => return Err(e),
        };
        proof {
            lemma_field_chars_fit(value@.subrange(0, 0x200));
        }
        let mode = read_u32(value, 0x200);
        Ok(Self { path, set_write_mode: mode & 0x222 != 0 })
    }
}

/// Parsing the bytes of a create directory request gives the request back,
/// when its path holds no NUL character.
pub proof fn lemma_create_directory_roundtrip(m: (Seq<char>, bool))
    requires
        path_fits(m.0),
        !m.0.contains('\0'),
    ensures
        encode_create_directory(m).len() == 0x204,
        c_str_chars(encode_create_directory(m).subrange(0, 0x200)) == Some(m.0),
        (u32_at(encode_create_directory(m), 0x200) & 0x222 != 0) == m.1,
{
    let s = encode_create_directory(m);
    lemma_field_roundtrip(m.0, 0x200, Seq::empty());
    lemma_be_u32_roundtrip(directory_mode_word(m.1));
    assert(s.subrange(0, 0x200) =~= encode_field(m.0, 0x200));
    assert(s.subrange(0x200, 0x204) =~= be_u32(directory_mode_word(m.1)));
    assert((0x666u32 & 0x222u32 != 0u32) && !(0x444u32 & 0x222u32 != 0u32)) by (bit_vector);
}

} // verus!
