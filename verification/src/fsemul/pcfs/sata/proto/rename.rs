//! The `Rename` packet: move a file or folder from one path to another.

use super::path_field::{
    check_path, encode_field, lemma_field_chars_fit, lemma_field_roundtrip, path_fits, put_field,
};
use crate::errors::{check_exact_len, exact_len_errors, NetworkParseError};
use crate::fsemul::pcfs::errors::PCFSApiError;
use crate::wire::{c_str_chars, find_nul, has_nul, lemma_nul_index, utf8_range};
use vstd::prelude::*;

verus! {

/// A request to rename a path.
#[derive(Debug, PartialEq, Eq)]
pub struct SataRenamePacketBody {
    source_path: String,
    dest_path: String,
}

impl View for SataRenamePacketBody {
    /// (source path, destination path)
    type V = (Seq<char>, Seq<char>);

    closed spec fn view(&self) -> (Seq<char>, Seq<char>) {
        (self.source_path@, self.dest_path@)
    }
}

impl Clone for SataRenamePacketBody {
    fn clone(&self) -> (r: Self)
        ensures
            r@ == self@,
    {
        proof {
            use_type_invariant(self);
        }
        Self { source_path: self.source_path.clone(), dest_path: self.dest_path.clone() }
    }
}

/// The 1024 bytes of a rename request: two 512 byte path fields.
pub open spec fn encode_rename(m: (Seq<char>, Seq<char>)) -> Seq<u8> {
    encode_field(m.0, 0x200) + encode_field(m.1, 0x200)
}

impl SataRenamePacketBody {
    #[verifier::type_invariant]
    closed spec fn inv(&self) -> bool {
        path_fits(self.source_path@) && path_fits(self.dest_path@)
    }

    /// A request to rename `source_path` to `dest_path`; each must be at most
    /// 511 bytes long, the source being checked first.
    pub fn new(source_path: String, dest_path: String) -> (r: Result<Self, PCFSApiError>)
        ensures
            !path_fits(source_path@) ==> r == Err::<Self, PCFSApiError>(
                PCFSApiError::PathTooLong(source_path),
            ),
            path_fits(source_path@) && !path_fits(dest_path@) ==> r == Err::<Self, PCFSApiError>(
                PCFSApiError::PathTooLong(dest_path),
            ),
            path_fits(source_path@) && path_fits(dest_path@) ==> (r matches Ok(b) && b@ == (
                source_path@,
                dest_path@,
            )),
    {
        let source_path = match check_path(source_path) {
            Ok(p) => p,
            Err(e) => return Err(e),
        };
        let dest_path = match check_path(dest_path) {
            Ok(p) => p,
            Err(e) => return Err(e),
        };
        Ok(Self { source_path, dest_path })
    }

    pub fn source_path(&self) -> (r: &str)
        ensures
            r@ == self@.0,
    {
        self.source_path.as_str()
    }

    pub fn dest_path(&self) -> (r: &str)
        ensures
            r@ == self@.1,
    {
        self.dest_path.as_str()
    }

    /// Replace the source path, unless `new_path` is longer than 511 bytes.
    pub fn set_source_path(&mut self, new_path: String) -> (r: Result<(), PCFSApiError>)
        ensures
            path_fits(new_path@) ==> r is Ok && final(self)@ == (new_path@, old(self)@.1),
            !path_fits(new_path@) ==> r == Err::<(), PCFSApiError>(PCFSApiError::PathTooLong(new_path))
                && final(self)@ == old(self)@,
    {
        proof {
            use_type_invariant(&*self);
        }
        match check_path(new_path) {
            Ok(p) => {
                self.source_path = p;
                Ok(())
            },
            Err(e) => Err(e),
        }
    }

    /// Replace the destination path, unless `new_path` is longer than 511
    /// bytes.
    pub fn set_dest_path(&mut self, new_path: String) -> (r: Result<(), PCFSApiError>)
        ensures
            path_fits(new_path@) ==> r is Ok && final(self)@ == (old(self)@.0, new_path@),
            !path_fits(new_path@) ==> r == Err::<(), PCFSApiError>(PCFSApiError::PathTooLong(new_path))
                && final(self)@ == old(self)@,
    {
        proof {
            use_type_invariant(&*self);
        }
        match check_path(new_path) {
            Ok(p) => {
                self.dest_path = p;
                Ok(())
            },
            Err(e) => Err(e),
        }
    }

    /// The 1024 bytes of the request.
    pub fn to_bytes(&self) -> (r: Vec<u8>)
        ensures
            r@ == encode_rename(self@),
    {
        proof {
            use_type_invariant(self);
        }
        let mut out: Vec<u8> = Vec::new();
        put_field(&mut out, self.source_path.as_str(), 0x200);
        put_field(&mut out, self.dest_path.as_str(), 0x200);
        out
    }

    /// Parse a request: exactly 1024 bytes, two NUL terminated UTF-8 paths
    /// of 512 bytes each. A missing NUL in either field is reported before
    /// bytes that are not UTF-8.
    pub fn try_from_bytes(value: &[u8]) -> (r: Result<Self, NetworkParseError>)
        ensures
            exact_len_errors(r, "SataRenamePacketBody"@, 0x400, value@),
            value@.len() == 0x400 ==> {
                let f1 = value@.subrange(0, 0x200);
                let f2 = value@.subrange(0x200, 0x400);
                &&& !has_nul(f1) || !has_nul(f2) ==> (r matches Err(NetworkParseError::BadCString))
                &&& has_nul(f1) && has_nul(f2) && (c_str_chars(f1) is None || c_str_chars(f2) is None)
                    ==> (r matches Err(NetworkParseError::Utf8ExpectedSlice(_)))
                &&& c_str_chars(f1) is Some && c_str_chars(f2) is Some ==> (r matches Ok(b) && b@ == (
                    c_str_chars(f1)->0,
                    c_str_chars(f2)->0,
                ))
            },
    {
        match check_exact_len("SataRenamePacketBody", value, 0x400) {
            Err(e) => return Err(e),
            Ok(()) => {},
        }
        let ghost f1 = value@.subrange(0, 0x200);
        let ghost f2 = value@.subrange(0x200, 0x400);
        proof {
            lemma_nul_index(f1);
            lemma_nul_index(f2);
        }
        let n1 = match find_nul(value, 0, 0x200) {
            Some(n) => n,
            None => return Err(NetworkParseError::BadCString),
        };
        let n2 = match find_nul(value, 0x200, 0x400) {
            Some(n) => n,
            None => return Err(NetworkParseError::BadCString),
        };
        assert(value@.subrange(0, n1 as int) =~= f1.subrange(0, n1 as int));
        assert(value@.subrange(0x200, 0x200 + n2) =~= f2.subrange(0, n2 as int));
        let source_path = match utf8_range(value, 0, n1) {
            Ok(s) => s,
            Err(e) => return Err(NetworkParseError::Utf8ExpectedSlice(e)),
        };
        let dest_path = match utf8_range(value, 0x200, 0x200 + n2) {
            Ok(s) => s,
            Err(e) => return Err(NetworkParseError::Utf8ExpectedSlice(e)),
        };
        proof {
            lemma_field_chars_fit(f1);
            lemma_field_chars_fit(f2);
        }
        Ok(Self { source_path, dest_path })
    }
}

/// Parsing the bytes of a rename request gives both paths back, when
/// neither holds a NUL character.
pub proof fn lemma_rename_roundtrip(m: (Seq<char>, Seq<char>))
    requires
        path_fits(m.0),
        path_fits(m.1),
        !m.0.contains('\0'),
        !m.1.contains('\0'),
    ensures
        encode_rename(m).len() == 0x400,
        c_str_chars(encode_rename(m).subrange(0, 0x200)) == Some(m.0),
        c_str_chars(encode_rename(m).subrange(0x200, 0x400)) == Some(m.1),
{
    let s = encode_rename(m);
    lemma_field_roundtrip(m.0, 0x200, Seq::empty());
    lemma_field_roundtrip(m.1, 0x200, Seq::empty());
    assert(s.subrange(0, 0x200) =~= encode_field(m.0, 0x200));
    assert(s.subrange(0x200, 0x400) =~= encode_field(m.1, 0x200));
}

} // verus!
