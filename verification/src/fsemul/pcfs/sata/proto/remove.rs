//! The `Remove` packet: remove a file or folder by path.

use super::path_field::{
    check_path, encode_field, field_parsed, lemma_field_chars_fit, lemma_field_roundtrip, path_fits,
    put_field, read_field,
};
use crate::errors::{check_exact_len, exact_len_errors, NetworkParseError};
use crate::fsemul::pcfs::errors::PCFSApiError;
use crate::wire::c_str_chars;
use vstd::prelude::*;

verus! {

/// A request to remove a path.
#[derive(Debug, PartialEq, Eq)]
pub struct SataRemovePacketBody {
    path: String,
}

impl Clone for SataRemovePacketBody {
    fn clone(&self) -> (r: Self)
        ensures
            r@ == self@,
    {
        proof {
            use_type_invariant(self);
        }
        Self { path: self.path.clone() }
    }
}

impl View for SataRemovePacketBody {
    type V = Seq<char>;

    closed spec fn view(&self) -> Seq<char> {
        self.path@
    }
}

/// The 512 bytes of a remove request: the path and zero padding.
pub open spec fn encode_remove(path: Seq<char>) -> Seq<u8> {
    encode_field(path, 0x200)
}

impl SataRemovePacketBody {
    /// The path of every body fits a request.
    #[verifier::type_invariant]
    closed spec fn inv(&self) -> bool {
        path_fits(self.path@)
    }

    /// A request to remove `path`, which must be at most 511 bytes long.
    pub fn new(path: String) -> (r: Result<Self, PCFSApiError>)
        ensures
            path_fits(path@) ==> (r matches Ok(b) && b@ == path@),
            !path_fits(path@) ==> r == Err::<Self, PCFSApiError>(PCFSApiError::PathTooLong(path)),
    {
        match check_path(path) {
            Ok(p) => Ok(Self { path: p }),
            Err(e) => Err(e),
        }
    }

    pub fn path(&self) -> (r: &str)
        ensures
            r@ == self@,
    {
        self.path.as_str()
    }

    /// Replace the path, unless `new_path` is longer than 511 bytes.
    pub fn set_path(&mut self, new_path: String) -> (r: Result<(), PCFSApiError>)
        ensures
            path_fits(new_path@) ==> r is Ok && final(self)@ == new_path@,
            !path_fits(new_path@) ==> r == Err::<(), PCFSApiError>(PCFSApiError::PathTooLong(new_path))
                && final(self)@ == old(self)@,
    {
        match check_path(new_path) {
            Ok(p) => {
                self.path = p;
                Ok(())
            },
            Err(e) => Err(e),
        }
    }

    /// The 512 bytes of the request.
    pub fn to_bytes(&self) -> (r: Vec<u8>)
        ensures
            r@ == encode_remove(self@),
    {
        proof {
            use_type_invariant(self);
        }
        let mut out: Vec<u8> = Vec::new();
        put_field(&mut out, self.path.as_str(), 0x200);
        assert(out@ =~= encode_remove(self@));
        out
    }

    /// Parse a request: exactly 512 bytes holding a NUL terminated UTF-8
    /// path.
    pub fn try_from_bytes(value: &[u8]) -> (r: Result<Self, NetworkParseError>)
        ensures
            exact_len_errors(r, "SataRemove"@, 0x200, value@),
            value@.len() == 0x200 ==> field_parsed(r, value@),
    {
        match check_exact_len("SataRemove", value, 0x200) {
            Err(e) => return Err(e),
            Ok(()) => {},
        }
        match read_field(value, 0, 0x200) {
            Ok(p) => {
                proof {
                    assert(value@.subrange(0, 0x200) =~= value@);
                    lemma_field_chars_fit(value@);
                }
                Ok(Self { path: p })
            },
            Err(e) => {
                assert(value@.subrange(0, 0x200) =~= value@);
                Err(e)
            },
        }
    }
}

/// Parsing the bytes of a remove request gives its path back, when the path
/// holds no NUL character.
pub proof fn lemma_remove_roundtrip(path: Seq<char>)
    requires
        path_fits(path),
        !path.contains('\0'),
    ensures
        encode_remove(path).len() == 0x200,
        c_str_chars(encode_remove(path)) == Some(path),
{
    lemma_field_roundtrip(path, 0x200, Seq::empty());
}

} // verus!
