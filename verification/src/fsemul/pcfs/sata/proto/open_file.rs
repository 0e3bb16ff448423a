//! The `OpenFile` packet: open a file with a C style mode string.

use super::path_field::{
    check_path, encode_field, lemma_field_chars_fit, lemma_field_roundtrip, path_fits, put_field,
};
use crate::errors::{check_exact_len, exact_len_errors, from_sata_error, NetworkParseError};
use crate::fsemul::errors::FSEmulProtocolError;
use crate::fsemul::pcfs::errors::{PCFSApiError, SataProtocolError};
use crate::wire::{
    c_str_chars, find_nul, has_nul, lemma_nul_index, put_bytes, put_zeros, str_bytes, utf8_bytes,
    utf8_range, zeros,
};
use vstd::prelude::*;
use vstd::utf8::*;

verus! {

broadcast use vstd::string::axiom_spec_iter;

/// A mode string of the form `(r|w|a)(b|+){0,2}`: it starts with `r`, `w`
/// or `a`, so it is never empty.
pub open spec fn mode_ok(m: Seq<char>) -> bool {
    &&& 0 < m.len() <= 3
    &&& m[0] == 'r' || m[0] == 'w' || m[0] == 'a'
    &&& forall|i: int| 1 <= i < m.len() ==> (m[i] == 'b' || m[i] == '+')
}

/// Check a mode string character by character: the first must be `r`, `w`
/// or `a`, at most two more may follow, each `b` or `+`; an empty mode has
/// no first character and is refused.
pub fn check_mode(mode: &str) -> (r: bool)
    ensures
        r == mode_ok(mode@),
{
    let mut idx: usize = 0;
    for car in it: mode.chars()
        invariant
            idx == it.index(),
            it.seq() == mode@,
            idx <= 3,
            idx > 0 ==> (mode@[0] == 'r' || mode@[0] == 'w' || mode@[0] == 'a'),
            forall|i: int| 1 <= i < idx ==> (mode@[i] == 'b' || mode@[i] == '+'),
    {
        if idx == 0 && !(car == 'r' || car == 'w' || car == 'a') {
            return false;
        }
        if idx > 2 {
            return false;
        }
        if idx != 0 && !(car == 'b' || car == '+') {
            return false;
        }
        idx = idx + 1;
    }
    idx > 0
}

/// A valid mode is ASCII, so it is as many bytes long as characters.
pub proof fn lemma_mode_len(m: Seq<char>)
    requires
        forall|i: int| 0 <= i < m.len() ==> (m[i] == 'r' || m[i] == 'w' || m[i] == 'a' || m[i]
            == 'b' || m[i] == '+'),
    ensures
        utf8_bytes(m).len() == m.len(),
    decreases m.len(),
{
    if m.len() > 0 {
        lemma_mode_len(m.drop_first());
    }
}

/// A request to open a file.
#[derive(Debug, PartialEq, Eq)]
pub struct SataOpenFilePacketBody {
    mode_string: String,
    path: String,
}

impl View for SataOpenFilePacketBody {
    /// (mode, path)
    type V = (Seq<char>, Seq<char>);

    closed spec fn view(&self) -> (Seq<char>, Seq<char>) {
        (self.mode_string@, self.path@)
    }
}

impl Clone for SataOpenFilePacketBody {
    fn clone(&self) -> (r: Self)
        ensures
            r@ == self@,
    {
        proof {
            use_type_invariant(self);
        }
        Self { mode_string: self.mode_string.clone(), path: self.path.clone() }
    }
}

/// The 528 bytes of an open file request: the mode in a 16 byte field,
/// then the path in a 512 byte field, each padded with zeros.
pub open spec fn encode_open_file(m: (Seq<char>, Seq<char>)) -> Seq<u8> {
    encode_field(m.0, 0x10) + encode_field(m.1, 0x200)
}

/// The error for a bad mode string.
pub open spec fn bad_mode(mode: Seq<char>, e: PCFSApiError) -> bool {
    e matches PCFSApiError::BadModeString(m) && m@ == mode
}

impl SataOpenFilePacketBody {
    #[verifier::type_invariant]
    closed spec fn inv(&self) -> bool {
        path_fits(self.path@) && mode_ok(self.mode_string@)
    }

    /// A request to open `path` with `mode_string`; the path is checked
    /// first.
    pub fn new(path: String, mode_string: String) -> (r: Result<Self, PCFSApiError>)
        ensures
            !path_fits(path@) ==> r == Err::<Self, PCFSApiError>(PCFSApiError::PathTooLong(path)),
            path_fits(path@) && !mode_ok(mode_string@) ==> r == Err::<Self, PCFSApiError>(
                PCFSApiError::BadModeString(mode_string),
            ),
            path_fits(path@) && mode_ok(mode_string@) ==> (r matches Ok(b) && b@ == (
                mode_string@,
                path@,
            )),
    {
        let path = match check_path(path) {
            Ok(p) => p,
            Err(e) => return Err(e),
        };
        if !check_mode(mode_string.as_str()) {
            return Err(PCFSApiError::BadModeString(mode_string));
        }
        Ok(Self { mode_string, path })
    }

    pub fn mode(&self) -> (r: &str)
        ensures
            r@ == self@.0,
    {
        self.mode_string.as_str()
    }

    /// Replace the mode, unless it is not a valid mode string.
    pub fn set_mode(&mut self, new_mode: String) -> (r: Result<(), PCFSApiError>)
        ensures
            mode_ok(new_mode@) ==> r is Ok && final(self)@ == (new_mode@, old(self)@.1),
            !mode_ok(new_mode@) ==> r == Err::<(), PCFSApiError>(PCFSApiError::BadModeString(new_mode))
                && final(self)@ == old(self)@,
    {
        proof {
            use_type_invariant(&*self);
        }
        if !check_mode(new_mode.as_str()) {
            return Err(PCFSApiError::BadModeString(new_mode));
        }
        self.mode_string = new_mode;
        Ok(())
    }

    pub fn path(&self) -> (r: &str)
        ensures
            r@ == self@.1,
    {
        self.path.as_str()
    }

    /// Replace the path, unless `new_path` is longer than 511 bytes.
    pub fn set_path(&mut self, new_path: String) -> (r: Result<(), PCFSApiError>)
        ensures
            path_fits(new_path@) ==> r is Ok && final(self)@ == (old(self)@.0, new_path@),
            !path_fits(new_path@) ==> r == Err::<(), PCFSApiError>(PCFSApiError::PathTooLong(new_path))
                && final(self)@ == old(self)@,
    {
        proof {
            use_type_invariant(&*self);
        }
        match check_path(new_path) {
            Ok(p) => {
                self.path = p;
                Ok(())
            },
            Err(e) => Err(e),
        }
    }

    /// The 528 bytes of the request: the mode padded to its 16 byte field,
    /// then the path padded to its 512 byte field.
    pub fn to_bytes(&self) -> (r: Vec<u8>)
        ensures
            r@ == encode_open_file(self@),
    {
        proof {
            use_type_invariant(self);
            lemma_mode_len(self.mode_string@);
        }
        let mut out: Vec<u8> = Vec::new();
        put_field(&mut out, self.mode_string.as_str(), 0x10);
        put_field(&mut out, self.path.as_str(), 0x200);
        assert(out@ =~= encode_open_file(self@));
        out
    }

    /// Parse a request: exactly 528 bytes, a NUL terminated mode in the
    /// first 16 and a NUL terminated path in the other 512. Missing NULs are
    /// reported first, then a mode that is not UTF-8 or not a valid mode,
    /// then a path that is not UTF-8.
    pub fn try_from_bytes(value: &[u8]) -> (r: Result<Self, NetworkParseError>)
        ensures
            exact_len_errors(r, "SataOpenFile"@, 0x210, value@),
            value@.len() == 0x210 ==> {
                let f1 = value@.subrange(0, 0x10);
                let f2 = value@.subrange(0x10, 0x210);
                &&& !has_nul(f1) || !has_nul(f2) ==> (r matches Err(NetworkParseError::BadCString))
                &&& has_nul(f1) && has_nul(f2) && c_str_chars(f1) is None ==> (r matches Err(
                    NetworkParseError::Utf8ExpectedSlice(_),
                ))
                &&& has_nul(f2) && c_str_chars(f1) is Some && !mode_ok(c_str_chars(f1)->0) ==> (r
                    matches Err(
                    NetworkParseError::FSEmul(
                        FSEmulProtocolError::PCFSSata(SataProtocolError::BadModeString(m)),
                    ),
                ) && m@ == c_str_chars(f1)->0)
                &&& has_nul(f2) && c_str_chars(f1) is Some && mode_ok(c_str_chars(f1)->0)
                    && c_str_chars(f2) is None ==> (r matches Err(
                    NetworkParseError::Utf8ExpectedSlice(_),
                ))
                &&& c_str_chars(f1) is Some && mode_ok(c_str_chars(f1)->0) && c_str_chars(f2) is Some
                    ==> (r matches Ok(b) && b@ == (c_str_chars(f1)->0, c_str_chars(f2)->0))
            },
    {
        match check_exact_len("SataOpenFile", value, 0x210) {
            Err(e) => return Err(e),
            Ok(()) => {},
        }
        let ghost f1 = value@.subrange(0, 0x10);
        let ghost f2 = value@.subrange(0x10, 0x210);
        proof {
            lemma_nul_index(f1);
            lemma_nul_index(f2);
        }
        let n1 = match find_nul(value, 0, 0x10) {
            Some(n) => n,
            None => return Err(NetworkParseError::BadCString),
        };
        let n2 = match find_nul(value, 0x10, 0x210) {
            Some(n) => n,
            None => return Err(NetworkParseError::BadCString),
        };
        assert(value@.subrange(0, n1 as int) =~= f1.subrange(0, n1 as int));
        assert(value@.subrange(0x10, 0x10 + n2) =~= f2.subrange(0, n2 as int));
        let mode_string = match utf8_range(value, 0, n1) {
            Ok(s) => s,
            Err(e) => return Err(NetworkParseError::Utf8ExpectedSlice(e)),
        };
        if !check_mode(mode_string.as_str()) {
            return Err(from_sata_error(SataProtocolError::BadModeString(mode_string)));
        }
        let path = match utf8_range(value, 0x10, 0x10 + n2) {
            Ok(s) => s,
            Err(e) => return Err(NetworkParseError::Utf8ExpectedSlice(e)),
        };
        proof {
            lemma_field_chars_fit(f2);
        }
        Ok(Self { mode_string, path })
    }
}

/// Parsing the bytes of an open file request gives the request back, when
/// its path holds no NUL character.
pub proof fn lemma_open_file_roundtrip(m: (Seq<char>, Seq<char>))
    requires
        mode_ok(m.0),
        path_fits(m.1),
        !m.1.contains('\0'),
    ensures
        encode_open_file(m).len() == 0x210,
        c_str_chars(encode_open_file(m).subrange(0, 0x10)) == Some(m.0),
        c_str_chars(encode_open_file(m).subrange(0x10, 0x210)) == Some(m.1),
{
    lemma_mode_len(m.0);
    assert(!m.0.contains('\0')) by {
        if m.0.contains('\0') {
            let k = choose|k: int| 0 <= k < m.0.len() && m.0[k] == '\0';
            assert(m.0[k] == '\0');
        }
    }
    lemma_field_roundtrip(m.0, 0x10, Seq::empty());
    lemma_field_roundtrip(m.1, 0x200, Seq::empty());
    let s = encode_open_file(m);
    assert(s.subrange(0, 0x10) =~= encode_field(m.0, 0x10));
    assert(s.subrange(0x10, 0x210) =~= encode_field(m.1, 0x200));
}
} // verus!
