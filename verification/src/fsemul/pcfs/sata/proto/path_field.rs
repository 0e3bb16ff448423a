//! Fixed width, NUL terminated, UTF-8 string fields, as paths and file modes
//! are sent in.

use crate::errors::NetworkParseError;
use crate::fsemul::pcfs::errors::PCFSApiError;
use crate::wire::{
    c_str_chars, has_nul, lemma_nul_index, nul_index, put_bytes, put_zeros, read_c_str, str_byte_len,
    str_bytes, utf8_bytes, zeros, CStrError,
};
use vstd::prelude::*;
use vstd::utf8::*;

verus! {

/// The longest path, in bytes, that fits a 512 byte field with its NUL.
pub const MAX_PATH_BYTES: usize = 511;

/// A path short enough to be sent.
pub open spec fn path_fits(path: Seq<char>) -> bool {
    utf8_bytes(path).len() <= 511
}

/// Accept `path` when its UTF-8 encoding is at most 511 bytes long.
pub fn check_path(path: String) -> (r: Result<String, PCFSApiError>)
    ensures
        path_fits(path@) ==> r == Ok::<String, PCFSApiError>(path),
        !path_fits(path@) ==> r == Err::<String, PCFSApiError>(PCFSApiError::PathTooLong(path)),
{
    if str_byte_len(&path) > MAX_PATH_BYTES {
        Err(PCFSApiError::PathTooLong(path))
    } else {
        Ok(path)
    }
}

/// The field of `width` bytes holding `s` and zero padding.
pub open spec fn encode_field(s: Seq<char>, width: nat) -> Seq<u8> {
    utf8_bytes(s) + zeros((width - utf8_bytes(s).len()) as nat)
}

/// Append the field of `width` bytes holding `s` and zero padding.
pub fn put_field(out: &mut Vec<u8>, s: &str, width: usize)
    requires
        utf8_bytes(s@).len() <= width,
    ensures
        final(out)@ == old(out)@ + encode_field(s@, width as nat),
{
    let ghost start = out@;
    let b = str_bytes(s);
    put_bytes(out, b);
    put_zeros(out, width - b.len());
    assert(out@ =~= start + encode_field(s@, width as nat));
}

/// The outcome, and the errors, of a parse that reads the string field
/// `field` and fails only when that field does not read.
pub open spec fn field_errors<T>(r: Result<T, NetworkParseError>, field: Seq<u8>) -> bool {
    &&& r is Ok <==> c_str_chars(field) is Some
    &&& !has_nul(field) ==> (r matches Err(NetworkParseError::BadCString))
    &&& has_nul(field) && c_str_chars(field) is None ==> (r matches Err(
        NetworkParseError::Utf8ExpectedSlice(_),
    ))
}

/// What reading a NUL terminated string field gives.
pub open spec fn field_parsed<T: View<V = Seq<char>>>(r: Result<T, NetworkParseError>, field: Seq<u8>) -> bool {
    &&& r is Ok <==> c_str_chars(field) is Some
    &&& r matches Ok(s) ==> Some(s@) == c_str_chars(field)
    &&& !has_nul(field) ==> (r matches Err(NetworkParseError::BadCString))
    &&& has_nul(field) && c_str_chars(field) is None ==> (r matches Err(
        NetworkParseError::Utf8ExpectedSlice(_),
    ))
}

/// Read the NUL terminated UTF-8 string that fills `b[start..end]`.
pub fn read_field(b: &[u8], start: usize, end: usize) -> (r: Result<String, NetworkParseError>)
    requires
        start <= end <= b@.len(),
    ensures
        field_parsed(r, b@.subrange(start as int, end as int)),
{
    match read_c_str(b, start, end) {
        Ok(s) => Ok(s),
        Err(CStrError::NoNul) => Err(NetworkParseError::BadCString),
        Err(CStrError::NotUtf8(e)) => Err(NetworkParseError::Utf8ExpectedSlice(e)),
    }
}

/// A string read from a field is shorter, in bytes, than the field.
pub proof fn lemma_field_chars_fit(field: Seq<u8>)
    requires
        c_str_chars(field) is Some,
    ensures
        utf8_bytes(c_str_chars(field)->0).len() < field.len(),
{
    lemma_nul_index(field);
    let n = nul_index(field);
    decode_utf8_encode_utf8(field.subrange(0, n));
}

/// A character that is not NUL encodes to bytes that are not zero.
proof fn lemma_scalar_no_zero(c: char)
    requires
        c != '\0',
    ensures
        !encode_scalar(c as u32).contains(0u8),
{
    let v = c as u32;
    char_is_scalar(c);
    assert(v != 0);
    let e = encode_scalar(v);
    if has_width_1_encoding(v) {
        assert(leading_byte_width_1(v) != 0) by (bit_vector)
            requires
                v != 0 && v <= 0x7F,
        ;
        assert(e[0] != 0);
    } else {
        assert(forall|x: u8| (0xC0u8 | x) != 0u8 && (0xE0u8 | x) != 0u8 && (0xF0u8 | x) != 0u8 && (
        0x80u8 | x) != 0u8) by (bit_vector);
        assert forall|i: int| 0 <= i < e.len() implies e[i] != 0 by {}
    }
}

/// A string without NUL characters encodes to bytes without zero bytes.
pub proof fn lemma_no_nul_encoding(chars: Seq<char>)
    requires
        !chars.contains('\0'),
    ensures
        !utf8_bytes(chars).contains(0u8),
    decreases chars.len(),
{
    if chars.len() > 0 {
        assert(chars[0] != '\0');
        lemma_scalar_no_zero(chars[0]);
        assert(!chars.drop_first().contains('\0')) by {
            if chars.drop_first().contains('\0') {
                let k = choose|k: int|
                    0 <= k < chars.drop_first().len() && chars.drop_first()[k] == '\0';
                assert(chars[k + 1] == '\0');
            }
        }
        lemma_no_nul_encoding(chars.drop_first());
        let a = encode_scalar(chars[0] as u32);
        let b = utf8_bytes(chars.drop_first());
        assert(utf8_bytes(chars) == a + b);
        if (a + b).contains(0u8) {
            let k = choose|k: int| 0 <= k < (a + b).len() && (a + b)[k] == 0u8;
            if k < a.len() {
                assert(a[k] == 0u8);
            } else {
                assert(b[k - a.len()] == 0u8);
            }
        }
    }
}

/// A field written for a string with no NUL character, with room for the
/// terminator, reads back as that string.
pub proof fn lemma_field_roundtrip(s: Seq<char>, width: nat, rest: Seq<u8>)
    requires
        utf8_bytes(s).len() < width,
        !s.contains('\0'),
    ensures
        encode_field(s, width).len() == width,
        c_str_chars(encode_field(s, width) + rest) == Some(s),
        c_str_chars(encode_field(s, width)) == Some(s),
{
    lemma_no_nul_encoding(s);
    let pad = (width - utf8_bytes(s).len()) as nat;
    crate::wire::lemma_c_str_roundtrip(s, pad, rest);
    crate::wire::lemma_c_str_roundtrip(s, pad, Seq::empty());
    assert(encode_field(s, width) + Seq::<u8>::empty() =~= encode_field(s, width));
}

} // verus!
