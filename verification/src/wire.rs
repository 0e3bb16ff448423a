//! Big-endian integer encodings, zero padding and NUL terminated strings:
//! the building blocks every packet body and file format of this crate is
//! written with.

use std::str::Utf8Error;
use std::string::FromUtf8Error;
use vstd::prelude::*;
use vstd::utf8::*;

verus! {

broadcast use vstd::seq_lib::group_seq_properties;

/// `std::str::Utf8Error`, carried through as the cause of a decoding error.
#[verifier::external_type_specification]
#[verifier::external_body]
pub struct ExUtf8Error(Utf8Error);

/// `std::string::FromUtf8Error`, carried through as the cause of a decoding
/// error.
#[verifier::external_type_specification]
#[verifier::external_body]
pub struct ExFromUtf8Error(FromUtf8Error);

/// The four bytes of `v`, most significant first.
pub open spec fn be_u32(v: u32) -> Seq<u8> {
    seq![(v >> 24u32) as u8, (v >> 16u32) as u8, (v >> 8u32) as u8, v as u8]
}

/// The value of the first four bytes of `b`, read most significant first.
pub open spec fn be_to_u32(b: Seq<u8>) -> u32 {
    ((b[0] as u32) << 24u32) | ((b[1] as u32) << 16u32) | ((b[2] as u32) << 8u32) | (b[3] as u32)
}

/// The four bytes of `v` in two's complement, most significant first.
pub open spec fn be_i32(v: i32) -> Seq<u8> {
    be_u32(v as u32)
}

/// The two's complement value of the first four bytes of `b`.
pub open spec fn be_to_i32(b: Seq<u8>) -> i32 {
    be_to_u32(b) as i32
}

/// The eight bytes of `v`, most significant first.
pub open spec fn be_u64(v: u64) -> Seq<u8> {
    be_u32((v >> 32u64) as u32) + be_u32(v as u32)
}

/// The value of the first eight bytes of `b`, read most significant first.
pub open spec fn be_to_u64(b: Seq<u8>) -> u64 {
    ((be_to_u32(b) as u64) << 32u64) | (be_to_u32(b.subrange(4, 8)) as u64)
}

/// `n` zero bytes.
pub open spec fn zeros(n: nat) -> Seq<u8> {
    Seq::new(n, |i: int| 0u8)
}

/// The bytes `s[start..end]`, read as a big-endian `u32` at `start`.
pub open spec fn u32_at(s: Seq<u8>, start: int) -> u32 {
    be_to_u32(s.subrange(start, start + 4))
}

/// The bytes `s[start..start + 4]`, read as a big-endian `i32`.
pub open spec fn i32_at(s: Seq<u8>, start: int) -> i32 {
    be_to_i32(s.subrange(start, start + 4))
}

/// The bytes `s[start..start + 8]`, read as a big-endian `u64`.
pub open spec fn u64_at(s: Seq<u8>, start: int) -> u64 {
    be_to_u64(s.subrange(start, start + 8))
}

/// Reading back the four bytes written for `v` gives `v`.
pub proof fn lemma_be_u32_roundtrip(v: u32)
    ensures
        be_u32(v).len() == 4,
        be_to_u32(be_u32(v)) == v,
{
    let b0 = (v >> 24u32) as u8;
    let b1 = (v >> 16u32) as u8;
    let b2 = (v >> 8u32) as u8;
    let b3 = v as u8;
    assert(((b0 as u32) << 24u32) | ((b1 as u32) << 16u32) | ((b2 as u32) << 8u32) | (b3 as u32)
        == v) by (bit_vector)
        requires
            b0 == (v >> 24u32) as u8,
            b1 == (v >> 16u32) as u8,
            b2 == (v >> 8u32) as u8,
            b3 == v as u8,
    ;
}

/// Writing back the value read from four bytes gives those bytes.
pub proof fn lemma_be_to_u32_inverse(b: Seq<u8>)
    requires
        b.len() == 4,
    ensures
        be_u32(be_to_u32(b)) == b,
{
    let b0 = b[0];
    let b1 = b[1];
    let b2 = b[2];
    let b3 = b[3];
    let v = ((b0 as u32) << 24u32) | ((b1 as u32) << 16u32) | ((b2 as u32) << 8u32) | (b3 as u32);
    assert((v >> 24u32) as u8 == b0 && (v >> 16u32) as u8 == b1 && (v >> 8u32) as u8 == b2 && v as u8
        == b3) by (bit_vector)
        requires
            v == ((b0 as u32) << 24u32) | ((b1 as u32) << 16u32) | ((b2 as u32) << 8u32) | (
            b3 as u32),
    ;
    assert(be_u32(v) =~= b);
}

/// Reading back the four bytes written for a signed `v` gives `v`.
pub proof fn lemma_be_i32_roundtrip(v: i32)
    ensures
        be_i32(v).len() == 4,
        be_to_i32(be_i32(v)) == v,
{
    lemma_be_u32_roundtrip(v as u32);
    assert((v as u32) as i32 == v) by (bit_vector);
}

/// Reading back the eight bytes written for `v` gives `v`.
pub proof fn lemma_be_u64_roundtrip(v: u64)
    ensures
        be_u64(v).len() == 8,
        be_to_u64(be_u64(v)) == v,
{
    let hi = (v >> 32u64) as u32;
    let lo = v as u32;
    lemma_be_u32_roundtrip(hi);
    lemma_be_u32_roundtrip(lo);
    let b = be_u64(v);
    assert(b.subrange(0, 4) =~= be_u32(hi));
    assert(b.subrange(4, 8) =~= be_u32(lo));
    assert(be_to_u32(b) == be_to_u32(be_u32(hi)));
    assert(((hi as u64) << 32u64) | (lo as u64) == v) by (bit_vector)
        requires
            hi == (v >> 32u64) as u32,
            lo == v as u32,
    ;
}

/// Big-endian `u32` at `off` in `b`.
pub fn read_u32(b: &[u8], off: usize) -> (r: u32)
    requires
        off + 4 <= b@.len(),
    ensures
        r == u32_at(b@, off as int),
{
    let r = ((b[off] as u32) << 24u32) | ((b[off + 1] as u32) << 16u32) | ((b[off + 2] as u32)
        << 8u32) | (b[off + 3] as u32);
    proof {
        let s = b@.subrange(off as int, off + 4);
        assert(s[0] == b@[off as int] && s[1] == b@[off + 1] && s[2] == b@[off + 2] && s[3] == b@[off
            + 3]);
    }
    r
}

/// Big-endian `i32` at `off` in `b`.
pub fn read_i32(b: &[u8], off: usize) -> (r: i32)
    requires
        off + 4 <= b@.len(),
    ensures
        r == i32_at(b@, off as int),
{
    read_u32(b, off) as i32
}

/// Big-endian `u64` at `off` in `b`.
pub fn read_u64(b: &[u8], off: usize) -> (r: u64)
    requires
        off + 8 <= b@.len(),
    ensures
        r == u64_at(b@, off as int),
{
    let len = b.len();
    assert(len == b@.len());
    let hi = read_u32(b, off);
    let lo = read_u32(b, off + 4);
    proof {
        let s = b@.subrange(off as int, off + 8);
        assert(s.subrange(0, 4) =~= b@.subrange(off as int, off + 4));
        assert(s.subrange(4, 8) =~= b@.subrange(off + 4, off + 8));
    }
    ((hi as u64) << 32u64) | (lo as u64)
}

/// Append the big-endian bytes of `v`.
pub fn put_u32(out: &mut Vec<u8>, v: u32)
    ensures
        final(out)@ == old(out)@ + be_u32(v),
{
    out.push((v >> 24u32) as u8);
    out.push((v >> 16u32) as u8);
    out.push((v >> 8u32) as u8);
    out.push(v as u8);
    assert(final(out)@ =~= old(out)@ + be_u32(v));
}

/// Append the big-endian two's complement bytes of `v`.
pub fn put_i32(out: &mut Vec<u8>, v: i32)
    ensures
        final(out)@ == old(out)@ + be_i32(v),
{
    put_u32(out, v as u32);
}

/// Append the big-endian bytes of `v`.
pub fn put_u64(out: &mut Vec<u8>, v: u64)
    ensures
        final(out)@ == old(out)@ + be_u64(v),
{
    let ghost start = out@;
    put_u32(out, (v >> 32u64) as u32);
    put_u32(out, v as u32);
    assert(out@ =~= start + be_u64(v));
}

/// Append `n` zero bytes.
pub fn put_zeros(out: &mut Vec<u8>, n: usize)
    ensures
        final(out)@ == old(out)@ + zeros(n as nat),
{
    let ghost start = out@;
    let mut i: usize = 0;
    while i < n
        invariant
            i <= n,
            out@ == start + zeros(i as nat),
        decreases n - i,
    {
        out.push(0u8);
        i = i + 1;
        assert(out@ =~= start + zeros(i as nat));
    }
}

/// Append the bytes of `b`.
pub fn put_bytes(out: &mut Vec<u8>, b: &[u8])
    ensures
        final(out)@ == old(out)@ + b@,
{
    let ghost start = out@;
    let mut i: usize = 0;
    while i < b.len()
        invariant
            i <= b@.len(),
            out@ == start + b@.subrange(0, i as int),
        decreases b@.len() - i,
    {
        out.push(b[i]);
        i = i + 1;
        assert(out@ =~= start + b@.subrange(0, i as int));
    }
    assert(b@.subrange(0, b@.len() as int) =~= b@);
}

/// A copy of `b[start..end]`.
pub fn copy_range(b: &[u8], start: usize, end: usize) -> (r: Vec<u8>)
    requires
        start <= end <= b@.len(),
    ensures
        r@ == b@.subrange(start as int, end as int),
{
    let mut out: Vec<u8> = Vec::new();
    put_bytes(&mut out, &b[start..end]);
    assert(out@ =~= b@.subrange(start as int, end as int));
    out
}

/// The index of the first zero byte of `s`, or `s.len()` when there is none.
pub open spec fn nul_index(s: Seq<u8>) -> int
    decreases s.len(),
{
    if s.len() == 0 {
        0
    } else if s[0] == 0 {
        0
    } else {
        1 + nul_index(s.drop_first())
    }
}

/// `nul_index` is the position of the first zero byte, or the length when
/// the sequence holds none.
pub proof fn lemma_nul_index(s: Seq<u8>)
    ensures
        0 <= nul_index(s) <= s.len(),
        forall|j: int| 0 <= j < nul_index(s) ==> s[j] != 0,
        nul_index(s) < s.len() ==> s[nul_index(s)] == 0,
    decreases s.len(),
{
    if s.len() > 0 && s[0] != 0 {
        lemma_nul_index(s.drop_first());
        assert forall|j: int| 0 <= j < nul_index(s) implies s[j] != 0 by {
            if j > 0 {
                assert(s[j] == s.drop_first()[j - 1]);
            }
        }
        if nul_index(s) < s.len() {
            assert(s[nul_index(s)] == s.drop_first()[nul_index(s) - 1]);
        }
    }
}

/// The first-zero characterisation determines `nul_index`.
pub proof fn lemma_nul_index_unique(s: Seq<u8>, k: int)
    requires
        0 <= k <= s.len(),
        forall|j: int| 0 <= j < k ==> s[j] != 0,
        k < s.len() ==> s[k] == 0,
    ensures
        nul_index(s) == k,
{
    lemma_nul_index(s);
    if nul_index(s) < k {
        assert(s[nul_index(s)] == 0);
    }
    if k < nul_index(s) {
        assert(s[k] != 0);
    }
}

/// Why reading a NUL terminated string failed.
pub enum CStrError {
    /// No NUL byte inside the field.
    NoNul,
    /// The bytes before the NUL are not UTF-8.
    NotUtf8(Utf8Error),
}

/// What reading a NUL terminated UTF-8 string from the field `s` gives:
/// the characters before the first NUL, when there is a NUL and those bytes
/// are UTF-8.
pub open spec fn c_str_chars(s: Seq<u8>) -> Option<Seq<char>> {
    let n = nul_index(s);
    if n == s.len() {
        None
    } else if !valid_utf8(s.subrange(0, n)) {
        None
    } else {
        Some(decode_utf8(s.subrange(0, n)))
    }
}

/// The field `s` has a NUL byte.
pub open spec fn has_nul(s: Seq<u8>) -> bool {
    nul_index(s) < s.len()
}

/// Calls `std::str::from_utf8`, which accepts exactly the slices that are
/// UTF-8 and then gives back the string those bytes encode.
#[verifier::external_body]
fn str_from_utf8(v: &[u8]) -> (r: Result<&str, Utf8Error>)
    ensures
        r is Ok <==> valid_utf8(v@),
        r matches Ok(s) ==> s@ == decode_utf8(v@),
{
    std::str::from_utf8(v)
}

/// Calls `String::from_utf8`, which accepts exactly the byte vectors that
/// are UTF-8 and then gives back the string those bytes encode.
#[verifier::external_body]
pub(crate) fn string_from_utf8(v: Vec<u8>) -> (r: Result<String, FromUtf8Error>)
    ensures
        r is Ok <==> valid_utf8(v@),
        r matches Ok(s) ==> s@ == decode_utf8(v@),
{
    String::from_utf8(v)
}

/// The position of the first zero byte of `b[start..end]`, counted from
/// `start`, or nothing when there is none.
pub fn find_nul(b: &[u8], start: usize, end: usize) -> (r: Option<usize>)
    requires
        start <= end <= b@.len(),
    ensures
        r is None <==> !has_nul(b@.subrange(start as int, end as int)),
        r matches Some(n) ==> n == nul_index(b@.subrange(start as int, end as int)),
{
    let ghost field = b@.subrange(start as int, end as int);
    let mut i = start;
    while i < end && b[i] != 0
        invariant
            start <= i <= end <= b@.len(),
            field == b@.subrange(start as int, end as int),
            forall|j: int| start <= j < i ==> b@[j] != 0,
        decreases end - i,
    {
        i = i + 1;
    }
    proof {
        lemma_nul_index_unique(field, i - start);
    }
    if i == end {
        None
    } else {
        Some(i - start)
    }
}

/// The string encoded by `b[start..end]`, if those bytes are UTF-8.
pub fn utf8_range(b: &[u8], start: usize, end: usize) -> (r: Result<String, Utf8Error>)
    requires
        start <= end <= b@.len(),
    ensures
        r is Ok <==> valid_utf8(b@.subrange(start as int, end as int)),
        r matches Ok(s) ==> s@ == decode_utf8(b@.subrange(start as int, end as int)),
{
    match str_from_utf8(&b[start..end]) {
        Ok(s) => Ok(s.to_owned()),
        Err(e) => Err(e),
    }
}

/// Read the NUL terminated UTF-8 string that fills `b[start..end]`.
pub fn read_c_str(b: &[u8], start: usize, end: usize) -> (r: Result<String, CStrError>)
    requires
        start <= end <= b@.len(),
    ensures
        r is Ok <==> c_str_chars(b@.subrange(start as int, end as int)) is Some,
        r matches Ok(s) ==> Some(s@) == c_str_chars(b@.subrange(start as int, end as int)),
        r matches Err(CStrError::NoNul) <==> !has_nul(b@.subrange(start as int, end as int)),
{
    let ghost field = b@.subrange(start as int, end as int);
    proof {
        lemma_nul_index(field);
    }
    match find_nul(b, start, end) {
        None => Err(CStrError::NoNul),
        Some(n) => {
            assert(b@.subrange(start as int, start + n) =~= field.subrange(0, n as int));
            match utf8_range(b, start, start + n) {
                Ok(s) => Ok(s),
                Err(e) => Err(CStrError::NotUtf8(e)),
            }
        },
    }
}

/// The UTF-8 bytes of a string.
pub open spec fn utf8_bytes(s: Seq<char>) -> Seq<u8> {
    encode_utf8(s)
}

/// The bytes of `s`.
pub fn str_bytes(s: &str) -> (r: &[u8])
    ensures
        r@ == utf8_bytes(s@),
{
    s.as_bytes()
}

/// The length in bytes of the UTF-8 encoding of `s`.
pub fn str_byte_len(s: &String) -> (r: usize)
    ensures
        r == utf8_bytes(s@).len(),
{
    str_bytes(s.as_str()).len()
}

/// Writing a string with no NUL into a field that leaves room for its
/// terminator reads it back.
pub proof fn lemma_c_str_roundtrip(chars: Seq<char>, pad: nat, rest: Seq<u8>)
    requires
        pad > 0,
        !utf8_bytes(chars).contains(0u8),
    ensures
        c_str_chars(utf8_bytes(chars) + zeros(pad) + rest) == Some(chars),
{
    let enc = utf8_bytes(chars);
    let field = enc + zeros(pad) + rest;
    assert forall|j: int| 0 <= j < enc.len() implies field[j] != 0 by {
        assert(field[j] == enc[j]);
        if enc[j] == 0 {
            assert(enc.contains(0u8));
        }
    }
    assert(field[enc.len() as int] == 0);
    lemma_nul_index_unique(field, enc.len() as int);
    assert(field.subrange(0, enc.len() as int) =~= enc);
    encode_utf8_valid_utf8(chars);
    encode_utf8_decode_utf8(chars);
}

} // verus!
