//! What holds of disk layout files across their operations: the text of a
//! well formed file reads back as that file, and what a write stores a
//! lookup finds.

use crate::fsemul::dlf::{lookup, removed, upserted, LookupView};
use crate::fsemul::dlf::format::{
    entries_map,
    index_at_or_above, lemma_index_at_or_above, lemma_index_of_address,
    crlf, decode_entries, dlf_inv, dlf_parse, dlf_text, dlf_well_formed, ending_of_line,
    entries_of_lines, entries_text, entry_line, entry_of_line, increasing, is_absolute,
    path_text_ok, put_entry, version_line, version_of_line, DlfView,
};
use crate::fsemul::dlf::numbers::{
    all_digits, digit_value, lemma_radix_text, lemma_zero_padded, parse_unsigned,
    radix_text, unsigned_digits, zero_padded,
};
use crate::fsemul::dlf::syntax::{
    lemma_ascii_valid_utf8, byte_from, crlf_at, crlf_from, lines_from, no_crlf, split_lines, split_once, strip_hex_prefixes,
    strip_leading, strip_trailing, trim_quotes,
};
use vstd::prelude::*;
use vstd::utf8::*;

verus! {

/// The first line break at or after `i` is at `m` when there is one at `m`
/// and none between.
proof fn lemma_crlf_from_first(s: Seq<u8>, i: int, m: int)
    requires
        0 <= i <= m,
        crlf_at(s, m),
        forall|j: int| i <= j < m ==> !#[trigger] crlf_at(s, j),
    ensures
        crlf_from(s, i) == Some(m),
    decreases m - i,
{
    if i < m {
        assert(!crlf_at(s, i));
        lemma_crlf_from_first(s, i + 1, m);
    }
}

/// Line breaks of `q` are found in `p + q` shifted by the length of `p`.
proof fn lemma_crlf_from_shift(p: Seq<u8>, q: Seq<u8>, i: int)
    requires
        0 <= i,
    ensures
        crlf_from(p + q, p.len() + i) == (match crlf_from(q, i) {
            Some(k) => Some(p.len() + k),
            None => None,
        }),
    decreases q.len() - i,
{
    let s = p + q;
    if i + 1 >= q.len() {
    } else {
        assert(crlf_at(s, p.len() + i) == crlf_at(q, i));
        if !crlf_at(q, i) {
            lemma_crlf_from_shift(p, q, i + 1);
            assert(p.len() + i + 1 == p.len() + (i + 1));
        }
    }
}

/// The lines of `q` are the lines of `p + q` from the end of `p` on.
proof fn lemma_lines_from_shift(p: Seq<u8>, q: Seq<u8>, i: int)
    requires
        0 <= i <= q.len(),
    ensures
        lines_from(p + q, p.len() + i) == lines_from(q, i),
    decreases q.len() - i,
{
    let s = p + q;
    lemma_crlf_from_shift(p, q, i);
    match crlf_from(q, i) {
        None => {
            assert(s.subrange(p.len() + i, s.len() as int) =~= q.subrange(i, q.len() as int));
        },
        Some(k) => {
            crate::fsemul::dlf::syntax::lemma_crlf_from(q, i);
            assert(s.subrange(p.len() + i, p.len() + k) =~= q.subrange(i, k));
            lemma_lines_from_shift(p, q, k + 2);
            assert(p.len() + k + 2 == p.len() + (k + 2));
        },
    }
}

/// A line without line breaks, followed by a line break, is the first
/// line of what it starts.
pub proof fn lemma_split_line(x: Seq<u8>, rest: Seq<u8>)
    requires
        no_crlf(x),
    ensures
        split_lines(x + crlf() + rest) == seq![x] + split_lines(rest),
{
    let p = x + crlf();
    let s = p + rest;
    assert(x + crlf() + rest == s);
    assert forall|j: int| 0 <= j < x.len() implies !#[trigger] crlf_at(s, j) by {
        if j + 1 < x.len() {
            assert(crlf_at(s, j) == crlf_at(x, j));
        } else {
            assert(s[j + 1] == 13u8);
        }
    }
    assert(crlf_at(s, x.len() as int));
    lemma_crlf_from_first(s, 0, x.len() as int);
    assert(s.subrange(0, x.len() as int) =~= x);
    lemma_lines_from_shift(p, rest, 0);
    assert(p.len() + 0 == x.len() + 2);
}

/// The lines of the entries' text, from the first one.
pub proof fn lemma_entries_text_front(e: Seq<(u128, Seq<char>)>)
    requires
        e.len() > 0,
    ensures
        entries_text(e) == entry_line(e[0].0, e[0].1) + crlf() + entries_text(e.subrange(1, e.len() as int)),
    decreases e.len(),
{
    let t = e.subrange(1, e.len() as int);
    if e.len() == 1 {
        assert(e.subrange(0, 0) =~= Seq::<(u128, Seq<char>)>::empty());
        assert(t =~= Seq::<(u128, Seq<char>)>::empty());
        assert(entries_text(e) =~= entry_line(e[0].0, e[0].1) + crlf() + entries_text(t));
    } else {
        let d = e.subrange(0, e.len() - 1);
        lemma_entries_text_front(d);
        assert(d.subrange(1, d.len() as int) =~= t.subrange(0, t.len() - 1));
        assert(t[t.len() - 1] == e[e.len() - 1]);
        assert(d[0] == e[0]);
        assert(entries_text(e) =~= entry_line(e[0].0, e[0].1) + crlf() + entries_text(t));
    }
}

/// The lines of an entry.
pub open spec fn entry_lines(e: Seq<(u128, Seq<char>)>) -> Seq<Seq<u8>> {
    e.map_values(|x: (u128, Seq<char>)| entry_line(x.0, x.1))
}

/// The lines of the entries' text: one per entry, then an empty one.
pub proof fn lemma_split_entries(e: Seq<(u128, Seq<char>)>)
    requires
        forall|i: int| 0 <= i < e.len() ==> no_crlf(#[trigger] entry_line(e[i].0, e[i].1)),
    ensures
        split_lines(entries_text(e)) == entry_lines(e) + seq![Seq::<u8>::empty()],
    decreases e.len(),
{
    if e.len() == 0 {
        let z = Seq::<u8>::empty();
        assert(crlf_from(z, 0) is None);
        assert(z.subrange(0, 0) =~= z);
        assert(lines_from(z, 0) =~= seq![z]);
        assert(entries_text(e) == z);
        assert(entry_lines(e) =~= Seq::<Seq<u8>>::empty());
    } else {
        let t = e.subrange(1, e.len() as int);
        lemma_entries_text_front(e);
        assert forall|i: int| 0 <= i < t.len() implies no_crlf(#[trigger] entry_line(t[i].0, t[i].1)) by {
            assert(t[i] == e[i + 1]);
        }
        lemma_split_entries(t);
        assert(no_crlf(entry_line(e[0].0, e[0].1)));
        lemma_split_line(entry_line(e[0].0, e[0].1), entries_text(t));
        assert(entry_lines(e) =~= seq![entry_line(e[0].0, e[0].1)] + entry_lines(t));
    }
}

/// The address digits of an entry line.
pub open spec fn address_digits(a: u128) -> Seq<u8> {
    zero_padded(radix_text(a as nat, 16), 16)
}

/// A digit of a base of at most sixteen is none of the bytes that shape a
/// line.
proof fn lemma_digit_byte(c: u8, radix: nat)
    requires
        radix <= 16,
        digit_value(c, radix) is Some,
    ensures
        c != 13u8 && c != 10u8 && c != 43u8 && c != 44u8 && c != 34u8 && c != 46u8 && c != 118u8
            && c != 120u8 && c < 128,
{
}

/// The digits of `radix_text` and `zero_padded` in a base of at most sixteen.
proof fn lemma_text_digits(v: nat, radix: nat, width: nat)
    requires
        2 <= radix <= 16,
    ensures
        zero_padded(radix_text(v, radix), width).len() >= width,
        zero_padded(radix_text(v, radix), width).len() > 0,
        all_digits(zero_padded(radix_text(v, radix), width), radix),
        parse_unsigned(zero_padded(radix_text(v, radix), width), radix, v) == Some(v),
        forall|i: int|
            0 <= i < zero_padded(radix_text(v, radix), width).len() ==> {
                let c = #[trigger] zero_padded(radix_text(v, radix), width)[i];
                c != 13u8 && c != 10u8 && c != 43u8 && c != 44u8 && c != 34u8 && c != 46u8 && c
                    != 118u8 && c != 120u8 && c < 128
            },
{
    lemma_radix_text(v, radix);
    lemma_zero_padded(radix_text(v, radix), width, radix);
    let z = zero_padded(radix_text(v, radix), width);
    assert forall|i: int| 0 <= i < z.len() implies {
        let c = #[trigger] z[i];
        c != 13u8 && c != 10u8 && c != 43u8 && c != 44u8 && c != 34u8 && c != 46u8 && c != 118u8
            && c != 120u8 && c < 128
    } by {
        assert(digit_value(z[i], radix) is Some);
        lemma_digit_byte(z[i], radix);
    }
    assert(z[0] != 43u8);
    assert(unsigned_digits(z) == z);
}

/// The first `c` at or after `i` is at `m` when `s[m]` is one and none is
/// between.
proof fn lemma_byte_from_first(s: Seq<u8>, c: u8, i: int, m: int)
    requires
        0 <= i <= m < s.len(),
        s[m] == c,
        forall|j: int| i <= j < m ==> s[j] != c,
    ensures
        byte_from(s, c, i) == Some(m),
    decreases m - i,
{
    if i < m {
        lemma_byte_from_first(s, c, i + 1, m);
    }
}

/// An entry line has no line break when its path has none.
pub proof fn lemma_entry_line_no_crlf(a: u128, p: Seq<char>)
    requires
        no_crlf(encode_utf8(p)),
    ensures
        no_crlf(entry_line(a, p)),
{
    let h = address_digits(a);
    let pb = encode_utf8(p);
    let line = entry_line(a, p);
    lemma_text_digits(a as nat, 16, 16);
    let off = 4 + h.len();
    assert forall|j: int| !#[trigger] crlf_at(line, j) by {
        if crlf_at(line, j) {
            if j < 2 {
            } else if j < 2 + h.len() {
                assert(line[j] == h[j - 2]);
            } else if j < off {
            } else if j + 1 < off + pb.len() {
                assert(line[j] == pb[j - off]);
                assert(line[j + 1] == pb[j + 1 - off]);
                assert(crlf_at(pb, j - off));
            } else {
                assert(line[j + 1] == 34u8);
            }
        }
    }
}

/// A version line has no line break.
pub proof fn lemma_version_line_no_crlf(major: u8, minor: u8)
    ensures
        no_crlf(version_line(major, minor)),
{
    let r = radix_text(major as nat, 10);
    let z = zero_padded(radix_text(minor as nat, 10), 2);
    lemma_text_digits(major as nat, 10, 0);
    lemma_text_digits(minor as nat, 10, 2);
    assert(zero_padded(r, 0) == r);
    let line = version_line(major, minor);
    assert forall|j: int| !#[trigger] crlf_at(line, j) by {
        if crlf_at(line, j) {
            if j == 0 {
            } else if j < 1 + r.len() {
                assert(line[j] == r[j - 1]);
            } else if j == 1 + r.len() {
            } else {
                assert(line[j] == z[j - 2 - r.len()]);
            }
        }
    }
}

/// An entry line splits at its first comma into the address and the
/// quoted path, and the address reads back.
proof fn lemma_split_address(a: u128, tail: Seq<u8>)
    ensures
        split_once(seq![48u8, 120u8] + address_digits(a) + seq![44u8] + tail, 44u8) == Some(
            (seq![48u8, 120u8] + address_digits(a), tail),
        ),
        crate::fsemul::dlf::format::parse_address(seq![48u8, 120u8] + address_digits(a)) == Some(
            a as nat,
        ),
{
    let h = address_digits(a);
    let x = seq![48u8, 120u8] + h;
    let s = x + seq![44u8] + tail;
    lemma_text_digits(a as nat, 16, 16);
    assert forall|j: int| 0 <= j < x.len() implies s[j] != 44u8 by {
        if j >= 2 {
            assert(s[j] == h[j - 2]);
        }
    }
    lemma_byte_from_first(s, 44u8, 0, x.len() as int);
    assert(s.subrange(0, x.len() as int) =~= x);
    assert(s.subrange(x.len() as int + 1, s.len() as int) =~= tail);
    assert(h[1] != 120u8);
    assert(strip_hex_prefixes(h) == h);
    assert(x.subrange(2, x.len() as int) =~= h);
    assert(strip_hex_prefixes(x) == h);
    assert(a <= u128::MAX);
    assert(parse_unsigned(h, 16, a as nat) == Some(a as nat));
    assert(unsigned_digits(h) == h);
}

/// An entry line reads back as its entry, after an address below it.
pub proof fn lemma_entry_of_line(a: u128, p: Seq<char>, last: u128)
    requires
        path_text_ok(p),
        last != 0 ==> a > last,
    ensures
        entry_of_line(entry_line(a, p), last) == Some((a, encode_utf8(p))),
{
    let h = address_digits(a);
    let pb = encode_utf8(p);
    let q = seq![34u8] + pb + seq![34u8];
    assert(entry_line(a, p) =~= seq![48u8, 120u8] + h + seq![44u8] + q);
    lemma_split_address(a, q);
    assert(q.subrange(1, q.len() as int) =~= pb + seq![34u8]);
    assert((pb + seq![34u8])[0] == pb[0]);
    assert(strip_leading(pb + seq![34u8], 34u8) == pb + seq![34u8]);
    assert(strip_leading(q, 34u8) == pb + seq![34u8]);
    assert((pb + seq![34u8]).subrange(0, pb.len() as int) =~= pb);
    assert(strip_trailing(pb, 34u8) == pb);
    assert(strip_trailing(pb + seq![34u8], 34u8) == pb);
    assert(trim_quotes(q) == pb);
}

/// The ending's line reads back as the ending, after an address below it.
pub proof fn lemma_ending_of_line(a: u128, last: u128)
    requires
        last != 0 ==> a > last,
    ensures
        ending_of_line(entry_line(a, Seq::<char>::empty()), last) == Some(a),
{
    let h = address_digits(a);
    let q = seq![34u8, 34u8];
    assert(encode_utf8(Seq::<char>::empty()) =~= Seq::<u8>::empty());
    assert(entry_line(a, Seq::<char>::empty()) =~= seq![48u8, 120u8] + h + seq![44u8] + q);
    lemma_split_address(a, q);
}

/// A version line reads back as its version.
pub proof fn lemma_version_of_line(major: u8, minor: u8)
    ensures
        version_of_line(version_line(major, minor)) == Some((major, minor)),
{
    let r = radix_text(major as nat, 10);
    let z = zero_padded(radix_text(minor as nat, 10), 2);
    lemma_text_digits(major as nat, 10, 0);
    lemma_text_digits(minor as nat, 10, 2);
    assert(zero_padded(r, 0) == r);
    let line = version_line(major, minor);
    let rest = r + seq![46u8] + z;
    assert(line =~= seq![118u8] + rest);
    assert(line.subrange(1, line.len() as int) =~= rest);
    assert(rest[0] == r[0]);
    assert(strip_leading(rest, 118u8) == rest);
    assert(strip_leading(line, 118u8) == rest);
    assert forall|j: int| 0 <= j < r.len() implies rest[j] != 46u8 by {
        assert(rest[j] == r[j]);
    }
    lemma_byte_from_first(rest, 46u8, 0, r.len() as int);
    assert(rest.subrange(0, r.len() as int) =~= r);
    assert(rest.subrange(r.len() as int + 1, rest.len() as int) =~= z);
    assert(parse_unsigned(r, 10, 255) == Some(major as nat)) by {
        assert(parse_unsigned(r, 10, major as nat) == Some(major as nat));
    }
    assert(parse_unsigned(z, 10, 255) == Some(minor as nat)) by {
        assert(parse_unsigned(z, 10, minor as nat) == Some(minor as nat));
    }
}

/// The entries with their paths encoded.
pub open spec fn encode_entries(e: Seq<(u128, Seq<char>)>) -> Seq<(u128, Seq<u8>)> {
    e.map_values(|x: (u128, Seq<char>)| (x.0, encode_utf8(x.1)))
}

/// The address before position `i` of `m`, or zero at its start.
pub open spec fn address_before(m: Seq<(u128, Seq<char>)>, i: int) -> u128 {
    if i == 0 {
        0
    } else {
        m[i - 1].0
    }
}

/// The lines of increasing entries with paths an entry line holds read
/// back as those entries, from any of them on.
proof fn lemma_entries_of_lines(m: Seq<(u128, Seq<char>)>, i: int)
    requires
        increasing(m),
        forall|j: int| 0 <= j < m.len() ==> #[trigger] path_text_ok(m[j].1),
        0 <= i <= m.len(),
    ensures
        entries_of_lines(
            entry_lines(m).subrange(i, m.len() as int),
            address_before(m, i),
            encode_entries(m.subrange(0, i)),
        ) == Ok::<(u128, Seq<(u128, Seq<u8>)>), Seq<u8>>(
            (address_before(m, m.len() as int), encode_entries(m)),
        ),
    decreases m.len() - i,
{
    let l = entry_lines(m).subrange(i, m.len() as int);
    if i == m.len() {
        assert(m.subrange(0, i) =~= m);
    } else {
        assert(l[0] == entry_line(m[i].0, m[i].1));
        if i > 0 {
            assert(m[i - 1].0 < m[i].0);
        }
        lemma_entry_of_line(m[i].0, m[i].1, address_before(m, i));
        let acc = encode_entries(m.subrange(0, i));
        if i > 0 {
            assert(acc[acc.len() - 1].0 == m[i - 1].0);
        }
        assert(put_entry(acc, m[i].0, encode_utf8(m[i].1)) =~= encode_entries(m.subrange(0, i + 1)));
        assert(l.subrange(1, l.len() as int) =~= entry_lines(m).subrange(i + 1, m.len() as int));
        lemma_entries_of_lines(m, i + 1);
    }
}

/// The text of a disk layout file whose paths are UTF-8 text is UTF-8.
proof fn lemma_entries_text_valid(e: Seq<(u128, Seq<char>)>)
    ensures
        valid_utf8(entries_text(e)),
    decreases e.len(),
{
    if e.len() == 0 {
        lemma_ascii_valid_utf8(Seq::<u8>::empty());
    } else {
        let d = e.subrange(0, e.len() - 1);
        lemma_entries_text_valid(d);
        let a = e[e.len() - 1].0;
        let h = address_digits(a);
        lemma_text_digits(a as nat, 16, 16);
        let head = seq![48u8, 120u8] + h + seq![44u8, 34u8];
        assert forall|i: int| 0 <= i < head.len() implies head[i] < 128 by {
            if 2 <= i < 2 + h.len() {
                assert(head[i] == h[i - 2]);
            }
        }
        lemma_ascii_valid_utf8(head);
        let tail = seq![34u8] + crlf();
        lemma_ascii_valid_utf8(tail);
        encode_utf8_valid_utf8(e[e.len() - 1].1);
        let pb = encode_utf8(e[e.len() - 1].1);
        valid_utf8_concat(head, pb);
        valid_utf8_concat(head + pb, tail);
        valid_utf8_concat(entries_text(d), head + pb + tail);
        assert(entries_text(e) =~= entries_text(d) + (head + pb + tail));
    }
}

/// The text of a disk layout file is UTF-8.
proof fn lemma_dlf_text_valid(v: DlfView)
    ensures
        valid_utf8(dlf_text(v)),
{
    let r = radix_text(v.major as nat, 10);
    let z = zero_padded(radix_text(v.minor as nat, 10), 2);
    lemma_text_digits(v.major as nat, 10, 0);
    lemma_text_digits(v.minor as nat, 10, 2);
    assert(zero_padded(r, 0) == r);
    let head = version_line(v.major, v.minor) + crlf();
    assert forall|i: int| 0 <= i < head.len() implies head[i] < 128 by {
        if 1 <= i < 1 + r.len() {
            assert(head[i] == r[i - 1]);
        } else if 2 + r.len() <= i < 2 + r.len() + z.len() {
            assert(head[i] == z[i - 2 - r.len()]);
        }
    }
    lemma_ascii_valid_utf8(head);
    lemma_entries_text_valid(v.entries);
    valid_utf8_concat(head, entries_text(v.entries));
}

/// Law: the text of a well formed disk layout file reads back as that
/// same file.
pub proof fn lemma_dlf_roundtrip(v: DlfView)
    requires
        dlf_well_formed(v),
    ensures
        dlf_parse(dlf_text(v)) == Ok::<DlfView, crate::fsemul::dlf::format::DlfFault>(v),
{
    let e = v.entries;
    let n = e.len() as int;
    let m = e.subrange(0, n - 1);
    let vl = version_line(v.major, v.minor);
    let b = dlf_text(v);
    lemma_dlf_text_valid(v);
    assert(e[n - 1].1 =~= Seq::<char>::empty());
    assert(encode_utf8(Seq::<char>::empty()) =~= Seq::<u8>::empty());
    assert forall|i: int| 0 <= i < e.len() implies no_crlf(#[trigger] entry_line(e[i].0, e[i].1)) by {
        if i < n - 1 {
            assert(path_text_ok(e[i].1));
        }
        lemma_entry_line_no_crlf(e[i].0, e[i].1);
    }
    lemma_split_entries(e);
    lemma_version_line_no_crlf(v.major, v.minor);
    lemma_split_line(vl, entries_text(e));
    let lines = split_lines(b);
    assert(lines == seq![vl] + (entry_lines(e) + seq![Seq::<u8>::empty()]));
    assert(lines.len() == n + 2);
    assert(lines.subrange(1, n + 2 - 2) =~= entry_lines(m));
    assert(lines[n] == entry_line(e[n - 1].0, Seq::<char>::empty()));
    assert(lines[n + 1] == Seq::<u8>::empty());
    assert(lines[0] == vl);
    assert forall|j: int| 0 <= j < m.len() implies #[trigger] path_text_ok(m[j].1) by {
        assert(m[j] == e[j]);
    }
    lemma_entries_of_lines(m, 0);
    assert(m.subrange(0, 0) =~= Seq::<(u128, Seq<char>)>::empty());
    assert(encode_entries(Seq::<(u128, Seq<char>)>::empty()) =~= Seq::<(u128, Seq<u8>)>::empty());
    assert(entry_lines(m).subrange(0, m.len() as int) =~= entry_lines(m));
    let last = address_before(m, m.len() as int);
    if m.len() > 0 {
        assert(m[m.len() - 1].0 < e[n - 1].0);
    }
    lemma_ending_of_line(v.ending, last);
    lemma_version_of_line(v.major, v.minor);
    let acc = encode_entries(m);
    if m.len() > 0 {
        assert(acc[acc.len() - 1].0 == m[m.len() - 1].0);
    }
    let fin = put_entry(acc, v.ending, Seq::<u8>::empty());
    assert(fin =~= acc.push((v.ending, Seq::<u8>::empty())));
    assert forall|j: int| 0 <= j < n implies #[trigger] decode_entries(fin)[j] == e[j] by {
        if j < n - 1 {
            assert(fin[j] == (e[j].0, encode_utf8(e[j].1)));
            encode_utf8_decode_utf8(e[j].1);
        } else {
            assert(decode_utf8(Seq::<u8>::empty()) =~= Seq::<char>::empty());
        }
    }
    assert(decode_entries(fin) =~= e);
}

/// Every line of `b` from `i` on has no line break, and is valid UTF-8
/// when `b` is.
proof fn lemma_lines_from_props(b: Seq<u8>, i: int)
    requires
        0 <= i <= b.len(),
        i == 0 || b[i - 1] == 10u8,
    ensures
        forall|j: int|
            0 <= j < lines_from(b, i).len() ==> no_crlf(#[trigger] lines_from(b, i)[j]) && (
            valid_utf8(b) ==> valid_utf8(lines_from(b, i)[j])),
    decreases b.len() - i,
{
    crate::fsemul::dlf::syntax::lemma_crlf_from(b, i);
    match crlf_from(b, i) {
        None => {
            let piece = b.subrange(i, b.len() as int);
            assert forall|j: int| !#[trigger] crlf_at(piece, j) by {
                if crlf_at(piece, j) {
                    assert(crlf_at(b, i + j));
                }
            }
            if valid_utf8(b) {
                crate::fsemul::dlf::syntax::lemma_valid_utf8_range(b, i, b.len() as int);
            }
        },
        Some(k) => {
            let piece = b.subrange(i, k);
            assert forall|j: int| !#[trigger] crlf_at(piece, j) by {
                if crlf_at(piece, j) {
                    assert(crlf_at(b, i + j));
                }
            }
            if valid_utf8(b) {
                crate::fsemul::dlf::syntax::lemma_valid_utf8_range(b, i, k);
            }
            lemma_lines_from_props(b, k + 2);
            let rest = lines_from(b, k + 2);
            assert(lines_from(b, i) == seq![piece] + rest);
            assert forall|j: int| 0 <= j < lines_from(b, i).len() implies no_crlf(
                #[trigger] lines_from(b, i)[j],
            ) && (valid_utf8(b) ==> valid_utf8(lines_from(b, i)[j])) by {
                if j > 0 {
                    assert(lines_from(b, i)[j] == rest[j - 1]);
                }
            }
        },
    }
}

/// How many `c` `s` starts with.
spec fn leading_count(s: Seq<u8>, c: u8) -> nat
    decreases s.len(),
{
    if s.len() > 0 && s[0] == c {
        1 + leading_count(s.subrange(1, s.len() as int), c)
    } else {
        0
    }
}

/// How many `c` `s` ends with.
spec fn trailing_count(s: Seq<u8>, c: u8) -> nat
    decreases s.len(),
{
    if s.len() > 0 && s[s.len() - 1] == c {
        1 + trailing_count(s.subrange(0, s.len() - 1), c)
    } else {
        0
    }
}

proof fn lemma_strip_leading(s: Seq<u8>, c: u8)
    ensures
        leading_count(s, c) <= s.len(),
        strip_leading(s, c) == s.subrange(leading_count(s, c) as int, s.len() as int),
        leading_count(s, c) > 0 ==> s[leading_count(s, c) - 1] == c,
    decreases s.len(),
{
    if s.len() > 0 && s[0] == c {
        let t = s.subrange(1, s.len() as int);
        lemma_strip_leading(t, c);
        assert(t.subrange(leading_count(t, c) as int, t.len() as int) =~= s.subrange(
            leading_count(s, c) as int,
            s.len() as int,
        ));
        if leading_count(t, c) > 0 {
            assert(s[leading_count(s, c) - 1] == t[leading_count(t, c) - 1]);
        }
    } else {
        assert(s.subrange(0, s.len() as int) =~= s);
    }
}

proof fn lemma_strip_trailing(s: Seq<u8>, c: u8)
    ensures
        trailing_count(s, c) <= s.len(),
        strip_trailing(s, c) == s.subrange(0, s.len() - trailing_count(s, c)),
        trailing_count(s, c) > 0 ==> s[s.len() - trailing_count(s, c)] == c,
    decreases s.len(),
{
    if s.len() > 0 && s[s.len() - 1] == c {
        let t = s.subrange(0, s.len() - 1);
        lemma_strip_trailing(t, c);
        assert(t.subrange(0, t.len() - trailing_count(t, c)) =~= s.subrange(
            0,
            s.len() - trailing_count(s, c),
        ));
        if trailing_count(t, c) > 0 {
            assert(s[s.len() - trailing_count(s, c)] == t[t.len() - trailing_count(t, c)]);
        }
    } else {
        assert(s.subrange(0, s.len() as int) =~= s);
    }
}

/// The path bytes of an entry line that reads back.
pub open spec fn path_bytes_ok(p: Seq<u8>) -> bool {
    &&& is_absolute(p)
    &&& p[p.len() - 1] != 34u8
    &&& no_crlf(p)
    &&& valid_utf8(p)
}

/// What an entry line gives: an address above the one before it, and path
/// bytes that an entry line holds.
proof fn lemma_entry_of_line_ok(line: Seq<u8>, last: u128)
    requires
        no_crlf(line),
        valid_utf8(line),
        entry_of_line(line, last) is Some,
    ensures
        last != 0 ==> (entry_of_line(line, last)->0).0 > last,
        path_bytes_ok((entry_of_line(line, last)->0).1),
{
    crate::fsemul::dlf::syntax::lemma_byte_from(line, 44u8, 0);
    let k = byte_from(line, 44u8, 0)->0;
    let q = line.subrange(k + 1, line.len() as int);
    lemma_strip_leading(q, 34u8);
    let lc = leading_count(q, 34u8) as int;
    let q2 = strip_leading(q, 34u8);
    lemma_strip_trailing(q2, 34u8);
    let tc = trailing_count(q2, 34u8) as int;
    let p = trim_quotes(q);
    let ps = k + 1 + lc;
    let pe = line.len() - tc;
    assert(p =~= line.subrange(ps, pe));
    assert(line[ps - 1] < 128) by {
        if lc > 0 {
            assert(line[ps - 1] == q[lc - 1]);
        }
    }
    assert(pe == line.len() || line[pe] < 128) by {
        if tc > 0 {
            assert(line[pe] == q2[q2.len() - tc]);
        }
    }
    crate::fsemul::dlf::syntax::lemma_valid_utf8_range(line, ps, pe);
    assert forall|j: int| !#[trigger] crlf_at(p, j) by {
        if crlf_at(p, j) {
            assert(crlf_at(line, ps + j));
        }
    }
    assert(p[p.len() - 1] != 34u8) by {
        if tc == 0 {
            assert(q2.len() == 0 || q2[q2.len() - 1] != 34u8);
        } else {
            lemma_strip_trailing(q2, 34u8);
            assert(trailing_count(strip_trailing(q2, 34u8), 34u8) == 0) by {
                lemma_trailing_done(q2, 34u8);
            }
        }
    }
}

/// Once the `c` at the end are stripped, none is left at the end.
proof fn lemma_trailing_done(s: Seq<u8>, c: u8)
    ensures
        strip_trailing(s, c).len() == 0 || strip_trailing(s, c)[strip_trailing(s, c).len() - 1] != c,
        trailing_count(strip_trailing(s, c), c) == 0,
    decreases s.len(),
{
    if s.len() > 0 && s[s.len() - 1] == c {
        lemma_trailing_done(s.subrange(0, s.len() - 1), c);
    }
}

/// What entries read so far keep: addresses in increasing order, the
/// last read address as the last one (or zero before any), and paths that
/// an entry line holds.
pub open spec fn read_so_far(last: u128, acc: Seq<(u128, Seq<u8>)>) -> bool {
    &&& increasing(acc)
    &&& acc.len() > 0 ==> acc[acc.len() - 1].0 == last
    &&& acc.len() == 0 ==> last == 0
    &&& forall|i: int| 0 <= i < acc.len() ==> #[trigger] path_bytes_ok(acc[i].1)
}

/// Reading entry lines keeps what entries read so far keep.
proof fn lemma_entries_of_lines_keep(lines: Seq<Seq<u8>>, last: u128, acc: Seq<(u128, Seq<u8>)>)
    requires
        read_so_far(last, acc),
        forall|j: int| 0 <= j < lines.len() ==> no_crlf(#[trigger] lines[j]) && valid_utf8(lines[j]),
        entries_of_lines(lines, last, acc) is Ok,
    ensures
        read_so_far((entries_of_lines(lines, last, acc)->Ok_0).0, (entries_of_lines(lines, last, acc)->Ok_0).1),
    decreases lines.len(),
{
    if lines.len() > 0 {
        assert(no_crlf(lines[0]) && valid_utf8(lines[0]));
        lemma_entry_of_line_ok(lines[0], last);
        let (a, p) = entry_of_line(lines[0], last)->0;
        let nacc = put_entry(acc, a, p);
        assert(read_so_far(a, nacc)) by {
            if acc.len() > 0 && acc[acc.len() - 1].0 == a {
                assert forall|i: int| 0 <= i < nacc.len() implies #[trigger] path_bytes_ok(nacc[i].1) by {
                    if i < nacc.len() - 1 {
                        assert(nacc[i] == acc[i]);
                    }
                }
            } else {
                assert forall|x: int, y: int| 0 <= x < y < nacc.len() implies #[trigger] nacc[x].0
                    < #[trigger] nacc[y].0 by {
                    if y == nacc.len() - 1 && acc.len() > 0 {
                        assert(acc[x].0 <= acc[acc.len() - 1].0);
                    }
                }
                assert forall|i: int| 0 <= i < nacc.len() implies #[trigger] path_bytes_ok(nacc[i].1) by {
                    if i < nacc.len() - 1 {
                        assert(nacc[i] == acc[i]);
                    }
                }
            }
        }
        let rest = lines.subrange(1, lines.len() as int);
        assert forall|j: int| 0 <= j < rest.len() implies no_crlf(#[trigger] rest[j]) && valid_utf8(rest[j]) by {
            assert(rest[j] == lines[j + 1]);
        }
        lemma_entries_of_lines_keep(rest, a, nacc);
    }
}

/// Law: what reading a disk layout file gives is well formed, so its text
/// reads back as it.
pub proof fn lemma_parse_well_formed(b: Seq<u8>)
    requires
        dlf_parse(b) is Ok,
    ensures
        dlf_well_formed(dlf_parse(b)->Ok_0),
        dlf_parse(dlf_text(dlf_parse(b)->Ok_0)) == dlf_parse(b),
{
    let lines = split_lines(b);
    let n = lines.len() as int;
    lemma_lines_from_props(b, 0);
    let mid = lines.subrange(1, n - 2);
    assert forall|j: int| 0 <= j < mid.len() implies no_crlf(#[trigger] mid[j]) && valid_utf8(mid[j]) by {
        assert(mid[j] == lines[j + 1]);
    }
    let empty = Seq::<(u128, Seq<u8>)>::empty();
    assert(read_so_far(0, empty));
    lemma_entries_of_lines_keep(mid, 0, empty);
    let (last, acc) = entries_of_lines(mid, 0, empty)->Ok_0;
    let f = ending_of_line(lines[n - 2], last)->0;
    let v = dlf_parse(b)->Ok_0;
    let fin = put_entry(acc, f, Seq::<u8>::empty());
    assert(v.entries == decode_entries(fin));
    crate::fsemul::dlf::syntax::lemma_byte_from(lines[n - 2], 44u8, 0);
    assert(last != 0 ==> f > last);
    assert(increasing(fin)) by {
        if acc.len() > 0 && acc[acc.len() - 1].0 == f {
        } else {
            assert forall|x: int, y: int| 0 <= x < y < fin.len() implies #[trigger] fin[x].0
                < #[trigger] fin[y].0 by {
                if y == fin.len() - 1 && acc.len() > 0 {
                    assert(acc[x].0 <= acc[acc.len() - 1].0);
                }
            }
        }
    }
    let e = v.entries;
    assert(e.len() == fin.len());
    assert(increasing(e)) by {
        assert forall|x: int, y: int| 0 <= x < y < e.len() implies #[trigger] e[x].0 < #[trigger] e[y].0 by {
            assert(e[x].0 == fin[x].0);
            assert(e[y].0 == fin[y].0);
        }
    }
    assert(e[e.len() - 1] == (f, decode_utf8(Seq::<u8>::empty())));
    assert(decode_utf8(Seq::<u8>::empty()) =~= Seq::<char>::empty());
    assert forall|i: int| 0 <= i < e.len() - 1 implies #[trigger] path_text_ok(e[i].1) by {
        assert(fin[i] == acc[i]);
        assert(path_bytes_ok(acc[i].1));
        decode_utf8_encode_utf8(acc[i].1);
    }
    lemma_dlf_roundtrip(v);
}

/// Storing a path keeps what every disk layout file keeps.
pub proof fn lemma_upserted_inv(v: DlfView, address: u128, path: Seq<char>)
    requires
        dlf_inv(v),
    ensures
        dlf_inv(upserted(v, address, path)),
        address <= v.ending ==> upserted(v, address, path).ending == v.ending,
{
    let e = v.entries;
    let n = e.len() as int;
    let k = index_at_or_above(e, address, 0);
    lemma_index_at_or_above(e, address, 0);
    let ne = upserted(v, address, path).entries;
    assert forall|i: int, j: int| 0 <= i < j < ne.len() implies #[trigger] ne[i].0 < #[trigger] ne[j].0 by {
        if k < n && e[k].0 == address {
        } else {
            if i < k && j == k {
                assert(e[i].0 < address);
            } else if i == k && j > k {
                assert(e[j - 1].0 >= e[k].0);
            }
        }
    }
    if address > v.ending {
        assert forall|j: int| 0 <= j < n implies e[j].0 < address by {
            assert(e[j].0 <= e[n - 1].0);
        }
        assert(k == n);
    } else {
        assert(k < n);
    }
}

/// Law: after storing `path` at `address`, the address leads exactly to
/// that path.
pub proof fn lemma_upsert_then_lookup(v: DlfView, address: u128, path: Seq<char>)
    requires
        dlf_inv(v),
    ensures
        lookup(upserted(v, address, path), address) == LookupView::Exact(path),
{
    lemma_upserted_inv(v, address, path);
    let e = v.entries;
    let k = index_at_or_above(e, address, 0);
    lemma_index_at_or_above(e, address, 0);
    let ne = upserted(v, address, path).entries;
    assert(ne[k] == (address, path));
    lemma_index_of_address(ne, address, k);
}

/// Law: removing a path just stored at a new address below the ending
/// gives back the file as it was.
pub proof fn lemma_upsert_then_remove(v: DlfView, address: u128, path: Seq<char>)
    requires
        dlf_inv(v),
        address < v.ending,
        !(lookup(v, address) is Exact),
    ensures
        removed(upserted(v, address, path), address) == v,
{
    lemma_upserted_inv(v, address, path);
    let e = v.entries;
    let k = index_at_or_above(e, address, 0);
    lemma_index_at_or_above(e, address, 0);
    let u = upserted(v, address, path);
    assert(u.entries == e.insert(k, (address, path)));
    lemma_index_of_address(u.entries, address, k);
    assert(u.entries.remove(k) =~= e);
}

/// An address is in the map of entries exactly when some entry has it.
pub proof fn lemma_entries_map_has(e: Seq<(u128, Seq<char>)>, a: u128)
    ensures
        entries_map(e).contains_key(a) <==> exists|i: int| 0 <= i < e.len() && #[trigger] e[i].0 == a,
    decreases e.len(),
{
    if e.len() > 0 {
        let front = e.subrange(0, e.len() - 1);
        lemma_entries_map_has(front, a);
        if entries_map(front).contains_key(a) {
            let i = choose|i: int| 0 <= i < front.len() && #[trigger] front[i].0 == a;
            assert(e[i].0 == a);
        }
        if exists|i: int| 0 <= i < e.len() && #[trigger] e[i].0 == a {
            let i = choose|i: int| 0 <= i < e.len() && #[trigger] e[i].0 == a;
            if i < e.len() - 1 {
                assert(front[i].0 == a);
            }
        }
    }
}

/// Law: a disk layout file always keeps its ending: the ending address is
/// mapped, and no mapped address lies past it.
pub proof fn lemma_keeps_ending(v: DlfView, a: u128)
    requires
        dlf_inv(v),
    ensures
        entries_map(v.entries).contains_key(v.ending),
        entries_map(v.entries).contains_key(a) ==> a <= v.ending,
{
    let e = v.entries;
    lemma_entries_map_has(e, v.ending);
    assert(e[e.len() - 1].0 == v.ending);
    lemma_entries_map_has(e, a);
    if entries_map(e).contains_key(a) {
        let i = choose|i: int| 0 <= i < e.len() && #[trigger] e[i].0 == a;
        if i < e.len() - 1 {
            assert(e[i].0 < e[e.len() - 1].0);
        }
    }
}
/// Law: an address strictly between two stored addresses leads into the
/// file stored at the lower one, at the distance from that address (at
/// most `u64::MAX`): never into any other entry.
pub proof fn lemma_lookup_between(v: DlfView, i: int, x: u128)
    requires
        dlf_inv(v),
        0 <= i < v.entries.len() - 1,
        v.entries[i].0 < x < v.entries[i + 1].0,
    ensures
        lookup(v, x) == LookupView::Within(
            v.entries[i].1,
            if x - v.entries[i].0 > u64::MAX {
                u64::MAX
            } else {
                (x - v.entries[i].0) as u64
            },
        ),
{
    let e = v.entries;
    let k = index_at_or_above(e, x, 0);
    lemma_index_at_or_above(e, x, 0);
    if k <= i {
        assert(e[k].0 <= e[i].0);
    }
    if k > i + 1 {
        assert(e[i + 1].0 < x);
    }
    assert(k == i + 1);
}

/// Law: a stored address leads to the start of the file stored there.
pub proof fn lemma_lookup_stored(v: DlfView, i: int)
    requires
        dlf_inv(v),
        0 <= i < v.entries.len(),
    ensures
        lookup(v, v.entries[i].0) == LookupView::Exact(v.entries[i].1),
{
    lemma_index_of_address(v.entries, v.entries[i].0, i);
}

/// Law: an address below the first stored address leads into the file
/// stored at the ending's entry, counted from address zero.
pub proof fn lemma_lookup_below_first(v: DlfView, x: u128)
    requires
        dlf_inv(v),
        x < v.entries[0].0,
    ensures
        lookup(v, x) == LookupView::Within(
            v.entries[v.entries.len() - 1].1,
            if x > u64::MAX {
                u64::MAX
            } else {
                x as u64
            },
        ),
{
    lemma_index_at_or_above(v.entries, x, 0);
}

/// Law: an address past the ending leads nowhere.
pub proof fn lemma_lookup_past_ending(v: DlfView, x: u128)
    requires
        dlf_inv(v),
        x > v.ending,
    ensures
        lookup(v, x) == LookupView::Outside,
{
    let e = v.entries;
    lemma_index_at_or_above(e, x, 0);
    let k = index_at_or_above(e, x, 0);
    if k < e.len() {
        assert(e[k].0 <= e[e.len() - 1].0);
    }
}

/// Law: removing an address keeps the ending and the version, keeps every
/// entry at another address, and keeps no entry at that address; when no
/// path is stored at it, the layout is unchanged.
pub proof fn lemma_removed_keeps_others(v: DlfView, address: u128)
    requires
        dlf_inv(v),
    ensures
        removed(v, address).ending == v.ending,
        removed(v, address).major == v.major,
        removed(v, address).minor == v.minor,
        forall|i: int|
            0 <= i < v.entries.len() && v.entries[i].0 != address ==> removed(
                v,
                address,
            ).entries.contains(#[trigger] v.entries[i]),
        forall|j: int|
            0 <= j < removed(v, address).entries.len() ==> #[trigger] removed(
                v,
                address,
            ).entries[j].0 != address && v.entries.contains(removed(v, address).entries[j]),
        (forall|i: int| 0 <= i < v.entries.len() ==> #[trigger] v.entries[i].0 != address) ==> removed(
            v,
            address,
        ) == v,
{
    let e = v.entries;
    let k = index_at_or_above(e, address, 0);
    lemma_index_at_or_above(e, address, 0);
    let r = removed(v, address).entries;
    if k < e.len() && e[k].0 == address {
        assert(r == e.remove(k));
        assert forall|i: int| 0 <= i < e.len() && e[i].0 != address implies r.contains(#[trigger] e[i]) by {
            if i < k {
                assert(r[i] == e[i]);
            } else {
                assert(i != k);
                assert(r[i - 1] == e[i]);
            }
        }
        assert forall|j: int| 0 <= j < r.len() implies #[trigger] r[j].0 != address && e.contains(r[j]) by {
            if j < k {
                assert(r[j] == e[j]);
                assert(e[j].0 < e[k].0);
            } else {
                assert(r[j] == e[j + 1]);
                assert(e[k].0 < e[j + 1].0);
            }
        }
    } else {
        assert(r == e);
        assert forall|i: int| 0 <= i < e.len() && e[i].0 != address implies r.contains(#[trigger] e[i]) by {
            assert(r[i] == e[i]);
        }
        assert forall|j: int| 0 <= j < r.len() implies #[trigger] r[j].0 != address && e.contains(r[j]) by {
            if e[j].0 == address {
                lemma_index_of_address(e, address, j);
            }
        }
    }
}

} // verus!
