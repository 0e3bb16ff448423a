//! What a disk layout file holds, the text it is written as, and how each
//! line of that text is read back.
//!
//! The text is a version line `v<major>.<minor>`, then one line
//! `0x<address>,"<path>"` per entry in increasing address order, the last
//! of them the ending with the path `""`, each line ended by `\r\n`.

use crate::fsemul::dlf::numbers::{
    parse_unsigned, parse_unsigned_range, radix_text, zero_padded,
};
use crate::fsemul::dlf::syntax::{
    lemma_byte_from, find_byte, no_crlf, skip_hex_prefixes, skip_leading, skip_trailing,
    split_lines, split_once, strip_hex_prefixes, strip_leading, trim_quotes,
};
use vstd::prelude::*;
use vstd::utf8::*;

verus! {

/// What a disk layout file holds.
pub struct DlfView {
    /// Each address with the host path it maps to, in increasing address
    /// order; the last one is the ending.
    pub entries: Seq<(u128, Seq<char>)>,
    /// The address the layout ends at.
    pub ending: u128,
    /// The major version of the file format.
    pub major: u8,
    /// The minor version of the file format.
    pub minor: u8,
}

/// The addresses of `e` strictly increase.
pub open spec fn increasing<P>(e: Seq<(u128, P)>) -> bool {
    forall|i: int, j: int| 0 <= i < j < e.len() ==> #[trigger] e[i].0 < #[trigger] e[j].0
}

/// What every disk layout file keeps: at least one entry, addresses in
/// increasing order, and the ending as the last address.
pub open spec fn dlf_inv(v: DlfView) -> bool {
    &&& v.entries.len() > 0
    &&& increasing(v.entries)
    &&& v.entries[v.entries.len() - 1].0 == v.ending
}

/// The path at `address`, if there is one.
pub open spec fn path_at(e: Seq<(u128, Seq<char>)>, address: u128) -> Option<Seq<char>> {
    let k = index_at_or_above(e, address, 0);
    if k < e.len() && e[k].0 == address {
        Some(e[k].1)
    } else {
        None
    }
}

/// The first position at or after `i` whose address is at least `address`,
/// or the length of `e` when there is none.
pub open spec fn index_at_or_above<P>(e: Seq<(u128, P)>, address: u128, i: int) -> int
    decreases e.len() - i,
{
    if i < 0 || i >= e.len() || e[i].0 >= address {
        i
    } else {
        index_at_or_above(e, address, i + 1)
    }
}

/// Every address before `index_at_or_above(e, address, i)`, from `i` on,
/// is below `address`; the address there, if any, is not.
pub proof fn lemma_index_at_or_above<P>(e: Seq<(u128, P)>, address: u128, i: int)
    requires
        0 <= i <= e.len(),
    ensures
        i <= index_at_or_above(e, address, i) <= e.len(),
        forall|j: int| i <= j < index_at_or_above(e, address, i) ==> #[trigger] e[j].0 < address,
        index_at_or_above(e, address, i) < e.len() ==> e[index_at_or_above(e, address, i)].0
            >= address,
    decreases e.len() - i,
{
    if i < e.len() && e[i].0 < address {
        lemma_index_at_or_above(e, address, i + 1);
    }
}

/// In increasing entries, the entry at `address`, if there is one, is at
/// `index_at_or_above(e, address, 0)`.
pub proof fn lemma_index_of_address<P>(e: Seq<(u128, P)>, address: u128, i: int)
    requires
        increasing(e),
        0 <= i < e.len(),
        e[i].0 == address,
    ensures
        index_at_or_above(e, address, 0) == i,
{
    lemma_index_at_or_above(e, address, 0);
    let k = index_at_or_above(e, address, 0);
    if k < i {
        assert(e[k].0 < e[i].0);
    }
}

/// The map from each address of `e` to its path.
pub open spec fn entries_map(e: Seq<(u128, Seq<char>)>) -> Map<u128, Seq<char>>
    decreases e.len(),
{
    if e.len() == 0 {
        Map::empty()
    } else {
        entries_map(e.subrange(0, e.len() - 1)).insert(e[e.len() - 1].0, e[e.len() - 1].1)
    }
}

/// A line break.
pub open spec fn crlf() -> Seq<u8> {
    seq![13u8, 10u8]
}

/// The version line, without its line break: `v`, the major version, `.`,
/// and the minor version in at least two digits.
pub open spec fn version_line(major: u8, minor: u8) -> Seq<u8> {
    seq![118u8] + radix_text(major as nat, 10) + seq![46u8] + zero_padded(
        radix_text(minor as nat, 10),
        2,
    )
}

/// The line of an entry, without its line break: `0x`, the address in at
/// least sixteen uppercase hexadecimal digits, `,`, and the path in double
/// quotes.
pub open spec fn entry_line(address: u128, path: Seq<char>) -> Seq<u8> {
    seq![48u8, 120u8] + zero_padded(radix_text(address as nat, 16), 16) + seq![44u8, 34u8]
        + encode_utf8(path) + seq![34u8]
}

/// The lines of all entries, each ended by a line break.
pub open spec fn entries_text(e: Seq<(u128, Seq<char>)>) -> Seq<u8>
    decreases e.len(),
{
    if e.len() == 0 {
        seq![]
    } else {
        entries_text(e.subrange(0, e.len() - 1)) + entry_line(e[e.len() - 1].0, e[e.len() - 1].1)
            + crlf()
    }
}

/// The text of a disk layout file.
pub open spec fn dlf_text(v: DlfView) -> Seq<u8> {
    version_line(v.major, v.minor) + crlf() + entries_text(v.entries)
}

/// An address: hexadecimal digits, after any number of `0x`.
pub open spec fn parse_address(a: Seq<u8>) -> Option<nat> {
    parse_unsigned(strip_hex_prefixes(a), 16, u128::MAX as nat)
}

/// A path that starts at the root.
pub open spec fn is_absolute(p: Seq<u8>) -> bool {
    p.len() > 0 && p[0] == 47u8
}

/// An entry line read after the address `last`: the address and the path
/// bytes, or nothing when the line is corrupt.
pub open spec fn entry_of_line(line: Seq<u8>, last: u128) -> Option<(u128, Seq<u8>)> {
    match split_once(line, 44u8) {
        None => None,
        Some((a, p)) => match parse_address(a) {
            None => None,
            Some(v) => if last != 0 && v <= last {
                None
            } else if is_absolute(trim_quotes(p)) {
                Some((v as u128, trim_quotes(p)))
            } else {
                None
            },
        },
    }
}

/// The ending line read after the address `last`: its address, or nothing
/// when the line is corrupt.
pub open spec fn ending_of_line(line: Seq<u8>, last: u128) -> Option<u128> {
    match split_once(line, 44u8) {
        None => None,
        Some((a, p)) => match parse_address(a) {
            None => None,
            Some(v) => if (last != 0 && v <= last) || p != seq![34u8, 34u8] {
                None
            } else {
                Some(v as u128)
            },
        },
    }
}

/// The version line read: the major and minor versions, or nothing when
/// the line is corrupt.
pub open spec fn version_of_line(line: Seq<u8>) -> Option<(u8, u8)> {
    if line.len() == 0 || line[0] != 118u8 {
        None
    } else {
        match split_once(strip_leading(line, 118u8), 46u8) {
            None => None,
            Some((ma, mi)) => match (parse_unsigned(ma, 10, 255), parse_unsigned(mi, 10, 255)) {
                (Some(x), Some(y)) => Some((x as u8, y as u8)),
                _ => None,
            },
        }
    }
}

/// `acc` with the entry `(a, p)` added; an entry at the same address as
/// the last one replaces it.
pub open spec fn put_entry<P>(acc: Seq<(u128, P)>, a: u128, p: P) -> Seq<(u128, P)> {
    if acc.len() > 0 && acc[acc.len() - 1].0 == a {
        acc.subrange(0, acc.len() - 1).push((a, p))
    } else {
        acc.push((a, p))
    }
}

/// The entry lines read in order, after the address `last` and the
/// entries `acc`: the last address and all entries, or the first corrupt
/// line.
pub open spec fn entries_of_lines(
    lines: Seq<Seq<u8>>,
    last: u128,
    acc: Seq<(u128, Seq<u8>)>,
) -> Result<(u128, Seq<(u128, Seq<u8>)>), Seq<u8>>
    decreases lines.len(),
{
    if lines.len() == 0 {
        Ok((last, acc))
    } else {
        match entry_of_line(lines[0], last) {
            None => Err(lines[0]),
            Some((a, p)) => entries_of_lines(
                lines.subrange(1, lines.len() as int),
                a,
                put_entry(acc, a, p),
            ),
        }
    }
}

/// The entries with their paths decoded.
pub open spec fn decode_entries(acc: Seq<(u128, Seq<u8>)>) -> Seq<(u128, Seq<char>)> {
    acc.map_values(|e: (u128, Seq<u8>)| (e.0, decode_utf8(e.1)))
}

/// Why a text is not a disk layout file.
pub enum DlfFault {
    /// It is not UTF-8.
    NotUtf8,
    /// It has this many lines, fewer than three.
    TooFewLines(nat),
    /// This entry or ending line is corrupt.
    CorruptLine(Seq<u8>),
    /// This last line is not empty.
    CorruptFinalLine(Seq<u8>),
    /// This version line is corrupt.
    CorruptVersionLine(Seq<u8>),
}

/// The disk layout file that the text `b` holds, or why it holds none.
pub open spec fn dlf_parse(b: Seq<u8>) -> Result<DlfView, DlfFault> {
    if !valid_utf8(b) {
        Err(DlfFault::NotUtf8)
    } else {
        let lines = split_lines(b);
        let n = lines.len();
        if n < 3 {
            Err(DlfFault::TooFewLines(n))
        } else {
            match entries_of_lines(lines.subrange(1, n - 2), 0, seq![]) {
                Err(l) => Err(DlfFault::CorruptLine(l)),
                Ok((last, acc)) => match ending_of_line(lines[n - 2], last) {
                    None => Err(DlfFault::CorruptLine(lines[n - 2])),
                    Some(f) => if lines[n - 1].len() > 0 {
                        Err(DlfFault::CorruptFinalLine(lines[n - 1]))
                    } else {
                        match version_of_line(lines[0]) {
                            None => Err(DlfFault::CorruptVersionLine(lines[0])),
                            Some((major, minor)) => Ok(
                                DlfView {
                                    entries: decode_entries(put_entry(acc, f, seq![])),
                                    ending: f,
                                    major,
                                    minor,
                                },
                            ),
                        }
                    },
                },
            }
        }
    }
}

/// A path that an entry line holds and reads back: absolute, not ending
/// in a double quote, and without line breaks.
pub open spec fn path_text_ok(p: Seq<char>) -> bool {
    let b = encode_utf8(p);
    &&& is_absolute(b)
    &&& b[b.len() - 1] != 34u8
    &&& no_crlf(b)
}

/// A disk layout file whose text reads back as itself: its ending has
/// the empty path and every other entry a path that an entry line holds.
pub open spec fn dlf_well_formed(v: DlfView) -> bool {
    &&& dlf_inv(v)
    &&& v.entries[v.entries.len() - 1].1.len() == 0
    &&& forall|i: int| 0 <= i < v.entries.len() - 1 ==> #[trigger] path_text_ok(v.entries[i].1)
}

/// Read the entry line `b[ls..le]` after the address `last`: its address
/// and where its path lies in `b`.
pub fn read_entry_line(b: &[u8], ls: usize, le: usize, last: u128) -> (r: Option<(u128, usize, usize)>)
    requires
        ls <= le <= b@.len(),
    ensures
        entry_of_line(b@.subrange(ls as int, le as int), last) matches Some((a, p)) ==> (r matches Some(
            (a2, ps, pe),
        ) && a2 == a && ls < ps <= pe <= le && b@.subrange(ps as int, pe as int) == p && b@[ps - 1]
            < 128 && (pe == le || b@[pe as int] < 128)),
        entry_of_line(b@.subrange(ls as int, le as int), last) is None ==> r is None,
{
    let ghost line = b@.subrange(ls as int, le as int);
    match find_byte(b, ls, le, 44u8) {
        None => None,
        Some(k) => {
            proof {
                lemma_byte_from(line, 44u8, 0);
            }
            assert(line.subrange(0, k - ls) =~= b@.subrange(ls as int, k as int));
            assert(line.subrange(k - ls + 1, line.len() as int) =~= b@.subrange(k + 1, le as int));
            let hs = skip_hex_prefixes(b, ls, k);
            match parse_unsigned_range(b, hs, k, 16, u128::MAX) {
                None => None,
                Some(a) => {
                    if last != 0 && a <= last {
                        None
                    } else {
                        let ps = skip_leading(b, k + 1, le, 34u8);
                        let pe = skip_trailing(b, ps, le, 34u8);
                        assert(trim_quotes(b@.subrange(k + 1, le as int)) == b@.subrange(
                            ps as int,
                            pe as int,
                        ));
                        if ps < pe && b[ps] == 47u8 {
                            Some((a, ps, pe))
                        } else {
                            None
                        }
                    }
                },
            }
        },
    }
}

/// Read the ending line `b[ls..le]` after the address `last`: its address.
pub fn read_ending_line(b: &[u8], ls: usize, le: usize, last: u128) -> (r: Option<u128>)
    requires
        ls <= le <= b@.len(),
    ensures
        r == ending_of_line(b@.subrange(ls as int, le as int), last),
{
    let ghost line = b@.subrange(ls as int, le as int);
    match find_byte(b, ls, le, 44u8) {
        None => None,
        Some(k) => {
            proof {
                lemma_byte_from(line, 44u8, 0);
            }
            let ghost p = b@.subrange(k + 1, le as int);
            assert(line.subrange(0, k - ls) =~= b@.subrange(ls as int, k as int));
            assert(line.subrange(k - ls + 1, line.len() as int) =~= p);
            let hs = skip_hex_prefixes(b, ls, k);
            match parse_unsigned_range(b, hs, k, 16, u128::MAX) {
                None => None,
                Some(a) => {
                    let quotes = le - k == 3 && b[k + 1] == 34u8 && b[k + 2] == 34u8;
                    if quotes {
                        assert(p =~= seq![34u8, 34u8]);
                    } else {
                        assert(p.len() != 2 || p[0] != 34u8 || p[1] != 34u8);
                    }
                    if (last != 0 && a <= last) || !quotes {
                        None
                    } else {
                        Some(a)
                    }
                },
            }
        },
    }
}

/// Read the version line `b[ls..le]`: the major and minor versions.
pub fn read_version_line(b: &[u8], ls: usize, le: usize) -> (r: Option<(u8, u8)>)
    requires
        ls <= le <= b@.len(),
    ensures
        r == version_of_line(b@.subrange(ls as int, le as int)),
{
    let ghost line = b@.subrange(ls as int, le as int);
    if ls == le || b[ls] != 118u8 {
        return None;
    }
    let vs = skip_leading(b, ls, le, 118u8);
    let ghost rest = b@.subrange(vs as int, le as int);
    match find_byte(b, vs, le, 46u8) {
        None => None,
        Some(d) => {
            proof {
                lemma_byte_from(rest, 46u8, 0);
            }
            assert(rest.subrange(0, d - vs) =~= b@.subrange(vs as int, d as int));
            assert(rest.subrange(d - vs + 1, rest.len() as int) =~= b@.subrange(d + 1, le as int));
            match parse_unsigned_range(b, vs, d, 10, 255) {
                None => None,
                Some(x) => match parse_unsigned_range(b, d + 1, le, 10, 255) {
                    None => None,
                    Some(y) => Some((x as u8, y as u8)),
                },
            }
        },
    }
}

} // verus!
