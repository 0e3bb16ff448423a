//! Disk layout files (`.dlf`): the map from disk addresses to the host
//! files that a cat-dev reads its disk through.
//!
//! Paths in a disk layout file are UTF-8, and are only meaningful on the
//! host that wrote them.

pub mod format;
pub mod laws;
pub mod numbers;
pub mod syntax;

use crate::errors::FSError;
use crate::fsemul::dlf::format::{
    crlf, decode_entries, dlf_inv, dlf_parse, dlf_text, dlf_well_formed, entries_map, entries_of_lines,
    entries_text, entry_line, increasing, index_at_or_above, lemma_index_at_or_above,
    put_entry, read_ending_line, read_entry_line, read_version_line,
    version_line, DlfFault, DlfView,
};
use crate::fsemul::dlf::laws::{
    lemma_dlf_roundtrip, lemma_keeps_ending, lemma_parse_well_formed, lemma_upserted_inv,
};
use crate::fsemul::dlf::numbers::{lemma_radix_text, push_padded, push_radix_text, radix_text, zero_padded};
use crate::fsemul::dlf::syntax::{
    lemma_ascii_valid_utf8, lemma_valid_utf8_range, line_cut, line_cuts, split_lines,
};
use crate::fsemul::errors::{FSEmulAPIError, FSEmulFSError};
use crate::wire::{put_bytes, str_bytes, string_from_utf8, utf8_range};
use std::collections::BTreeMap;
use vstd::prelude::*;
use vstd::utf8::*;

verus! {

broadcast use vstd::laws_cmp::group_laws_cmp;

/// Addresses of a disk layout file stay below this.
pub const MAX_ADDRESS: u128 = 0x000F_FFFF_FFFF_FFFF_FFFF;

/// A disk layout file.
#[derive(Debug, PartialEq, Eq)]
pub struct DiskLayoutFile {
    /// Each address with its path on this host, in increasing address
    /// order.
    address_to_path_map: Vec<(u128, String)>,
    /// The address the layout ends at; the last one of the map.
    current_ending_address: u128,
    /// The major version of the file format (`<major>.<minor>`).
    major_version: u8,
    /// The minor version of the file format (`<major>.<minor>`).
    minor_version: u8,
}

/// Entries with their paths taken as text.
pub open spec fn entries_view(v: Seq<(u128, String)>) -> Seq<(u128, Seq<char>)> {
    v.map_values(|e: (u128, String)| (e.0, e.1@))
}

impl View for DiskLayoutFile {
    type V = DlfView;

    closed spec fn view(&self) -> DlfView {
        DlfView {
            entries: entries_view(self.address_to_path_map@),
            ending: self.current_ending_address,
            major: self.major_version,
            minor: self.minor_version,
        }
    }
}

/// `v` with `path` stored at `address`: it replaces the path there, or
/// is added in address order, and an address past the ending becomes the
/// ending.
pub open spec fn upserted(v: DlfView, address: u128, path: Seq<char>) -> DlfView {
    let e = v.entries;
    let k = index_at_or_above(e, address, 0);
    DlfView {
        entries: if k < e.len() && e[k].0 == address {
            e.update(k, (address, path))
        } else {
            e.insert(k, (address, path))
        },
        ending: if address > v.ending {
            address
        } else {
            v.ending
        },
        ..v
    }
}

/// `v` without the entry at `address`, if it has one.
pub open spec fn removed(v: DlfView, address: u128) -> DlfView {
    let e = v.entries;
    let k = index_at_or_above(e, address, 0);
    DlfView {
        entries: if k < e.len() && e[k].0 == address {
            e.remove(k)
        } else {
            e
        },
        ..v
    }
}

/// Where an address of a disk layout file leads.
pub enum LookupView {
    /// It starts the file at this path.
    Exact(Seq<char>),
    /// It lies this many bytes into the file at this path, if that file is
    /// longer than that.
    Within(Seq<char>, u64),
    /// No file holds it.
    Outside,
}

/// Where `requested` leads in `v`: the path stored at it; else, before the
/// first address above it, the path of the address before that one (the
/// ending's path, counted from address zero, when there is none before),
/// at the distance from that address, at most `u64::MAX`; else nowhere.
pub open spec fn lookup(v: DlfView, requested: u128) -> LookupView {
    let e = v.entries;
    let k = index_at_or_above(e, requested, 0);
    if k >= e.len() {
        LookupView::Outside
    } else if e[k].0 == requested {
        LookupView::Exact(e[k].1)
    } else {
        let from: u128 = if k == 0 {
            0
        } else {
            e[k - 1].0
        };
        let path = if k == 0 {
            e[e.len() - 1].1
        } else {
            e[k - 1].1
        };
        let distance = requested - from;
        LookupView::Within(
            path,
            if distance > u64::MAX {
                u64::MAX
            } else {
                distance as u64
            },
        )
    }
}

/// Where an address of a disk layout file leads.
#[derive(Clone, Debug, PartialEq, Eq)]
pub enum AddressLookup {
    /// It starts the file at this path.
    Exact(String),
    /// It lies this many bytes into the file at this path, if that file is
    /// longer than that.
    Within(String, u64),
    /// No file holds it.
    Outside,
}

impl View for AddressLookup {
    type V = LookupView;

    open spec fn view(&self) -> LookupView {
        match self {
            AddressLookup::Exact(p) => LookupView::Exact(p@),
            AddressLookup::Within(p, offset) => LookupView::Within(p@, *offset),
            AddressLookup::Outside => LookupView::Outside,
        }
    }
}

impl AddressLookup {
    /// The path and offset an address leads to, given the length of the
    /// file it may lie within (nothing when that file cannot be read): an
    /// exact match at offset zero, a position within a file that is longer
    /// than the offset, and otherwise nothing.
    pub fn resolve(self, file_len: Option<u64>) -> (r: Option<(String, u64)>)
        ensures
            match self@ {
                LookupView::Exact(p) => r matches Some((q, o)) && q@ == p && o == 0,
                LookupView::Within(p, offset) => match file_len {
                    Some(len) if len > offset => r matches Some((q, o)) && q@ == p && o == offset,
                    _ => r is None,
                },
                LookupView::Outside => r is None,
            },
    {
        match self {
            AddressLookup::Exact(p) => Some((p, 0)),
            AddressLookup::Within(p, offset) => match file_len {
                Some(len) => if len > offset {
                    Some((p, offset))
                } else {
                    None
                },
                None => None,
            },
            AddressLookup::Outside => None,
        }
    }
}

/// The outcome of reading the bytes `b` as a disk layout file.
pub open spec fn parse_outcome(r: Result<DiskLayoutFile, FSError>, b: Seq<u8>) -> bool {
    match dlf_parse(b) {
        Ok(v) => r matches Ok(d) && d@ == v,
        Err(DlfFault::NotUtf8) => r matches Err(FSError::Utf8Expected(_)),
        Err(DlfFault::TooFewLines(n)) => r matches Err(FSError::TooFewLines(had, need)) && had == n
            && need == 3,
        Err(DlfFault::CorruptLine(l)) => r matches Err(
            FSError::FSEmul(FSEmulFSError::DlfCorruptLine(s)),
        ) && s@ == decode_utf8(l),
        Err(DlfFault::CorruptFinalLine(l)) => r matches Err(
            FSError::FSEmul(FSEmulFSError::DlfCorruptFinalLine(s)),
        ) && s@ == decode_utf8(l),
        Err(DlfFault::CorruptVersionLine(l)) => r matches Err(
            FSError::FSEmul(FSEmulFSError::DlfCorruptVersionLine(s)),
        ) && s@ == decode_utf8(l),
    }
}

/// The text of `b[start..end]`, which is valid UTF-8.
fn text_of(b: &[u8], start: usize, end: usize) -> (r: String)
    requires
        start <= end <= b@.len(),
        valid_utf8(b@.subrange(start as int, end as int)),
    ensures
        r@ == decode_utf8(b@.subrange(start as int, end as int)),
{
    match utf8_range(b, start, end) {
        Ok(s) => s,
        Err(_) => unreached(),
    }
}

/// The text of the line `c` of the valid UTF-8 `b`.
fn line_text(b: &[u8], c: (usize, usize)) -> (r: String)
    requires
        valid_utf8(b@),
        line_cut(b@, c),
    ensures
        r@ == decode_utf8(b@.subrange(c.0 as int, c.1 as int)),
{
    proof {
        lemma_valid_utf8_range(b@, c.0 as int, c.1 as int);
    }
    text_of(b, c.0, c.1)
}

/// Adding an entry commutes with decoding the paths.
proof fn lemma_put_entry_view(
    v: Seq<(u128, String)>,
    acc: Seq<(u128, Seq<u8>)>,
    a: u128,
    p: String,
    pb: Seq<u8>,
)
    requires
        entries_view(v) == decode_entries(acc),
        p@ == decode_utf8(pb),
    ensures
        entries_view(put_entry(v, a, p)) == decode_entries(put_entry(acc, a, pb)),
{
    assert(v.len() == entries_view(v).len());
    assert(acc.len() == decode_entries(acc).len());
    let x = entries_view(put_entry(v, a, p));
    let y = decode_entries(put_entry(acc, a, pb));
    if v.len() > 0 {
        assert(entries_view(v)[v.len() - 1] == decode_entries(acc)[acc.len() - 1]);
    }
    if v.len() > 0 && v[v.len() - 1].0 == a {
        assert(x.len() == y.len());
        assert forall|i: int| 0 <= i < x.len() implies x[i] == y[i] by {
            if i < v.len() - 1 {
                assert(entries_view(v)[i] == decode_entries(acc)[i]);
            }
        }
    } else {
        assert(x.len() == y.len());
        assert forall|i: int| 0 <= i < x.len() implies x[i] == y[i] by {
            if i < v.len() {
                assert(entries_view(v)[i] == decode_entries(acc)[i]);
            }
        }
    }
    assert(x =~= y);
}

impl Clone for DiskLayoutFile {
    fn clone(&self) -> (r: Self)
        ensures
            r@ == self@,
    {
        proof {
            use_type_invariant(self);
        }
        let mut map: Vec<(u128, String)> = Vec::new();
        let mut i: usize = 0;
        while i < self.address_to_path_map.len()
            invariant
                i <= self.address_to_path_map@.len(),
                map@.len() == i,
                forall|j: int|
                    0 <= j < i ==> #[trigger] map@[j].0 == self.address_to_path_map@[j].0
                        && map@[j].1@ == self.address_to_path_map@[j].1@,
            decreases self.address_to_path_map@.len() - i,
        {
            let a = self.address_to_path_map[i].0;
            let p = self.address_to_path_map[i].1.clone();
            map.push((a, p));
            i = i + 1;
        }
        assert(entries_view(map@) =~= entries_view(self.address_to_path_map@));
        DiskLayoutFile {
            address_to_path_map: map,
            current_ending_address: self.current_ending_address,
            major_version: self.major_version,
            minor_version: self.minor_version,
        }
    }
}

/// Add the entry `(a, p)` to `entries`, replacing the last one when it has
/// the same address.
fn push_entry(entries: &mut Vec<(u128, String)>, a: u128, p: String)
    ensures
        final(entries)@ == put_entry(old(entries)@, a, p),
{
    let n = entries.len();
    if n > 0 && entries[n - 1].0 == a {
        entries.pop();
    }
    entries.push((a, p));
    assert(entries@ =~= put_entry(old(entries)@, a, p));
}

impl DiskLayoutFile {
    #[verifier::type_invariant]
    closed spec fn keeps_layout(self) -> bool {
        dlf_inv(self@)
    }

    /// A disk layout file with only an ending, at `max_address`, in format
    /// version 1.0.
    pub fn new(max_address: u128) -> (r: Self)
        ensures
            r@ == (DlfView {
                entries: seq![(max_address, Seq::<char>::empty())],
                ending: max_address,
                major: 1,
                minor: 0,
            }),
            dlf_inv(r@),
    {
        let mut map: Vec<(u128, String)> = Vec::new();
        map.push((max_address, String::new()));
        assert(entries_view(map@) =~= seq![(max_address, Seq::<char>::empty())]);
        DiskLayoutFile {
            address_to_path_map: map,
            current_ending_address: max_address,
            major_version: 1,
            minor_version: 0,
        }
    }

    /// The version as the file writes it, such as `v1.00`.
    pub fn version(&self) -> (r: String)
        ensures
            r@ == decode_utf8(version_line(self@.major, self@.minor)),
    {
        let mut b: Vec<u8> = Vec::new();
        push_version_line(&mut b, self.major_version, self.minor_version);
        proof {
            lemma_version_line_ascii(self.major_version, self.minor_version);
            assert(b@ =~= version_line(self.major_version, self.minor_version));
            lemma_ascii_valid_utf8(b@);
        }
        match string_from_utf8(b) {
            Ok(s) => s,
            Err(_) => unreached(),
        }
    }

    /// The major version of the file format.
    pub fn major_version(&self) -> (r: u8)
        ensures
            r == self@.major,
    {
        self.major_version
    }

    /// The minor version of the file format.
    pub fn minor_version(&self) -> (r: u8)
        ensures
            r == self@.minor,
    {
        self.minor_version
    }

    /// The address the layout ends at.
    pub fn max_address(&self) -> (r: u128)
        ensures
            r == self@.ending,
    {
        self.current_ending_address
    }

    /// The map from each address to its path on this host.
    pub fn address_to_path_map(&self) -> (r: BTreeMap<u128, String>)
        ensures
            r@.dom() == entries_map(self@.entries).dom(),
            forall|a: u128| #[trigger] r@.contains_key(a) ==> r@[a]@ == entries_map(self@.entries)[a],
            r@.contains_key(self@.ending),
            forall|a: u128| #[trigger] r@.contains_key(a) ==> a <= self@.ending,
    {
        proof {
            use_type_invariant(self);
            lemma_keeps_ending(self@, self@.ending);
            assert forall|a: u128| #[trigger] entries_map(self@.entries).contains_key(a) implies a <= self@.ending by {
                lemma_keeps_ending(self@, a);
            }
        }
        let mut m: BTreeMap<u128, String> = BTreeMap::new();
        let ghost e = self@.entries;
        let mut i: usize = 0;
        while i < self.address_to_path_map.len()
            invariant
                i <= self.address_to_path_map@.len(),
                e == entries_view(self.address_to_path_map@),
                m@.dom() == entries_map(e.subrange(0, i as int)).dom(),
                forall|a: u128| #[trigger]
                    m@.contains_key(a) ==> m@[a]@ == entries_map(e.subrange(0, i as int))[a],
            decreases self.address_to_path_map@.len() - i,
        {
            let (a, p) = &self.address_to_path_map[i];
            m.insert(*a, p.clone());
            assert(e.subrange(0, i + 1).subrange(0, i as int) =~= e.subrange(0, i as int));
            assert(m@.dom() =~= entries_map(e.subrange(0, i + 1)).dom());
            i = i + 1;
        }
        assert(e.subrange(0, i as int) =~= e);
        m
    }

    /// Where `requested` leads: see `lookup`.
    pub fn lookup_address(&self, requested: u128) -> (r: AddressLookup)
        ensures
            r@ == lookup(self@, requested),
    {
        proof {
            use_type_invariant(self);
        }
        let ghost e = self@.entries;
        let n = self.address_to_path_map.len();
        let mut k: usize = 0;
        while k < n && self.address_to_path_map[k].0 < requested
            invariant
                k <= n == self.address_to_path_map@.len(),
                e == entries_view(self.address_to_path_map@),
                index_at_or_above(e, requested, 0) == index_at_or_above(e, requested, k as int),
            decreases n - k,
        {
            k = k + 1;
        }
        proof {
            lemma_index_at_or_above(e, requested, k as int);
            lemma_index_at_or_above(e, requested, 0);
        }
        if k >= n {
            AddressLookup::Outside
        } else if self.address_to_path_map[k].0 == requested {
            AddressLookup::Exact(self.address_to_path_map[k].1.clone())
        } else {
            let (from, path) = if k == 0 {
                (0u128, self.address_to_path_map[n - 1].1.clone())
            } else {
                (self.address_to_path_map[k - 1].0, self.address_to_path_map[k - 1].1.clone())
            };
            proof {
                if k > 0 {
                    assert(e[k - 1].0 == self.address_to_path_map@[k - 1].0);
                }
            }
            let distance = requested - from;
            let offset = if distance > u64::MAX as u128 {
                u64::MAX
            } else {
                distance as u64
            };
            AddressLookup::Within(path, offset)
        }
    }

    /// Refuse, before anything is stored, a path for `address` that
    /// `upsert_addressed_path` would refuse: an address of at least
    /// `MAX_ADDRESS`, or one past the ending that is not the empty path of
    /// a new ending.
    pub fn check_upsert_address(&self, address: u128, path_is_empty: bool) -> (r: Result<
        (),
        FSEmulAPIError,
    >)
        ensures
            r == upsert_check(self@, address, path_is_empty),
    {
        if address >= MAX_ADDRESS {
            return Err(FSEmulAPIError::DlfAddressTooLarge(address, MAX_ADDRESS));
        }
        if address > self.current_ending_address && !path_is_empty {
            return Err(FSEmulAPIError::DlfUpsertEndingFirst);
        }
        Ok(())
    }

    /// Store `path`, a canonical path on this host, at `address`; an empty
    /// path past the ending moves the ending there.
    pub fn upsert_addressed_path(&mut self, address: u128, path: String) -> (r: Result<
        (),
        FSEmulAPIError,
    >)
        ensures
            r == upsert_check(old(self)@, address, path@.len() == 0),
            r is Err ==> final(self)@ == old(self)@,
            r is Ok ==> final(self)@ == upserted(old(self)@, address, path@),
            dlf_inv(final(self)@),
    {
        proof {
            use_type_invariant(&*self);
        }
        let checked = self.check_upsert_address(address, path.as_str().is_empty());
        if checked.is_err() {
            return checked;
        }
        let ghost e = self@.entries;
        let ghost v = self@;
        let n = self.address_to_path_map.len();
        let mut k: usize = 0;
        while k < n && self.address_to_path_map[k].0 < address
            invariant
                k <= n == self.address_to_path_map@.len(),
                e == entries_view(self.address_to_path_map@),
                index_at_or_above(e, address, 0) == index_at_or_above(e, address, k as int),
            decreases n - k,
        {
            k = k + 1;
        }
        proof {
            lemma_index_at_or_above(e, address, k as int);
            lemma_index_at_or_above(e, address, 0);
        }
        let ending = self.current_ending_address;
        let mut map: Vec<(u128, String)> = Vec::new();
        map.push((ending, String::new()));
        std::mem::swap(&mut map, &mut self.address_to_path_map);
        let ghost pv = path@;
        if k < n && map[k].0 == address {
            map.set(k, (address, path));
            assert(entries_view(map@) =~= e.update(k as int, (address, pv)));
        } else {
            map.insert(k, (address, path));
            assert(entries_view(map@) =~= e.insert(k as int, (address, pv)));
        }
        let new_ending = if address > ending {
            address
        } else {
            ending
        };
        proof {
            lemma_upserted_inv(v, address, pv);
        }
        *self = DiskLayoutFile {
            address_to_path_map: map,
            current_ending_address: new_ending,
            major_version: self.major_version,
            minor_version: self.minor_version,
        };
        assert(self@ =~= upserted(v, address, pv));
        Ok(())
    }

    /// Remove the path at `address`, unless `address` is the ending, which
    /// every disk layout file keeps.
    pub fn remove_path_at_address(&mut self, address: u128) -> (r: Result<(), FSEmulAPIError>)
        ensures
            address == old(self)@.ending ==> r == Err::<(), FSEmulAPIError>(
                FSEmulAPIError::DlfMustHaveEnding,
            ) && final(self)@ == old(self)@,
            address != old(self)@.ending ==> r is Ok && final(self)@ == removed(old(self)@, address),
            dlf_inv(final(self)@),
    {
        proof {
            use_type_invariant(&*self);
        }
        if address == self.current_ending_address {
            return Err(FSEmulAPIError::DlfMustHaveEnding);
        }
        let ghost e = self@.entries;
        let ghost v = self@;
        let n = self.address_to_path_map.len();
        let mut k: usize = 0;
        while k < n && self.address_to_path_map[k].0 < address
            invariant
                k <= n == self.address_to_path_map@.len(),
                e == entries_view(self.address_to_path_map@),
                index_at_or_above(e, address, 0) == index_at_or_above(e, address, k as int),
            decreases n - k,
        {
            k = k + 1;
        }
        if k < n && self.address_to_path_map[k].0 == address {
            let ending = self.current_ending_address;
            let mut map: Vec<(u128, String)> = Vec::new();
            map.push((ending, String::new()));
            std::mem::swap(&mut map, &mut self.address_to_path_map);
            map.remove(k);
            assert(entries_view(map@) =~= e.remove(k as int));
            proof {
                assert(k != n - 1);
            }
            *self = DiskLayoutFile {
                address_to_path_map: map,
                current_ending_address: ending,
                major_version: self.major_version,
                minor_version: self.minor_version,
            };
        }
        assert(self@ =~= removed(v, address));
        Ok(())
    }

    /// The text of this disk layout file.
    pub fn to_bytes(&self) -> (r: Vec<u8>)
        ensures
            r@ == dlf_text(self@),
            dlf_well_formed(self@) ==> dlf_parse(r@) == Ok::<DlfView, DlfFault>(self@),
    {
        proof {
            if dlf_well_formed(self@) {
                lemma_dlf_roundtrip(self@);
            }
        }
        let mut out: Vec<u8> = Vec::new();
        push_version_line(&mut out, self.major_version, self.minor_version);
        out.push(13u8);
        out.push(10u8);
        let ghost head = version_line(self@.major, self@.minor) + crlf();
        assert(out@ =~= head);
        let ghost e = self@.entries;
        let mut i: usize = 0;
        while i < self.address_to_path_map.len()
            invariant
                i <= self.address_to_path_map@.len(),
                e == entries_view(self.address_to_path_map@),
                out@ == head + entries_text(e.subrange(0, i as int)),
            decreases self.address_to_path_map@.len() - i,
        {
            let (a, p) = &self.address_to_path_map[i];
            let ghost before = out@;
            push_entry_line(&mut out, *a, p.as_str());
            out.push(13u8);
            out.push(10u8);
            assert(e.subrange(0, i + 1).subrange(0, i as int) =~= e.subrange(0, i as int));
            assert(out@ =~= head + entries_text(e.subrange(0, i + 1)));
            i = i + 1;
        }
        assert(e.subrange(0, i as int) =~= e);
        out
    }

    /// Read a disk layout file from its text.
    pub fn try_from_bytes(value: &[u8]) -> (r: Result<DiskLayoutFile, FSError>)
        ensures
            parse_outcome(r, value@),
            r matches Ok(d) ==> dlf_well_formed(d@),
    {
        proof {
            if dlf_parse(value@) is Ok {
                lemma_parse_well_formed(value@);
            }
        }
        let mut copy: Vec<u8> = Vec::new();
        put_bytes(&mut copy, value);
        assert(copy@ =~= value@);
        match string_from_utf8(copy) {
            Err(e) => {
                return Err(FSError::Utf8Expected(e));
            },
            Ok(_) => {},
        }
        let ghost b = value@;
        let ghost lines = split_lines(b);
        let cuts = line_cuts(value);
        let n = cuts.len();
        if n < 3 {
            return Err(FSError::TooFewLines(n, 3));
        }
        let ghost mid = lines.subrange(1, n - 2);
        let mut entries: Vec<(u128, String)> = Vec::new();
        let ghost mut acc: Seq<(u128, Seq<u8>)> = seq![];
        let mut last: u128 = 0;
        let mut i: usize = 1;
        while i < n - 2
            invariant
                1 <= i <= n - 2,
                n == cuts@.len() == lines.len(),
                b == value@,
                lines == split_lines(b),
                mid == lines.subrange(1, n - 2),
                valid_utf8(b),
                forall|j: int|
                    0 <= j < cuts@.len() ==> line_cut(b, #[trigger] cuts@[j]) && b.subrange(
                        cuts@[j].0 as int,
                        cuts@[j].1 as int,
                    ) == lines[j],
                entries_of_lines(mid, 0, seq![]) == entries_of_lines(
                    lines.subrange(i as int, n - 2),
                    last,
                    acc,
                ),
                entries_view(entries@) == decode_entries(acc),
                increasing(acc),
                acc.len() > 0 ==> acc[acc.len() - 1].0 == last,
                acc.len() == 0 ==> last == 0,
            decreases n - 2 - i,
        {
            let c = cuts[i];
            let ghost rest = lines.subrange(i as int, n - 2);
            assert(rest[0] == lines[i as int]);
            assert(rest.subrange(1, rest.len() as int) =~= lines.subrange(i + 1, n - 2));
            match read_entry_line(value, c.0, c.1, last) {
                None => {
                    return Err(FSError::FSEmul(FSEmulFSError::DlfCorruptLine(line_text(value, c))));
                },
                Some((a, ps, pe)) => {
                    proof {
                        lemma_valid_utf8_range(b, ps as int, pe as int);
                    }
                    let p = text_of(value, ps, pe);
                    let ghost pb = b.subrange(ps as int, pe as int);
                    let ghost before = entries@;
                    let ghost pv = p;
                    push_entry(&mut entries, a, p);
                    proof {
                        let nacc = put_entry(acc, a, pb);
                        lemma_put_entry_view(before, acc, a, pv, pb);
                        assert(increasing(nacc)) by {
                            if acc.len() > 0 && acc[acc.len() - 1].0 == a {
                            } else {
                                assert forall|x: int, y: int| 0 <= x < y < nacc.len() implies #[trigger] nacc[x].0
                                    < #[trigger] nacc[y].0 by {
                                    if y == nacc.len() - 1 && acc.len() > 0 {
                                        assert(acc[x].0 <= acc[acc.len() - 1].0);
                                    }
                                }
                            }
                        }
                        acc = nacc;
                    }
                    last = a;
                },
            }
            i = i + 1;
        }
        assert(lines.subrange(i as int, n - 2).len() == 0);
        let ec = cuts[n - 2];
        let f = match read_ending_line(value, ec.0, ec.1, last) {
            None => {
                return Err(FSError::FSEmul(FSEmulFSError::DlfCorruptLine(line_text(value, ec))));
            },
            Some(f) => f,
        };
        let fc = cuts[n - 1];
        if fc.1 > fc.0 {
            return Err(FSError::FSEmul(FSEmulFSError::DlfCorruptFinalLine(line_text(value, fc))));
        }
        let vc = cuts[0];
        let (major, minor) = match read_version_line(value, vc.0, vc.1) {
            None => {
                return Err(FSError::FSEmul(FSEmulFSError::DlfCorruptVersionLine(line_text(value, vc))));
            },
            Some(v) => v,
        };
        let ghost before = entries@;
        let empty = String::new();
        let ghost ev = empty;
        push_entry(&mut entries, f, empty);
        proof {
            let nacc = put_entry(acc, f, Seq::<u8>::empty());
            assert(decode_utf8(Seq::<u8>::empty()) =~= Seq::<char>::empty());
            lemma_put_entry_view(before, acc, f, ev, Seq::<u8>::empty());
            assert(increasing(nacc)) by {
                if acc.len() > 0 && acc[acc.len() - 1].0 == f {
                } else {
                    assert forall|x: int, y: int| 0 <= x < y < nacc.len() implies #[trigger] nacc[x].0
                        < #[trigger] nacc[y].0 by {
                        if y == nacc.len() - 1 && acc.len() > 0 {
                            assert(acc[x].0 <= acc[acc.len() - 1].0);
                        }
                    }
                }
            }
        }
        Ok(
            DiskLayoutFile {
                address_to_path_map: entries,
                current_ending_address: f,
                major_version: major,
                minor_version: minor,
            },
        )
    }
}

/// What `check_upsert_address` answers.
pub open spec fn upsert_check(v: DlfView, address: u128, path_is_empty: bool) -> Result<
    (),
    FSEmulAPIError,
> {
    if address >= MAX_ADDRESS {
        Err(FSEmulAPIError::DlfAddressTooLarge(address, MAX_ADDRESS))
    } else if address > v.ending && !path_is_empty {
        Err(FSEmulAPIError::DlfUpsertEndingFirst)
    } else {
        Ok(())
    }
}

/// The version line is ASCII.
proof fn lemma_version_line_ascii(major: u8, minor: u8)
    ensures
        forall|i: int| 0 <= i < version_line(major, minor).len() ==> version_line(major, minor)[i] < 128,
{
    lemma_radix_text(major as nat, 10);
    lemma_radix_text(minor as nat, 10);
    let t = radix_text(minor as nat, 10);
    let z = zero_padded(t, 2);
    assert forall|i: int| 0 <= i < z.len() implies z[i] < 128 by {
        if t.len() < 2 && i >= 2 - t.len() {
            assert(z[i] == t[i - (2 - t.len())]);
        } else if t.len() >= 2 {
            assert(z[i] == t[i]);
        }
    }
}

/// Append the version line.
fn push_version_line(out: &mut Vec<u8>, major: u8, minor: u8)
    ensures
        final(out)@ == old(out)@ + version_line(major, minor),
{
    out.push(118u8);
    push_radix_text(out, major as u128, 10);
    out.push(46u8);
    push_padded(out, minor as u128, 10, 2);
    assert(out@ =~= old(out)@ + version_line(major, minor));
}

/// Append the line of the entry `(address, path)`.
fn push_entry_line(out: &mut Vec<u8>, address: u128, path: &str)
    ensures
        final(out)@ == old(out)@ + entry_line(address, path@),
{
    out.push(48u8);
    out.push(120u8);
    push_padded(out, address, 16, 16);
    out.push(44u8);
    out.push(34u8);
    put_bytes(out, str_bytes(path));
    out.push(34u8);
    assert(out@ =~= old(out)@ + entry_line(address, path@));
}

/// Law: reading with `DiskLayoutFile::try_from_bytes` what
/// `DiskLayoutFile::to_bytes` writes of a well formed layout gives that
/// layout back.
pub proof fn lemma_written_layout_reads_back(
    d: DiskLayoutFile,
    written: Seq<u8>,
    read: Result<DiskLayoutFile, FSError>,
)
    requires
        dlf_well_formed(d@),
        written == dlf_text(d@),
        parse_outcome(read, written),
    ensures
        read matches Ok(e) && e@ == d@,
{
    lemma_dlf_roundtrip(d@);
}

} // verus!
