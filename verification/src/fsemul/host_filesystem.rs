//! Where a path asked for by a cat-dev leads on the host.
//!
//! Paths are taken as the bytes a Unix host names them by. A cat-dev names
//! the emulated directories `/%MLC_EMU_DIR`, `/%SLC_EMU_DIR`,
//! `/%DISC_EMU_DIR` and `/%SAVE_EMU_DIR`, which live under `data` in the
//! Cafe SDK directory, and may prefix any path with `/vol/pc`.

use crate::fsemul::dlf::numbers::{push_padded, radix_text, zero_padded};
use crate::fsemul::dlf::syntax::{byte_from, find_byte, lemma_byte_from, lemma_valid_utf8_suffix};
use crate::fsemul::pcfs::errors::PCFSApiError;
use crate::wire::{copy_range, put_bytes, str_bytes, utf8_bytes, utf8_range};
use vstd::prelude::*;
use vstd::utf8::*;

verus! {

/// A location that has been resolved, and lies in one of the mounted
/// paths.
#[derive(Clone, Debug, PartialEq, Eq)]
pub struct FilesystemLocation {
    /// The final resolved path, which may not exist.
    resolved_path: String,
    /// The closest existing path on the way to the resolved one, enough to
    /// confirm that it lies in the same directory.
    closest_resolved_path: String,
    /// Whether the canonical path is the resolved path itself.
    canonicalized_is_exact: bool,
}

impl View for FilesystemLocation {
    /// (resolved path, closest resolved path, canonical path is exact)
    type V = (Seq<char>, Seq<char>, bool);

    closed spec fn view(&self) -> (Seq<char>, Seq<char>, bool) {
        (self.resolved_path@, self.closest_resolved_path@, self.canonicalized_is_exact)
    }
}

impl FilesystemLocation {
    pub fn new(resolved_path: String, closest_resolved_path: String, canonicalized_is_exact: bool) -> (r: Self)
        ensures
            r@ == (resolved_path@, closest_resolved_path@, canonicalized_is_exact),
    {
        FilesystemLocation { resolved_path, closest_resolved_path, canonicalized_is_exact }
    }

    pub fn resolved_path(&self) -> (r: &String)
        ensures
            r@ == self@.0,
    {
        &self.resolved_path
    }

    pub fn closest_resolved_path(&self) -> (r: &String)
        ensures
            r@ == self@.1,
    {
        &self.closest_resolved_path
    }

    pub fn canonicalized_is_exact(&self) -> (r: bool)
        ensures
            r == self@.2,
    {
        self.canonicalized_is_exact
    }
}

/// `s` starts with `p`.
pub open spec fn starts_with(s: Seq<u8>, p: Seq<u8>) -> bool {
    s.len() >= p.len() && s.subrange(0, p.len() as int) == p
}

/// `s` without all the `p` it starts with; an empty `p` strips nothing.
pub open spec fn strip_prefix_all(s: Seq<u8>, p: Seq<u8>) -> Seq<u8>
    decreases s.len(),
{
    if p.len() > 0 && starts_with(s, p) {
        strip_prefix_all(s.subrange(p.len() as int, s.len() as int), p)
    } else {
        s
    }
}

/// `s` with every `from` made `to`.
pub open spec fn replace_byte(s: Seq<u8>, from: u8, to: u8) -> Seq<u8> {
    s.map_values(|b: u8| if b == from { to } else { b })
}

/// The pieces of `s` from `i` on, split at each `c`.
pub open spec fn parts_from(s: Seq<u8>, c: u8, i: int) -> Seq<Seq<u8>>
    decreases s.len() - i,
{
    if i < 0 || i > s.len() {
        seq![]
    } else {
        match byte_from(s, c, i) {
            None => seq![s.subrange(i, s.len() as int)],
            Some(k) => if k < i || k >= s.len() {
                seq![]
            } else {
                seq![s.subrange(i, k)] + parts_from(s, c, k + 1)
            },
        }
    }
}

/// `base` with the path piece `part` pushed onto it: a separator goes
/// between them unless `base` is empty or already ends with one.
pub open spec fn push_part(base: Seq<u8>, part: Seq<u8>) -> Seq<u8> {
    if base.len() == 0 || base[base.len() - 1] == 47u8 {
        base + part
    } else {
        base + seq![47u8] + part
    }
}

/// `base` with each of `parts` pushed onto it in turn.
pub open spec fn push_parts(base: Seq<u8>, parts: Seq<Seq<u8>>) -> Seq<u8>
    decreases parts.len(),
{
    if parts.len() == 0 {
        base
    } else {
        push_part(push_parts(base, parts.subrange(0, parts.len() - 1)), parts[parts.len() - 1])
    }
}

pub open spec fn vol_pc() -> Seq<u8> {
    seq![47u8, 118u8, 111u8, 108u8, 47u8, 112u8, 99u8]
}

pub open spec fn network_prefix() -> Seq<u8> {
    seq![47u8, 37u8, 78u8, 69u8, 84u8, 87u8, 79u8, 82u8, 75u8]
}

/// `/%<NAME>_EMU_DIR`, for the upper case name.
pub open spec fn emu_prefix(upper: Seq<u8>) -> Seq<u8> {
    seq![47u8, 37u8] + upper + seq![95u8, 69u8, 77u8, 85u8, 95u8, 68u8, 73u8, 82u8]
}

pub open spec fn data_dir() -> Seq<u8> {
    seq![100u8, 97u8, 116u8, 97u8]
}

/// The request path without its `/vol/pc` prefixes.
pub open spec fn unprefixed(requested: Seq<u8>) -> Seq<u8> {
    strip_prefix_all(requested, vol_pc())
}

/// A request for a network share, which is not served.
pub open spec fn network_request(requested: Seq<u8>) -> bool {
    starts_with(unprefixed(requested), network_prefix())
}

/// Where the rest of a path under an emulated directory leads: under
/// `data/<dir>` of the Cafe SDK directory, after leading `/` and then `\`
/// are dropped and every `\` made `/`, piece by piece.
pub open spec fn emu_dir_path(cafe_sdk: Seq<u8>, dir: Seq<u8>, rest: Seq<u8>) -> Seq<u8> {
    let cleaned = replace_byte(strip_prefix_all(strip_prefix_all(rest, seq![47u8]), seq![92u8]), 92u8, 47u8);
    push_parts(push_parts(cafe_sdk, seq![data_dir(), dir]), parts_from(cleaned, 47u8, 0))
}

/// The emulated directories: upper case name and directory name.
pub open spec fn emu_dirs() -> Seq<(Seq<u8>, Seq<u8>)> {
    seq![
        (seq![77u8, 76u8, 67u8], seq![109u8, 108u8, 99u8]),
        (seq![83u8, 76u8, 67u8], seq![115u8, 108u8, 99u8]),
        (seq![68u8, 73u8, 83u8, 67u8], seq![100u8, 105u8, 115u8, 99u8]),
        (seq![83u8, 65u8, 86u8, 69u8], seq![115u8, 97u8, 118u8, 101u8]),
    ]
}

/// Where a request path leads before it is made canonical: under the first
/// emulated directory it starts with, or the path itself.
pub open spec fn path_mapping(cafe_sdk: Seq<u8>, requested: Seq<u8>) -> Seq<u8> {
    let p = unprefixed(requested);
    mapped_from(cafe_sdk, p, 0)
}

/// `p` mapped under the first emulated directory, from the `i`th on, that
/// it starts with.
pub open spec fn mapped_from(cafe_sdk: Seq<u8>, p: Seq<u8>, i: int) -> Seq<u8>
    decreases 4 - i,
{
    if i < 0 || i >= 4 {
        p
    } else if starts_with(p, emu_prefix(emu_dirs()[i].0)) {
        emu_dir_path(cafe_sdk, emu_dirs()[i].1, strip_prefix_all(p, emu_prefix(emu_dirs()[i].0)))
    } else {
        mapped_from(cafe_sdk, p, i + 1)
    }
}

/// Pushing pieces one after the other.
proof fn lemma_push_parts_front(base: Seq<u8>, x: Seq<u8>, rest: Seq<Seq<u8>>)
    ensures
        push_parts(base, seq![x] + rest) == push_parts(push_part(base, x), rest),
    decreases rest.len(),
{
    let all = seq![x] + rest;
    if rest.len() == 0 {
        assert(all.subrange(0, 0) =~= Seq::<Seq<u8>>::empty());
        assert(push_parts(base, all.subrange(0, 0)) == base);
        assert(all[0] == x);
        assert(push_parts(base, all) == push_part(base, x));
        assert(push_parts(push_part(base, x), rest) == push_part(base, x));
    } else {
        let r1 = rest.subrange(0, rest.len() - 1);
        lemma_push_parts_front(base, x, r1);
        assert(all.subrange(0, all.len() - 1) =~= seq![x] + r1);
        assert(all[all.len() - 1] == rest[rest.len() - 1]);
        assert(push_parts(base, all) == push_part(push_parts(base, seq![x] + r1), rest[rest.len() - 1]));
        assert(push_parts(push_part(base, x), rest) == push_part(
            push_parts(push_part(base, x), r1),
            rest[rest.len() - 1],
        ));
    }
}

/// `b[start..]` starts with `p`.
fn has_prefix_at(b: &[u8], start: usize, p: &[u8]) -> (r: bool)
    requires
        start <= b@.len(),
    ensures
        r == starts_with(b@.subrange(start as int, b@.len() as int), p@),
{
    let ghost s = b@.subrange(start as int, b@.len() as int);
    if b.len() - start < p.len() {
        return false;
    }
    let mut j: usize = 0;
    while j < p.len()
        invariant
            j <= p@.len() <= b@.len() - start,
            s == b@.subrange(start as int, b@.len() as int),
            forall|k: int| 0 <= k < j ==> s[k] == p@[k],
        decreases p@.len() - j,
    {
        assert(start + j < b.len());
        if b[start + j] != p[j] {
            assert(s.subrange(0, p@.len() as int)[j as int] != p@[j as int]);
            return false;
        }
        j = j + 1;
    }
    assert(s.subrange(0, p@.len() as int) =~= p@);
    true
}

/// Where `b[start..]` begins once all the `p` it starts with are gone.
fn skip_prefix_all(b: &[u8], start: usize, p: &[u8]) -> (r: usize)
    requires
        start <= b@.len(),
    ensures
        start <= r <= b@.len(),
        b@.subrange(r as int, b@.len() as int) == strip_prefix_all(
            b@.subrange(start as int, b@.len() as int),
            p@,
        ),
        r == start || (p@.len() > 0 && b@[r - 1] == p@[p@.len() - 1]),
{
    if p.len() == 0 {
        return start;
    }
    let mut i = start;
    while has_prefix_at(b, i, p)
        invariant
            start <= i <= b@.len(),
            p@.len() > 0,
            i == start || b@[i - 1] == p@[p@.len() - 1],
            strip_prefix_all(b@.subrange(i as int, b@.len() as int), p@) == strip_prefix_all(
                b@.subrange(start as int, b@.len() as int),
                p@,
            ),
        decreases b@.len() - i,
    {
        let ghost s = b@.subrange(i as int, b@.len() as int);
        assert(i + p.len() <= b.len());
        assert(s.subrange(p@.len() as int, s.len() as int) =~= b@.subrange(
            i + p@.len(),
            b@.len() as int,
        ));
        assert(s.subrange(0, p@.len() as int)[p@.len() - 1] == b@[i + p@.len() - 1]);
        i = i + p.len();
    }
    i
}

/// Push the path piece `part` onto `out`.
fn push_piece(out: &mut Vec<u8>, part: &[u8])
    ensures
        final(out)@ == push_part(old(out)@, part@),
{
    let n = out.len();
    if n > 0 && out[n - 1] != 47u8 {
        out.push(47u8);
    }
    put_bytes(out, part);
    assert(out@ =~= push_part(old(out)@, part@));
}

/// Push each piece of `s`, split at `/`, onto `out`.
fn push_pieces(out: &mut Vec<u8>, s: &[u8])
    ensures
        final(out)@ == push_parts(old(out)@, parts_from(s@, 47u8, 0)),
{
    let mut start: usize = 0;
    loop
        invariant_except_break
            start <= s@.len(),
            push_parts(old(out)@, parts_from(s@, 47u8, 0)) == push_parts(
                out@,
                parts_from(s@, 47u8, start as int),
            ),
        ensures
            out@ == push_parts(old(out)@, parts_from(s@, 47u8, 0)),
        decreases s@.len() - start,
    {
        proof {
            lemma_byte_from(s@, 47u8, start as int);
        }
        let ghost before = out@;
        match find_byte(s, start, s.len(), 47u8) {
            None => {
                let piece = copy_range(s, start, s.len());
                assert(byte_from(s@, 47u8, start as int) is None) by {
                    lemma_byte_from(s@.subrange(start as int, s@.len() as int), 47u8, 0);
                    assert forall|j: int| start <= j < s@.len() implies s@[j] != 47u8 by {
                        assert(s@.subrange(start as int, s@.len() as int)[j - start] == s@[j]);
                    }
                }
                assert(parts_from(s@, 47u8, start as int) == seq![piece@]);
                push_piece(out, piece.as_slice());
                proof {
                    assert(seq![piece@] =~= seq![piece@] + Seq::<Seq<u8>>::empty());
                    lemma_push_parts_front(before, piece@, Seq::<Seq<u8>>::empty());
                }
                break ;
            },
            Some(k) => {
                assert(byte_from(s@, 47u8, start as int) == Some(k as int)) by {
                    let sub = s@.subrange(start as int, s@.len() as int);
                    lemma_byte_from(sub, 47u8, 0);
                    assert forall|j: int| start <= j < k implies s@[j] != 47u8 by {
                        assert(sub[j - start] == s@[j]);
                    }
                    assert(sub[k - start] == s@[k as int]);
                    lemma_byte_from_first_abs(s@, 47u8, start as int, k as int);
                }
                let piece = copy_range(s, start, k);
                assert(parts_from(s@, 47u8, start as int) == seq![piece@] + parts_from(
                    s@,
                    47u8,
                    k + 1,
                ));
                push_piece(out, piece.as_slice());
                proof {
                    lemma_push_parts_front(before, piece@, parts_from(s@, 47u8, k + 1));
                }
                start = k + 1;
            },
        }
    }
}

/// The first `c` at or after `i` is at `m` when `s[m]` is one and none is
/// between.
proof fn lemma_byte_from_first_abs(s: Seq<u8>, c: u8, i: int, m: int)
    requires
        0 <= i <= m < s.len(),
        s[m] == c,
        forall|j: int| i <= j < m ==> s[j] != c,
    ensures
        byte_from(s, c, i) == Some(m),
    decreases m - i,
{
    if i < m {
        lemma_byte_from_first_abs(s, c, i + 1, m);
    }
}

/// The rest of a path under an emulated directory, under the directory
/// `dir` of the Cafe SDK directory: see `emu_dir_path`.
fn emu_dir_path_exec(cafe_sdk: &[u8], dir: &[u8], rest: &[u8], from: usize) -> (r: Vec<u8>)
    requires
        from <= rest@.len(),
    ensures
        r@ == emu_dir_path(cafe_sdk@, dir@, rest@.subrange(from as int, rest@.len() as int)),
{
    let ghost tail = rest@.subrange(from as int, rest@.len() as int);
    let slash: Vec<u8> = vec![47u8];
    let backslash: Vec<u8> = vec![92u8];
    assert(slash@ =~= seq![47u8]);
    assert(backslash@ =~= seq![92u8]);
    let a = skip_prefix_all(rest, from, slash.as_slice());
    let b = skip_prefix_all(rest, a, backslash.as_slice());
    let mut cleaned: Vec<u8> = Vec::new();
    let mut i = b;
    while i < rest.len()
        invariant
            b <= i <= rest@.len(),
            cleaned@ == replace_byte(rest@.subrange(b as int, i as int), 92u8, 47u8),
        decreases rest@.len() - i,
    {
        let c = rest[i];
        cleaned.push(if c == 92u8 {
            47u8
        } else {
            c
        });
        i = i + 1;
        assert(cleaned@ =~= replace_byte(rest@.subrange(b as int, i as int), 92u8, 47u8));
    }
    let mut out: Vec<u8> = Vec::new();
    put_bytes(&mut out, cafe_sdk);
    let data: Vec<u8> = vec![100u8, 97u8, 116u8, 97u8];
    assert(data@ =~= data_dir());
    push_piece(&mut out, data.as_slice());
    push_piece(&mut out, dir);
    proof {
        let two = seq![data_dir(), dir@];
        assert(two.subrange(0, 1) =~= seq![data_dir()]);
        assert(seq![data_dir()].subrange(0, 0) =~= Seq::<Seq<u8>>::empty());
        assert(push_parts(cafe_sdk@, Seq::<Seq<u8>>::empty()) == cafe_sdk@);
        assert(seq![data_dir()][0] == data_dir());
        assert(push_parts(cafe_sdk@, seq![data_dir()]) == push_part(cafe_sdk@, data_dir()));
        assert(two[1] == dir@);
        assert(push_parts(cafe_sdk@, two) == push_part(push_part(cafe_sdk@, data_dir()), dir@));
    }
    push_pieces(&mut out, cleaned.as_slice());
    out
}

/// Whether the request is for a network share, which is not served.
pub fn is_network_request(requested: &str) -> (r: bool)
    ensures
        r == network_request(utf8_bytes(requested@)),
{
    let rb = str_bytes(requested);
    let vol: Vec<u8> = vec![47u8, 118u8, 111u8, 108u8, 47u8, 112u8, 99u8];
    assert(vol@ =~= vol_pc());
    let net: Vec<u8> = vec![47u8, 37u8, 78u8, 69u8, 84u8, 87u8, 79u8, 82u8, 75u8];
    assert(net@ =~= network_prefix());
    let u = skip_prefix_all(rb, 0, vol.as_slice());
    assert(rb@.subrange(0, rb@.len() as int) =~= rb@);
    has_prefix_at(rb, u, net.as_slice())
}

/// Where a request path leads before it is made canonical, for the Cafe
/// SDK directory `cafe_sdk`: see `path_mapping`.
pub fn mapped_path(cafe_sdk: &[u8], requested: &str) -> (r: Vec<u8>)
    requires
        !network_request(utf8_bytes(requested@)),
    ensures
        r@ == path_mapping(cafe_sdk@, utf8_bytes(requested@)),
{
    let rb = str_bytes(requested);
    let vol: Vec<u8> = vec![47u8, 118u8, 111u8, 108u8, 47u8, 112u8, 99u8];
    assert(vol@ =~= vol_pc());
    let u = skip_prefix_all(rb, 0, vol.as_slice());
    assert(rb@.subrange(0, rb@.len() as int) =~= rb@);
    let ghost p = rb@.subrange(u as int, rb@.len() as int);
    let mlc: Vec<u8> = vec![47u8, 37u8, 77u8, 76u8, 67u8, 95u8, 69u8, 77u8, 85u8, 95u8, 68u8, 73u8, 82u8];
    let slc: Vec<u8> = vec![47u8, 37u8, 83u8, 76u8, 67u8, 95u8, 69u8, 77u8, 85u8, 95u8, 68u8, 73u8, 82u8];
    let disc: Vec<u8> = vec![
        47u8, 37u8, 68u8, 73u8, 83u8, 67u8, 95u8, 69u8, 77u8, 85u8, 95u8, 68u8, 73u8, 82u8,
    ];
    let save: Vec<u8> = vec![
        47u8, 37u8, 83u8, 65u8, 86u8, 69u8, 95u8, 69u8, 77u8, 85u8, 95u8, 68u8, 73u8, 82u8,
    ];
    assert(mlc@ =~= emu_prefix(emu_dirs()[0].0));
    assert(slc@ =~= emu_prefix(emu_dirs()[1].0));
    assert(disc@ =~= emu_prefix(emu_dirs()[2].0));
    assert(save@ =~= emu_prefix(emu_dirs()[3].0));
    assert(path_mapping(cafe_sdk@, rb@) == mapped_from(cafe_sdk@, p, 0));
    let on_mlc = has_prefix_at(rb, u, mlc.as_slice());
    let on_slc = has_prefix_at(rb, u, slc.as_slice());
    let on_disc = has_prefix_at(rb, u, disc.as_slice());
    let on_save = has_prefix_at(rb, u, save.as_slice());
    assert(!on_mlc ==> mapped_from(cafe_sdk@, p, 0) == mapped_from(cafe_sdk@, p, 1));
    assert(!on_slc ==> mapped_from(cafe_sdk@, p, 1) == mapped_from(cafe_sdk@, p, 2));
    assert(!on_disc ==> mapped_from(cafe_sdk@, p, 2) == mapped_from(cafe_sdk@, p, 3));
    assert(!on_save ==> mapped_from(cafe_sdk@, p, 3) == mapped_from(cafe_sdk@, p, 4));
    if on_mlc {
        let after = skip_prefix_all(rb, u, mlc.as_slice());
        let name: Vec<u8> = vec![109u8, 108u8, 99u8];
        assert(name@ =~= emu_dirs()[0].1);
        emu_dir_path_exec(cafe_sdk, name.as_slice(), rb, after)
    } else if on_slc {
        let after = skip_prefix_all(rb, u, slc.as_slice());
        let name: Vec<u8> = vec![115u8, 108u8, 99u8];
        assert(name@ =~= emu_dirs()[1].1);
        emu_dir_path_exec(cafe_sdk, name.as_slice(), rb, after)
    } else if on_disc {
        let after = skip_prefix_all(rb, u, disc.as_slice());
        let name: Vec<u8> = vec![100u8, 105u8, 115u8, 99u8];
        assert(name@ =~= emu_dirs()[2].1);
        emu_dir_path_exec(cafe_sdk, name.as_slice(), rb, after)
    } else if on_save {
        let after = skip_prefix_all(rb, u, save.as_slice());
        let name: Vec<u8> = vec![115u8, 97u8, 118u8, 101u8];
        assert(name@ =~= emu_dirs()[3].1);
        emu_dir_path_exec(cafe_sdk, name.as_slice(), rb, after)
    } else {
        assert(mapped_from(cafe_sdk@, p, 4) == p);
        copy_range(rb, u, rb.len())
    }
}

/// Where an arbitrary path resolves to.
#[derive(Clone, Debug, PartialEq, Eq)]
pub enum ResolvedLocation {
    /// A location on a filesystem, which may not exist.
    Filesystem(FilesystemLocation),
    /// A location on a network share; nothing more is known of it yet.
    Network,
}

/// The next `c` at or after `start` in `s`.
fn next_byte(s: &[u8], start: usize, c: u8) -> (r: Option<usize>)
    requires
        start <= s@.len(),
    ensures
        r matches Some(k) ==> start <= k < s@.len() && byte_from(s@, c, start as int) == Some(
            k as int,
        ),
        r is None ==> byte_from(s@, c, start as int) is None,
{
    let mut i = start;
    while i < s.len()
        invariant
            start <= i <= s@.len(),
            byte_from(s@, c, start as int) == byte_from(s@, c, i as int),
        decreases s@.len() - i,
    {
        if s[i] == c {
            return Some(i);
        }
        i = i + 1;
    }
    None
}

/// The components that std's `Path::components` gives for the Unix path
/// `s`: `/` for its root, `.` when it starts with a current directory
/// piece, then every piece between separators that is neither empty nor
/// `.`. Each component is its bytes, which tells the kinds apart.
pub open spec fn path_components(s: Seq<u8>) -> Seq<Seq<u8>> {
    leading_component(s) + kept_from(s, 0)
}

/// The root, or the leading current directory, of the Unix path `s`.
pub open spec fn leading_component(s: Seq<u8>) -> Seq<Seq<u8>> {
    if s.len() > 0 && s[0] == 47u8 {
        seq![seq![47u8]]
    } else if s.len() > 0 && s[0] == 46u8 && (s.len() == 1 || s[1] == 47u8) {
        seq![seq![46u8]]
    } else {
        seq![]
    }
}

/// A piece between separators, unless it is empty or `.`.
pub open spec fn kept_piece(p: Seq<u8>) -> Seq<Seq<u8>> {
    if p.len() == 0 || p == seq![46u8] {
        seq![]
    } else {
        seq![p]
    }
}

/// The kept pieces of `s` from `i` on.
pub open spec fn kept_from(s: Seq<u8>, i: int) -> Seq<Seq<u8>>
    decreases s.len() - i,
{
    if i < 0 || i > s.len() {
        seq![]
    } else {
        match byte_from(s, 47u8, i) {
            None => kept_piece(s.subrange(i, s.len() as int)),
            Some(k) => if k < i || k >= s.len() {
                seq![]
            } else {
                kept_piece(s.subrange(i, k)) + kept_from(s, k + 1)
            },
        }
    }
}

/// `path` starts with `base` in whole components, as std's
/// `Path::starts_with` decides.
pub open spec fn path_starts_with(path: Seq<u8>, base: Seq<u8>) -> bool {
    let a = path_components(path);
    let b = path_components(base);
    b.len() <= a.len() && a.subrange(0, b.len() as int) == b
}

/// `s` holds `n` at some position.
pub open spec fn contains_bytes(s: Seq<u8>, n: Seq<u8>) -> bool {
    exists|i: int| 0 <= i && i + n.len() <= s.len() && #[trigger] s.subrange(i, i + n.len()) == n
}

/// `%DISC_EMU_DIR`.
pub open spec fn disc_emu_marker() -> Seq<u8> {
    seq![37u8, 68u8, 73u8, 83u8, 67u8, 95u8, 69u8, 77u8, 85u8, 95u8, 68u8, 73u8, 82u8]
}

/// `<cafe_sdk>/data/disc`, where the emulated disc lives.
pub open spec fn disc_dir(cafe_sdk: Seq<u8>) -> Seq<u8> {
    push_parts(cafe_sdk, seq![data_dir(), seq![100u8, 105u8, 115u8, 99u8]])
}

/// A path may be written to unless it names the emulated disc directory,
/// by its `%DISC_EMU_DIR` name or by lying under `<cafe_sdk>/data/disc`.
pub open spec fn allows_writes(cafe_sdk: Seq<u8>, path: Seq<u8>) -> bool {
    !contains_bytes(path, disc_emu_marker()) && !path_starts_with(path, disc_dir(cafe_sdk))
}

/// The byte views of a sequence of byte vectors.
pub open spec fn byte_views(v: Seq<Vec<u8>>) -> Seq<Seq<u8>> {
    Seq::new(v.len(), |i: int| v[i]@)
}

/// `a` and `b` hold the same bytes.
fn same_bytes(a: &[u8], b: &[u8]) -> (r: bool)
    ensures
        r == (a@ == b@),
{
    if a.len() != b.len() {
        return false;
    }
    let r = has_prefix_at(a, 0, b);
    assert(a@.subrange(0, a@.len() as int) =~= a@);
    proof {
        if r {
            assert(a@.subrange(0, b@.len() as int) =~= a@);
        }
    }
    r
}

/// Whether `s` holds `n` at some position.
fn holds_bytes(s: &[u8], n: &[u8]) -> (r: bool)
    ensures
        r == contains_bytes(s@, n@),
{
    if n.len() == 0 {
        assert(s@.subrange(0int, 0int + n@.len()) =~= n@);
        return true;
    }
    if n.len() > s.len() {
        return false;
    }
    let mut i: usize = 0;
    while i <= s.len() - n.len()
        invariant
            0 < n@.len() <= s@.len(),
            i <= s@.len() - n@.len() + 1,
            forall|j: int|
                0 <= j < i && j + n@.len() <= s@.len() ==> #[trigger] s@.subrange(j, j + n@.len()) != n@,
        decreases s@.len() - n@.len() + 1 - i,
    {
        if has_prefix_at(s, i, n) {
            assert(s@.subrange(i as int, s@.len() as int).subrange(0, n@.len() as int) =~= s@.subrange(
                i as int,
                i + n@.len(),
            ));
            return true;
        }
        assert(s@.subrange(i as int, s@.len() as int).subrange(0, n@.len() as int) =~= s@.subrange(
            i as int,
            i + n@.len(),
        ));
        i = i + 1;
    }
    false
}

/// The components of the Unix path `s`: see `path_components`.
fn components_of(s: &[u8]) -> (r: Vec<Vec<u8>>)
    ensures
        byte_views(r@) == path_components(s@),
{
    let mut out: Vec<Vec<u8>> = Vec::new();
    if s.len() > 0 && s[0] == 47u8 {
        let root: Vec<u8> = vec![47u8];
        assert(root@ =~= seq![47u8]);
        out.push(root);
    } else if s.len() > 0 && s[0] == 46u8 && (s.len() == 1 || s[1] == 47u8) {
        let here: Vec<u8> = vec![46u8];
        assert(here@ =~= seq![46u8]);
        out.push(here);
    }
    assert(byte_views(out@) =~= leading_component(s@));
    let mut start: usize = 0;
    loop
        invariant_except_break
            start <= s@.len(),
            byte_views(out@) + kept_from(s@, start as int) == path_components(s@),
        ensures
            byte_views(out@) == path_components(s@),
        decreases s@.len() - start,
    {
        let ghost before = byte_views(out@);
        match next_byte(s, start, 47u8) {
            None => {
                let piece = copy_range(s, start, s.len());
                let dot: Vec<u8> = vec![46u8];
                assert(dot@ =~= seq![46u8]);
                if piece.len() > 0 && !same_bytes(piece.as_slice(), dot.as_slice()) {
                    out.push(piece);
                }
                assert(byte_views(out@) =~= before + kept_piece(s@.subrange(start as int, s@.len() as int)));
                break ;
            },
            Some(k) => {
                let piece = copy_range(s, start, k);
                let dot: Vec<u8> = vec![46u8];
                assert(dot@ =~= seq![46u8]);
                if piece.len() > 0 && !same_bytes(piece.as_slice(), dot.as_slice()) {
                    out.push(piece);
                }
                assert(byte_views(out@) =~= before + kept_piece(s@.subrange(start as int, k as int)));
                assert(kept_from(s@, start as int) == kept_piece(s@.subrange(start as int, k as int))
                    + kept_from(s@, k + 1));
                assert(before + kept_from(s@, start as int) =~= byte_views(out@) + kept_from(
                    s@,
                    k + 1,
                ));
                assert(k < s.len());
                start = k + 1;
            },
        }
    }
    out
}

/// Whether the Unix path `path` starts with `base` in whole components.
pub(crate) fn starts_with_components(path: &[u8], base: &[u8]) -> (r: bool)
    ensures
        r == path_starts_with(path@, base@),
{
    let a = components_of(path);
    let b = components_of(base);
    if b.len() > a.len() {
        return false;
    }
    let mut j: usize = 0;
    while j < b.len()
        invariant
            j <= b@.len() <= a@.len(),
            byte_views(a@) == path_components(path@),
            byte_views(b@) == path_components(base@),
            forall|i: int| 0 <= i < j ==> a@[i]@ == b@[i]@,
        decreases b@.len() - j,
    {
        if !same_bytes(a[j].as_slice(), b[j].as_slice()) {
            assert(byte_views(a@).subrange(0, b@.len() as int)[j as int] != byte_views(b@)[j as int]);
            return false;
        }
        j = j + 1;
    }
    assert(byte_views(a@).subrange(0, b@.len() as int) =~= byte_views(b@));
    true
}

/// The number of components of the Unix path `path`.
pub(crate) fn component_count(path: &[u8]) -> (r: usize)
    ensures
        r == path_components(path@).len(),
{
    components_of(path).len()
}

/// Whether the host path `path` may be written to, for the Cafe SDK
/// directory `cafe_sdk`. Both are the bytes of Unix paths. The path is
/// looked at as bytes; its lossy UTF-8 text holds the ASCII name
/// `%DISC_EMU_DIR` exactly when its bytes do.
pub fn path_allows_writes(cafe_sdk: &[u8], path: &[u8]) -> (r: bool)
    ensures
        r == allows_writes(cafe_sdk@, path@),
{
    let marker: Vec<u8> = vec![37u8, 68u8, 73u8, 83u8, 67u8, 95u8, 69u8, 77u8, 85u8, 95u8, 68u8, 73u8, 82u8];
    assert(marker@ =~= disc_emu_marker());
    if holds_bytes(path, marker.as_slice()) {
        return false;
    }
    let mut disc: Vec<u8> = Vec::new();
    put_bytes(&mut disc, cafe_sdk);
    let data: Vec<u8> = vec![100u8, 97u8, 116u8, 97u8];
    assert(data@ =~= data_dir());
    let name: Vec<u8> = vec![100u8, 105u8, 115u8, 99u8];
    push_piece(&mut disc, data.as_slice());
    push_piece(&mut disc, name.as_slice());
    proof {
        assert(cafe_sdk@ =~= seq![] + cafe_sdk@);
        lemma_push_parts_two(cafe_sdk@, data_dir(), name@);
    }
    !starts_with_components(path, disc.as_slice())
}

/// Pushing two pieces is pushing one, then the other.
proof fn lemma_push_parts_two(base: Seq<u8>, x: Seq<u8>, y: Seq<u8>)
    ensures
        push_parts(base, seq![x, y]) == push_part(push_part(base, x), y),
{
    let two = seq![x, y];
    assert(two.subrange(0, 1) =~= seq![x]);
    assert(seq![x].subrange(0, 0) =~= Seq::<Seq<u8>>::empty());
    assert(push_parts(base, Seq::<Seq<u8>>::empty()) == base);
    assert(seq![x][0] == x);
    assert(push_parts(base, seq![x]) == push_part(base, x));
    assert(two[1] == y);
}

/// Pushing one more piece onto what a list of pieces made.
proof fn lemma_push_parts_push(base: Seq<u8>, parts: Seq<Seq<u8>>, x: Seq<u8>)
    ensures
        push_parts(base, parts.push(x)) == push_part(push_parts(base, parts), x),
{
    assert(parts.push(x).subrange(0, parts.len() as int) =~= parts);
}

/// `s` with its ASCII upper case letters made lower case.
pub open spec fn ascii_lower(s: Seq<u8>) -> Seq<u8> {
    s.map_values(|b: u8| if 65u8 <= b <= 90u8 { (b + 32) as u8 } else { b })
}

/// `v` as eight lower case hex digits, as `{:08x}` writes it.
pub open spec fn hex8(v: u32) -> Seq<u8> {
    ascii_lower(zero_padded(radix_text(v as nat, 16), 8))
}

/// The directory of the system title `title_id` on the emulated SLC:
/// `<cafe_sdk>/data/slc/sys/title/<high>/<low>`, each half of the title
/// id as eight lower case hex digits.
pub open spec fn slc_title_dir(cafe_sdk: Seq<u8>, title_id: (u32, u32)) -> Seq<u8> {
    push_parts(
        cafe_sdk,
        seq![
            data_dir(),
            seq![115u8, 108u8, 99u8],
            seq![115u8, 121u8, 115u8],
            seq![116u8, 105u8, 116u8, 108u8, 101u8],
            hex8(title_id.0),
            hex8(title_id.1),
        ],
    )
}

/// The title the firmware image belongs to.
pub open spec fn firmware_title() -> (u32, u32) {
    (0x0005_0010u32, 0x1000_400Au32)
}

/// The firmware image booted on the bridge:
/// `code/fw.img` in the directory of its title on the emulated SLC.
pub open spec fn firmware_path(cafe_sdk: Seq<u8>) -> Seq<u8> {
    push_parts(
        slc_title_dir(cafe_sdk, firmware_title()),
        seq![seq![99u8, 111u8, 100u8, 101u8], seq![102u8, 119u8, 46u8, 105u8, 109u8, 103u8]],
    )
}

/// `v` as eight lower case hex digits.
fn hex8_text(v: u32) -> (r: Vec<u8>)
    ensures
        r@ == hex8(v),
{
    let mut upper: Vec<u8> = Vec::new();
    push_padded(&mut upper, v as u128, 16, 8);
    assert(upper@ =~= zero_padded(radix_text(v as nat, 16), 8));
    let mut out: Vec<u8> = Vec::new();
    let mut i: usize = 0;
    while i < upper.len()
        invariant
            i <= upper@.len(),
            out@ == ascii_lower(upper@.subrange(0, i as int)),
        decreases upper@.len() - i,
    {
        let b = upper[i];
        out.push(if 65u8 <= b && b <= 90u8 {
            b + 32
        } else {
            b
        });
        i = i + 1;
        assert(out@ =~= ascii_lower(upper@.subrange(0, i as int)));
    }
    assert(upper@.subrange(0, upper@.len() as int) =~= upper@);
    out
}

/// The directory of the system title `title_id` on the emulated SLC, for
/// the Cafe SDK directory `cafe_sdk`. The directory need not exist.
pub fn slc_path_for(cafe_sdk: &[u8], title_id: (u32, u32)) -> (r: Vec<u8>)
    ensures
        r@ == slc_title_dir(cafe_sdk@, title_id),
{
    let ghost mut parts: Seq<Seq<u8>> = seq![];
    let mut out: Vec<u8> = Vec::new();
    put_bytes(&mut out, cafe_sdk);
    assert(out@ =~= cafe_sdk@);
    let data: Vec<u8> = vec![100u8, 97u8, 116u8, 97u8];
    let slc: Vec<u8> = vec![115u8, 108u8, 99u8];
    let sys: Vec<u8> = vec![115u8, 121u8, 115u8];
    let title: Vec<u8> = vec![116u8, 105u8, 116u8, 108u8, 101u8];
    let high = hex8_text(title_id.0);
    let low = hex8_text(title_id.1);
    push_piece(&mut out, data.as_slice());
    proof {
        lemma_push_parts_push(cafe_sdk@, parts, data@);
        parts = parts.push(data@);
    }
    push_piece(&mut out, slc.as_slice());
    proof {
        lemma_push_parts_push(cafe_sdk@, parts, slc@);
        parts = parts.push(slc@);
    }
    push_piece(&mut out, sys.as_slice());
    proof {
        lemma_push_parts_push(cafe_sdk@, parts, sys@);
        parts = parts.push(sys@);
    }
    push_piece(&mut out, title.as_slice());
    proof {
        lemma_push_parts_push(cafe_sdk@, parts, title@);
        parts = parts.push(title@);
    }
    push_piece(&mut out, high.as_slice());
    proof {
        lemma_push_parts_push(cafe_sdk@, parts, high@);
        parts = parts.push(high@);
    }
    push_piece(&mut out, low.as_slice());
    proof {
        lemma_push_parts_push(cafe_sdk@, parts, low@);
        parts = parts.push(low@);
        assert(parts =~= seq![
            data_dir(),
            seq![115u8, 108u8, 99u8],
            seq![115u8, 121u8, 115u8],
            seq![116u8, 105u8, 116u8, 108u8, 101u8],
            hex8(title_id.0),
            hex8(title_id.1),
        ]);
    }
    out
}

/// The firmware image booted on the bridge, for the Cafe SDK directory
/// `cafe_sdk`. Whether it exists is not looked at.
pub fn firmware_file_path(cafe_sdk: &[u8]) -> (r: Vec<u8>)
    ensures
        r@ == firmware_path(cafe_sdk@),
{
    let mut out = slc_path_for(cafe_sdk, (0x0005_0010u32, 0x1000_400Au32));
    let ghost dir = out@;
    let code: Vec<u8> = vec![99u8, 111u8, 100u8, 101u8];
    let image: Vec<u8> = vec![102u8, 119u8, 46u8, 105u8, 109u8, 103u8];
    push_piece(&mut out, code.as_slice());
    push_piece(&mut out, image.as_slice());
    proof {
        lemma_push_parts_push(dir, seq![], code@);
        lemma_push_parts_push(dir, seq![code@], image@);
        assert(push_parts(dir, Seq::<Seq<u8>>::empty()) == dir);
        assert(seq![code@].push(image@) =~= seq![code@, image@]);
        assert(Seq::<Seq<u8>>::empty().push(code@) =~= seq![code@]);
        assert(code@ =~= seq![99u8, 111u8, 100u8, 101u8]);
        assert(image@ =~= seq![102u8, 119u8, 46u8, 105u8, 109u8, 103u8]);
    }
    out
}

/// `closest`, a path made canonical, lies in the canonical Cafe SDK
/// directory `cafe_sdk`.
pub open spec fn inside_cafe_sdk(closest: Seq<char>, cafe_sdk: Seq<char>) -> bool {
    closest.len() > 0 && path_starts_with(utf8_bytes(closest), utf8_bytes(cafe_sdk))
}

/// A component that names a directory entry: not the root, `.` or `..`.
pub open spec fn names_entry(c: Seq<u8>) -> bool {
    c != seq![47u8] && c != seq![46u8] && c != seq![46u8, 46u8]
}

/// Components with every `..` folded away lexically, without looking at
/// the filesystem: `..` drops the entry before it, stays at a root, and is
/// kept when nothing before it can be dropped.
pub open spec fn lexical(comps: Seq<Seq<u8>>) -> Seq<Seq<u8>>
    decreases comps.len(),
{
    if comps.len() == 0 {
        seq![]
    } else {
        let st = lexical(comps.drop_last());
        let x = comps.last();
        if x == seq![46u8, 46u8] && st.len() > 0 && names_entry(st.last()) {
            st.drop_last()
        } else if x == seq![46u8, 46u8] && st.len() > 0 && st.last() == seq![47u8] {
            st
        } else {
            st.push(x)
        }
    }
}

/// `path`, with its `..` folded away lexically, lies in `base`, folded
/// the same way.
pub open spec fn lexically_under(path: Seq<u8>, base: Seq<u8>) -> bool {
    let a = lexical(path_components(path));
    let b = lexical(path_components(base));
    b.len() <= a.len() && a.subrange(0, b.len() as int) == b
}

/// A request resolves when the canonical path closest to where it leads
/// lies in the canonical Cafe SDK directory, and where it leads, with its
/// `..` folded away, lies in the Cafe SDK directory as given or as made
/// canonical: pieces that do not exist yet cannot climb out of it.
pub open spec fn resolves(
    mapped: Seq<char>,
    closest: Seq<char>,
    cafe_sdk: Seq<char>,
    canonical_cafe_sdk: Seq<char>,
) -> bool {
    &&& inside_cafe_sdk(closest, canonical_cafe_sdk)
    &&& (lexically_under(utf8_bytes(mapped), utf8_bytes(cafe_sdk)) || lexically_under(
        utf8_bytes(mapped),
        utf8_bytes(canonical_cafe_sdk),
    ))
}

/// The components `comps` with their `..` folded away: see `lexical`.
fn lexical_of(comps: &Vec<Vec<u8>>) -> (r: Vec<Vec<u8>>)
    ensures
        byte_views(r@) == lexical(byte_views(comps@)),
{
    let ghost views = byte_views(comps@);
    let up: Vec<u8> = vec![46u8, 46u8];
    let root: Vec<u8> = vec![47u8];
    let here: Vec<u8> = vec![46u8];
    assert(up@ =~= seq![46u8, 46u8]);
    assert(root@ =~= seq![47u8]);
    assert(here@ =~= seq![46u8]);
    let mut out: Vec<Vec<u8>> = Vec::new();
    let mut j: usize = 0;
    assert(views.subrange(0, 0) =~= Seq::<Seq<u8>>::empty());
    assert(byte_views(out@) =~= lexical(views.subrange(0, 0)));
    while j < comps.len()
        invariant
            j <= comps@.len(),
            views == byte_views(comps@),
            up@ == seq![46u8, 46u8],
            root@ == seq![47u8],
            here@ == seq![46u8],
            byte_views(out@) == lexical(views.subrange(0, j as int)),
        decreases comps@.len() - j,
    {
        let ghost before = byte_views(out@);
        let ghost prefix = views.subrange(0, j + 1);
        assert(prefix.drop_last() =~= views.subrange(0, j as int));
        assert(prefix.last() == views[j as int]);
        let x = &comps[j];
        let is_up = same_bytes(x.as_slice(), up.as_slice());
        let n = out.len();
        if is_up && n > 0 {
            let last_is_root = same_bytes(out[n - 1].as_slice(), root.as_slice());
            let last_is_here = same_bytes(out[n - 1].as_slice(), here.as_slice());
            let last_is_up = same_bytes(out[n - 1].as_slice(), up.as_slice());
            assert(before.last() == out@[n - 1]@);
            if !last_is_root && !last_is_here && !last_is_up {
                out.pop();
                assert(byte_views(out@) =~= before.drop_last());
            } else if last_is_root {
            } else {
                out.push(x.clone());
                assert(byte_views(out@) =~= before.push(views[j as int]));
            }
        } else {
            out.push(x.clone());
            assert(byte_views(out@) =~= before.push(views[j as int]));
        }
        j = j + 1;
    }
    assert(views.subrange(0, comps@.len() as int) =~= views);
    out
}

/// Whether `b` is a prefix of `a`, piece by piece.
fn pieces_prefix(a: &Vec<Vec<u8>>, b: &Vec<Vec<u8>>) -> (r: bool)
    ensures
        r == (byte_views(b@).len() <= byte_views(a@).len() && byte_views(a@).subrange(
            0,
            byte_views(b@).len() as int,
        ) == byte_views(b@)),
{
    if b.len() > a.len() {
        return false;
    }
    let mut j: usize = 0;
    while j < b.len()
        invariant
            j <= b@.len() <= a@.len(),
            forall|i: int| 0 <= i < j ==> a@[i]@ == b@[i]@,
        decreases b@.len() - j,
    {
        if !same_bytes(a[j].as_slice(), b[j].as_slice()) {
            assert(byte_views(a@).subrange(0, b@.len() as int)[j as int] != byte_views(b@)[j as int]);
            return false;
        }
        j = j + 1;
    }
    assert(byte_views(a@).subrange(0, b@.len() as int) =~= byte_views(b@));
    true
}

/// Whether the Unix path `path`, with its `..` folded away, lies in `base`:
/// see `lexically_under`.
fn is_lexically_under(path: &[u8], base: &[u8]) -> (r: bool)
    ensures
        r == lexically_under(path@, base@),
{
    let a = lexical_of(&components_of(path));
    let b = lexical_of(&components_of(base));
    pieces_prefix(&a, &b)
}

/// What a request path resolves to, once the host has made canonical as
/// much as exists of `mapped`, where `mapped_path` leads it under the Cafe
/// SDK directory `cafe_sdk`: `closest` is that canonical path (empty when
/// nothing of it exists), `changed_at_all` whether pieces had to be dropped
/// from the end to get there, and `canonical_cafe_sdk` the Cafe SDK
/// directory made canonical.
///
/// A resolved location lies in the Cafe SDK directory: see `resolves`.
/// Any other request is not mapped; the error names it without its
/// `/vol/pc` prefixes.
pub fn resolve_canonical(
    requested: &str,
    cafe_sdk: &str,
    mapped: String,
    closest: String,
    changed_at_all: bool,
    canonical_cafe_sdk: &str,
) -> (r: Result<ResolvedLocation, PCFSApiError>)
    ensures
        r is Ok <==> resolves(mapped@, closest@, cafe_sdk@, canonical_cafe_sdk@),
        r matches Ok(loc) ==> loc matches ResolvedLocation::Filesystem(f) && f@ == (
            mapped@,
            closest@,
            !changed_at_all,
        ),
        r matches Err(e) ==> e matches PCFSApiError::PathNotMapped(p) && utf8_bytes(p@) == unprefixed(
            utf8_bytes(requested@),
        ),
{
    let cb = str_bytes(closest.as_str());
    let inside = cb.len() > 0 && starts_with_components(cb, str_bytes(canonical_cafe_sdk));
    proof {
        encode_utf8_decode_utf8(closest@);
        if cb@.len() == 0 {
            assert(cb@ =~= Seq::<u8>::empty());
        }
    }
    let mb = str_bytes(mapped.as_str());
    let contained = is_lexically_under(mb, str_bytes(cafe_sdk)) || is_lexically_under(
        mb,
        str_bytes(canonical_cafe_sdk),
    );
    if inside && contained {
        return Ok(ResolvedLocation::Filesystem(FilesystemLocation::new(mapped, closest, !changed_at_all)));
    }
    let rb = str_bytes(requested);
    let vol: Vec<u8> = vec![47u8, 118u8, 111u8, 108u8, 47u8, 112u8, 99u8];
    assert(vol@ =~= vol_pc());
    let u = skip_prefix_all(rb, 0, vol.as_slice());
    assert(rb@.subrange(0, rb@.len() as int) =~= rb@);
    proof {
        encode_utf8_valid_utf8(requested@);
        lemma_valid_utf8_suffix(rb@, u as int);
    }
    match utf8_range(rb, u, rb.len()) {
        Ok(path) => {
            proof {
                decode_utf8_encode_utf8(rb@.subrange(u as int, rb@.len() as int));
            }
            Err(PCFSApiError::PathNotMapped(path))
        },
        Err(_) => unreached(),
    }
}

/// Whether a stream may use a file or folder handle: a request made for no
/// particular stream may, a handle owned by no particular stream may be used
/// by any, and otherwise only the stream that owns it may.
pub fn access_allowed(requester: Option<u64>, owner: Option<u64>) -> (r: bool)
    ensures
        r == match (requester, owner) {
            (Some(s), Some(o)) => s == o,
            _ => true,
        },
{
    match (requester, owner) {
        (Some(s), Some(o)) => s == o,
        _ => true,
    }
}

/// Where a title directory moves to on a case sensitive filesystem: its
/// path with every leading copy of the Cafe SDK directory `cafe_sdk`
/// removed is made lower case and put back under `cafe_sdk`, unless it is
/// lower case already. Paths are taken as bytes, which for UTF-8 paths is
/// the same as taking them as text.
pub open spec fn lowered_title_path(cafe_sdk: Seq<u8>, path: Seq<u8>) -> Option<Seq<u8>> {
    let rest = strip_prefix_all(path, cafe_sdk);
    if ascii_lower(rest) == rest {
        None
    } else {
        Some(cafe_sdk + ascii_lower(rest))
    }
}

/// Where the title directory `path` moves to so that title ids are lower
/// case: see `lowered_title_path`. None when it stays.
pub fn lowered_title_dir(cafe_sdk: &[u8], path: &[u8]) -> (r: Option<Vec<u8>>)
    ensures
        r is None <==> lowered_title_path(cafe_sdk@, path@) is None,
        r matches Some(p) ==> lowered_title_path(cafe_sdk@, path@) == Some(p@),
{
    let start = skip_prefix_all(path, 0, cafe_sdk);
    assert(path@.subrange(0, path@.len() as int) =~= path@);
    let ghost rest = path@.subrange(start as int, path@.len() as int);
    let mut lowered: Vec<u8> = Vec::new();
    let mut changed = false;
    let mut i = start;
    assert(ascii_lower(path@.subrange(start as int, start as int)) =~= path@.subrange(
        start as int,
        start as int,
    ));
    while i < path.len()
        invariant
            start <= i <= path@.len(),
            rest == path@.subrange(start as int, path@.len() as int),
            lowered@ == ascii_lower(path@.subrange(start as int, i as int)),
            changed <==> ascii_lower(path@.subrange(start as int, i as int)) != path@.subrange(
                start as int,
                i as int,
            ),
        decreases path@.len() - i,
    {
        let b = path[i];
        let l = if 65u8 <= b && b <= 90u8 {
            b + 32
        } else {
            b
        };
        let ghost before = path@.subrange(start as int, i as int);
        lowered.push(l);
        if l != b {
            changed = true;
        }
        i = i + 1;
        proof {
            let now = path@.subrange(start as int, i as int);
            assert(now =~= before.push(b));
            assert(ascii_lower(now) =~= ascii_lower(before).push(l));
            if ascii_lower(before) != before {
                assert(ascii_lower(now).subrange(0, before.len() as int) =~= ascii_lower(before));
                assert(now.subrange(0, before.len() as int) =~= before);
            } else if l != b {
                assert(ascii_lower(now)[before.len() as int] != now[before.len() as int]);
            } else {
                assert(ascii_lower(now) =~= now);
            }
        }
        assert(lowered@ =~= ascii_lower(path@.subrange(start as int, i as int)));
    }
    if !changed {
        return None;
    }
    let mut out: Vec<u8> = Vec::new();
    put_bytes(&mut out, cafe_sdk);
    put_bytes(&mut out, lowered.as_slice());
    Some(out)
}

/// The name a folder entry is listed under: the components of its host
/// path `item` after the first `skip` of them, pushed one after the other
/// onto an empty path.
pub open spec fn entry_name(item: Seq<u8>, skip: nat) -> Seq<u8> {
    let comps = path_components(item);
    let from = if skip <= comps.len() {
        skip as int
    } else {
        comps.len() as int
    };
    push_parts(seq![], comps.subrange(from, comps.len() as int))
}

/// The name the folder entry at the host path `item` is listed under, once
/// the `skip` components of the folder's own path are dropped.
pub fn entry_name_of(item: &[u8], skip: usize) -> (r: Vec<u8>)
    ensures
        r@ == entry_name(item@, skip as nat),
{
    let comps = components_of(item);
    let ghost views = byte_views(comps@);
    let from = if skip <= comps.len() {
        skip
    } else {
        comps.len()
    };
    let mut out: Vec<u8> = Vec::new();
    let mut j = from;
    assert(views.subrange(from as int, from as int) =~= Seq::<Seq<u8>>::empty());
    assert(out@ =~= push_parts(seq![], views.subrange(from as int, from as int)));
    while j < comps.len()
        invariant
            from <= j <= comps@.len(),
            views == byte_views(comps@),
            out@ == push_parts(seq![], views.subrange(from as int, j as int)),
        decreases comps@.len() - j,
    {
        push_piece(&mut out, comps[j].as_slice());
        proof {
            lemma_push_parts_push(seq![], views.subrange(from as int, j as int), views[j as int]);
            assert(views.subrange(from as int, j + 1) =~= views.subrange(from as int, j as int).push(
                views[j as int],
            ));
        }
        j = j + 1;
    }
    out
}

/// `.rm`.
pub open spec fn rm_suffix() -> Seq<u8> {
    seq![46u8, 114u8, 109u8]
}

/// Where a removal that only renames moves the host path `path`: beside it,
/// under its name with `.rm` appended. The name of a file is its last
/// component when that names an entry, else nothing; the name of a folder
/// is its last component as it stands. A root stays a root.
///
/// This is the location std's `PathBuf::pop` then `push` give; it is
/// written with single separators between its components.
pub open spec fn aside_path(path: Seq<u8>, is_file: bool) -> Seq<u8> {
    let comps = path_components(path);
    if comps.len() == 0 {
        rm_suffix()
    } else if comps.last() == seq![47u8] {
        seq![47u8] + rm_suffix()
    } else {
        let name = if is_file && !names_entry(comps.last()) {
            Seq::<u8>::empty()
        } else {
            comps.last()
        };
        push_part(push_parts(seq![], comps.drop_last()), name + rm_suffix())
    }
}

/// Where a removal that only renames moves the host path `path`, a file
/// when `is_file`, else a folder: see `aside_path`.
pub fn removal_aside_path(path: &[u8], is_file: bool) -> (r: Vec<u8>)
    ensures
        r@ == aside_path(path@, is_file),
{
    let comps = components_of(path);
    let ghost views = byte_views(comps@);
    let rm: Vec<u8> = vec![46u8, 114u8, 109u8];
    assert(rm@ =~= rm_suffix());
    let n = comps.len();
    if n == 0 {
        return rm;
    }
    let root: Vec<u8> = vec![47u8];
    let here: Vec<u8> = vec![46u8];
    let up: Vec<u8> = vec![46u8, 46u8];
    assert(root@ =~= seq![47u8]);
    assert(here@ =~= seq![46u8]);
    assert(up@ =~= seq![46u8, 46u8]);
    assert(views.last() == comps@[n - 1]@);
    let last = &comps[n - 1];
    if same_bytes(last.as_slice(), root.as_slice()) {
        let mut out: Vec<u8> = vec![47u8];
        put_bytes(&mut out, rm.as_slice());
        assert(out@ =~= seq![47u8] + rm_suffix());
        return out;
    }
    let names = !same_bytes(last.as_slice(), here.as_slice()) && !same_bytes(last.as_slice(), up.as_slice());
    let mut name: Vec<u8> = Vec::new();
    if !is_file || names {
        put_bytes(&mut name, last.as_slice());
    }
    put_bytes(&mut name, rm.as_slice());
    let mut out: Vec<u8> = Vec::new();
    let mut j: usize = 0;
    assert(views.subrange(0, 0) =~= Seq::<Seq<u8>>::empty());
    while j < n - 1
        invariant
            j <= n - 1,
            n == comps@.len(),
            views == byte_views(comps@),
            out@ == push_parts(seq![], views.subrange(0, j as int)),
        decreases n - 1 - j,
    {
        push_piece(&mut out, comps[j].as_slice());
        proof {
            lemma_push_parts_push(seq![], views.subrange(0, j as int), views[j as int]);
            assert(views.subrange(0, j + 1) =~= views.subrange(0, j as int).push(views[j as int]));
        }
        j = j + 1;
    }
    assert(views.subrange(0, n - 1) =~= views.drop_last());
    push_piece(&mut out, name.as_slice());
    proof {
        if is_file && !names_entry(views.last()) {
            assert(name@ =~= Seq::<u8>::empty() + rm_suffix());
        } else {
            assert(name@ =~= views.last() + rm_suffix());
        }
    }
    out
}

/// Where the entry `entry` of a folder tree copied from `old` to `new`
/// lands: its bytes after those of `old`, put after the bytes of `new`.
pub open spec fn rebased(entry: Seq<u8>, old: Seq<u8>, new: Seq<u8>) -> Seq<u8> {
    new + entry.subrange(old.len() as int, entry.len() as int)
}

/// Where the entry `entry` of a folder tree copied from `old` to `new`
/// lands: see `rebased`. The entry's path starts with at least as many
/// bytes as `old` has.
pub fn rebased_path(entry: &[u8], old: &[u8], new: &[u8]) -> (r: Vec<u8>)
    requires
        old@.len() <= entry@.len(),
    ensures
        r@ == rebased(entry@, old@, new@),
{
    let mut out: Vec<u8> = Vec::new();
    put_bytes(&mut out, new);
    let tail = copy_range(entry, old.len(), entry.len());
    put_bytes(&mut out, tail.as_slice());
    assert(out@ =~= rebased(entry@, old@, new@));
    out
}

/// What a symbolic link found while a folder tree is copied from `old` to
/// `new` points to in the copy: a target inside the tree, its bytes starting
/// with those of `old`, is moved into the new tree the same way; any other
/// target stays as it is.
pub open spec fn copied_link(target: Seq<u8>, old: Seq<u8>, new: Seq<u8>) -> Seq<u8> {
    if starts_with(target, old) {
        rebased(target, old, new)
    } else {
        target
    }
}

/// What a symbolic link with the target `target`, found while a folder
/// tree is copied from `old` to `new`, points to in the copy: see
/// `copied_link`.
pub fn copied_link_target(target: &[u8], old: &[u8], new: &[u8]) -> (r: Vec<u8>)
    ensures
        r@ == copied_link(target@, old@, new@),
{
    assert(target@.subrange(0, target@.len() as int) =~= target@);
    if has_prefix_at(target, 0, old) {
        rebased_path(target, old, new)
    } else {
        copy_range(target, 0, target.len())
    }
}

} // verus!
