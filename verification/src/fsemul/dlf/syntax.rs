//! The text of a disk layout file, taken as bytes: where lines and fields
//! end, how quotes and prefixes are trimmed, and where the pieces of a valid
//! UTF-8 text stay valid UTF-8.

use vstd::prelude::*;
use vstd::utf8::*;

verus! {

/// A carriage return followed by a line feed starts at `i`.
pub open spec fn crlf_at(s: Seq<u8>, i: int) -> bool {
    0 <= i && i + 1 < s.len() && s[i] == 13u8 && s[i + 1] == 10u8
}

/// `s` holds no line break.
pub open spec fn no_crlf(s: Seq<u8>) -> bool {
    forall|j: int| !#[trigger] crlf_at(s, j)
}

/// The first line break of `s` at or after `i`.
pub open spec fn crlf_from(s: Seq<u8>, i: int) -> Option<int>
    decreases s.len() - i,
{
    if i < 0 || i + 1 >= s.len() {
        None
    } else if crlf_at(s, i) {
        Some(i)
    } else {
        crlf_from(s, i + 1)
    }
}

/// The lines of `s` from `i` on, split at each line break.
pub open spec fn lines_from(s: Seq<u8>, i: int) -> Seq<Seq<u8>>
    decreases s.len() - i,
{
    if i < 0 || i > s.len() {
        seq![]
    } else {
        match crlf_from(s, i) {
            None => seq![s.subrange(i, s.len() as int)],
            Some(k) => if k < i || k + 2 > s.len() {
                seq![]
            } else {
                seq![s.subrange(i, k)] + lines_from(s, k + 2)
            },
        }
    }
}

/// The lines of `s`: the pieces between its line breaks, the last one
/// included even when empty.
pub open spec fn split_lines(s: Seq<u8>) -> Seq<Seq<u8>> {
    lines_from(s, 0)
}

/// The first `c` of `s` at or after `i`.
pub open spec fn byte_from(s: Seq<u8>, c: u8, i: int) -> Option<int>
    decreases s.len() - i,
{
    if i < 0 || i >= s.len() {
        None
    } else if s[i] == c {
        Some(i)
    } else {
        byte_from(s, c, i + 1)
    }
}

/// `s` cut at its first `c`: what comes before and what comes after.
pub open spec fn split_once(s: Seq<u8>, c: u8) -> Option<(Seq<u8>, Seq<u8>)> {
    match byte_from(s, c, 0) {
        None => None,
        Some(k) => Some((s.subrange(0, k), s.subrange(k + 1, s.len() as int))),
    }
}

/// `s` without all the `0x` it starts with.
pub open spec fn strip_hex_prefixes(s: Seq<u8>) -> Seq<u8>
    decreases s.len(),
{
    if s.len() >= 2 && s[0] == 48u8 && s[1] == 120u8 {
        strip_hex_prefixes(s.subrange(2, s.len() as int))
    } else {
        s
    }
}

/// `s` without all the `c` it starts with.
pub open spec fn strip_leading(s: Seq<u8>, c: u8) -> Seq<u8>
    decreases s.len(),
{
    if s.len() > 0 && s[0] == c {
        strip_leading(s.subrange(1, s.len() as int), c)
    } else {
        s
    }
}

/// `s` without all the `c` it ends with.
pub open spec fn strip_trailing(s: Seq<u8>, c: u8) -> Seq<u8>
    decreases s.len(),
{
    if s.len() > 0 && s[s.len() - 1] == c {
        strip_trailing(s.subrange(0, s.len() - 1), c)
    } else {
        s
    }
}

/// `s` without the double quotes at either end.
pub open spec fn trim_quotes(s: Seq<u8>) -> Seq<u8> {
    strip_trailing(strip_leading(s, 34u8), 34u8)
}

pub proof fn lemma_crlf_from(s: Seq<u8>, i: int)
    requires
        0 <= i,
    ensures
        crlf_from(s, i) matches Some(k) ==> i <= k && crlf_at(s, k) && forall|j: int|
            i <= j < k ==> !#[trigger] crlf_at(s, j),
        crlf_from(s, i) is None ==> forall|j: int| i <= j ==> !#[trigger] crlf_at(s, j),
    decreases s.len() - i,
{
    if i + 1 >= s.len() {
    } else if crlf_at(s, i) {
    } else {
        lemma_crlf_from(s, i + 1);
    }
}

pub proof fn lemma_byte_from(s: Seq<u8>, c: u8, i: int)
    requires
        0 <= i,
    ensures
        byte_from(s, c, i) matches Some(k) ==> i <= k < s.len() && s[k] == c && forall|j: int|
            i <= j < k ==> s[j] != c,
        byte_from(s, c, i) is None ==> forall|j: int| i <= j < s.len() ==> s[j] != c,
    decreases s.len() - i,
{
    if i >= s.len() {
    } else if s[i] == c {
    } else {
        lemma_byte_from(s, c, i + 1);
    }
}

/// The position of the first line break of `b` at or after `start`.
pub fn find_crlf(b: &[u8], start: usize) -> (r: Option<usize>)
    requires
        start <= b@.len(),
    ensures
        r matches Some(k) ==> crlf_from(b@, start as int) == Some(k as int),
        r is None ==> crlf_from(b@, start as int) is None,
{
    let mut i = start;
    while b.len() - i >= 2
        invariant
            start <= i <= b@.len(),
            crlf_from(b@, start as int) == crlf_from(b@, i as int),
        decreases b@.len() - i,
    {
        if b[i] == 13u8 && b[i + 1] == 10u8 {
            return Some(i);
        }
        i = i + 1;
    }
    None
}

/// The position of the first `c` in `b[start..end]`.
pub fn find_byte(b: &[u8], start: usize, end: usize, c: u8) -> (r: Option<usize>)
    requires
        start <= end <= b@.len(),
    ensures
        r matches Some(k) ==> start <= k < end && byte_from(b@.subrange(start as int, end as int), c, 0)
            == Some(k - start),
        r is None ==> byte_from(b@.subrange(start as int, end as int), c, 0) is None,
{
    let ghost s = b@.subrange(start as int, end as int);
    let mut i = start;
    while i < end
        invariant
            start <= i <= end <= b@.len(),
            s == b@.subrange(start as int, end as int),
            byte_from(s, c, 0) == byte_from(s, c, i - start),
        decreases end - i,
    {
        if b[i] == c {
            return Some(i);
        }
        i = i + 1;
    }
    None
}

/// Where `b[start..end]` begins once all the `0x` it starts with are gone.
pub fn skip_hex_prefixes(b: &[u8], start: usize, end: usize) -> (r: usize)
    requires
        start <= end <= b@.len(),
    ensures
        start <= r <= end,
        b@.subrange(r as int, end as int) == strip_hex_prefixes(b@.subrange(start as int, end as int)),
{
    let mut i = start;
    while end - i >= 2 && b[i] == 48u8 && b[i + 1] == 120u8
        invariant
            start <= i <= end <= b@.len(),
            strip_hex_prefixes(b@.subrange(i as int, end as int)) == strip_hex_prefixes(
                b@.subrange(start as int, end as int),
            ),
        decreases end - i,
    {
        assert(b@.subrange(i as int, end as int).subrange(2, end - i) =~= b@.subrange(
            i + 2,
            end as int,
        ));
        i = i + 2;
    }
    i
}

/// Where `b[start..end]` begins once all the `c` it starts with are gone.
pub fn skip_leading(b: &[u8], start: usize, end: usize, c: u8) -> (r: usize)
    requires
        start <= end <= b@.len(),
    ensures
        start <= r <= end,
        b@.subrange(r as int, end as int) == strip_leading(b@.subrange(start as int, end as int), c),
        forall|j: int| start <= j < r ==> b@[j] == c,
{
    let mut i = start;
    while i < end && b[i] == c
        invariant
            start <= i <= end <= b@.len(),
            strip_leading(b@.subrange(i as int, end as int), c) == strip_leading(
                b@.subrange(start as int, end as int),
                c,
            ),
            forall|j: int| start <= j < i ==> b@[j] == c,
        decreases end - i,
    {
        assert(b@.subrange(i as int, end as int).subrange(1, end - i) =~= b@.subrange(
            i + 1,
            end as int,
        ));
        i = i + 1;
    }
    i
}

/// Where `b[start..end]` ends once all the `c` it ends with are gone.
pub fn skip_trailing(b: &[u8], start: usize, end: usize, c: u8) -> (r: usize)
    requires
        start <= end <= b@.len(),
    ensures
        start <= r <= end,
        b@.subrange(start as int, r as int) == strip_trailing(b@.subrange(start as int, end as int), c),
        forall|j: int| r <= j < end ==> b@[j] == c,
{
    let mut i = end;
    while i > start && b[i - 1] == c
        invariant
            start <= i <= end <= b@.len(),
            strip_trailing(b@.subrange(start as int, i as int), c) == strip_trailing(
                b@.subrange(start as int, end as int),
                c,
            ),
            forall|j: int| i <= j < end ==> b@[j] == c,
        decreases i - start,
    {
        assert(b@.subrange(start as int, i as int).subrange(0, i - 1 - start) =~= b@.subrange(
            start as int,
            i - 1,
        ));
        i = i - 1;
    }
    i
}

/// The cut `(start, end)` of `b` is a line of it: it starts at the start
/// of `b` or after a line feed, and ends at the end of `b` or before a
/// carriage return.
pub open spec fn line_cut(b: Seq<u8>, c: (usize, usize)) -> bool {
    &&& c.0 <= c.1 <= b.len()
    &&& c.0 == 0 || b[c.0 - 1] == 10u8
    &&& c.1 == b.len() || b[c.1 as int] == 13u8
}

/// Where each line of `b` starts and ends.
pub fn line_cuts(b: &[u8]) -> (r: Vec<(usize, usize)>)
    ensures
        r@.len() == split_lines(b@).len(),
        forall|i: int|
            0 <= i < r@.len() ==> line_cut(b@, #[trigger] r@[i]) && b@.subrange(
                r@[i].0 as int,
                r@[i].1 as int,
            ) == split_lines(b@)[i],
{
    let mut r: Vec<(usize, usize)> = Vec::new();
    let ghost mut done: Seq<Seq<u8>> = seq![];
    let mut start: usize = 0;
    loop
        invariant_except_break
            start <= b@.len(),
            start == 0 || b@[start - 1] == 10u8,
            split_lines(b@) == done + lines_from(b@, start as int),
            r@.len() == done.len(),
        invariant
            forall|i: int|
                0 <= i < r@.len() ==> line_cut(b@, #[trigger] r@[i]) && b@.subrange(
                    r@[i].0 as int,
                    r@[i].1 as int,
                ) == done[i],
        ensures
            r@.len() == split_lines(b@).len(),
            forall|i: int|
                0 <= i < r@.len() ==> line_cut(b@, #[trigger] r@[i]) && b@.subrange(
                    r@[i].0 as int,
                    r@[i].1 as int,
                ) == split_lines(b@)[i],
        decreases b@.len() - start,
    {
        proof {
            lemma_crlf_from(b@, start as int);
        }
        match find_crlf(b, start) {
            None => {
                let ghost piece = b@.subrange(start as int, b@.len() as int);
                assert(lines_from(b@, start as int) == seq![piece]);
                r.push((start, b.len()));
                proof {
                    done = done.push(piece);
                }
                assert(split_lines(b@) =~= done);
                break ;
            },
            Some(k) => {
                assert(crlf_at(b@, k as int));
                assert(k + 2 <= b.len());
                let ghost piece = b@.subrange(start as int, k as int);
                assert(lines_from(b@, start as int) == seq![piece] + lines_from(b@, k + 2));
                r.push((start, k));
                proof {
                    assert(done + lines_from(b@, start as int) =~= done.push(piece) + lines_from(
                        b@,
                        k + 2,
                    ));
                    done = done.push(piece);
                }
                start = k + 2;
            },
        }
    }
    r
}

/// Bytes below 128 are valid UTF-8.
pub proof fn lemma_ascii_valid_utf8(s: Seq<u8>)
    requires
        forall|i: int| 0 <= i < s.len() ==> s[i] < 128,
    ensures
        valid_utf8(s),
    decreases s.len(),
{
    if s.len() > 0 {
        let t = s.subrange(1, s.len() as int);
        assert(pop_first_scalar(s) =~= t);
        lemma_ascii_valid_utf8(t);
    }
}

/// A cut of valid UTF-8 right after a byte below 128, or at its start,
/// keeps what follows valid UTF-8.
pub proof fn lemma_valid_utf8_suffix(b: Seq<u8>, i: int)
    requires
        valid_utf8(b),
        0 <= i <= b.len(),
        i == 0 || b[i - 1] < 128,
    ensures
        valid_utf8(b.subrange(i, b.len() as int)),
{
    if i == 0 {
        assert(b.subrange(0, b.len() as int) =~= b);
    } else {
        is_char_boundary_iff_not_is_continuation_byte(b, i - 1);
        valid_utf8_split(b, i - 1);
        let s = b.subrange(i - 1, b.len() as int);
        assert(s.len() > 0);
        assert(pop_first_scalar(s) =~= b.subrange(i, b.len() as int));
    }
}

/// The bytes of valid UTF-8 between two cuts that each touch a byte below
/// 128, or an end, are valid UTF-8.
pub proof fn lemma_valid_utf8_range(b: Seq<u8>, i: int, j: int)
    requires
        valid_utf8(b),
        0 <= i <= j <= b.len(),
        i == 0 || b[i - 1] < 128,
        j == b.len() || b[j] < 128,
    ensures
        valid_utf8(b.subrange(i, j)),
{
    lemma_valid_utf8_suffix(b, i);
    let t = b.subrange(i, b.len() as int);
    if j == b.len() {
        assert(t =~= b.subrange(i, j));
    } else {
        is_char_boundary_iff_not_is_continuation_byte(t, j - i);
        valid_utf8_split(t, j - i);
        assert(t.subrange(0, j - i) =~= b.subrange(i, j));
    }
}

} // verus!
