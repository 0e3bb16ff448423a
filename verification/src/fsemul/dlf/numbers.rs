//! Unsigned integers in text: read as `from_str_radix` reads them (an
//! optional `+`, then at least one digit), and written with uppercase
//! digits, zero padded to a width.

use vstd::prelude::*;

verus! {

/// The value of the digit `c` in base `radix`, if it is one.
pub open spec fn digit_value(c: u8, radix: nat) -> Option<nat> {
    let v: int = if 48 <= c <= 57 {
        c - 48
    } else if 97 <= c <= 122 {
        c - 87
    } else if 65 <= c <= 90 {
        c - 55
    } else {
        36
    };
    if v < radix {
        Some(v as nat)
    } else {
        None
    }
}

/// Every byte of `g` is a digit in base `radix`.
pub open spec fn all_digits(g: Seq<u8>, radix: nat) -> bool {
    forall|i: int| 0 <= i < g.len() ==> #[trigger] digit_value(g[i], radix) is Some
}

/// The number the digits `g` spell in base `radix`.
pub open spec fn digits_value(g: Seq<u8>, radix: nat) -> nat
    decreases g.len(),
{
    if g.len() == 0 {
        0
    } else {
        let d = match digit_value(g[g.len() - 1], radix) {
            Some(v) => v,
            None => 0,
        };
        digits_value(g.subrange(0, g.len() - 1), radix) * radix + d
    }
}

/// The digits of `s`: all of it, or what follows a leading `+`.
pub open spec fn unsigned_digits(s: Seq<u8>) -> Seq<u8> {
    if s.len() > 0 && s[0] == 43u8 {
        s.subrange(1, s.len() as int)
    } else {
        s
    }
}

/// The unsigned number at most `max` that `s` spells in base `radix`, as
/// `from_str_radix` reads it.
pub open spec fn parse_unsigned(s: Seq<u8>, radix: nat, max: nat) -> Option<nat> {
    let g = unsigned_digits(s);
    if g.len() > 0 && all_digits(g, radix) && digits_value(g, radix) <= max {
        Some(digits_value(g, radix))
    } else {
        None
    }
}

/// The uppercase digit for `v`.
pub open spec fn digit_char(v: nat) -> u8 {
    if v < 10 {
        (48 + v) as u8
    } else {
        (55 + v) as u8
    }
}

/// `v` written in base `radix`, without leading zeros.
pub open spec fn radix_text(v: nat, radix: nat) -> Seq<u8>
    decreases v,
{
    if radix < 2 || v < radix {
        seq![digit_char(v)]
    } else {
        proof {
            lemma_div_smaller(v, radix);
        }
        radix_text(v / radix, radix).push(digit_char(v % radix))
    }
}

/// `t` with zeros in front, up to `width` bytes.
pub open spec fn zero_padded(t: Seq<u8>, width: nat) -> Seq<u8> {
    if t.len() < width {
        Seq::new((width - t.len()) as nat, |_i: int| 48u8) + t
    } else {
        t
    }
}

/// Dividing by a base of at least two makes a number of at least that base smaller.
pub proof fn lemma_div_smaller(v: nat, radix: nat)
    requires
        radix >= 2,
        v >= radix,
    ensures
        v / radix < v,
        v % radix < radix,
{
    assert(v / radix < v) by (nonlinear_arith)
        requires
            radix >= 2,
            v >= radix,
    ;
}

/// A longer run of digits is worth at least as much as its beginning.
pub proof fn lemma_digits_value_prefix(g: Seq<u8>, j: int, radix: nat)
    requires
        radix >= 1,
        0 <= j <= g.len(),
    ensures
        digits_value(g.subrange(0, j), radix) <= digits_value(g, radix),
    decreases g.len(),
{
    if j == g.len() {
        assert(g.subrange(0, j) =~= g);
    } else {
        let h = g.subrange(0, g.len() - 1);
        lemma_digits_value_prefix(h, j, radix);
        assert(h.subrange(0, j) =~= g.subrange(0, j));
        let x = digits_value(h, radix);
        assert(x <= x * radix) by (nonlinear_arith)
            requires
                radix >= 1,
        ;
    }
}

/// Digits that `digit_char` writes read back as their values.
pub proof fn lemma_digit_char(v: nat, radix: nat)
    requires
        v < radix <= 36,
    ensures
        digit_value(digit_char(v), radix) == Some(v),
        digit_char(v) != 43u8,
        digit_char(v) != 120u8,
        digit_char(v) < 128,
{
}

/// What `radix_text` writes reads back as the number written.
pub proof fn lemma_radix_text(v: nat, radix: nat)
    requires
        2 <= radix <= 36,
    ensures
        radix_text(v, radix).len() > 0,
        all_digits(radix_text(v, radix), radix),
        digits_value(radix_text(v, radix), radix) == v,
        forall|i: int|
            0 <= i < radix_text(v, radix).len() ==> #[trigger] radix_text(v, radix)[i] < 128
                && radix_text(v, radix)[i] != 43u8 && radix_text(v, radix)[i] != 120u8,
    decreases v,
{
    let t = radix_text(v, radix);
    if v < radix {
        lemma_digit_char(v, radix);
        assert(t.subrange(0, 0) =~= Seq::<u8>::empty());
        assert(0 * radix == 0);
        assert(digits_value(t, radix) == digits_value(t.subrange(0, 0), radix) * radix + v);
    } else {
        lemma_div_smaller(v, radix);
        lemma_radix_text(v / radix, radix);
        lemma_digit_char(v % radix, radix);
        let h = radix_text(v / radix, radix);
        assert(t.subrange(0, t.len() - 1) =~= h);
        assert(t[t.len() - 1] == digit_char(v % radix));
        assert(v == (v / radix) * radix + v % radix) by (nonlinear_arith)
            requires
                radix >= 2,
        ;
        assert(digits_value(t, radix) == digits_value(h, radix) * radix + v % radix);
        assert forall|i: int| 0 <= i < t.len() implies #[trigger] digit_value(t[i], radix) is Some by {
            if i < h.len() {
                assert(t[i] == h[i]);
            }
        }
    }
}

/// Leading zeros do not change a number.
pub proof fn lemma_zeros_value(n: nat, t: Seq<u8>, radix: nat)
    requires
        radix >= 1,
    ensures
        digits_value(Seq::new(n, |_i: int| 48u8) + t, radix) == digits_value(t, radix),
    decreases t.len(), n,
{
    let z = Seq::new(n, |_i: int| 48u8);
    if t.len() == 0 {
        if n > 0 {
            let z1 = Seq::new((n - 1) as nat, |_i: int| 48u8);
            assert((z + t).subrange(0, (z + t).len() - 1) =~= z1 + t);
            lemma_zeros_value((n - 1) as nat, t, radix);
            assert(0 * radix == 0);
            assert((z + t)[(z + t).len() - 1] == 48u8);
        }
    } else {
        let h = t.subrange(0, t.len() - 1);
        assert((z + t).subrange(0, (z + t).len() - 1) =~= z + h);
        assert((z + t)[(z + t).len() - 1] == t[t.len() - 1]);
        lemma_zeros_value(n, h, radix);
    }
}

/// Zero padded digits are still digits.
pub proof fn lemma_zero_padded(t: Seq<u8>, width: nat, radix: nat)
    requires
        2 <= radix <= 36,
        all_digits(t, radix),
    ensures
        all_digits(zero_padded(t, width, ), radix),
        digits_value(zero_padded(t, width), radix) == digits_value(t, radix),
        zero_padded(t, width).len() >= width,
        zero_padded(t, width).len() >= t.len(),
{
    if t.len() < width {
        lemma_zeros_value((width - t.len()) as nat, t, radix);
        let p = zero_padded(t, width);
        assert forall|i: int| 0 <= i < p.len() implies #[trigger] digit_value(p[i], radix) is Some by {
            if i >= width - t.len() {
                assert(p[i] == t[i - (width - t.len())]);
            }
        }
    }
}

/// Read the unsigned number at most `max` that `b[start..end]` spells in
/// base `radix`.
pub fn parse_unsigned_range(b: &[u8], start: usize, end: usize, radix: u8, max: u128) -> (r: Option<
    u128,
>)
    requires
        start <= end <= b@.len(),
        2 <= radix <= 36,
    ensures
        r matches Some(v) ==> parse_unsigned(b@.subrange(start as int, end as int), radix as nat, max as nat) == Some(v as nat),
        r is None ==> parse_unsigned(b@.subrange(start as int, end as int), radix as nat, max as nat) is None,
{
    let ghost s = b@.subrange(start as int, end as int);
    let mut i = start;
    if start < end && b[start] == 43u8 {
        i = start + 1;
    }
    let first = i;
    let ghost g = b@.subrange(first as int, end as int);
    assert(g =~= unsigned_digits(s));
    if first == end {
        return None;
    }
    let mut acc: u128 = 0;
    while i < end
        invariant
            first <= i <= end <= b@.len(),
            first < end,
            2 <= radix <= 36,
            g == b@.subrange(first as int, end as int),
            g == unsigned_digits(s),
            s == b@.subrange(start as int, end as int),
            all_digits(g.subrange(0, i - first), radix as nat),
            acc == digits_value(g.subrange(0, i - first), radix as nat),
            acc <= max,
        decreases end - i,
    {
        let c = b[i];
        let d: u8 = if 48 <= c && c <= 57 {
            c - 48
        } else if 97 <= c && c <= 122 {
            c - 87
        } else if 65 <= c && c <= 90 {
            c - 55
        } else {
            36
        };
        if d >= radix {
            assert(digit_value(g[i - first], radix as nat) is None);
            return None;
        }
        let ghost pre = g.subrange(0, i - first);
        let ghost next = g.subrange(0, i - first + 1);
        assert(next.subrange(0, next.len() - 1) =~= pre);
        assert(digits_value(next, radix as nat) == acc * radix + d);
        assert(all_digits(next, radix as nat)) by {
            assert forall|j: int| 0 <= j < next.len() implies #[trigger] digit_value(next[j], radix as nat) is Some by {
                if j < pre.len() {
                    assert(next[j] == pre[j]);
                }
            }
        }
        let m = acc.checked_mul(radix as u128);
        let n = match m {
            Some(x) => x.checked_add(d as u128),
            None => None,
        };
        match n {
            Some(v) if v <= max => {
                acc = v;
            },
            _ => {
                proof {
                    if all_digits(g, radix as nat) {
                        lemma_digits_value_prefix(g, i - first + 1, radix as nat);
                    }
                }
                return None;
            },
        }
        i = i + 1;
    }
    assert(g.subrange(0, i - first) =~= g);
    Some(acc)
}

/// Append the digits of `v` in base `radix`.
pub fn push_radix_text(out: &mut Vec<u8>, v: u128, radix: u8)
    requires
        2 <= radix <= 36,
    ensures
        final(out)@ == old(out)@ + radix_text(v as nat, radix as nat),
    decreases v,
{
    let r = radix as u128;
    if v >= r {
        proof {
            lemma_div_smaller(v as nat, radix as nat);
        }
        push_radix_text(out, v / r, radix);
    }
    let d = (v % r) as u8;
    let c = if d < 10 {
        48 + d
    } else {
        55 + d
    };
    out.push(c);
    proof {
        if v >= r {
            assert(out@ =~= old(out)@ + radix_text(v as nat, radix as nat));
        } else {
            assert(v % r == v) by (nonlinear_arith)
                requires
                    v < r,
            ;
            assert(out@ =~= old(out)@ + radix_text(v as nat, radix as nat));
        }
    }
}

/// Append `v` in base `radix`, zero padded to `width` bytes.
pub fn push_padded(out: &mut Vec<u8>, v: u128, radix: u8, width: usize)
    requires
        2 <= radix <= 36,
    ensures
        final(out)@ == old(out)@ + zero_padded(radix_text(v as nat, radix as nat), width as nat),
{
    let mut t: Vec<u8> = Vec::new();
    push_radix_text(&mut t, v, radix);
    assert(t@ =~= radix_text(v as nat, radix as nat));
    let ghost start = out@;
    let mut k = t.len();
    while k < width
        invariant
            t.len() <= k <= width || (k == t.len() && k >= width),
            out@ == start + Seq::new((k - t.len()) as nat, |_i: int| 48u8),
        decreases width - k,
    {
        out.push(48u8);
        k = k + 1;
        assert(out@ =~= start + Seq::new((k - t.len()) as nat, |_i: int| 48u8));
    }
    let mut j: usize = 0;
    let ghost mid = out@;
    while j < t.len()
        invariant
            j <= t.len(),
            out@ == mid + t@.subrange(0, j as int),
        decreases t.len() - j,
    {
        out.push(t[j]);
        j = j + 1;
        assert(out@ =~= mid + t@.subrange(0, j as int));
    }
    assert(t@.subrange(0, t.len() as int) =~= t@);
    proof {
        if t.len() < width {
            assert(out@ =~= start + zero_padded(radix_text(v as nat, radix as nat), width as nat));
        } else {
            assert(Seq::new((k - t.len()) as nat, |_i: int| 48u8) =~= Seq::<u8>::empty());
            assert(out@ =~= start + zero_padded(radix_text(v as nat, radix as nat), width as nat));
        }
    }
}

} // verus!
