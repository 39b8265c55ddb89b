//! Durations written as decimal numbers of seconds, read into whole microseconds.
//!
//! A duration is one or more digits, optionally followed by a point and more
//! digits (`124`, `124.`, `124.9`, `3661.000000`). Digits beyond the sixth after
//! the point are dropped. Signs, exponents and other forms are not durations.
use vstd::prelude::*;
use vstd::slice::slice_subrange;

verus! {

pub open spec fn is_digit(b: u8) -> bool {
    48 <= b <= 57
}

/// The ASCII white-space bytes: space, tab, line feed, vertical tab, form feed, carriage return.
pub open spec fn is_space(b: u8) -> bool {
    b == 32 || (9 <= b <= 13)
}

pub open spec fn all_digits(d: Seq<u8>) -> bool {
    forall|i: int| 0 <= i < d.len() ==> is_digit(#[trigger] d[i])
}

/// The number that a sequence of decimal digits denotes.
pub open spec fn digits_value(d: Seq<u8>) -> nat
    decreases d.len(),
{
    if d.len() == 0 {
        0
    } else {
        digits_value(d.drop_last()) * 10 + (d.last() - 48) as nat
    }
}

/// How many digits `t` starts with.
pub open spec fn lead_digits(t: Seq<u8>) -> nat
    decreases t.len(),
{
    if t.len() > 0 && is_digit(t[0]) {
        1 + lead_digits(t.drop_first())
    } else {
        0
    }
}

/// The first six digits of a fraction, padded with zeros: its value in millionths.
pub open spec fn fraction_micros(f: Seq<u8>) -> nat {
    digits_value(Seq::new(6, |i: int| if i < f.len() { f[i] } else { 48u8 }))
}

/// The duration in microseconds that `t` denotes, if it is a duration.
pub open spec fn decimal_micros(t: Seq<u8>) -> Option<nat> {
    let n = lead_digits(t) as int;
    if n == 0 {
        None
    } else if n == t.len() {
        Some(digits_value(t) * 1_000_000)
    } else if t[n] == 46 && all_digits(t.skip(n + 1)) {
        Some(digits_value(t.take(n)) * 1_000_000 + fraction_micros(t.skip(n + 1)))
    } else {
        None
    }
}

/// A number as a `u64`, when it fits.
pub open spec fn fit_u64(v: Option<nat>) -> Option<u64> {
    match v {
        Some(x) => if x <= u64::MAX {
            Some(x as u64)
        } else {
            None
        },
        None => None,
    }
}

pub open spec fn trim_front(t: Seq<u8>) -> Seq<u8>
    decreases t.len(),
{
    if t.len() > 0 && is_space(t[0]) {
        trim_front(t.drop_first())
    } else {
        t
    }
}

pub open spec fn trim_back(t: Seq<u8>) -> Seq<u8>
    decreases t.len(),
{
    if t.len() > 0 && is_space(t.last()) {
        trim_back(t.drop_last())
    } else {
        t
    }
}

/// `t` without the white space at either end.
pub open spec fn trim(t: Seq<u8>) -> Seq<u8> {
    trim_back(trim_front(t))
}

proof fn lemma_lead_digits(t: Seq<u8>, i: int)
    requires
        0 <= i <= t.len(),
        all_digits(t.take(i)),
    ensures
        i < t.len() && !is_digit(t[i]) ==> lead_digits(t) == i,
        i == t.len() ==> lead_digits(t) == i,
    decreases i,
{
    if i > 0 {
        assert(is_digit(t.take(i)[0]));
        assert forall|j: int| 0 <= j < i - 1 implies is_digit(#[trigger] t.drop_first().take(i - 1)[j]) by {
            assert(t.drop_first().take(i - 1)[j] == t.take(i)[j + 1]);
        }
        lemma_lead_digits(t.drop_first(), i - 1);
    }
}

proof fn lemma_digits_prefix_le(d: Seq<u8>, i: int)
    requires
        0 <= i <= d.len(),
    ensures
        digits_value(d.take(i)) <= digits_value(d),
    decreases d.len() - i,
{
    if i < d.len() {
        lemma_digits_prefix_le(d, i + 1);
        assert(d.take(i + 1).drop_last() =~= d.take(i));
    } else {
        assert(d.take(i) =~= d);
    }
}

proof fn lemma_trim_front_skip(t: Seq<u8>, i: int)
    requires
        0 <= i <= t.len(),
        forall|j: int| 0 <= j < i ==> is_space(#[trigger] t[j]),
    ensures
        trim_front(t) == trim_front(t.skip(i)),
    decreases i,
{
    if i > 0 {
        assert(t.skip(1) =~= t.drop_first());
        lemma_trim_front_skip(t.drop_first(), i - 1);
        assert(t.drop_first().skip(i - 1) =~= t.skip(i));
    } else {
        assert(t.skip(0) =~= t);
    }
}

proof fn lemma_trim_back_take(t: Seq<u8>, i: int)
    requires
        0 <= i <= t.len(),
        forall|j: int| i <= j < t.len() ==> is_space(#[trigger] t[j]),
    ensures
        trim_back(t) == trim_back(t.take(i)),
    decreases t.len() - i,
{
    if i < t.len() {
        lemma_trim_back_take(t.drop_last(), i);
        assert(t.drop_last().take(i) =~= t.take(i));
    } else {
        assert(t.take(i) =~= t);
    }
}

/// The value of the digits `d[lo..hi]`, when it fits in a `u64`.
fn digits_u64(d: &[u8], lo: usize, hi: usize) -> (r: Option<u64>)
    requires
        lo <= hi <= d@.len(),
        all_digits(d@.subrange(lo as int, hi as int)),
    ensures
        r == fit_u64(Some(digits_value(d@.subrange(lo as int, hi as int)))),
{
    let ghost s = d@.subrange(lo as int, hi as int);
    let mut acc: u64 = 0;
    let mut i: usize = lo;
    while i < hi
        invariant
            lo <= i <= hi <= d@.len(),
            s == d@.subrange(lo as int, hi as int),
            all_digits(s),
            acc == digits_value(s.take(i - lo)),
        decreases hi - i,
    {
        let ghost k = i - lo;
        assert(s.take(k + 1).drop_last() =~= s.take(k));
        assert(s.take(k + 1).last() == d@[i as int]);
        assert(is_digit(s[k]));
        let digit = (d[i] - 48) as u64;
        match acc.checked_mul(10) {
            Some(m) => match m.checked_add(digit) {
                Some(v) => {
                    acc = v;
                },
                None => {
                    proof {
                        lemma_digits_prefix_le(s, k + 1);
                    }
                    return None;
                },
            },
            None => {
                proof {
                    lemma_digits_prefix_le(s, k + 1);
                }
                return None;
            },
        }
        i = i + 1;
    }
    assert(s.take(hi - lo) =~= s);
    Some(acc)
}

/// The first six digits of the fraction `d[lo..hi]`, padded with zeros, in millionths.
fn fraction_u64(d: &[u8], lo: usize, hi: usize) -> (r: u64)
    requires
        lo <= hi <= d@.len(),
        all_digits(d@.subrange(lo as int, hi as int)),
    ensures
        r == fraction_micros(d@.subrange(lo as int, hi as int)),
        r < 1_000_000,
{
    let ghost f = d@.subrange(lo as int, hi as int);
    let ghost p = Seq::new(6, |i: int| if i < f.len() { f[i] } else { 48u8 });
    let mut acc: u64 = 0;
    let mut k: usize = 0;
    while k < 6
        invariant
            lo <= hi <= d@.len(),
            f == d@.subrange(lo as int, hi as int),
            all_digits(f),
            p == Seq::new(6, |i: int| if i < f.len() { f[i] } else { 48u8 }),
            0 <= k <= 6,
            acc == digits_value(p.take(k as int)),
            acc < pow10(k as nat),
        decreases 6 - k,
    {
        proof {
            lemma_pow10_small(k as nat);
        }
        assert(p.take(k + 1).drop_last() =~= p.take(k as int));
        let digit: u64 = if k < hi - lo {
            assert(is_digit(f[k as int]));
            (d[lo + k] - 48) as u64
        } else {
            0
        };
        assert(digit < 10);
        assert(acc * 10 + digit < pow10(k as nat) * 10) by (nonlinear_arith)
            requires
                acc < pow10(k as nat),
                digit < 10,
        ;
        assert(pow10((k + 1) as nat) == pow10(k as nat) * 10);
        acc = acc * 10 + digit;
        k = k + 1;
    }
    assert(p.take(6) =~= p);
    assert(pow10(6) == 1_000_000) by {
        reveal_with_fuel(pow10, 7);
    }
    acc
}

proof fn lemma_pow10_small(k: nat)
    requires
        k < 6,
    ensures
        pow10(k) * 10 <= 1_000_000,
{
    reveal_with_fuel(pow10, 7);
    if k == 0 {
    } else if k == 1 {
    } else if k == 2 {
    } else if k == 3 {
    } else if k == 4 {
    } else {
    }
}

pub open spec fn pow10(n: nat) -> nat
    decreases n,
{
    if n == 0 {
        1
    } else {
        pow10((n - 1) as nat) * 10
    }
}

/// Reads a duration in decimal seconds as whole microseconds; `None` when `t` is
/// not a duration or the value does not fit in a `u64`.
pub fn parse_decimal_micros(t: &[u8]) -> (r: Option<u64>)
    ensures
        r == fit_u64(decimal_micros(t@)),
{
    let len = t.len();
    let mut n: usize = 0;
    while n < len && t[n] >= 48 && t[n] <= 57
        invariant
            0 <= n <= len == t@.len(),
            all_digits(t@.take(n as int)),
        decreases len - n,
    {
        assert(t@.take(n + 1) =~= t@.take(n as int).push(t@[n as int]));
        n = n + 1;
    }
    proof {
        lemma_lead_digits(t@, n as int);
        assert(t@.subrange(0, n as int) =~= t@.take(n as int));
    }
    if n == 0 {
        return None;
    }
    assert(n == len ==> t@.take(n as int) =~= t@);
    let whole = match digits_u64(t, 0, n) {
        Some(w) => w,
        None => {
            return None;
        },
    };
    if n == len {
        assert(t@.take(n as int) =~= t@);
        return match whole.checked_mul(1_000_000) {
            Some(v) => Some(v),
            None => None,
        };
    }
    if t[n] != 46 {
        return None;
    }
    let mut j: usize = n + 1;
    while j < len
        invariant
            n + 1 <= j <= len == t@.len(),
            lead_digits(t@) == n,
            forall|q: int| n + 1 <= q < j ==> is_digit(#[trigger] t@[q]),
        decreases len - j,
    {
        if t[j] < 48 || t[j] > 57 {
            proof {
                let u = t@.skip(n + 1);
                assert(u[j - (n + 1)] == t@[j as int]);
                assert(!is_digit(u[j - (n + 1)]));
                assert(!all_digits(u));
                assert(lead_digits(t@) == n);
            }
            return None;
        }
        j = j + 1;
    }
    proof {
        assert(t@.subrange(n + 1, len as int) =~= t@.skip(n + 1));
        assert forall|q: int| 0 <= q < t@.skip(n + 1).len() implies is_digit(
            #[trigger] t@.skip(n + 1)[q],
        ) by {
            assert(t@.skip(n + 1)[q] == t@[n + 1 + q]);
        }
    }
    let frac = fraction_u64(t, n + 1, len);
    match whole.checked_mul(1_000_000) {
        Some(m) => match m.checked_add(frac) {
            Some(v) => Some(v),
            None => None,
        },
        None => None,
    }
}

/// The bounds of `t` without the white space at either end.
pub fn trim_bounds(t: &[u8]) -> (r: (usize, usize))
    ensures
        r.0 <= r.1 <= t@.len(),
        t@.subrange(r.0 as int, r.1 as int) == trim(t@),
{
    let len = t.len();
    let mut lo: usize = 0;
    while lo < len && (t[lo] == 32 || (t[lo] >= 9 && t[lo] <= 13))
        invariant
            0 <= lo <= len == t@.len(),
            forall|j: int| 0 <= j < lo ==> is_space(#[trigger] t@[j]),
        decreases len - lo,
    {
        lo = lo + 1;
    }
    proof {
        lemma_trim_front_skip(t@, lo as int);
        if lo < len {
            assert(!is_space(t@.skip(lo as int)[0]));
        }
    }
    let mut hi: usize = len;
    while hi > lo && (t[hi - 1] == 32 || (t[hi - 1] >= 9 && t[hi - 1] <= 13))
        invariant
            0 <= lo <= hi <= len == t@.len(),
            forall|j: int| hi <= j < len ==> is_space(#[trigger] t@[j]),
        decreases hi,
    {
        hi = hi - 1;
    }
    proof {
        let u = t@.skip(lo as int);
        assert forall|j: int| hi - lo <= j < u.len() implies is_space(#[trigger] u[j]) by {
            assert(u[j] == t@[lo + j]);
        }
        lemma_trim_back_take(u, hi - lo);
        assert(u.take(hi - lo) =~= t@.subrange(lo as int, hi as int));
        if hi > lo {
            assert(!is_space(u.take(hi - lo).last()));
        }
    }
    (lo, hi)
}

/// Reads the output of the duration probe: a duration in decimal seconds,
/// surrounded by any white space, as whole microseconds.
pub fn parse_probe_output(out: &[u8]) -> (r: Option<u64>)
    ensures
        r == fit_u64(decimal_micros(trim(out@))),
{
    let (lo, hi) = trim_bounds(out);
    let inner = slice_subrange(out, lo, hi);
    parse_decimal_micros(inner)
}

} // verus!
