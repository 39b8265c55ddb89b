//! Reading the download tool's progress lines.
//!
//! A progress line is a run of words separated by spaces, such as
//! `[download]  45.3% of 10.00MiB at 1.23MiB/s ETA 00:05`. Its first word is
//! `[download]` and its second a percentage; the word after the first `at` is the
//! speed, and the word after the first `ETA` the time left.
use crate::queue::Progress;
use crate::text::chars_of;
use vstd::prelude::*;

verus! {

/// The words finished so far and the word under way, after reading `s`.
pub open spec fn word_state(s: Seq<char>) -> (Seq<Seq<char>>, Seq<char>)
    decreases s.len(),
{
    if s.len() == 0 {
        (Seq::empty(), Seq::empty())
    } else {
        let (done, cur) = word_state(s.drop_last());
        if s.last() == ' ' {
            if cur.len() == 0 {
                (done, cur)
            } else {
                (done.push(cur), Seq::empty())
            }
        } else {
            (done, cur.push(s.last()))
        }
    }
}

/// The words of `s`: its longest runs without a space, in order.
pub open spec fn words(s: Seq<char>) -> Seq<Seq<char>> {
    let (done, cur) = word_state(s);
    if cur.len() == 0 {
        done
    } else {
        done.push(cur)
    }
}

/// The word that follows the first occurrence of `key` among `w`.
pub open spec fn word_after(w: Seq<Seq<char>>, key: Seq<char>) -> Option<Seq<char>>
    decreases w.len(),
{
    if w.len() < 2 {
        None
    } else if w[0] == key {
        Some(w[1])
    } else {
        word_after(w.drop_first(), key)
    }
}

pub open spec fn is_digit_char(c: char) -> bool {
    '0' <= c <= '9'
}

pub open spec fn digit_of(c: char) -> nat {
    (c as int - '0' as int) as nat
}

/// How many digits `s` starts with.
pub open spec fn lead_digit_chars(s: Seq<char>) -> nat
    decreases s.len(),
{
    if s.len() > 0 && is_digit_char(s[0]) {
        1 + lead_digit_chars(s.drop_first())
    } else {
        0
    }
}

/// The number that a sequence of digits denotes.
pub open spec fn char_digits_value(d: Seq<char>) -> nat
    decreases d.len(),
{
    if d.len() == 0 {
        0
    } else {
        char_digits_value(d.drop_last()) * 10 + digit_of(d.last())
    }
}

pub open spec fn at_most_1000(v: nat) -> nat {
    if v <= 1000 {
        v
    } else {
        1000
    }
}

/// A percentage such as `45.3%` in thousandths, at most 1000; digits after the
/// first decimal are dropped.
pub open spec fn percent_permille(p: Seq<char>) -> Option<nat> {
    if p.len() < 2 || p.last() != '%' {
        None
    } else {
        let q = p.drop_last();
        let n = lead_digit_chars(q) as int;
        let whole = char_digits_value(q.take(n));
        if n == 0 {
            None
        } else if n == q.len() {
            Some(at_most_1000(whole * 10))
        } else if q[n] == '.' && forall|i: int| n + 1 <= i < q.len() ==> is_digit_char(#[trigger] q[i]) {
            Some(at_most_1000(whole * 10 + if n + 1 < q.len() { digit_of(q[n + 1]) } else { 0 }))
        } else {
            None
        }
    }
}

/// What a progress line reports: thousandths done, speed and time left.
pub open spec fn progress_of(line: Seq<char>) -> Option<(nat, Option<Seq<char>>, Option<Seq<char>>)> {
    let w = words(line);
    if w.len() >= 2 && w[0] == "[download]"@ && percent_permille(w[1]) is Some {
        Some((percent_permille(w[1])->0, word_after(w, "at"@), word_after(w, "ETA"@)))
    } else {
        None
    }
}

/// The texts that the ranges `r` of `c` cover.
pub open spec fn range_texts(c: Seq<char>, r: Seq<(usize, usize)>) -> Seq<Seq<char>> {
    r.map_values(|p: (usize, usize)| c.subrange(p.0 as int, p.1 as int))
}

/// Every range lies within a text of length `n`.
pub open spec fn ranges_within(r: Seq<(usize, usize)>, n: nat) -> bool {
    forall|k: int| #![trigger r[k]] 0 <= k < r.len() ==> r[k].0 <= r[k].1 && r[k].1 <= n
}

/// The ranges of the words of `c`.
fn word_ranges(c: &Vec<char>) -> (r: Vec<(usize, usize)>)
    ensures
        range_texts(c@, r@) == words(c@),
        ranges_within(r@, c@.len()),
{
    let n = c.len();
    let mut out: Vec<(usize, usize)> = Vec::new();
    let mut start: usize = 0;
    let mut i: usize = 0;
    while i < n
        invariant
            n == c@.len(),
            0 <= start <= i <= n,
            word_state(c@.take(i as int)) == (range_texts(c@, out@), c@.subrange(start as int, i as int)),
            ranges_within(out@, c@.len()),
        decreases n - i,
    {
        let ghost t = c@.take(i + 1);
        assert(t.drop_last() =~= c@.take(i as int));
        assert(t.last() == c@[i as int]);
        if c[i] == ' ' {
            if start < i {
                let ghost before = out@;
                out.push((start, i));
                assert(range_texts(c@, out@) =~= range_texts(c@, before).push(c@.subrange(start as int, i as int)));
            }
            start = i + 1;
            assert(c@.subrange(start as int, i + 1) =~= Seq::<char>::empty());
        } else {
            assert(c@.subrange(start as int, i + 1) =~= c@.subrange(start as int, i as int).push(c@[i as int]));
        }
        i = i + 1;
    }
    assert(c@.take(n as int) =~= c@);
    if start < n {
        let ghost before = out@;
        out.push((start, n));
        assert(range_texts(c@, out@) =~= range_texts(c@, before).push(c@.subrange(start as int, n as int)));
    }
    out
}

/// Whether `c[lo..hi]` is `p`.
fn range_is(c: &Vec<char>, lo: usize, hi: usize, p: &Vec<char>) -> (r: bool)
    requires
        lo <= hi <= c@.len(),
    ensures
        r == (c@.subrange(lo as int, hi as int) == p@),
{
    if hi - lo != p.len() {
        return false;
    }
    let mut k: usize = 0;
    while k < p.len()
        invariant
            lo <= hi <= c@.len(),
            hi - lo == p@.len(),
            0 <= k <= p@.len(),
            forall|j: int| 0 <= j < k ==> c@[lo + j] == p@[j],
        decreases p@.len() - k,
    {
        if c[lo + k] != p[k] {
            assert(c@.subrange(lo as int, hi as int)[k as int] != p@[k as int]);
            return false;
        }
        k = k + 1;
    }
    assert(c@.subrange(lo as int, hi as int) =~= p@);
    true
}

/// The position of the word that follows the first `key` among the words `r` of `c`.
fn word_after_index(c: &Vec<char>, r: &Vec<(usize, usize)>, key: &Vec<char>) -> (k: Option<usize>)
    requires
        ranges_within(r@, c@.len()),
    ensures
        match k {
            Some(k) => k < r@.len() && word_after(range_texts(c@, r@), key@) == Some(range_texts(c@, r@)[k as int]),
            None => word_after(range_texts(c@, r@), key@) is None,
        },
{
    let ghost w = range_texts(c@, r@);
    let mut j: usize = 0;
    assert(w.skip(0) =~= w);
    while j < r.len() && j + 1 < r.len()
        invariant
            ranges_within(r@, c@.len()),
            w == range_texts(c@, r@),
            0 <= j <= r@.len(),
            word_after(w, key@) == word_after(w.skip(j as int), key@),
        decreases r@.len() - j,
    {
        assert(w.skip(j as int)[0] == w[j as int]);
        assert(w.skip(j as int)[1] == w[j + 1]);
        assert(w.skip(j as int).drop_first() =~= w.skip(j + 1));
        if range_is(c, r[j].0, r[j].1, key) {
            return Some(j + 1);
        }
        j = j + 1;
    }
    None
}

proof fn lemma_lead_digit_chars(s: Seq<char>, i: int)
    requires
        0 <= i <= s.len(),
        forall|j: int| 0 <= j < i ==> is_digit_char(#[trigger] s[j]),
        i == s.len() || !is_digit_char(s[i]),
    ensures
        lead_digit_chars(s) == i,
    decreases i,
{
    if i > 0 {
        assert forall|j: int| 0 <= j < i - 1 implies is_digit_char(#[trigger] s.drop_first()[j]) by {
            assert(s.drop_first()[j] == s[j + 1]);
        }
        if i < s.len() {
            assert(s.drop_first()[i - 1] == s[i]);
        }
        lemma_lead_digit_chars(s.drop_first(), i - 1);
    }
}

/// The percentage `c[lo..hi]` in thousandths, if it is one.
fn permille_of(c: &Vec<char>, lo: usize, hi: usize) -> (r: Option<u32>)
    requires
        lo <= hi <= c@.len(),
    ensures
        match r {
            Some(v) => percent_permille(c@.subrange(lo as int, hi as int)) == Some(v as nat),
            None => percent_permille(c@.subrange(lo as int, hi as int)) is None,
        },
{
    let ghost p = c@.subrange(lo as int, hi as int);
    if hi - lo < 2 || c[hi - 1] != '%' {
        return None;
    }
    let ghost q = p.drop_last();
    assert(p.last() == c@[hi - 1]);
    let end = hi - 1;
    assert(q =~= c@.subrange(lo as int, end as int));
    let mut i: usize = lo;
    let mut whole: u32 = 0;
    while i < end && c[i] >= '0' && c[i] <= '9'
        invariant
            lo <= i <= end < hi <= c@.len(),
            q == c@.subrange(lo as int, end as int),
            forall|j: int| 0 <= j < i - lo ==> is_digit_char(#[trigger] q[j]),
            whole == at_most_1000(char_digits_value(q.take(i - lo))),
        decreases end - i,
    {
        let ghost k = i - lo;
        assert(q.take(k + 1).drop_last() =~= q.take(k));
        assert(q.take(k + 1).last() == c@[i as int]);
        let d = (c[i] as u32) - ('0' as u32);
        whole = if whole * 10 + d <= 1000 {
            whole * 10 + d
        } else {
            1000
        };
        i = i + 1;
    }
    let n = i - lo;
    proof {
        if i < end {
            assert(q[n as int] == c@[i as int]);
        }
        lemma_lead_digit_chars(q, n as int);
    }
    if n == 0 {
        return None;
    }
    if i == end {
        assert(q.take(n as int) =~= q);
        return Some(if whole * 10 <= 1000 {
            whole * 10
        } else {
            1000
        });
    }
    assert(q[n as int] == c@[i as int]);
    if c[i] != '.' {
        return None;
    }
    let mut j: usize = i + 1;
    while j < end
        invariant
            lo <= i < j <= end < hi <= c@.len(),
            q == c@.subrange(lo as int, end as int),
            p == c@.subrange(lo as int, hi as int),
            q == p.drop_last(),
            p.len() >= 2,
            p.last() == '%',
            n == i - lo,
            n >= 1,
            lead_digit_chars(q) == n,
            q[n as int] == '.',
            forall|m: int| n + 1 <= m < j - lo ==> is_digit_char(#[trigger] q[m]),
        decreases end - j,
    {
        if !(c[j] >= '0' && c[j] <= '9') {
            assert(q[j - lo] == c@[j as int]);
            assert(!is_digit_char(q[j - lo]));
            return None;
        }
        assert(q[j - lo] == c@[j as int]);
        j = j + 1;
    }
    let tenth: u32 = if i + 1 < end {
        assert(q[n + 1] == c@[i + 1]);
        (c[i + 1] as u32) - ('0' as u32)
    } else {
        0
    };
    Some(if whole * 10 + tenth <= 1000 {
        whole * 10 + tenth
    } else {
        1000
    })
}

/// Reads a progress line of the download tool, if it is one.
pub fn parse_progress_line(line: &str) -> (r: Option<Progress>)
    ensures
        match r {
            Some(p) => progress_of(line@) == Some(
                (p.permille as nat, crate::listing::opt_view(p.speed), crate::listing::opt_view(p.eta)),
            ),
            None => progress_of(line@) is None,
        },
{
    let c = chars_of(line);
    let r = word_ranges(&c);
    if r.len() < 2 {
        return None;
    }
    let tag = chars_of("[download]");
    if !range_is(&c, r[0].0, r[0].1, &tag) {
        return None;
    }
    let permille = match permille_of(&c, r[1].0, r[1].1) {
        Some(v) => v,
        None => return None,
    };
    let at = chars_of("at");
    let speed = match word_after_index(&c, &r, &at) {
        Some(k) => Some(line.substring_char(r[k].0, r[k].1).to_owned()),
        None => None,
    };
    let eta_key = chars_of("ETA");
    let eta = match word_after_index(&c, &r, &eta_key) {
        Some(k) => Some(line.substring_char(r[k].0, r[k].1).to_owned()),
        None => None,
    };
    Some(Progress { permille, speed, eta })
}

} // verus!
