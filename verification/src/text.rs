use vstd::prelude::*;

use crate::day::is_ascii_digit;

verus! {

/// `p` occurs in `s` starting at index `i`.
pub open spec fn occurs_at(s: Seq<char>, p: Seq<char>, i: int) -> bool {
    0 <= i && i + p.len() <= s.len() && s.subrange(i, i + p.len()) == p
}

/// `p` occurs somewhere in `s`, as `str::contains` with a string pattern
/// answers it (the empty pattern occurs in every string).
pub open spec fn has_substring(s: Seq<char>, p: Seq<char>) -> bool {
    exists|i: int| #[trigger] occurs_at(s, p, i)
}

/// Unicode `White_Space`, the property by which `char::is_whitespace` and
/// `str::trim` decide.
pub open spec fn is_white_space(c: char) -> bool {
    let u = c as u32;
    ||| 0x9 <= u <= 0xd
    ||| u == 0x20
    ||| u == 0x85
    ||| u == 0xa0
    ||| u == 0x1680
    ||| 0x2000 <= u <= 0x200a
    ||| u == 0x2028
    ||| u == 0x2029
    ||| u == 0x202f
    ||| u == 0x205f
    ||| u == 0x3000
}

/// `s` without its leading white space.
pub open spec fn trim_start(s: Seq<char>) -> Seq<char>
    decreases s.len(),
{
    if s.len() > 0 && is_white_space(s[0]) {
        trim_start(s.drop_first())
    } else {
        s
    }
}

/// `s` without its trailing white space.
pub open spec fn trim_end(s: Seq<char>) -> Seq<char>
    decreases s.len(),
{
    if s.len() > 0 && is_white_space(s.last()) {
        trim_end(s.drop_last())
    } else {
        s
    }
}

/// `s` without leading and trailing white space, as `str::trim` gives it.
pub open spec fn trim(s: Seq<char>) -> Seq<char> {
    trim_end(trim_start(s))
}

/// `s` with every trailing repetition of `p` removed, as
/// `str::trim_end_matches` with a string pattern gives it.
pub open spec fn trim_end_matches(s: Seq<char>, p: Seq<char>) -> Seq<char>
    decreases s.len(),
{
    if p.len() > 0 && p.len() <= s.len() && s.subrange(s.len() - p.len(), s.len() as int) == p {
        trim_end_matches(s.subrange(0, s.len() - p.len()), p)
    } else {
        s
    }
}

/// Number of characters before the first line feed of `t` (all of them if
/// there is none).
pub open spec fn line_len(t: Seq<char>) -> nat
    decreases t.len(),
{
    if t.len() == 0 || t[0] == '\n' {
        0
    } else {
        1 + line_len(t.drop_first())
    }
}

/// The pieces of `t` between line feeds, as `str::split('\n')` yields them:
/// there is always one more piece than there are line feeds.
pub open spec fn split_lines(t: Seq<char>) -> Seq<Seq<char>>
    decreases t.len(),
{
    let k = line_len(t);
    if k >= t.len() {
        seq![t]
    } else {
        seq![t.take(k as int)] + split_lines(t.skip(k as int + 1))
    }
}

/// Every character of `s` is an ASCII character other than a digit.
pub open spec fn ascii_non_digits(s: Seq<char>) -> bool {
    forall|i: int| 0 <= i < s.len() ==> (s[i] as int) < 128 && !is_ascii_digit(#[trigger] s[i])
}

/// `s` is a non-empty run of ASCII digits.
pub open spec fn ascii_digit_run(s: Seq<char>) -> bool {
    s.len() > 0 && forall|i: int| 0 <= i < s.len() ==> is_ascii_digit(#[trigger] s[i])
}

/// The pieces of `s` that a list of index ranges marks out.
pub open spec fn pieces(s: Seq<char>, ranges: Seq<(usize, usize)>) -> Seq<Seq<char>> {
    ranges.map_values(|r: (usize, usize)| s.subrange(r.0 as int, r.1 as int))
}

/// The characters of `s`, in order.
pub fn chars_of(s: &str) -> (r: Vec<char>)
    ensures
        r@ == s@,
{
    let mut r: Vec<char> = Vec::new();
    for c in it: s.chars()
        invariant
            r@ == it.seq().take(it.index() as int),
            it.seq() == s@,
    {
        r.push(c);
    }
    r
}

/// Whether `c` is white space in the sense of `char::is_whitespace`.
pub fn is_white_space_char(c: char) -> (r: bool)
    ensures
        r == is_white_space(c),
{
    let u = c as u32;
    (0x9 <= u && u <= 0xd) || u == 0x20 || u == 0x85 || u == 0xa0 || u == 0x1680 || (0x2000 <= u
        && u <= 0x200a) || u == 0x2028 || u == 0x2029 || u == 0x202f || u == 0x205f || u == 0x3000
}

/// Whether `p` occurs in `s` at index `i`.
fn occurs_at_exec(s: &Vec<char>, p: &Vec<char>, i: usize) -> (r: bool)
    requires
        i + p@.len() <= s@.len(),
    ensures
        r == occurs_at(s@, p@, i as int),
{
    let n = s.len();
    let mut k: usize = 0;
    while k < p.len()
        invariant
            n == s@.len(),
            k <= p@.len(),
            i + p@.len() <= s@.len(),
            forall|m: int| 0 <= m < k ==> s@[i + m] == p@[m],
        decreases p@.len() - k,
    {
        if s[i + k] != p[k] {
            assert(s@.subrange(i as int, i + p@.len())[k as int] != p@[k as int]);
            return false;
        }
        k = k + 1;
    }
    assert(s@.subrange(i as int, i + p@.len()) =~= p@);
    true
}

/// Whether `p` occurs in the piece `s[lo..hi]`.
pub fn occurs_in(s: &Vec<char>, lo: usize, hi: usize, p: &Vec<char>) -> (r: bool)
    requires
        lo <= hi <= s@.len(),
    ensures
        r == has_substring(s@.subrange(lo as int, hi as int), p@),
{
    let ghost t = s@.subrange(lo as int, hi as int);
    if p.len() > hi - lo {
        assert forall|j: int| !occurs_at(t, p@, j) by {}
        return false;
    }
    if p.len() == 0 {
        assert(t.subrange(0, 0) =~= p@);
        assert(occurs_at(t, p@, 0));
        return true;
    }
    let mut i: usize = lo;
    while i <= hi - p.len()
        invariant
            lo <= i <= hi - p@.len() + 1,
            0 < p@.len() <= hi - lo,
            hi <= s@.len(),
            t == s@.subrange(lo as int, hi as int),
            forall|j: int| 0 <= j < i - lo ==> !occurs_at(t, p@, j),
        decreases hi - i,
    {
        if occurs_at_exec(s, p, i) {
            assert(t.subrange(i - lo, i - lo + p@.len()) =~= s@.subrange(
                i as int,
                i + p@.len(),
            ));
            assert(occurs_at(t, p@, i - lo));
            return true;
        }
        assert(t.subrange(i - lo, i - lo + p@.len()) =~= s@.subrange(i as int, i + p@.len()));
        i = i + 1;
    }
    assert forall|j: int| !occurs_at(t, p@, j) by {}
    false
}

/// Whether `p` occurs in `s`, as `str::contains` answers it.
pub fn contains_str(s: &str, p: &str) -> (r: bool)
    ensures
        r == has_substring(s@, p@),
{
    let sv = chars_of(s);
    let pv = chars_of(p);
    assert(sv@.subrange(0, sv@.len() as int) =~= sv@);
    occurs_in(&sv, 0, sv.len(), &pv)
}

/// The bounds of `s[lo..hi]` once white space is trimmed from both ends.
pub fn trim_range(s: &Vec<char>, lo: usize, hi: usize) -> (r: (usize, usize))
    requires
        lo <= hi <= s@.len(),
    ensures
        lo <= r.0 <= r.1 <= hi,
        s@.subrange(r.0 as int, r.1 as int) == trim(s@.subrange(lo as int, hi as int)),
{
    let mut a = lo;
    while a < hi && is_white_space_char(s[a])
        invariant
            lo <= a <= hi <= s@.len(),
            trim_start(s@.subrange(lo as int, hi as int)) == trim_start(
                s@.subrange(a as int, hi as int),
            ),
        decreases hi - a,
    {
        assert(s@.subrange(a as int, hi as int).drop_first() =~= s@.subrange(a + 1, hi as int));
        a = a + 1;
    }
    assert(trim_start(s@.subrange(a as int, hi as int)) == s@.subrange(a as int, hi as int));
    let mut b = hi;
    while b > a && is_white_space_char(s[b - 1])
        invariant
            lo <= a <= b <= hi <= s@.len(),
            trim_end(s@.subrange(a as int, hi as int)) == trim_end(s@.subrange(a as int, b as int)),
        decreases b,
    {
        assert(s@.subrange(a as int, b as int).drop_last() =~= s@.subrange(a as int, b - 1));
        b = b - 1;
    }
    (a, b)
}

/// The bounds of `s[lo..hi]` once every trailing repetition of `p` is
/// removed.
pub fn trim_end_matches_range(s: &Vec<char>, lo: usize, hi: usize, p: &Vec<char>) -> (r: usize)
    requires
        lo <= hi <= s@.len(),
    ensures
        lo <= r <= hi,
        s@.subrange(lo as int, r as int) == trim_end_matches(s@.subrange(lo as int, hi as int), p@),
{
    let mut b = hi;
    while p.len() > 0 && p.len() <= b - lo && occurs_at_exec(s, p, b - p.len())
        invariant
            lo <= b <= hi <= s@.len(),
            trim_end_matches(s@.subrange(lo as int, hi as int), p@) == trim_end_matches(
                s@.subrange(lo as int, b as int),
                p@,
            ),
        decreases b,
    {
        let ghost t = s@.subrange(lo as int, b as int);
        assert(t.subrange(t.len() - p@.len(), t.len() as int) =~= s@.subrange(
            b - p@.len(),
            b as int,
        ));
        assert(t.subrange(0, t.len() - p@.len()) =~= s@.subrange(lo as int, b - p@.len()));
        b = b - p.len();
    }
    proof {
        let t = s@.subrange(lo as int, b as int);
        if p@.len() > 0 && p@.len() <= t.len() {
            assert(t.subrange(t.len() - p@.len(), t.len() as int) =~= s@.subrange(
                b - p@.len(),
                b as int,
            ));
        }
    }
    b
}

/// A text without line feeds is a single line.
pub proof fn lemma_split_single_line(t: Seq<char>)
    requires
        forall|i: int| 0 <= i < t.len() ==> t[i] != '\n',
    ensures
        split_lines(t) == seq![t],
{
    lemma_line_len(t, t.len() as int);
}

/// Trimming the start of `pre + x`, where `x` starts with a character that
/// is not white space, trims only `pre`.
pub proof fn lemma_trim_start_concat(pre: Seq<char>, x: Seq<char>)
    requires
        x.len() > 0,
        !is_white_space(x[0]),
    ensures
        trim_start(pre + x) == trim_start(pre) + x,
    decreases pre.len(),
{
    if pre.len() == 0 {
        assert(pre + x =~= x);
        assert(trim_start(pre) + x =~= x);
    } else if is_white_space(pre[0]) {
        assert((pre + x).drop_first() =~= pre.drop_first() + x);
        lemma_trim_start_concat(pre.drop_first(), x);
    } else {
        assert((pre + x)[0] == pre[0]);
    }
}

/// What trimming the start leaves is a suffix of the text.
pub proof fn lemma_trim_start_suffix(s: Seq<char>)
    ensures
        trim_start(s).len() <= s.len(),
        trim_start(s) == s.skip(s.len() - trim_start(s).len()),
    decreases s.len(),
{
    if s.len() > 0 && is_white_space(s[0]) {
        lemma_trim_start_suffix(s.drop_first());
        assert(s.drop_first().skip(s.drop_first().len() - trim_start(s).len()) =~= s.skip(
            s.len() - trim_start(s).len(),
        ));
    } else {
        assert(s.skip(0) =~= s);
    }
}

/// A text whose last character is not white space has nothing to trim at
/// its end.
pub proof fn lemma_trim_end_nothing(s: Seq<char>)
    requires
        s.len() > 0,
        !is_white_space(s.last()),
    ensures
        trim_end(s) == s,
{
}

/// When the first `k` characters of `t` are not line feeds and the next one
/// is (or `t` ends there), the first line of `t` is `k` long.
proof fn lemma_line_len(t: Seq<char>, k: int)
    requires
        0 <= k <= t.len(),
        forall|j: int| 0 <= j < k ==> t[j] != '\n',
        k == t.len() || t[k] == '\n',
    ensures
        line_len(t) == k,
    decreases k,
{
    if k > 0 {
        lemma_line_len(t.drop_first(), k - 1);
    }
}

/// The bounds of the pieces of `s` between line feeds, in order.
pub fn split_lines_ranges(s: &Vec<char>) -> (r: Vec<(usize, usize)>)
    ensures
        pieces(s@, r@) == split_lines(s@),
        forall|i: int| 0 <= i < r@.len() ==> #[trigger] r@[i].0 <= r@[i].1 <= s@.len(),
{
    let n = s.len();
    let mut ranges: Vec<(usize, usize)> = Vec::new();
    let mut start: usize = 0;
    let mut i: usize = 0;
    assert(s@.skip(0) =~= s@);
    assert(pieces(s@, ranges@) =~= Seq::<Seq<char>>::empty());
    while i < n
        invariant
            n == s@.len(),
            start <= i <= n,
            forall|j: int| start <= j < i ==> s@[j] != '\n',
            split_lines(s@) == pieces(s@, ranges@) + split_lines(s@.skip(start as int)),
            forall|k: int| 0 <= k < ranges@.len() ==> #[trigger] ranges@[k].0 <= ranges@[k].1 <= n,
        decreases n - i,
    {
        if s[i] == '\n' {
            let ghost t = s@.skip(start as int);
            proof {
                lemma_line_len(t, i - start);
                assert(t.take(i - start) =~= s@.subrange(start as int, i as int));
                assert(t.skip(i - start + 1) =~= s@.skip(i + 1));
            }
            let ghost old_ranges = ranges@;
            ranges.push((start, i));
            assert(pieces(s@, ranges@) =~= pieces(s@, old_ranges).push(
                s@.subrange(start as int, i as int),
            ));
            start = i + 1;
        }
        i = i + 1;
    }
    let ghost t = s@.skip(start as int);
    proof {
        lemma_line_len(t, n - start);
        assert(t =~= s@.subrange(start as int, n as int));
    }
    let ghost old_ranges = ranges@;
    ranges.push((start, n));
    assert(pieces(s@, ranges@) =~= pieces(s@, old_ranges).push(s@.subrange(start as int, n as int)));
    ranges
}

} // verus!
