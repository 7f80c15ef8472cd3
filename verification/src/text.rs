//! Character-level text handling shared by every parser in the library: Unicode
//! whitespace, trimming, line splitting, whitespace-separated fields and decimal
//! integers, each specified over `Seq<char>` exactly as the standard library behaves.
//!
//! Text is handled as a `Vec<char>` together with a window `[lo, hi)` into it, so that
//! parsers can walk a buffer without copying it.

use vstd::prelude::*;

verus! {

broadcast use vstd::seq_lib::group_seq_properties;

// ------------------------------------------------------------------------------------
// Conversions
// ------------------------------------------------------------------------------------

/// The characters of `s`, in order.
pub fn chars_of(s: &str) -> (v: Vec<char>)
    ensures
        v@ == s@,
{
    broadcast use vstd::string::axiom_spec_iter;

    let mut v: Vec<char> = Vec::new();
    for c in it: s.chars()
        invariant
            v@ == it.seq().take(it.index() as int),
    {
        v.push(c);
    }
    assert(v@ =~= s@);
    v
}

/// Calls `String`'s `FromIterator<&char>` (`collect`): the string whose characters are
/// `cs`, in order.
#[verifier::external_body]
pub(crate) fn string_from_chars(cs: &[char]) -> (s: String)
    ensures
        s@ == cs@,
{
    cs.iter().collect()
}

/// The characters `s[lo..hi]` as a `String`.
pub fn string_of_window(s: &Vec<char>, lo: usize, hi: usize) -> (r: String)
    requires
        lo <= hi <= s.len(),
    ensures
        r@ == s@.subrange(lo as int, hi as int),
{
    let mut w: Vec<char> = Vec::new();
    let mut i = lo;
    while i < hi
        invariant
            lo <= i <= hi <= s.len(),
            w@ == s@.subrange(lo as int, i as int),
        decreases hi - i,
    {
        w.push(s[i]);
        i += 1;
    }
    string_from_chars(w.as_slice())
}

/// A fresh `String` holding the characters of a literal.
pub fn owned(s: &str) -> (r: String)
    ensures
        r@ == s@,
{
    let v = chars_of(s);
    string_from_chars(v.as_slice())
}

/// Concatenation of two strings into a new one.
pub fn concat(a: &str, b: &str) -> (r: String)
    ensures
        r@ == a@ + b@,
{
    let mut v = chars_of(a);
    let w = chars_of(b);
    let mut i: usize = 0;
    let ghost v0 = v@;
    while i < w.len()
        invariant
            i <= w.len(),
            v@ == v0 + w@.take(i as int),
        decreases w.len() - i,
    {
        v.push(w[i]);
        i += 1;
    }
    assert(w@.take(w.len() as int) == w@);
    string_from_chars(v.as_slice())
}

// ------------------------------------------------------------------------------------
// Whitespace and trimming
// ------------------------------------------------------------------------------------

/// Unicode `White_Space`, the set `char::is_whitespace` tests.
pub open spec fn is_ws(c: char) -> bool {
    let u = c as u32;
    (0x9 <= u && u <= 0xd) || u == 0x20 || u == 0x85 || u == 0xa0 || u == 0x1680 || (0x2000
        <= u && u <= 0x200a) || u == 0x2028 || u == 0x2029 || u == 0x202f || u == 0x205f || u
        == 0x3000
}

pub fn is_whitespace(c: char) -> (b: bool)
    ensures
        b == is_ws(c),
{
    let u = c as u32;
    (0x9 <= u && u <= 0xd) || u == 0x20 || u == 0x85 || u == 0xa0 || u == 0x1680 || (0x2000
        <= u && u <= 0x200a) || u == 0x2028 || u == 0x2029 || u == 0x202f || u == 0x205f || u
        == 0x3000
}

/// `str::trim_start`: leading whitespace removed.
pub open spec fn trim_start_seq(s: Seq<char>) -> Seq<char>
    decreases s.len(),
{
    if s.len() > 0 && is_ws(s[0]) {
        trim_start_seq(s.drop_first())
    } else {
        s
    }
}

/// `str::trim_end`: trailing whitespace removed.
pub open spec fn trim_end_seq(s: Seq<char>) -> Seq<char>
    decreases s.len(),
{
    if s.len() > 0 && is_ws(s.last()) {
        trim_end_seq(s.drop_last())
    } else {
        s
    }
}

/// `str::trim`.
pub open spec fn trim_seq(s: Seq<char>) -> Seq<char> {
    trim_end_seq(trim_start_seq(s))
}

/// The window left once leading whitespace of `s[lo..hi]` is skipped.
pub fn skip_ws(s: &Vec<char>, lo: usize, hi: usize) -> (a: usize)
    requires
        lo <= hi <= s.len(),
    ensures
        lo <= a <= hi,
        s@.subrange(a as int, hi as int) == trim_start_seq(s@.subrange(lo as int, hi as int)),
        a < hi ==> !is_ws(s@[a as int]),
{
    let mut i = lo;
    while i < hi && is_whitespace(s[i])
        invariant
            lo <= i <= hi <= s.len(),
            trim_start_seq(s@.subrange(i as int, hi as int)) == trim_start_seq(
                s@.subrange(lo as int, hi as int),
            ),
        decreases hi - i,
    {
        assert(s@.subrange(i as int, hi as int).drop_first() == s@.subrange(i + 1, hi as int));
        i += 1;
    }
    i
}

/// The end of `s[lo..hi]` once trailing whitespace is dropped.
pub fn trim_end_at(s: &Vec<char>, lo: usize, hi: usize) -> (b: usize)
    requires
        lo <= hi <= s.len(),
    ensures
        lo <= b <= hi,
        s@.subrange(lo as int, b as int) == trim_end_seq(s@.subrange(lo as int, hi as int)),
{
    let mut j = hi;
    while j > lo && is_whitespace(s[j - 1])
        invariant
            lo <= j <= hi <= s.len(),
            trim_end_seq(s@.subrange(lo as int, j as int)) == trim_end_seq(
                s@.subrange(lo as int, hi as int),
            ),
        decreases j - lo,
    {
        assert(s@.subrange(lo as int, j as int).drop_last() == s@.subrange(lo as int, j - 1));
        j -= 1;
    }
    j
}

/// `str::trim` over a window: the returned window is the trimmed text.
pub fn trim_window(s: &Vec<char>, lo: usize, hi: usize) -> (r: (usize, usize))
    requires
        lo <= hi <= s.len(),
    ensures
        lo <= r.0 <= r.1 <= hi,
        s@.subrange(r.0 as int, r.1 as int) == trim_seq(s@.subrange(lo as int, hi as int)),
{
    let a = skip_ws(s, lo, hi);
    let b = trim_end_at(s, a, hi);
    (a, b)
}

// ------------------------------------------------------------------------------------
// Searching
// ------------------------------------------------------------------------------------

/// Index of the first `c` in `s`, or `s.len()` when there is none.
pub open spec fn first_index(s: Seq<char>, c: char) -> int
    decreases s.len(),
{
    if s.len() == 0 {
        0
    } else if s[0] == c {
        0
    } else {
        1 + first_index(s.drop_first(), c)
    }
}

pub proof fn lemma_first_index(s: Seq<char>, c: char)
    ensures
        0 <= first_index(s, c) <= s.len(),
        forall|j: int| 0 <= j < first_index(s, c) ==> s[j] != c,
        first_index(s, c) < s.len() ==> s[first_index(s, c)] == c,
    decreases s.len(),
{
    if s.len() > 0 && s[0] != c {
        lemma_first_index(s.drop_first(), c);
        assert forall|j: int| 0 <= j < first_index(s, c) implies s[j] != c by {
            if j > 0 {
                assert(s[j] == s.drop_first()[j - 1]);
            }
        }
    }
}

/// Any index before which `c` does not occur, and at which it does (or which is the end),
/// is the first index of `c`.
pub proof fn lemma_first_index_unique(s: Seq<char>, c: char, i: int)
    requires
        0 <= i <= s.len(),
        forall|j: int| 0 <= j < i ==> s[j] != c,
        i < s.len() ==> s[i] == c,
    ensures
        first_index(s, c) == i,
    decreases s.len(),
{
    if s.len() > 0 && s[0] != c {
        assert forall|j: int| 0 <= j < i - 1 implies s.drop_first()[j] != c by {
            assert(s.drop_first()[j] == s[j + 1]);
        }
        lemma_first_index_unique(s.drop_first(), c, i - 1);
    }
}

/// The first position at or after `lo` (and before `hi`) holding `c`, or `hi`.
pub fn find_char(s: &Vec<char>, lo: usize, hi: usize, c: char) -> (i: usize)
    requires
        lo <= hi <= s.len(),
    ensures
        lo <= i <= hi,
        i - lo == first_index(s@.subrange(lo as int, hi as int), c),
{
    let mut i = lo;
    while i < hi && s[i] != c
        invariant
            lo <= i <= hi <= s.len(),
            forall|j: int| lo <= j < i ==> s@[j] != c,
        decreases hi - i,
    {
        i += 1;
    }
    proof {
        lemma_first_index_unique(s@.subrange(lo as int, hi as int), c, i - lo);
    }
    i
}

/// `s` starts with `p`.
pub open spec fn has_prefix(s: Seq<char>, p: Seq<char>) -> bool {
    p.len() <= s.len() && s.take(p.len() as int) == p
}

/// `s` ends with `p`.
pub open spec fn has_suffix(s: Seq<char>, p: Seq<char>) -> bool {
    p.len() <= s.len() && s.skip(s.len() - p.len()) == p
}

/// Whether `s[lo..hi]` starts with `p`.
pub fn window_starts_with(s: &Vec<char>, lo: usize, hi: usize, p: &Vec<char>) -> (b: bool)
    requires
        lo <= hi <= s.len(),
    ensures
        b == has_prefix(s@.subrange(lo as int, hi as int), p@),
{
    if p.len() > hi - lo {
        return false;
    }
    let mut k: usize = 0;
    while k < p.len()
        invariant
            k <= p.len() <= hi - lo,
            lo <= hi <= s.len(),
            forall|j: int| 0 <= j < k ==> s@[lo + j] == p@[j],
        decreases p.len() - k,
    {
        if s[lo + k] != p[k] {
            assert(s@.subrange(lo as int, hi as int).take(p.len() as int)[k as int] != p@[k as int]);
            return false;
        }
        k += 1;
    }
    assert(s@.subrange(lo as int, hi as int).take(p.len() as int) =~= p@);
    true
}

/// Whether `s[lo..hi]` ends with `p`.
pub fn window_ends_with(s: &Vec<char>, lo: usize, hi: usize, p: &Vec<char>) -> (b: bool)
    requires
        lo <= hi <= s.len(),
    ensures
        b == has_suffix(s@.subrange(lo as int, hi as int), p@),
{
    if p.len() > hi - lo {
        return false;
    }
    let start = hi - p.len();
    let r = window_starts_with(s, start, hi, p);
    proof {
        let w = s@.subrange(lo as int, hi as int);
        assert(w.skip(w.len() - p.len()) =~= s@.subrange(start as int, hi as int));
        assert(s@.subrange(start as int, hi as int).take(p.len() as int) =~= s@.subrange(
            start as int,
            hi as int,
        ));
    }
    r
}

/// Whether `s[lo..hi]` is exactly `p`.
pub fn window_eq(s: &Vec<char>, lo: usize, hi: usize, p: &Vec<char>) -> (b: bool)
    requires
        lo <= hi <= s.len(),
    ensures
        b == (s@.subrange(lo as int, hi as int) == p@),
{
    if hi - lo != p.len() {
        return false;
    }
    let r = window_starts_with(s, lo, hi, p);
    proof {
        let w = s@.subrange(lo as int, hi as int);
        assert(w.take(p.len() as int) =~= w);
    }
    r
}

/// Whether two strings hold the same characters.
pub fn text_eq(a: &str, b: &str) -> (r: bool)
    ensures
        r == (a@ == b@),
{
    let va = chars_of(a);
    let vb = chars_of(b);
    let n = va.len();
    assert(va@.subrange(0, n as int) =~= va@);
    window_eq(&va, 0, n, &vb)
}

/// `p` occurs somewhere inside `s`.
pub open spec fn contains_seq(s: Seq<char>, p: Seq<char>) -> bool {
    exists|i: int| 0 <= i && i + p.len() <= s.len() && #[trigger] s.subrange(i, i + p.len()) == p
}

/// `str::contains` for a string pattern.
pub fn contains(s: &Vec<char>, p: &Vec<char>) -> (b: bool)
    ensures
        b == contains_seq(s@, p@),
{
    if p.len() > s.len() {
        return false;
    }
    let mut i: usize = 0;
    let last = s.len() - p.len();
    loop
        invariant
            p.len() <= s.len(),
            last == s.len() - p.len(),
            i <= last,
            forall|k: int| 0 <= k < i ==> #[trigger] s@.subrange(k, k + p.len()) != p@,
        decreases last - i,
    {
        if window_eq(s, i, i + p.len(), p) {
            return true;
        }
        if i == last {
            return false;
        }
        i += 1;
    }
}

// ------------------------------------------------------------------------------------
// Lines
// ------------------------------------------------------------------------------------

/// A line without its terminating `\n`, with a `\r` before that `\n` removed too.
pub open spec fn strip_cr(line: Seq<char>) -> Seq<char> {
    if line.len() > 0 && line.last() == '\r' {
        line.drop_last()
    } else {
        line
    }
}

/// `str::lines`: split at `\n` (dropping a `\r` right before it); a final line ending is
/// optional and yields no empty last line.
pub open spec fn lines_seq(s: Seq<char>) -> Seq<Seq<char>>
    decreases s.len(),
{
    if s.len() == 0 {
        Seq::empty()
    } else {
        let i = first_index(s, '\n');
        if i >= s.len() || i < 0 {
            seq![s]
        } else {
            seq![strip_cr(s.take(i))] + lines_seq(s.skip(i + 1))
        }
    }
}

/// The next line of `s[pos..hi]`: its window and where the following line starts.
pub fn next_line(s: &Vec<char>, pos: usize, hi: usize) -> (r: (usize, usize, usize))
    requires
        pos < hi <= s.len(),
    ensures
        pos <= r.0 <= r.1 <= r.2 <= hi,
        r.2 > pos,
        lines_seq(s@.subrange(pos as int, hi as int)) == seq![
            s@.subrange(r.0 as int, r.1 as int),
        ] + lines_seq(s@.subrange(r.2 as int, hi as int)),
{
    let nl = find_char(s, pos, hi, '\n');
    let ghost w = s@.subrange(pos as int, hi as int);
    proof {
        lemma_first_index(w, '\n');
    }
    if nl == hi {
        assert(lines_seq(s@.subrange(hi as int, hi as int)) == Seq::<Seq<char>>::empty());
        assert(lines_seq(w) == seq![w]);
        assert(seq![w] + Seq::<Seq<char>>::empty() =~= seq![w]);
        (pos, hi, hi)
    } else {
        let end = if nl > pos && s[nl - 1] == '\r' { nl - 1 } else { nl };
        proof {
            let i = nl - pos;
            assert(w.take(i as int) =~= s@.subrange(pos as int, nl as int));
            assert(w.skip(i + 1) =~= s@.subrange(nl + 1, hi as int));
            assert(strip_cr(w.take(i as int)) =~= s@.subrange(pos as int, end as int));
        }
        (pos, end, nl + 1)
    }
}

// ------------------------------------------------------------------------------------
// Whitespace-separated fields
// ------------------------------------------------------------------------------------

/// Length of the leading run of non-whitespace characters.
pub open spec fn nonws_prefix_len(s: Seq<char>) -> int
    decreases s.len(),
{
    if s.len() == 0 || is_ws(s[0]) {
        0
    } else {
        1 + nonws_prefix_len(s.drop_first())
    }
}

pub proof fn lemma_nonws_prefix_len(s: Seq<char>)
    ensures
        0 <= nonws_prefix_len(s) <= s.len(),
        forall|j: int| 0 <= j < nonws_prefix_len(s) ==> !is_ws(s[j]),
        nonws_prefix_len(s) < s.len() ==> is_ws(s[nonws_prefix_len(s)]),
    decreases s.len(),
{
    if s.len() > 0 && !is_ws(s[0]) {
        lemma_nonws_prefix_len(s.drop_first());
        assert forall|j: int| 0 <= j < nonws_prefix_len(s) implies !is_ws(s[j]) by {
            if j > 0 {
                assert(s[j] == s.drop_first()[j - 1]);
            }
        }
    }
}

pub proof fn lemma_nonws_prefix_len_unique(s: Seq<char>, n: int)
    requires
        0 <= n <= s.len(),
        forall|j: int| 0 <= j < n ==> !is_ws(s[j]),
        n < s.len() ==> is_ws(s[n]),
    ensures
        nonws_prefix_len(s) == n,
    decreases s.len(),
{
    if s.len() > 0 && !is_ws(s[0]) {
        assert forall|j: int| 0 <= j < n - 1 implies !is_ws(s.drop_first()[j]) by {
            assert(s.drop_first()[j] == s[j + 1]);
        }
        lemma_nonws_prefix_len_unique(s.drop_first(), n - 1);
    }
}

/// `str::split_whitespace`: the maximal runs of non-whitespace characters.
pub open spec fn fields_seq(s: Seq<char>) -> Seq<Seq<char>>
    decreases s.len(),
{
    let t = trim_start_seq(s);
    if t.len() == 0 {
        Seq::empty()
    } else {
        let n = nonws_prefix_len(t);
        if n <= 0 || n > t.len() || t.len() > s.len() {
            seq![t]
        } else {
            seq![t.take(n)] + fields_seq(t.skip(n))
        }
    }
}

pub proof fn lemma_trim_start_len(s: Seq<char>)
    ensures
        trim_start_seq(s).len() <= s.len(),
        trim_start_seq(s) == s.skip(s.len() - trim_start_seq(s).len()),
        trim_start_seq(s).len() > 0 ==> !is_ws(trim_start_seq(s)[0]),
    decreases s.len(),
{
    if s.len() > 0 && is_ws(s[0]) {
        lemma_trim_start_len(s.drop_first());
        assert(s.drop_first().skip(s.drop_first().len() - trim_start_seq(s).len()) =~= s.skip(
            s.len() - trim_start_seq(s).len(),
        ));
    } else {
        assert(s.skip(0) =~= s);
    }
}

/// The next whitespace-separated field of `s[pos..hi]`, if any: its window, which also
/// says where scanning resumes.
pub fn next_field(s: &Vec<char>, pos: usize, hi: usize) -> (r: Option<(usize, usize)>)
    requires
        pos <= hi <= s.len(),
    ensures
        match r {
            None => fields_seq(s@.subrange(pos as int, hi as int)) == Seq::<Seq<char>>::empty(),
            Some((a, b)) => pos <= a < b <= hi && fields_seq(s@.subrange(pos as int, hi as int))
                == seq![s@.subrange(a as int, b as int)] + fields_seq(
                s@.subrange(b as int, hi as int),
            ),
        },
{
    let a = skip_ws(s, pos, hi);
    let ghost w = s@.subrange(pos as int, hi as int);
    let ghost t = trim_start_seq(w);
    proof {
        lemma_trim_start_len(w);
    }
    if a == hi {
        assert(t.len() == 0);
        return None;
    }
    let mut b = a;
    while b < hi && !is_whitespace(s[b])
        invariant
            a <= b <= hi <= s.len(),
            forall|j: int| a <= j < b ==> !is_ws(s@[j]),
        decreases hi - b,
    {
        b += 1;
    }
    proof {
        assert(t =~= s@.subrange(a as int, hi as int));
        lemma_nonws_prefix_len_unique(t, b - a);
        assert(t.take(b - a) =~= s@.subrange(a as int, b as int));
        assert(t.skip(b - a) =~= s@.subrange(b as int, hi as int));
    }
    Some((a, b))
}

// ------------------------------------------------------------------------------------
// Decimal integers
// ------------------------------------------------------------------------------------

pub open spec fn is_digit(c: char) -> bool {
    '0' <= c && c <= '9'
}

pub open spec fn digit_val(c: char) -> int {
    (c as u32) - ('0' as u32)
}

/// The value of a string of decimal digits.
pub open spec fn digits_value(s: Seq<char>) -> int
    decreases s.len(),
{
    if s.len() == 0 {
        0
    } else {
        digits_value(s.drop_last()) * 10 + digit_val(s.last())
    }
}

pub open spec fn all_digits(s: Seq<char>) -> bool {
    forall|i: int| 0 <= i < s.len() ==> is_digit(#[trigger] s[i])
}

/// The digits `FromStr` reads for an unsigned integer: an optional `+`, then the rest.
pub open spec fn unsigned_body(s: Seq<char>) -> Seq<char> {
    if s.len() > 0 && s[0] == '+' {
        s.drop_first()
    } else {
        s
    }
}

/// `<uN as FromStr>::from_str` with `max = uN::MAX`: an optional `+` followed by at least
/// one ASCII digit, whose value must not exceed `max`.
pub open spec fn parse_unsigned_seq(s: Seq<char>, max: int) -> Option<int> {
    let d = unsigned_body(s);
    if d.len() == 0 || !all_digits(d) || digits_value(d) > max {
        None
    } else {
        Some(digits_value(d))
    }
}

/// `str::parse::<u64>`.
pub open spec fn parse_u64_seq(s: Seq<char>) -> Option<u64> {
    match parse_unsigned_seq(s, u64::MAX as int) {
        Some(v) => Some(v as u64),
        None => None,
    }
}

proof fn lemma_digits_value_nonneg(s: Seq<char>)
    requires
        all_digits(s),
    ensures
        digits_value(s) >= 0,
    decreases s.len(),
{
    if s.len() > 0 {
        assert(all_digits(s.drop_last()));
        lemma_digits_value_nonneg(s.drop_last());
    }
}

/// A parsed unsigned value lies between zero and the bound.
pub proof fn lemma_parse_unsigned_range(s: Seq<char>, max: int)
    ensures
        parse_unsigned_seq(s, max) matches Some(v) ==> 0 <= v <= max,
{
    let d = unsigned_body(s);
    if d.len() > 0 && all_digits(d) {
        lemma_digits_value_nonneg(d);
    }
}

/// Appending digits never makes a number smaller.
proof fn lemma_digits_value_grows(s: Seq<char>, i: int)
    requires
        all_digits(s),
        0 <= i <= s.len(),
    ensures
        digits_value(s.take(i)) <= digits_value(s),
    decreases s.len() - i,
{
    if i < s.len() {
        lemma_digits_value_grows(s, i + 1);
        assert(s.take(i + 1).drop_last() =~= s.take(i));
        assert(all_digits(s.take(i)));
        lemma_digits_value_nonneg(s.take(i));
    } else {
        assert(s.take(i) =~= s);
    }
}

/// Parses `s[lo..hi]` as an unsigned decimal no greater than `max`, exactly as
/// `FromStr` does for the unsigned type whose maximum is `max`.
pub fn parse_unsigned(s: &Vec<char>, lo: usize, hi: usize, max: u64) -> (r: Option<u64>)
    requires
        lo <= hi <= s.len(),
    ensures
        match parse_unsigned_seq(s@.subrange(lo as int, hi as int), max as int) {
            Some(v) => r == Some(v as u64),
            None => r.is_none(),
        },
{
    let ghost w = s@.subrange(lo as int, hi as int);
    let start = if lo < hi && s[lo] == '+' { lo + 1 } else { lo };
    let ghost d = s@.subrange(start as int, hi as int);
    assert(unsigned_body(w) =~= d);
    if start == hi {
        return None;
    }
    let mut acc: u64 = 0;
    let mut i = start;
    while i < hi
        invariant
            start <= i <= hi <= s.len(),
            lo <= start,
            w == s@.subrange(lo as int, hi as int),
            unsigned_body(w) == d,
            d == s@.subrange(start as int, hi as int),
            acc as int == digits_value(d.take(i - start)),
            acc <= max,
            forall|j: int| start <= j < i ==> is_digit(s@[j]),
        decreases hi - i,
    {
        let c = s[i];
        assert(d[i - start] == c);
        if !('0' <= c && c <= '9') {
            assert(!is_digit(d[i - start]));
            assert(!all_digits(d));
            return None;
        }
        let dv = (c as u32 - '0' as u32) as u64;
        proof {
            assert(d.take(i - start + 1).drop_last() =~= d.take(i - start));
            assert(d.take(i - start + 1).last() == c);
            assert(digits_value(d.take(i - start + 1)) == acc * 10 + dv);
        }
        let v: u128 = acc as u128 * 10 + dv as u128;
        if v > max as u128 {
            proof {
                if all_digits(d) {
                    lemma_digits_value_grows(d, i - start + 1);
                }
            }
            return None;
        }
        acc = v as u64;
        i += 1;
    }
    proof {
        assert(d.take(d.len() as int) =~= d);
        assert(all_digits(d));
    }
    Some(acc)
}

// ------------------------------------------------------------------------------------
// Ordering
// ------------------------------------------------------------------------------------

/// Lexicographic order by code point, which for UTF-8 text is the byte order `String`'s
/// `Ord` uses.
pub open spec fn lex_lt(a: Seq<char>, b: Seq<char>) -> bool
    decreases a.len(),
{
    if a.len() == 0 {
        b.len() > 0
    } else if b.len() == 0 {
        false
    } else if a[0] != b[0] {
        a[0] < b[0]
    } else {
        lex_lt(a.drop_first(), b.drop_first())
    }
}

pub proof fn lemma_lex_irreflexive(a: Seq<char>)
    ensures
        !lex_lt(a, a),
    decreases a.len(),
{
    if a.len() > 0 {
        lemma_lex_irreflexive(a.drop_first());
    }
}

pub proof fn lemma_lex_transitive(a: Seq<char>, b: Seq<char>, c: Seq<char>)
    requires
        lex_lt(a, b),
        lex_lt(b, c),
    ensures
        lex_lt(a, c),
    decreases a.len(),
{
    if a.len() > 0 && b.len() > 0 && c.len() > 0 && a[0] == b[0] && b[0] == c[0] {
        lemma_lex_transitive(a.drop_first(), b.drop_first(), c.drop_first());
    }
}

/// Two different sequences are always ordered one way or the other.
pub proof fn lemma_lex_total(a: Seq<char>, b: Seq<char>)
    requires
        a != b,
    ensures
        lex_lt(a, b) || lex_lt(b, a),
    decreases a.len(),
{
    if a.len() > 0 && b.len() > 0 && a[0] == b[0] {
        if a.drop_first() == b.drop_first() {
            assert(a =~= seq![a[0]] + a.drop_first());
            assert(b =~= seq![b[0]] + b.drop_first());
        }
        lemma_lex_total(a.drop_first(), b.drop_first());
    }
    if a.len() == 0 && b.len() == 0 {
        assert(a =~= b);
    }
}

/// Whether `a` comes strictly before `b` in code-point order.
pub fn lex_less(a: &Vec<char>, b: &Vec<char>) -> (r: bool)
    ensures
        r == lex_lt(a@, b@),
{
    let mut i: usize = 0;
    while i < a.len() && i < b.len() && a[i] == b[i]
        invariant
            i <= a.len(),
            i <= b.len(),
            lex_lt(a@, b@) == lex_lt(a@.skip(i as int), b@.skip(i as int)),
        decreases a.len() - i,
    {
        assert(a@.skip(i as int).drop_first() =~= a@.skip(i + 1));
        assert(b@.skip(i as int).drop_first() =~= b@.skip(i + 1));
        i += 1;
    }
    if i == a.len() {
        i < b.len()
    } else if i == b.len() {
        false
    } else {
        a[i] < b[i]
    }
}

/// The characters of each string.
pub open spec fn views(v: Seq<String>) -> Seq<Seq<char>> {
    v.map_values(|s: String| s@)
}

/// Strictly increasing in code-point order (so also free of duplicates).
pub open spec fn strictly_sorted(s: Seq<Seq<char>>) -> bool {
    forall|i: int, j: int| 0 <= i < j < s.len() ==> lex_lt(#[trigger] s[i], #[trigger] s[j])
}

/// Adds `x` to a strictly sorted list unless it is already there.
pub fn insert_sorted_unique(v: &mut Vec<String>, x: String)
    requires
        strictly_sorted(views(old(v)@)),
    ensures
        strictly_sorted(views(final(v)@)),
        forall|y: Seq<char>| views(final(v)@).contains(y) <==> (views(old(v)@).contains(y) || y == x@),
{
    let xc = chars_of(x.as_str());
    let ghost old_v = views(v@);
    let mut i: usize = 0;
    while i < v.len() && lex_less(&chars_of(v[i].as_str()), &xc)
        invariant
            i <= v.len(),
            xc@ == x@,
            views(v@) == old_v,
            strictly_sorted(old_v),
            forall|k: int| 0 <= k < i ==> lex_lt(#[trigger] old_v[k], x@),
        decreases v.len() - i,
    {
        assert(old_v[i as int] == v@[i as int]@);
        i += 1;
    }
    if i < v.len() {
        let cur = chars_of(v[i].as_str());
        let n = cur.len();
        assert(cur@.subrange(0, n as int) =~= cur@);
        assert(old_v[i as int] == v@[i as int]@);
        if window_eq(&cur, 0, n, &xc) {
            assert(old_v.contains(x@));
            return;
        }
        proof {
            lemma_lex_total(old_v[i as int], x@);
        }
    }
    v.insert(i, x);
    proof {
        let nv = views(v@);
        assert(nv =~= old_v.insert(i as int, x@));
        assert forall|a: int, b: int| 0 <= a < b < nv.len() implies lex_lt(#[trigger] nv[a], #[trigger] nv[b]) by {
            if b < i {
            } else if a < i && b == i {
            } else if a < i && b > i {
                if b > i + 1 {
                    lemma_lex_transitive(x@, old_v[i as int], old_v[b - 1]);
                }
                lemma_lex_transitive(nv[a], x@, nv[b]);
            } else if a == i {
                if b > i + 1 {
                    lemma_lex_transitive(x@, old_v[i as int], old_v[b - 1]);
                }
            } else {
            }
        }
        assert forall|y: Seq<char>| nv.contains(y) <==> (old_v.contains(y) || y == x@) by {
            if nv.contains(y) {
                let k = choose|k: int| 0 <= k < nv.len() && nv[k] == y;
                if k < i {
                    assert(old_v[k] == y);
                } else if k > i {
                    assert(old_v[k - 1] == y);
                }
            }
            if old_v.contains(y) {
                let k = choose|k: int| 0 <= k < old_v.len() && old_v[k] == y;
                if k < i {
                    assert(nv[k] == y);
                } else {
                    assert(nv[k + 1] == y);
                }
            }
            if y == x@ {
                assert(nv[i as int] == y);
            }
        }
    }
}

/// The distinct strings of `v`, in code-point order.
pub fn sorted_unique(v: Vec<String>) -> (r: Vec<String>)
    ensures
        strictly_sorted(views(r@)),
        forall|y: Seq<char>| views(r@).contains(y) <==> views(v@).contains(y),
{
    let mut r: Vec<String> = Vec::new();
    let mut v = v;
    let ghost all = views(v@);
    let mut i: usize = 0;
    while i < v.len()
        invariant
            i <= v.len(),
            views(v@) == all,
            strictly_sorted(views(r@)),
            forall|y: Seq<char>| views(r@).contains(y) <==> views(v@).take(i as int).contains(y),
        decreases v.len() - i,
    {
        let x = v[i].clone();
        assert(views(v@).take(i + 1) =~= views(v@).take(i as int).push(v@[i as int]@));
        insert_sorted_unique(&mut r, x);
        i += 1;
    }
    assert(views(v@).take(v.len() as int) =~= views(v@));
    r
}

} // verus!
