//! Character-level building blocks: whitespace, trimming, searching,
//! splitting into lines and parts, and decimal numbers.
use vstd::prelude::*;

use core::num::ParseIntError;

verus! {

/// std's integer parse error, carried as an opaque value.
#[verifier::external_type_specification]
#[verifier::external_body]
pub struct ExParseIntError(ParseIntError);

/// The byte-order mark that may open a text.
pub const BOM: char = '\u{feff}';

/// The Unicode `White_Space` property (PropList.txt).
pub open spec fn white_space(c: char) -> bool {
    ||| '\u{9}' <= c <= '\u{d}'
    ||| c == ' '
    ||| c == '\u{85}'
    ||| c == '\u{a0}'
    ||| c == '\u{1680}'
    ||| '\u{2000}' <= c <= '\u{200a}'
    ||| c == '\u{2028}'
    ||| c == '\u{2029}'
    ||| c == '\u{202f}'
    ||| c == '\u{205f}'
    ||| c == '\u{3000}'
}

/// Relies on char::is_whitespace: true exactly for the characters with the
/// Unicode `White_Space` property.
#[verifier::external_body]
fn is_white(c: char) -> (r: bool)
    ensures
        r == white_space(c),
{
    c.is_whitespace()
}

/// Relies on String::push: appends one character.
#[verifier::external_body]
pub(crate) fn push_char(s: &mut String, c: char)
    ensures
        final(s)@ == old(s)@.push(c),
{
    s.push(c)
}

/// `s` without its leading whitespace.
pub open spec fn trim_start(s: Seq<char>) -> Seq<char>
    decreases s.len(),
{
    if s.len() > 0 && white_space(s[0]) {
        trim_start(s.drop_first())
    } else {
        s
    }
}

/// `s` without its trailing whitespace.
pub open spec fn trim_end(s: Seq<char>) -> Seq<char>
    decreases s.len(),
{
    if s.len() > 0 && white_space(s.last()) {
        trim_end(s.drop_last())
    } else {
        s
    }
}

/// `s` without whitespace at either end.
pub open spec fn trim(s: Seq<char>) -> Seq<char> {
    trim_end(trim_start(s))
}

proof fn lemma_trim_start_skip(s: Seq<char>, a: int)
    requires
        0 <= a <= s.len(),
        forall|j: int| 0 <= j < a ==> white_space(s[j]),
    ensures
        trim_start(s) == trim_start(s.subrange(a, s.len() as int)),
    decreases a,
{
    if a > 0 {
        assert(s.drop_first() =~= s.subrange(1, s.len() as int));
        lemma_trim_start_skip(s.drop_first(), a - 1);
        assert(s.drop_first().subrange(a - 1, s.len() - 1) =~= s.subrange(a, s.len() as int));
    } else {
        assert(s.subrange(0, s.len() as int) =~= s);
    }
}

proof fn lemma_trim_end_skip(s: Seq<char>, b: int)
    requires
        0 <= b <= s.len(),
        forall|j: int| b <= j < s.len() ==> white_space(s[j]),
    ensures
        trim_end(s) == trim_end(s.subrange(0, b)),
    decreases s.len() - b,
{
    if b < s.len() {
        assert(s.drop_last() =~= s.subrange(0, s.len() - 1));
        lemma_trim_end_skip(s.drop_last(), b);
        assert(s.drop_last().subrange(0, b) =~= s.subrange(0, b));
    } else {
        assert(s.subrange(0, s.len() as int) =~= s);
    }
}

/// The bounds, within `lo..hi`, of `v[lo..hi]` trimmed.
pub fn trim_bounds(v: &Vec<char>, lo: usize, hi: usize) -> (r: (usize, usize))
    requires
        lo <= hi <= v.len(),
    ensures
        lo <= r.0 <= r.1 <= hi,
        v@.subrange(r.0 as int, r.1 as int) == trim(v@.subrange(lo as int, hi as int)),
{
    let ghost s = v@.subrange(lo as int, hi as int);
    let mut a: usize = lo;
    while a < hi && is_white(v[a])
        invariant
            lo <= a <= hi <= v.len(),
            forall|j: int| lo <= j < a ==> white_space(v@[j]),
        decreases hi - a,
    {
        a = a + 1;
    }
    proof {
        lemma_trim_start_skip(s, a - lo);
        assert(s.subrange(a - lo, s.len() as int) =~= v@.subrange(a as int, hi as int));
        let t = v@.subrange(a as int, hi as int);
        assert(t.len() == 0 || !white_space(t[0]));
    }
    let mut b: usize = hi;
    while b > a && is_white(v[b - 1])
        invariant
            lo <= a <= b <= hi <= v.len(),
            forall|j: int| b <= j < hi ==> white_space(v@[j]),
        decreases b - a,
    {
        b = b - 1;
    }
    proof {
        let t = v@.subrange(a as int, hi as int);
        lemma_trim_end_skip(t, b - a);
        assert(t.subrange(0, b - a) =~= v@.subrange(a as int, b as int));
        let u = v@.subrange(a as int, b as int);
        assert(u.len() == 0 || !white_space(u.last()));
    }
    (a, b)
}


/// Index of the first `c` in `s`, or `s.len()` when there is none.
pub open spec fn index_of(s: Seq<char>, c: char) -> nat
    decreases s.len(),
{
    if s.len() == 0 {
        0
    } else if s[0] == c {
        0
    } else {
        1 + index_of(s.drop_first(), c)
    }
}

/// The parts of `s` between occurrences of `c`; there is always at least one.
pub open spec fn split(s: Seq<char>, c: char) -> Seq<Seq<char>>
    decreases s.len(),
{
    let k = index_of(s, c);
    if k < s.len() {
        seq![s.take(k as int)] + split(s.skip(k + 1 as int), c)
    } else {
        seq![s]
    }
}

pub proof fn lemma_index_of(s: Seq<char>, c: char, k: int)
    requires
        0 <= k <= s.len(),
        k < s.len() ==> s[k] == c,
        forall|j: int| 0 <= j < k ==> s[j] != c,
    ensures
        index_of(s, c) == k,
    decreases k,
{
    if k > 0 {
        lemma_index_of(s.drop_first(), c, k - 1);
    }
}

/// Where the first `c` in `v[lo..hi]` stands, or `hi`.
pub fn find_char(v: &Vec<char>, lo: usize, hi: usize, c: char) -> (r: usize)
    requires
        lo <= hi <= v.len(),
    ensures
        r == lo + index_of(v@.subrange(lo as int, hi as int), c),
        lo <= r <= hi,
{
    let mut i: usize = lo;
    while i < hi && v[i] != c
        invariant
            lo <= i <= hi <= v.len(),
            forall|j: int| lo <= j < i ==> v@[j] != c,
        decreases hi - i,
    {
        i = i + 1;
    }
    proof {
        lemma_index_of(v@.subrange(lo as int, hi as int), c, i - lo);
    }
    i
}

/// One step of `split` on `v[lo..hi]`, at `k`, where `find_char` stops.
pub proof fn lemma_split_step(v: Seq<char>, lo: int, hi: int, c: char, k: int)
    requires
        0 <= lo <= hi <= v.len(),
        k == lo + index_of(v.subrange(lo, hi), c),
    ensures
        lo <= k <= hi,
        split(v.subrange(lo, hi), c)[0] == v.subrange(lo, k),
        k == hi ==> split(v.subrange(lo, hi), c).len() == 1,
        k < hi ==> split(v.subrange(lo, hi), c) == seq![v.subrange(lo, k)] + split(
            v.subrange(k + 1, hi),
            c,
        ),
{
    let s = v.subrange(lo, hi);
    lemma_index_of_bound(s, c);
    assert(s.take(k - lo) =~= v.subrange(lo, k));
    if k < hi {
        assert(s.skip(k - lo + 1) =~= v.subrange(k + 1, hi));
    }
    if k == hi {
        assert(s =~= v.subrange(lo, k));
    }
}

pub proof fn lemma_index_of_bound(s: Seq<char>, c: char)
    ensures
        index_of(s, c) <= s.len(),
        index_of(s, c) < s.len() ==> s[index_of(s, c) as int] == c,
    decreases s.len(),
{
    if s.len() > 0 && s[0] != c {
        lemma_index_of_bound(s.drop_first(), c);
    }
}

/// `l` without one final carriage return.
pub open spec fn strip_cr(l: Seq<char>) -> Seq<char> {
    if l.len() > 0 && l.last() == '\r' {
        l.drop_last()
    } else {
        l
    }
}

/// The lines of a text: split at each line feed, a carriage return before it
/// dropped, and no empty line after a final line feed.
pub open spec fn lines_of(s: Seq<char>) -> Seq<Seq<char>>
    decreases s.len(),
{
    if s.len() == 0 {
        seq![]
    } else {
        let k = index_of(s, '\n');
        if k < s.len() {
            seq![strip_cr(s.take(k as int))] + lines_of(s.skip(k + 1 as int))
        } else {
            seq![s]
        }
    }
}

/// A copy of `v[lo..hi]`.
pub fn copy_range(v: &Vec<char>, lo: usize, hi: usize) -> (r: Vec<char>)
    requires
        lo <= hi <= v.len(),
    ensures
        r@ == v@.subrange(lo as int, hi as int),
{
    let mut r: Vec<char> = Vec::new();
    let mut i: usize = lo;
    while i < hi
        invariant
            lo <= i <= hi <= v.len(),
            r@ == v@.subrange(lo as int, i as int),
        decreases hi - i,
    {
        r.push(v[i]);
        i = i + 1;
        assert(r@ =~= v@.subrange(lo as int, i as int));
    }
    r
}

/// A string of `v[lo..hi]`.
pub fn string_of(v: &Vec<char>, lo: usize, hi: usize) -> (r: String)
    requires
        lo <= hi <= v.len(),
    ensures
        r@ == v@.subrange(lo as int, hi as int),
{
    let mut r = String::new();
    let mut i: usize = lo;
    while i < hi
        invariant
            lo <= i <= hi <= v.len(),
            r@ == v@.subrange(lo as int, i as int),
        decreases hi - i,
    {
        push_char(&mut r, v[i]);
        i = i + 1;
        assert(r@ =~= v@.subrange(lo as int, i as int));
    }
    r
}

/// The characters of `s`.
pub fn chars_of(s: &str) -> (r: Vec<char>)
    ensures
        r@ == s@,
{
    let mut v: Vec<char> = Vec::new();
    for c in it: s.chars()
        invariant
            it.seq() == s@,
            v@ == it.seq().take(it.index() as int),
    {
        v.push(c);
    }
    v
}

/// What each vector of characters holds.
pub open spec fn views(r: Seq<Vec<char>>) -> Seq<Seq<char>> {
    r.map_values(|l: Vec<char>| l@)
}

/// The lines of `v`, as `lines_of` gives them.
pub fn split_lines(v: &Vec<char>) -> (r: Vec<Vec<char>>)
    ensures
        views(r@) == lines_of(v@),
{
    let mut r: Vec<Vec<char>> = Vec::new();
    let mut i: usize = 0;
    let n = v.len();
    assert(v@.skip(0) =~= v@);
    while i < n
        invariant
            n == v.len(),
            i <= n,
            views(r@) + lines_of(v@.skip(i as int)) == lines_of(v@),
        decreases n - i,
    {
        let k = find_char(v, i, n, '\n');
        let ghost rest = v@.skip(i as int);
        assert(v@.subrange(i as int, n as int) =~= rest);
        if k < n {
            let mut e = k;
            if e > i && v[e - 1] == '\r' {
                e = e - 1;
            }
            let line = copy_range(v, i, e);
            assert(line@ =~= strip_cr(rest.take(k - i)));
            assert(rest.skip(k - i + 1) =~= v@.skip(k + 1));
            let ghost before = views(r@);
            r.push(line);
            assert(views(r@) =~= before.push(line@));
            assert(before.push(line@) + lines_of(v@.skip(k + 1)) =~= before + lines_of(rest));
            i = k + 1;
        } else {
            let line = copy_range(v, i, n);
            let ghost before = views(r@);
            r.push(line);
            assert(views(r@) =~= before.push(line@));
            assert(before.push(line@) =~= before + lines_of(rest));
            assert(lines_of(v@.skip(n as int)) =~= seq![]) by {
                assert(v@.skip(n as int).len() == 0);
            }
            i = n;
        }
    }
    assert(v@.skip(n as int).len() == 0);
    r
}


/// Whether `s` holds `-->` at `k`.
pub open spec fn arrow_at(s: Seq<char>, k: int) -> bool {
    0 <= k && k + 3 <= s.len() && s[k] == '-' && s[k + 1] == '-' && s[k + 2] == '>'
}

/// Index of the first `-->` in `s`, or `s.len()` when there is none.
pub open spec fn index_of_arrow(s: Seq<char>) -> nat
    decreases s.len(),
{
    if s.len() < 3 {
        s.len()
    } else if arrow_at(s, 0) {
        0
    } else {
        1 + index_of_arrow(s.drop_first())
    }
}

/// The parts of `s` between occurrences of `-->`, searched left to right.
pub open spec fn split_arrow(s: Seq<char>) -> Seq<Seq<char>>
    decreases s.len(),
{
    let k = index_of_arrow(s);
    if k + 3 <= s.len() {
        seq![s.take(k as int)] + split_arrow(s.skip(k + 3 as int))
    } else {
        seq![s]
    }
}

pub proof fn lemma_index_of_arrow(s: Seq<char>, k: int)
    requires
        0 <= k <= s.len(),
        k < s.len() ==> arrow_at(s, k),
        k == s.len() ==> forall|j: int| k - 3 < j < k ==> !arrow_at(s, j),
        forall|j: int| 0 <= j < k ==> !arrow_at(s, j),
    ensures
        index_of_arrow(s) == k,
    decreases k,
{
    if s.len() >= 3 && k > 0 {
        assert forall|j: int| 0 <= j < k - 1 implies !arrow_at(s.drop_first(), j) by {
            assert(!arrow_at(s, j + 1));
        }
        assert forall|j: int| k - 1 - 3 < j < k - 1 && k == s.len() implies !arrow_at(
            s.drop_first(),
            j,
        ) by {
            assert(!arrow_at(s, j + 1));
        }
        assert(k - 1 < s.len() - 1 ==> arrow_at(s.drop_first(), k - 1));
        lemma_index_of_arrow(s.drop_first(), k - 1);
        assert(!arrow_at(s, 0));
    }
}

/// Where the first `-->` in `v[lo..hi]` starts, or `hi`.
pub fn find_arrow(v: &Vec<char>, lo: usize, hi: usize) -> (r: usize)
    requires
        lo <= hi <= v.len(),
    ensures
        r == lo + index_of_arrow(v@.subrange(lo as int, hi as int)),
        lo <= r <= hi,
        r < hi ==> r + 3 <= hi,
{
    let ghost s = v@.subrange(lo as int, hi as int);
    let mut i: usize = lo;
    while hi - i >= 3 && !(v[i] == '-' && v[i + 1] == '-' && v[i + 2] == '>')
        invariant
            lo <= i <= hi <= v.len(),
            s == v@.subrange(lo as int, hi as int),
            forall|j: int| 0 <= j < i - lo ==> !arrow_at(s, j),
        decreases hi - i,
    {
        assert(!arrow_at(s, i - lo));
        i = i + 1;
    }
    if hi - i >= 3 {
        proof {
            lemma_index_of_arrow(s, i - lo);
        }
        i
    } else {
        proof {
            lemma_index_of_arrow(s, hi - lo);
        }
        hi
    }
}

/// One step of `split_arrow` on `v[lo..hi]`, at `k`, where `find_arrow` stops.
pub proof fn lemma_split_arrow_step(v: Seq<char>, lo: int, hi: int, k: int)
    requires
        0 <= lo <= hi <= v.len(),
        k == lo + index_of_arrow(v.subrange(lo, hi)),
        lo <= k <= hi,
        k < hi ==> k + 3 <= hi,
    ensures
        split_arrow(v.subrange(lo, hi))[0] == v.subrange(lo, k),
        k == hi ==> split_arrow(v.subrange(lo, hi)).len() == 1,
        k < hi ==> split_arrow(v.subrange(lo, hi)) == seq![v.subrange(lo, k)] + split_arrow(
            v.subrange(k + 3, hi),
        ),
{
    let s = v.subrange(lo, hi);
    assert(s.take(k - lo) =~= v.subrange(lo, k));
    if k < hi {
        assert(s.skip(k - lo + 3) =~= v.subrange(k + 3, hi));
    } else {
        assert(s =~= v.subrange(lo, k));
    }
}

/// An ASCII decimal digit.
pub open spec fn is_digit(c: char) -> bool {
    '0' <= c <= '9'
}

/// The value of a sequence of decimal digits.
pub open spec fn digits_value(s: Seq<char>) -> nat
    decreases s.len(),
{
    if s.len() == 0 {
        0
    } else {
        digits_value(s.drop_last()) * 10 + (s.last() as nat - '0' as nat) as nat
    }
}

/// The value that an unsigned decimal reads as: an optional `+`, then one or
/// more ASCII digits; `None` for any other text.
pub open spec fn unsigned_value(s: Seq<char>) -> Option<nat> {
    let d = if s.len() > 0 && s[0] == '+' {
        s.drop_first()
    } else {
        s
    };
    if d.len() > 0 && forall|i: int| 0 <= i < d.len() ==> is_digit(d[i]) {
        Some(digits_value(d))
    } else {
        None
    }
}

/// Whether `s` reads as an unsigned decimal no greater than `max`.
pub open spec fn reads_within(s: Seq<char>, max: nat) -> bool {
    unsigned_value(s) is Some && unsigned_value(s)->0 <= max
}

/// Relies on <u64 as FromStr>::from_str: an optional `+` and ASCII digits of
/// a value that fits, and an error for anything else.
#[verifier::external_body]
fn parse_u64(s: &str) -> (r: Result<u64, ParseIntError>)
    ensures
        r is Ok <==> reads_within(s@, u64::MAX as nat),
        r is Ok ==> unsigned_value(s@) == Some(r->Ok_0 as nat),
{
    s.parse::<u64>()
}

/// Relies on <usize as FromStr>::from_str: an optional `+` and ASCII digits of
/// a value that fits, and an error for anything else.
#[verifier::external_body]
fn parse_usize(s: &str) -> (r: Result<usize, ParseIntError>)
    ensures
        r is Ok <==> reads_within(s@, usize::MAX as nat),
        r is Ok ==> unsigned_value(s@) == Some(r->Ok_0 as nat),
{
    s.parse::<usize>()
}

/// Reads `v[lo..hi]` as an unsigned 64-bit decimal.
pub fn read_u64(v: &Vec<char>, lo: usize, hi: usize) -> (r: Result<u64, ParseIntError>)
    requires
        lo <= hi <= v.len(),
    ensures
        r is Ok <==> reads_within(v@.subrange(lo as int, hi as int), u64::MAX as nat),
        r is Ok ==> unsigned_value(v@.subrange(lo as int, hi as int)) == Some(r->Ok_0 as nat),
{
    let s = string_of(v, lo, hi);
    parse_u64(s.as_str())
}

/// Reads `v[lo..hi]` as an unsigned decimal of the machine's word size.
pub fn read_usize(v: &Vec<char>, lo: usize, hi: usize) -> (r: Result<usize, ParseIntError>)
    requires
        lo <= hi <= v.len(),
    ensures
        r is Ok <==> reads_within(v@.subrange(lo as int, hi as int), usize::MAX as nat),
        r is Ok ==> unsigned_value(v@.subrange(lo as int, hi as int)) == Some(r->Ok_0 as nat),
{
    let s = string_of(v, lo, hi);
    parse_usize(s.as_str())
}

/// The digit character for `d < 10`.
pub open spec fn digit_char(d: nat) -> char {
    seq!['0', '1', '2', '3', '4', '5', '6', '7', '8', '9'][d as int]
}

/// `n` in decimal, without leading zeros.
pub open spec fn decimal(n: nat) -> Seq<char>
    decreases n,
{
    if n < 10 {
        seq![digit_char(n)]
    } else {
        decimal(n / 10).push(digit_char(n % 10))
    }
}

/// `n` in decimal, at least two digits wide.
pub open spec fn decimal2(n: nat) -> Seq<char> {
    if n < 10 {
        seq!['0', digit_char(n)]
    } else {
        decimal(n)
    }
}

fn digit(d: u64) -> (c: char)
    requires
        d < 10,
    ensures
        c == digit_char(d as nat),
{
    match d {
        0 => '0',
        1 => '1',
        2 => '2',
        3 => '3',
        4 => '4',
        5 => '5',
        6 => '6',
        7 => '7',
        8 => '8',
        _ => '9',
    }
}

/// Appends `n` in decimal.
pub fn push_decimal(out: &mut String, n: u64)
    ensures
        final(out)@ == old(out)@ + decimal(n as nat),
    decreases n,
{
    if n >= 10 {
        push_decimal(out, n / 10);
    }
    push_char(out, digit(n % 10));
    assert(final(out)@ =~= old(out)@ + decimal(n as nat));
}

/// Appends `n` in decimal, padded with a zero to two digits.
pub fn push_decimal2(out: &mut String, n: u64)
    ensures
        final(out)@ == old(out)@ + decimal2(n as nat),
{
    if n < 10 {
        push_char(out, '0');
    }
    push_decimal(out, n);
    assert(final(out)@ =~= old(out)@ + decimal2(n as nat));
}

} // verus!
