//! Character-level helpers: whitespace trimming, character and substring
//! search, and decimal digit runs.

use vstd::prelude::*;

verus! {

/// The Unicode `White_Space` code points.
pub open spec fn is_whitespace(c: char) -> bool {
    let u = c as u32;
    ||| 0x09 <= u <= 0x0d
    ||| u == 0x20
    ||| u == 0x85
    ||| u == 0xa0
    ||| u == 0x1680
    ||| 0x2000 <= u <= 0x200a
    ||| u == 0x2028
    ||| u == 0x2029
    ||| u == 0x202f
    ||| u == 0x205f
    ||| u == 0x3000
}

/// A decimal digit, `0` to `9`.
pub open spec fn is_digit(c: char) -> bool {
    '0' <= c <= '9'
}

/// The value of a decimal digit.
pub open spec fn digit_of(c: char) -> int {
    c as u32 - '0' as u32
}

/// The first position at or after `i` that holds no whitespace, or the length.
pub open spec fn leading(s: Seq<char>, i: int) -> int
    decreases s.len() - i,
{
    if 0 <= i < s.len() && is_whitespace(s[i]) {
        leading(s, i + 1)
    } else {
        i
    }
}

/// The end of `s[lo..j]` once its trailing whitespace is dropped.
pub open spec fn trailing(s: Seq<char>, lo: int, j: int) -> int
    decreases j - lo,
{
    if lo < j <= s.len() && is_whitespace(s[j - 1]) {
        trailing(s, lo, j - 1)
    } else {
        j
    }
}

/// `s` without its leading and trailing whitespace.
pub open spec fn trimmed(s: Seq<char>) -> Seq<char> {
    let a = leading(s, 0);
    s.subrange(a, trailing(s, a, s.len() as int))
}

/// The first position at or after `i` that holds `c`, or the length.
pub open spec fn index_of_char(s: Seq<char>, c: char, i: int) -> int
    decreases s.len() - i,
{
    if 0 <= i < s.len() && s[i] != c {
        index_of_char(s, c, i + 1)
    } else {
        i
    }
}

/// `needle` stands in `hay` at position `i`.
pub open spec fn occurs_at(hay: Seq<char>, needle: Seq<char>, i: int) -> bool {
    &&& 0 <= i
    &&& i + needle.len() <= hay.len()
    &&& hay.subrange(i, i + needle.len()) == needle
}

/// The first position at or after `i` where `needle` stands in `hay`, or the
/// length of `hay` where there is none.
pub open spec fn index_of_sub(hay: Seq<char>, needle: Seq<char>, i: int) -> int
    decreases hay.len() - i,
{
    if 0 <= i < hay.len() && !occurs_at(hay, needle, i) {
        index_of_sub(hay, needle, i + 1)
    } else {
        i
    }
}

/// The end of the run of decimal digits that starts at `i`.
pub open spec fn digits_end(s: Seq<char>, i: int) -> int
    decreases s.len() - i,
{
    if 0 <= i < s.len() && is_digit(s[i]) {
        digits_end(s, i + 1)
    } else {
        i
    }
}

/// The number that the decimal digits `s[lo..hi]` spell.
pub open spec fn digits_value(s: Seq<char>, lo: int, hi: int) -> int
    decreases hi - lo,
{
    if hi <= lo {
        0
    } else {
        digits_value(s, lo, hi - 1) * 10 + digit_of(s[hi - 1])
    }
}

/// Every character of `s[lo..hi]` is a decimal digit.
pub open spec fn all_digits(s: Seq<char>, lo: int, hi: int) -> bool {
    forall|k: int| lo <= k < hi ==> is_digit(#[trigger] s[k])
}

/// What `s[lo..hi]` parses to: the value of a non-empty digit run that fits
/// an `i32`.
pub open spec fn parsed_number(s: Seq<char>, lo: int, hi: int) -> Option<i32> {
    if lo < hi && all_digits(s, lo, hi) && digits_value(s, lo, hi) <= i32::MAX {
        Some(digits_value(s, lo, hi) as i32)
    } else {
        None
    }
}

proof fn lemma_leading(s: Seq<char>, i: int)
    requires
        0 <= i <= s.len(),
    ensures
        i <= leading(s, i) <= s.len(),
        forall|k: int| i <= k < leading(s, i) ==> is_whitespace(s[k]),
        leading(s, i) < s.len() ==> !is_whitespace(s[leading(s, i)]),
    decreases s.len() - i,
{
    if i < s.len() && is_whitespace(s[i]) {
        lemma_leading(s, i + 1);
    }
}

proof fn lemma_trailing(s: Seq<char>, lo: int, j: int)
    requires
        0 <= lo <= j <= s.len(),
    ensures
        lo <= trailing(s, lo, j) <= j,
        forall|k: int| trailing(s, lo, j) <= k < j ==> is_whitespace(s[k]),
        trailing(s, lo, j) > lo ==> !is_whitespace(s[trailing(s, lo, j) - 1]),
    decreases j - lo,
{
    if lo < j && is_whitespace(s[j - 1]) {
        lemma_trailing(s, lo, j - 1);
    }
}

/// `index_of_char` finds the first `c` at or after `i`.
pub proof fn lemma_index_of_char(s: Seq<char>, c: char, i: int)
    requires
        0 <= i <= s.len(),
    ensures
        i <= index_of_char(s, c, i) <= s.len(),
        index_of_char(s, c, i) < s.len() ==> s[index_of_char(s, c, i)] == c,
        forall|k: int| i <= k < index_of_char(s, c, i) ==> s[k] != c,
    decreases s.len() - i,
{
    if i < s.len() && s[i] != c {
        lemma_index_of_char(s, c, i + 1);
    }
}

/// `index_of_sub` finds the first place at or after `i` where `needle`
/// stands.
pub proof fn lemma_index_of_sub(hay: Seq<char>, needle: Seq<char>, i: int)
    requires
        0 <= i <= hay.len(),
    ensures
        i <= index_of_sub(hay, needle, i) <= hay.len(),
        index_of_sub(hay, needle, i) < hay.len() ==> occurs_at(
            hay,
            needle,
            index_of_sub(hay, needle, i),
        ),
        forall|k: int| i <= k < index_of_sub(hay, needle, i) ==> !occurs_at(hay, needle, k),
    decreases hay.len() - i,
{
    if i < hay.len() && !occurs_at(hay, needle, i) {
        lemma_index_of_sub(hay, needle, i + 1);
    }
}

/// `digits_end` ends the longest run of digits that starts at `i`.
pub proof fn lemma_digits_end(s: Seq<char>, i: int)
    requires
        0 <= i <= s.len(),
    ensures
        i <= digits_end(s, i) <= s.len(),
        all_digits(s, i, digits_end(s, i)),
        digits_end(s, i) < s.len() ==> !is_digit(s[digits_end(s, i)]),
    decreases s.len() - i,
{
    if i < s.len() && is_digit(s[i]) {
        lemma_digits_end(s, i + 1);
    }
}

/// What is trimmed neither starts nor ends with whitespace, and what was
/// cut off on either side is whitespace alone.
pub proof fn lemma_trimmed(s: Seq<char>)
    ensures
        ({
            let a = leading(s, 0);
            let b = trailing(s, a, s.len() as int);
            let t = trimmed(s);
            &&& 0 <= a <= b <= s.len()
            &&& t == s.subrange(a, b)
            &&& forall|k: int| 0 <= k < a ==> is_whitespace(s[k])
            &&& forall|k: int| b <= k < s.len() ==> is_whitespace(s[k])
            &&& t.len() > 0 ==> !is_whitespace(t[0]) && !is_whitespace(t[t.len() - 1])
        }),
{
    lemma_leading(s, 0);
    lemma_trailing(s, leading(s, 0), s.len() as int);
}

/// Whether `c` is whitespace.
pub fn is_whitespace_char(c: char) -> (b: bool)
    ensures
        b == is_whitespace(c),
{
    let u: u32 = c as u32;
    (0x09 <= u && u <= 0x0d) || u == 0x20 || u == 0x85 || u == 0xa0 || u == 0x1680 || (0x2000 <= u
        && u <= 0x200a) || u == 0x2028 || u == 0x2029 || u == 0x202f || u == 0x205f || u == 0x3000
}

/// Whether `c` is a decimal digit.
pub fn is_digit_char(c: char) -> (b: bool)
    ensures
        b == is_digit(c),
{
    '0' <= c && c <= '9'
}

/// The characters of `s`, for access by position.
pub fn chars_of(s: &str) -> (v: Vec<char>)
    ensures
        v@ == s@,
{
    let mut v: Vec<char> = Vec::new();
    for c in it: s.chars()
        invariant
            v@ == it.seq().take(it.index() as int),
            it.seq() == s@,
    {
        v.push(c);
    }
    v
}

/// Removes leading and trailing whitespace.
pub fn trim(s: &str) -> (r: String)
    ensures
        r@ == trimmed(s@),
{
    let v = chars_of(s);
    let n = v.len();
    let mut a: usize = 0;
    while a < n && is_whitespace_char(v[a])
        invariant
            a <= n,
            n == v@.len(),
            leading(v@, a as int) == leading(v@, 0),
        decreases n - a,
    {
        a += 1;
    }
    let mut b: usize = n;
    while b > a && is_whitespace_char(v[b - 1])
        invariant
            a <= b <= n,
            n == v@.len(),
            trailing(v@, a as int, b as int) == trailing(v@, a as int, n as int),
        decreases b,
    {
        b -= 1;
    }
    s.substring_char(a, b).to_owned()
}

/// The first position at or after `from` that holds `c`, or the length.
pub(crate) fn find_char(v: &Vec<char>, c: char, from: usize) -> (p: usize)
    requires
        from <= v.len(),
    ensures
        p == index_of_char(v@, c, from as int),
        from <= p <= v.len(),
        p < v.len() ==> v@[p as int] == c,
        forall|k: int| from <= k < p ==> v@[k] != c,
{
    let n = v.len();
    let mut p: usize = from;
    while p < n && v[p] != c
        invariant
            from <= p <= n,
            n == v@.len(),
            index_of_char(v@, c, p as int) == index_of_char(v@, c, from as int),
            forall|k: int| from <= k < p ==> v@[k] != c,
        decreases n - p,
    {
        p += 1;
    }
    p
}

/// Whether `needle` stands in `hay` at position `i`.
pub(crate) fn matches_at(hay: &Vec<char>, needle: &Vec<char>, i: usize) -> (b: bool)
    ensures
        b == occurs_at(hay@, needle@, i as int),
{
    let m = needle.len();
    if i > hay.len() || m > hay.len() - i {
        return false;
    }
    let mut j: usize = 0;
    while j < m
        invariant
            j <= m,
            m == needle@.len(),
            i + m <= hay.len(),
            forall|k: int| 0 <= k < j ==> hay@[i + k] == needle@[k],
        decreases m - j,
    {
        if hay[i + j] != needle[j] {
            assert(hay@.subrange(i as int, i + m)[j as int] == hay@[i + j]);
            return false;
        }
        j += 1;
    }
    assert(hay@.subrange(i as int, i + m) =~= needle@);
    true
}

/// The first position at or after `from` where `needle` stands in `hay`, or
/// the length of `hay`.
pub(crate) fn find_sub(hay: &Vec<char>, needle: &Vec<char>, from: usize) -> (p: usize)
    requires
        from <= hay.len(),
    ensures
        p == index_of_sub(hay@, needle@, from as int),
        from <= p <= hay.len(),
        p < hay.len() ==> occurs_at(hay@, needle@, p as int),
{
    let n = hay.len();
    let mut p: usize = from;
    while p < n && !matches_at(hay, needle, p)
        invariant
            from <= p <= n,
            n == hay@.len(),
            index_of_sub(hay@, needle@, p as int) == index_of_sub(hay@, needle@, from as int),
        decreases n - p,
    {
        p += 1;
    }
    p
}

/// The end of the run of decimal digits that starts at `from`.
pub(crate) fn find_digits_end(v: &Vec<char>, from: usize) -> (p: usize)
    requires
        from <= v.len(),
    ensures
        p == digits_end(v@, from as int),
        from <= p <= v.len(),
        all_digits(v@, from as int, p as int),
        p < v.len() ==> !is_digit(v@[p as int]),
{
    let n = v.len();
    let mut p: usize = from;
    while p < n && is_digit_char(v[p])
        invariant
            from <= p <= n,
            n == v@.len(),
            digits_end(v@, p as int) == digits_end(v@, from as int),
            all_digits(v@, from as int, p as int),
        decreases n - p,
    {
        p += 1;
    }
    p
}

/// A longer digit run spells no smaller a number.
proof fn lemma_digits_value_grows(s: Seq<char>, lo: int, mid: int, hi: int)
    requires
        0 <= lo <= mid <= hi <= s.len(),
        all_digits(s, lo, hi),
    ensures
        0 <= digits_value(s, lo, mid) <= digits_value(s, lo, hi),
    decreases hi - mid,
{
    if mid == lo {
        lemma_digits_value_nonneg(s, lo, hi);
    } else if mid < hi {
        lemma_digits_value_grows(s, lo, mid, hi - 1);
        assert(is_digit(s[hi - 1]));
    } else {
        lemma_digits_value_nonneg(s, lo, hi);
    }
}

proof fn lemma_digits_value_nonneg(s: Seq<char>, lo: int, hi: int)
    requires
        0 <= lo <= hi <= s.len(),
        all_digits(s, lo, hi),
    ensures
        0 <= digits_value(s, lo, hi),
    decreases hi - lo,
{
    if lo < hi {
        lemma_digits_value_nonneg(s, lo, hi - 1);
        assert(is_digit(s[hi - 1]));
    }
}

/// Parses the decimal digits `v[lo..hi]`.
pub(crate) fn parse_digits(v: &Vec<char>, lo: usize, hi: usize) -> (r: Option<i32>)
    requires
        lo <= hi <= v.len(),
        all_digits(v@, lo as int, hi as int),
    ensures
        r == parsed_number(v@, lo as int, hi as int),
{
    if lo == hi {
        return None;
    }
    let mut acc: i64 = 0;
    let mut k: usize = lo;
    while k < hi
        invariant
            lo <= k <= hi <= v@.len(),
            all_digits(v@, lo as int, hi as int),
            acc == digits_value(v@, lo as int, k as int),
            0 <= acc <= i32::MAX,
        decreases hi - k,
    {
        assert(is_digit(v@[k as int]));
        let d: i64 = (v[k] as u32 - '0' as u32) as i64;
        let next: i64 = acc * 10 + d;
        assert(next == digits_value(v@, lo as int, k + 1));
        if next > 0x7fff_ffff {
            proof {
                lemma_digits_value_grows(v@, lo as int, k + 1, hi as int);
            }
            return None;
        }
        acc = next;
        k += 1;
    }
    Some(acc as i32)
}

} // verus!
