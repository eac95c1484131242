//! Character-level helpers for the strings that the analyses read.
//!
//! Strings are modelled as sequences of Unicode scalar values. Everything here
//! is stated over `Seq<char>`, so that the analyses can speak of substrings,
//! trimmed text, numbers and orderings in terms of characters.

use crate::models::texts;
use vstd::prelude::*;
use vstd::string::*;
use vstd::utf8::{encode_utf8, encode_utf8_decode_utf8};

verus! {

/// Whether `c` has the Unicode `White_Space` property.
pub uninterp spec fn white_space(c: char) -> bool;

/// The lowercase form of `s` under the Unicode `Lowercase` mapping.
pub uninterp spec fn lowercased(s: Seq<char>) -> Seq<char>;

/// `char::is_whitespace` of the standard library: the result is the
/// `White_Space` property of `c`. The documentation of the standard library
/// does not list the characters that have it, so the property is only named
/// here.
#[verifier::external_body]
fn is_whitespace(c: char) -> (r: bool)
    ensures
        r == white_space(c),
{
    c.is_whitespace()
}

/// `str::to_lowercase` of the standard library: the result is the lowercase
/// equivalent of the whole string, a function of its characters alone. The
/// mapping is Unicode's and is only named here.
#[verifier::external_body]
pub(crate) fn to_lowercase(s: &str) -> (r: String)
    ensures
        r@ == lowercased(s@),
{
    s.to_lowercase()
}

/// The characters of `s`, one vector element per Unicode scalar value.
pub fn chars_of(s: &str) -> (v: Vec<char>)
    ensures
        v@ == s@,
{
    let mut v: Vec<char> = Vec::new();
    for c in it: s.chars()
        invariant
            v@ == it.seq().take(it.index() as int),
            it.seq() == s@,
    {
        v.push(c);
    }
    v
}

/// Whether two strings hold the same characters. The strings are compared
/// byte by byte; equal encodings are equal texts.
pub fn str_eq(a: &str, b: &str) -> (r: bool)
    ensures
        r == (a@ == b@),
{
    let x = a.as_bytes();
    let y = b.as_bytes();
    proof {
        encode_utf8_decode_utf8(a@);
        encode_utf8_decode_utf8(b@);
    }
    let n: usize = x.len();
    if n != y.len() {
        return false;
    }
    let mut i: usize = 0;
    while i < n
        invariant
            i <= n,
            n == x@.len(),
            n == y@.len(),
            x@ == encode_utf8(a@),
            y@ == encode_utf8(b@),
            forall|k: int| 0 <= k < i ==> x@[k] == y@[k],
        decreases n - i,
    {
        if x[i] != y[i] {
            return false;
        }
        i += 1;
    }
    assert(x@ =~= y@);
    true
}

/// `needle` occurs in `hay` starting at index `i`.
pub open spec fn occurs_at(needle: Seq<char>, hay: Seq<char>, i: int) -> bool {
    &&& 0 <= i
    &&& i + needle.len() <= hay.len()
    &&& hay.subrange(i, i + needle.len()) == needle
}

/// `needle` occurs somewhere in `hay`. The empty sequence occurs in every
/// sequence.
pub open spec fn is_substring(needle: Seq<char>, hay: Seq<char>) -> bool {
    exists|i: int| occurs_at(needle, hay, i)
}

fn matches_at(hay: &Vec<char>, needle: &Vec<char>, i: usize) -> (r: bool)
    requires
        i + needle.len() <= hay.len(),
    ensures
        r == occurs_at(needle@, hay@, i as int),
{
    let n: usize = needle.len();
    let mut j: usize = 0;
    while j < n
        invariant
            j <= n,
            n == needle.len(),
            i + n <= hay.len(),
            forall|k: int| 0 <= k < j ==> hay@[i + k] == needle@[k],
        decreases n - j,
    {
        if hay[i + j] != needle[j] {
            proof {
                assert(hay@.subrange(i as int, i + n)[j as int] == hay@[i + j]);
            }
            return false;
        }
        j += 1;
    }
    proof {
        assert(hay@.subrange(i as int, i + n) =~= needle@);
    }
    true
}

/// Substring test on character vectors.
pub fn contains_chars(hay: &Vec<char>, needle: &Vec<char>) -> (r: bool)
    ensures
        r == is_substring(needle@, hay@),
{
    if needle.len() > hay.len() {
        return false;
    }
    let last: usize = hay.len() - needle.len();
    let mut i: usize = 0;
    loop
        invariant
            i <= last,
            last == hay.len() - needle.len(),
            forall|k: int| 0 <= k < i ==> !occurs_at(needle@, hay@, k),
        decreases last - i,
    {
        if matches_at(hay, needle, i) {
            return true;
        }
        if i == last {
            return false;
        }
        i += 1;
    }
}

/// Whether `needle` occurs in `hay`, as `str::contains` decides it for a
/// string pattern.
pub fn contains(hay: &str, needle: &str) -> (r: bool)
    ensures
        r == is_substring(needle@, hay@),
{
    let h = chars_of(hay);
    let n = chars_of(needle);
    contains_chars(&h, &n)
}

/// `s` without its leading white space.
pub open spec fn trim_front(s: Seq<char>) -> Seq<char>
    decreases s.len(),
{
    if s.len() > 0 && white_space(s.first()) {
        trim_front(s.drop_first())
    } else {
        s
    }
}

/// `s` without its trailing white space.
pub open spec fn trim_back(s: Seq<char>) -> Seq<char>
    decreases s.len(),
{
    if s.len() > 0 && white_space(s.last()) {
        trim_back(s.drop_last())
    } else {
        s
    }
}

/// `s` without leading and trailing white space.
pub open spec fn trimmed(s: Seq<char>) -> Seq<char> {
    trim_back(trim_front(s))
}

/// The part of `v` between `from` and `to` without its leading and trailing
/// white space, as a range of indices.
pub fn trim_range(v: &Vec<char>, from: usize, to: usize) -> (r: (usize, usize))
    requires
        from <= to <= v@.len(),
    ensures
        from <= r.0 <= r.1 <= to,
        v@.subrange(r.0 as int, r.1 as int) == trimmed(v@.subrange(from as int, to as int)),
{
    let mut a: usize = from;
    while a < to && is_whitespace(v[a])
        invariant
            from <= a <= to <= v@.len(),
            trim_front(v@.subrange(from as int, to as int)) == trim_front(
                v@.subrange(a as int, to as int),
            ),
        decreases to - a,
    {
        proof {
            assert(v@.subrange(a as int, to as int).drop_first() =~= v@.subrange(
                a + 1,
                to as int,
            ));
        }
        a += 1;
    }
    assert(trim_front(v@.subrange(from as int, to as int)) == v@.subrange(a as int, to as int));
    let mut b: usize = to;
    while b > a && is_whitespace(v[b - 1])
        invariant
            a <= b <= to <= v@.len(),
            trim_back(v@.subrange(a as int, to as int)) == trim_back(
                v@.subrange(a as int, b as int),
            ),
        decreases b - a,
    {
        proof {
            assert(v@.subrange(a as int, b as int).drop_last() =~= v@.subrange(
                a as int,
                b - 1,
            ));
        }
        b -= 1;
    }
    assert(trim_back(v@.subrange(a as int, b as int)) == v@.subrange(a as int, b as int));
    (a, b)
}

/// A copy of `s` with leading and trailing white space removed, as
/// `str::trim` removes it.
pub fn trim(s: &str) -> (r: String)
    ensures
        r@ == trimmed(s@),
{
    let v = chars_of(s);
    assert(v@.subrange(0, v@.len() as int) =~= v@);
    let r = trim_range(&v, 0, v.len());
    s.substring_char(r.0, r.1).to_owned()
}

/// How one string stands to another in an ordering.
#[derive(Clone, Copy, Debug, PartialEq, Eq, Structural)]
pub enum Rank {
    Before,
    Same,
    After,
}

/// `a` and `b` agree on their first `k` characters, and there `a` ends while
/// `b` goes on, or `a` has the smaller character.
pub open spec fn precedes_at(a: Seq<char>, b: Seq<char>, k: int) -> bool {
    &&& 0 <= k <= a.len()
    &&& k <= b.len()
    &&& forall|j: int| 0 <= j < k ==> a[j] == b[j]
    &&& if k == a.len() {
        k < b.len()
    } else {
        k < b.len() && a[k] < b[k]
    }
}

/// `a` comes strictly before `b` in lexicographic order by code point, the
/// order in which Rust compares strings.
pub open spec fn lex_lt(a: Seq<char>, b: Seq<char>) -> bool {
    exists|k: int| precedes_at(a, b, k)
}

/// No sequence comes before itself.
pub proof fn lex_lt_irreflexive(a: Seq<char>)
    ensures
        !lex_lt(a, a),
{
}

/// Of two sequences at most one comes before the other.
pub proof fn lex_lt_asymmetric(a: Seq<char>, b: Seq<char>)
    requires
        lex_lt(a, b),
    ensures
        !lex_lt(b, a),
{
    let k = choose|k: int| precedes_at(a, b, k);
    assert forall|m: int| !precedes_at(b, a, m) by {
        if precedes_at(b, a, m) {
            if m < k {
                assert(a[m] == b[m]);
            } else if k < m {
                assert(b[k] == a[k]);
            }
        }
    }
}

/// The order is transitive.
pub proof fn lex_lt_transitive(a: Seq<char>, b: Seq<char>, c: Seq<char>)
    requires
        lex_lt(a, b),
        lex_lt(b, c),
    ensures
        lex_lt(a, c),
{
    let k1 = choose|k: int| precedes_at(a, b, k);
    let k2 = choose|k: int| precedes_at(b, c, k);
    let k = if k1 <= k2 {
        k1
    } else {
        k2
    };
    assert forall|j: int| 0 <= j < k implies a[j] == c[j] by {
        assert(a[j] == b[j]);
        assert(b[j] == c[j]);
    }
    if k1 < k2 {
        assert(b[k1] == c[k1]);
    } else if k2 < k1 {
        assert(a[k2] == b[k2]);
    }
    assert(precedes_at(a, c, k));
}

/// Three-way comparison of character vectors in the order of [`lex_lt`].
pub fn rank_chars(a: &Vec<char>, b: &Vec<char>) -> (r: Rank)
    ensures
        r == Rank::Before <==> lex_lt(a@, b@),
        r == Rank::Same <==> a@ == b@,
        r == Rank::After <==> lex_lt(b@, a@),
{
    let n: usize = if a.len() < b.len() {
        a.len()
    } else {
        b.len()
    };
    let mut i: usize = 0;
    while i < n
        invariant
            i <= n,
            n <= a.len(),
            n <= b.len(),
            n == a.len() || n == b.len(),
            forall|j: int| 0 <= j < i ==> a@[j] == b@[j],
        decreases n - i,
    {
        let x: char = a[i];
        let y: char = b[i];
        if x != y {
            if x < y {
                proof {
                    assert(precedes_at(a@, b@, i as int));
                    lex_lt_asymmetric(a@, b@);
                }
                return Rank::Before;
            } else {
                proof {
                    assert(precedes_at(b@, a@, i as int));
                    lex_lt_asymmetric(b@, a@);
                }
                return Rank::After;
            }
        }
        i += 1;
    }
    if a.len() < b.len() {
        proof {
            assert(precedes_at(a@, b@, n as int));
            lex_lt_asymmetric(a@, b@);
        }
        Rank::Before
    } else if b.len() < a.len() {
        proof {
            assert(precedes_at(b@, a@, n as int));
            lex_lt_asymmetric(b@, a@);
        }
        Rank::After
    } else {
        proof {
            assert(a@ =~= b@);
            lex_lt_irreflexive(a@);
        }
        Rank::Same
    }
}

/// Three-way comparison of strings in the order of [`lex_lt`].
pub fn rank(a: &str, b: &str) -> (r: Rank)
    ensures
        r == Rank::Before <==> lex_lt(a@, b@),
        r == Rank::Same <==> a@ == b@,
        r == Rank::After <==> lex_lt(b@, a@),
{
    let x = chars_of(a);
    let y = chars_of(b);
    rank_chars(&x, &y)
}

/// The character of the decimal digit `d`.
pub open spec fn digit_char(d: int) -> char {
    (48 + d) as char
}

/// `n` in decimal, without sign or leading zeros.
pub open spec fn decimal(n: nat) -> Seq<char>
    decreases n,
{
    if n < 10 {
        seq![digit_char(n as int)]
    } else {
        decimal(n / 10).push(digit_char((n % 10) as int))
    }
}

fn digit_text(d: u16) -> (r: &'static str)
    requires
        d < 10,
    ensures
        r@ == seq![digit_char(d as int)],
{
    proof {
        reveal_strlit("0");
        reveal_strlit("1");
        reveal_strlit("2");
        reveal_strlit("3");
        reveal_strlit("4");
        reveal_strlit("5");
        reveal_strlit("6");
        reveal_strlit("7");
        reveal_strlit("8");
        reveal_strlit("9");
    }
    let r = if d == 0 {
        "0"
    } else if d == 1 {
        "1"
    } else if d == 2 {
        "2"
    } else if d == 3 {
        "3"
    } else if d == 4 {
        "4"
    } else if d == 5 {
        "5"
    } else if d == 6 {
        "6"
    } else if d == 7 {
        "7"
    } else if d == 8 {
        "8"
    } else {
        "9"
    };
    assert(r@ =~= seq![digit_char(d as int)]);
    r
}

/// `n` written in decimal, as `Display` writes an unsigned integer.
pub fn decimal_string(n: u16) -> (r: String)
    ensures
        r@ == decimal(n as nat),
    decreases n,
{
    if n < 10 {
        digit_text(n).to_owned()
    } else {
        let mut r = decimal_string(n / 10);
        r.append(digit_text(n % 10));
        assert(r@ =~= decimal((n / 10) as nat).push(digit_char((n % 10) as int)));
        r
    }
}

/// The concatenation of two strings.
pub fn concat2(a: &str, b: &str) -> (r: String)
    ensures
        r@ == a@ + b@,
{
    let mut r = a.to_owned();
    r.append(b);
    r
}

/// `c` is one of the ten ASCII digits.
pub open spec fn is_digit(c: char) -> bool {
    '0' <= c && c <= '9'
}

/// The value of the ASCII digit `c`.
pub open spec fn digit_value(c: char) -> nat {
    (c as int - 48) as nat
}

/// The number that the digits of `s` spell in decimal.
pub open spec fn digits_value(s: Seq<char>) -> nat
    decreases s.len(),
{
    if s.len() == 0 {
        0
    } else {
        10 * digits_value(s.drop_last()) + digit_value(s.last())
    }
}

/// Every character of `s` is an ASCII digit.
pub open spec fn all_digits(s: Seq<char>) -> bool {
    forall|i: int| 0 <= i < s.len() ==> is_digit(#[trigger] s[i])
}

/// `s` without one leading plus sign.
pub open spec fn unsigned_digits(s: Seq<char>) -> Seq<char> {
    if s.len() > 0 && s[0] == '+' {
        s.drop_first()
    } else {
        s
    }
}

/// What `s` parses to as an unsigned decimal number of at most `max`, the way
/// Rust parses the unsigned integer types: an optional plus sign, then one or
/// more ASCII digits and nothing else; leading zeros are allowed, a value
/// above `max` is not.
pub open spec fn parse_unsigned(s: Seq<char>, max: nat) -> Option<nat> {
    let d = unsigned_digits(s);
    if d.len() > 0 && all_digits(d) && digits_value(d) <= max {
        Some(digits_value(d))
    } else {
        None
    }
}

/// A prefix of a digit string spells no more than the whole string.
pub proof fn lemma_digits_value_prefix(s: Seq<char>, k: int)
    requires
        0 <= k <= s.len(),
    ensures
        digits_value(s.take(k)) <= digits_value(s),
    decreases s.len() - k,
{
    if k < s.len() {
        lemma_digits_value_prefix(s, k + 1);
        assert(s.take(k + 1).drop_last() =~= s.take(k));
    } else {
        assert(s.take(k) =~= s);
    }
}

fn digit_of(c: char) -> (r: Option<u8>)
    ensures
        match r {
            Some(d) => is_digit(c) && d == digit_value(c),
            None => !is_digit(c),
        },
{
    if c == '0' {
        Some(0)
    } else if c == '1' {
        Some(1)
    } else if c == '2' {
        Some(2)
    } else if c == '3' {
        Some(3)
    } else if c == '4' {
        Some(4)
    } else if c == '5' {
        Some(5)
    } else if c == '6' {
        Some(6)
    } else if c == '7' {
        Some(7)
    } else if c == '8' {
        Some(8)
    } else if c == '9' {
        Some(9)
    } else {
        None
    }
}

/// Parses the characters of `v` from `from` up to `to` as an unsigned decimal
/// number of at most `max`.
pub fn parse_decimal(v: &Vec<char>, from: usize, to: usize, max: u32) -> (r: Option<u32>)
    requires
        from <= to <= v@.len(),
    ensures
        match r {
            Some(n) => parse_unsigned(v@.subrange(from as int, to as int), max as nat) == Some(
                n as nat,
            ),
            None => parse_unsigned(v@.subrange(from as int, to as int), max as nat) is None,
        },
{
    let ghost s = v@.subrange(from as int, to as int);
    let mut start: usize = from;
    if start < to && v[start] == '+' {
        start += 1;
    }
    let ghost d = unsigned_digits(s);
    assert(d =~= v@.subrange(start as int, to as int));
    if start == to {
        return None;
    }
    let mut acc: u64 = 0;
    let mut k: usize = start;
    assert(d.take(0) =~= Seq::<char>::empty());
    while k < to
        invariant
            from <= start <= k <= to <= v@.len(),
            s == v@.subrange(from as int, to as int),
            d == unsigned_digits(s),
            d == v@.subrange(start as int, to as int),
            acc == digits_value(d.take(k - start)),
            acc <= max,
            all_digits(d.take(k - start)),
        decreases to - k,
    {
        let ghost at = k - start;
        assert(d[at] == v@[k as int]);
        assert(d.take(at + 1).drop_last() =~= d.take(at));
        assert(d.take(at + 1).last() == d[at]);
        match digit_of(v[k]) {
            None => {
                assert(!is_digit(d[at]));
                return None;
            },
            Some(digit) => {
                let next: u64 = acc * 10 + digit as u64;
                if next > max as u64 {
                    proof {
                        lemma_digits_value_prefix(d, at + 1);
                    }
                    return None;
                }
                acc = next;
                assert forall|i: int| 0 <= i < at + 1 implies is_digit(
                    #[trigger] d.take(at + 1)[i],
                ) by {
                    if i < at {
                        assert(d.take(at)[i] == d.take(at + 1)[i]);
                    }
                }
            },
        }
        k += 1;
    }
    assert(d.take(to - start) =~= d);
    Some(acc as u32)
}

/// The index of the last `.` of `s`, or -1.
pub open spec fn last_dot(s: Seq<char>) -> int
    decreases s.len(),
{
    if s.len() == 0 {
        -1
    } else if s.last() == '.' {
        s.len() - 1
    } else {
        last_dot(s.drop_last())
    }
}

/// How many `.` there are in `s`.
pub open spec fn dot_count(s: Seq<char>) -> nat
    decreases s.len(),
{
    if s.len() == 0 {
        0
    } else if s.last() == '.' {
        dot_count(s.drop_last()) + 1
    } else {
        dot_count(s.drop_last())
    }
}

/// The number of dots of `v`, and the index after its last dot (0 without one).
pub fn scan_dots(v: &Vec<char>) -> (r: (usize, usize))
    ensures
        r.0 == dot_count(v@),
        r.1 == last_dot(v@) + 1,
        r.1 <= v@.len(),
{
    let n: usize = v.len();
    let mut count: usize = 0;
    let mut after: usize = 0;
    let mut k: usize = 0;
    assert(v@.take(0) =~= Seq::<char>::empty());
    while k < n
        invariant
            k <= n,
            n == v@.len(),
            count == dot_count(v@.take(k as int)),
            count <= k,
            after == last_dot(v@.take(k as int)) + 1,
            after <= k,
        decreases n - k,
    {
        assert(v@.take(k + 1).drop_last() =~= v@.take(k as int));
        assert(v@.take(k + 1).last() == v@[k as int]);
        if v[k] == '.' {
            count += 1;
            after = k + 1;
        }
        k += 1;
    }
    assert(v@.take(n as int) =~= v@);
    (count, after)
}

/// The index of the first `sep` of `s`, or -1.
pub open spec fn first_index(s: Seq<char>, sep: char) -> int
    decreases s.len(),
{
    if s.len() == 0 {
        -1
    } else if s[0] == sep {
        0
    } else {
        let rest = first_index(s.drop_first(), sep);
        if rest < 0 {
            -1
        } else {
            rest + 1
        }
    }
}

/// The pieces of `s` between its separators, in order. A text without
/// separator is one piece; an empty text is one empty piece.
pub open spec fn split(s: Seq<char>, sep: char) -> Seq<Seq<char>>
    decreases s.len(),
{
    let i = first_index(s, sep);
    if i < 0 || i >= s.len() {
        seq![s]
    } else {
        seq![s.subrange(0, i)] + split(s.subrange(i + 1, s.len() as int), sep)
    }
}

/// What [`first_index`] returns is the index of a separator before which
/// there is none; -1 means that there is none at all.
pub proof fn lemma_first_index(s: Seq<char>, sep: char)
    ensures
        -1 <= first_index(s, sep) < s.len(),
        first_index(s, sep) >= 0 ==> s[first_index(s, sep)] == sep,
        forall|j: int|
            0 <= j < s.len() && (j < first_index(s, sep) || first_index(s, sep) < 0)
                ==> #[trigger] s[j] != sep,
    decreases s.len(),
{
    if s.len() > 0 && s[0] != sep {
        let rest = s.drop_first();
        lemma_first_index(rest, sep);
        assert forall|j: int|
            0 <= j < s.len() && (j < first_index(s, sep) || first_index(s, sep)
                < 0) implies #[trigger] s[j] != sep by {
            if j > 0 {
                assert(rest[j - 1] == s[j]);
            }
        }
    }
}

/// The texts of a list of ranges of `v`.
pub open spec fn range_texts(v: Seq<char>, ranges: Seq<(usize, usize)>) -> Seq<Seq<char>> {
    Seq::new(ranges.len(), |k: int| v.subrange(ranges[k].0 as int, ranges[k].1 as int))
}

/// The pieces of `v` between `from` and `to`, split at `sep`, as ranges of
/// indices.
pub fn split_ranges(v: &Vec<char>, from: usize, to: usize, sep: char) -> (r: Vec<(usize, usize)>)
    requires
        from <= to <= v@.len(),
    ensures
        range_texts(v@, r@) == split(v@.subrange(from as int, to as int), sep),
        forall|k: int|
            0 <= k < r@.len() ==> from <= (#[trigger] r@[k]).0 && r@[k].0 <= r@[k].1 && r@[k].1
                <= to,
{
    let ghost whole = v@.subrange(from as int, to as int);
    let mut out: Vec<(usize, usize)> = Vec::new();
    let mut start: usize = from;
    let mut k: usize = from;
    assert(range_texts(v@, out@) + split(whole, sep) =~= split(whole, sep));
    while k < to
        invariant
            from <= start <= k <= to <= v@.len(),
            whole == v@.subrange(from as int, to as int),
            forall|j: int| start <= j < k ==> v@[j] != sep,
            split(whole, sep) == range_texts(v@, out@) + split(
                v@.subrange(start as int, to as int),
                sep,
            ),
            forall|x: int|
                0 <= x < out@.len() ==> from <= (#[trigger] out@[x]).0 && out@[x].0 <= out@[x].1
                    && out@[x].1 <= to,
        decreases to - k,
    {
        if v[k] == sep {
            proof {
                let rest = v@.subrange(start as int, to as int);
                lemma_first_index(rest, sep);
                assert(rest[k - start] == sep);
                assert forall|j: int| 0 <= j < k - start implies rest[j] != sep by {
                    assert(rest[j] == v@[start + j]);
                }
                assert(first_index(rest, sep) == k - start);
                assert(rest.subrange(0, k - start) =~= v@.subrange(start as int, k as int));
                assert(rest.subrange(k - start + 1, rest.len() as int) =~= v@.subrange(
                    k + 1,
                    to as int,
                ));
                let piece = v@.subrange(start as int, k as int);
                let tail = split(v@.subrange(k + 1, to as int), sep);
                assert(range_texts(v@, out@.push((start, k))) =~= range_texts(v@, out@).push(
                    piece,
                ));
                assert(range_texts(v@, out@) + (seq![piece] + tail) =~= range_texts(
                    v@,
                    out@,
                ).push(piece) + tail);
            }
            out.push((start, k));
            start = k + 1;
        }
        k += 1;
    }
    proof {
        let rest = v@.subrange(start as int, to as int);
        lemma_first_index(rest, sep);
        if first_index(rest, sep) >= 0 {
            assert(rest[first_index(rest, sep)] == v@[start + first_index(rest, sep)]);
        }
        assert(split(rest, sep) == seq![rest]);
        assert(range_texts(v@, out@.push((start, to))) =~= range_texts(v@, out@) + seq![rest]);
    }
    out.push((start, to));
    out
}

/// The lines joined, with `sep` between every two of them.
pub open spec fn joined(lines: Seq<Seq<char>>, sep: Seq<char>) -> Seq<char>
    decreases lines.len(),
{
    if lines.len() == 0 {
        Seq::empty()
    } else if lines.len() == 1 {
        lines[0]
    } else {
        joined(lines.drop_last(), sep) + sep + lines.last()
    }
}

/// The lines joined, with `sep` between every two of them.
pub fn join(lines: &Vec<String>, sep: &str) -> (r: String)
    ensures
        r@ == joined(texts(lines@), sep@),
{
    let ghost all = texts(lines@);
    let mut r = String::new();
    let n: usize = lines.len();
    let mut i: usize = 0;
    assert(all.take(0) =~= Seq::<Seq<char>>::empty());
    while i < n
        invariant
            i <= n,
            n == lines@.len(),
            all == texts(lines@),
            r@ == joined(all.take(i as int), sep@),
        decreases n - i,
    {
        assert(all.take(i + 1).drop_last() =~= all.take(i as int));
        assert(all.take(i + 1).last() == lines@[i as int]@);
        if i > 0 {
            r.append(sep);
        } else {
            assert(r@ + lines@[i as int]@ =~= lines@[i as int]@);
        }
        r.append(lines[i].as_str());
        i += 1;
    }
    assert(all.take(n as int) =~= all);
    r
}

} // verus!
