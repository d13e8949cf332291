//! Text as sequences of characters: searching, splitting, trimming and numbers.
//!
//! Every parser of this crate works on the characters of its input, so that a contract can
//! speak of `Seq<char>` alone.

use vstd::prelude::*;
use vstd::utf8::{encode_utf8, valid_utf8};

verus! {

/// `String::push` of std appends the given character to the end of the string and changes
/// nothing else.
pub assume_specification[ String::push ](s: &mut String, c: char)
    ensures
        final(s)@ == old(s)@.push(c),
;

/// Whether a character has the code `n`: there is one for every number up to 10ffff in hexadecimal,
/// except for the surrogates.
pub open spec fn is_char_code(n: int) -> bool {
    0 <= n < 0xd800 || 0xe000 <= n <= 0x10ffff
}

/// `char::from_u32` of std gives the character with the given code, and `None` where no character
/// has that code.
pub assume_specification[ char::from_u32 ](i: u32) -> (r: Option<char>)
    ensures
        r is Some <==> is_char_code(i as int),
        r matches Some(c) ==> c as u32 == i,
;

/// Calls `std::str::from_utf8`. Claimed of it: it succeeds on exactly the byte sequences that
/// are well-formed UTF-8, and the text it gives is the one that these bytes encode.
#[verifier::external_body]
fn std_from_utf8(bytes: &[u8]) -> (r: Option<String>)
    ensures
        r is Some <==> valid_utf8(bytes@),
        r matches Some(t) ==> encode_utf8(t@) == bytes@,
{
    match std::str::from_utf8(bytes) {
        Ok(t) => Some(t.to_string()),
        Err(_) => None,
    }
}

/// The text that `bytes` encode in UTF-8, or `None` where they are not well-formed.
pub fn text_from_utf8(bytes: &[u8]) -> (r: Option<String>)
    ensures
        r is Some <==> valid_utf8(bytes@),
        r matches Some(t) ==> encode_utf8(t@) == bytes@,
{
    std_from_utf8(bytes)
}

// ---------------------------------------------------------------------------------------------
// Characters and strings

/// The texts of a list of strings.
pub open spec fn texts(v: Seq<String>) -> Seq<Seq<char>> {
    Seq::new(v.len(), |i: int| v[i]@)
}

/// The text of a string that may be absent.
pub open spec fn optional_text(o: Option<String>) -> Option<Seq<char>> {
    match o {
        Some(s) => Some(s@),
        None => None,
    }
}

/// The code of a character is the number that the character is in specifications.
pub proof fn lemma_char_code(c: char)
    ensures
        c as u32 == c as int,
{
}

/// The characters of `s`, in order.
pub fn chars_of(s: &str) -> (r: Vec<char>)
    ensures
        r@ == s@,
{
    let mut out: Vec<char> = Vec::new();
    for c in it: s.chars()
        invariant
            it.seq() == s@,
            out@ == it.seq().take(it.index() as int),
    {
        out.push(c);
    }
    out
}

/// The string made of `chars`.
pub fn text_of(chars: &[char]) -> (r: String)
    ensures
        r@ == chars@,
{
    let mut out = String::new();
    for i in 0..chars.len()
        invariant
            out@ == chars@.take(i as int),
    {
        out.push(chars[i]);
    }
    out
}

/// Whether the two texts are the same, character for character.
pub fn same_chars(a: &[char], b: &[char]) -> (r: bool)
    ensures
        r == (a@ == b@),
{
    if a.len() != b.len() {
        return false;
    }
    for i in 0..a.len()
        invariant
            a@.len() == b@.len(),
            forall|j: int| 0 <= j < i ==> a@[j] == b@[j],
    {
        if a[i] != b[i] {
            return false;
        }
    }
    assert(a@ =~= b@);
    true
}

/// Whether the two strings are the same text.
pub fn same_text(a: &str, b: &str) -> (r: bool)
    ensures
        r == (a@ == b@),
{
    let x = chars_of(a);
    let y = chars_of(b);
    same_chars(&x, &y)
}

/// Lexicographic order by code point: `a` comes before `b` or equals it.
pub open spec fn text_le(a: Seq<char>, b: Seq<char>) -> bool
    decreases a.len(),
{
    if a.len() == 0 {
        true
    } else if b.len() == 0 {
        false
    } else if a[0] != b[0] {
        a[0] < b[0]
    } else {
        text_le(a.skip(1), b.skip(1))
    }
}

/// Whether `a` comes before `b` in lexicographic order, or equals it.
pub fn comes_first(a: &str, b: &str) -> (r: bool)
    ensures
        r == text_le(a@, b@),
{
    let x = chars_of(a);
    let y = chars_of(b);
    let mut i: usize = 0;
    proof {
        assert(a@.skip(0) =~= a@);
        assert(b@.skip(0) =~= b@);
    }
    while i < x.len() && i < y.len()
        invariant
            x@ == a@,
            y@ == b@,
            i <= x.len(),
            i <= y.len(),
            text_le(a@, b@) == text_le(a@.skip(i as int), b@.skip(i as int)),
        decreases x.len() - i,
    {
        proof {
            assert(a@.skip(i as int).skip(1) =~= a@.skip(i + 1));
            assert(b@.skip(i as int).skip(1) =~= b@.skip(i + 1));
        }
        if x[i] != y[i] {
            return x[i] < y[i];
        }
        i = i + 1;
    }
    i == x.len()
}

/// Lexicographic order is total.
pub proof fn lemma_text_le_total(a: Seq<char>, b: Seq<char>)
    ensures
        text_le(a, b) || text_le(b, a),
    decreases a.len(),
{
    if a.len() > 0 && b.len() > 0 {
        lemma_text_le_total(a.skip(1), b.skip(1));
    }
}

/// Lexicographic order is antisymmetric.
pub proof fn lemma_text_le_antisymmetric(a: Seq<char>, b: Seq<char>)
    requires
        text_le(a, b),
        text_le(b, a),
    ensures
        a == b,
    decreases a.len(),
{
    if a.len() == 0 || b.len() == 0 {
        assert(a =~= b);
    } else {
        assert(a[0] == b[0]);
        lemma_text_le_antisymmetric(a.skip(1), b.skip(1));
        assert(a =~= seq![a[0]] + a.skip(1));
        assert(b =~= seq![b[0]] + b.skip(1));
    }
}

// ---------------------------------------------------------------------------------------------
// Prefixes and suffixes

/// What is left of `s` behind `prefix`, if `s` begins with it.
pub open spec fn after_prefix(s: Seq<char>, prefix: Seq<char>) -> Option<Seq<char>> {
    if prefix.is_prefix_of(s) {
        Some(s.skip(prefix.len() as int))
    } else {
        None
    }
}

/// Whether `s` begins with `prefix`.
pub fn begins_with(s: &[char], prefix: &[char]) -> (r: bool)
    ensures
        r == prefix@.is_prefix_of(s@),
{
    if prefix.len() > s.len() {
        return false;
    }
    for i in 0..prefix.len()
        invariant
            prefix@.len() <= s@.len(),
            forall|j: int| 0 <= j < i ==> prefix@[j] == s@[j],
    {
        if prefix[i] != s[i] {
            assert(prefix@[i as int] != s@.subrange(0, prefix@.len() as int)[i as int]);
            return false;
        }
    }
    assert(prefix@ =~= s@.subrange(0, prefix@.len() as int));
    true
}

/// What is left of `s` behind `prefix`, if `s` begins with it.
pub fn strip_prefix<'a>(s: &'a [char], prefix: &[char]) -> (r: Option<&'a [char]>)
    ensures
        r is Some <==> after_prefix(s@, prefix@) is Some,
        r matches Some(t) ==> after_prefix(s@, prefix@) == Some(t@),
{
    if begins_with(s, prefix) {
        let t = vstd::slice::slice_subrange(s, prefix.len(), s.len());
        assert(t@ =~= s@.skip(prefix@.len() as int));
        Some(t)
    } else {
        None
    }
}

/// `s` without `suffix`, if `s` ends with it.
pub open spec fn before_suffix(s: Seq<char>, suffix: Seq<char>) -> Option<Seq<char>> {
    if suffix.len() <= s.len() && s.skip(s.len() - suffix.len()) == suffix {
        Some(s.take(s.len() - suffix.len()))
    } else {
        None
    }
}

/// `s` without `suffix`, if `s` ends with it.
pub fn strip_suffix<'a>(s: &'a [char], suffix: &[char]) -> (r: Option<&'a [char]>)
    ensures
        r is Some <==> before_suffix(s@, suffix@) is Some,
        r matches Some(t) ==> before_suffix(s@, suffix@) == Some(t@),
{
    if suffix.len() > s.len() {
        return None;
    }
    let cut: usize = s.len() - suffix.len();
    let tail = vstd::slice::slice_subrange(s, cut, s.len());
    assert(tail@ =~= s@.skip(s@.len() - suffix@.len()));
    if same_chars(tail, suffix) {
        let t = vstd::slice::slice_subrange(s, 0, cut);
        assert(t@ =~= s@.take(s@.len() - suffix@.len()));
        Some(t)
    } else {
        None
    }
}

// ---------------------------------------------------------------------------------------------
// Searching and splitting

/// Whether `needle` stands in `s` at position `i`.
pub open spec fn occurs_at(s: Seq<char>, needle: Seq<char>, i: int) -> bool {
    0 <= i && i + needle.len() <= s.len() && s.subrange(i, i + needle.len()) == needle
}

/// The first position at or behind `from` at which `needle` stands in `s`.
pub open spec fn find_from(s: Seq<char>, needle: Seq<char>, from: int) -> Option<int>
    decreases s.len() - from + 1,
{
    if from < 0 || from + needle.len() > s.len() {
        None
    } else if occurs_at(s, needle, from) {
        Some(from)
    } else {
        find_from(s, needle, from + 1)
    }
}

/// The first position at which `needle` stands in `s`.
pub open spec fn find_text(s: Seq<char>, needle: Seq<char>) -> Option<int> {
    find_from(s, needle, 0)
}

/// The first position at which `needle` stands in `s`.
pub fn position_of(s: &[char], needle: &[char]) -> (r: Option<usize>)
    ensures
        r is Some <==> find_text(s@, needle@) is Some,
        r matches Some(i) ==> find_text(s@, needle@) == Some(i as int) && i + needle@.len()
            <= s.len(),
{
    let mut i: usize = 0;
    while needle.len() <= s.len() - i
        invariant
            i <= s.len(),
            find_text(s@, needle@) == find_from(s@, needle@, i as int),
        decreases s.len() - i,
    {
        let part = vstd::slice::slice_subrange(s, i, i + needle.len());
        if same_chars(part, needle) {
            return Some(i);
        }
        assert(i == s.len() ==> part@ =~= needle@);
        i = i + 1;
    }
    None
}

/// The position of the first `c` in `s`, or the length of `s` if there is none.
pub open spec fn until(s: Seq<char>, c: char) -> int
    decreases s.len(),
{
    if s.len() == 0 || s[0] == c {
        0
    } else {
        1 + until(s.skip(1), c)
    }
}

/// `until` gives a position no larger than the length, no `c` stands before it, and where it is
/// smaller than the length a `c` stands there.
pub proof fn lemma_until(s: Seq<char>, c: char)
    ensures
        0 <= until(s, c) <= s.len(),
        until(s, c) < s.len() ==> s[until(s, c)] == c,
        forall|j: int| 0 <= j < until(s, c) ==> s[j] != c,
    decreases s.len(),
{
    if s.len() > 0 && s[0] != c {
        let t = s.skip(1);
        lemma_until(t, c);
        assert forall|j: int| 0 <= j < until(s, c) implies s[j] != c by {
            if j > 0 {
                assert(t[j - 1] == s[j]);
            }
        }
    }
}

/// The position that `until` gives is the only one with its property.
pub proof fn lemma_until_is(s: Seq<char>, c: char, i: int)
    requires
        0 <= i <= s.len(),
        i < s.len() ==> s[i] == c,
        forall|j: int| 0 <= j < i ==> s[j] != c,
    ensures
        until(s, c) == i,
{
    lemma_until(s, c);
    let u = until(s, c);
    if u < i {
        assert(s[u] != c);
    }
    if i < u {
        assert(s[i] != c);
    }
}

/// The position of the first `c` in `s`, or the length of `s` if there is none.
pub fn position_of_char(s: &[char], c: char) -> (r: usize)
    ensures
        r as int == until(s@, c),
        r <= s@.len(),
{
    let mut i: usize = 0;
    while i < s.len() && s[i] != c
        invariant
            i <= s.len(),
            forall|j: int| 0 <= j < i ==> s@[j] != c,
        decreases s.len() - i,
    {
        i = i + 1;
    }
    proof {
        lemma_until_is(s@, c, i as int);
    }
    i
}

// ---------------------------------------------------------------------------------------------
// White space

/// Whether `c` has the Unicode property White_Space.
pub open spec fn is_white_space(c: char) -> bool {
    ||| '\u{9}' <= c <= '\u{d}'
    ||| c == '\u{20}'
    ||| c == '\u{85}'
    ||| c == '\u{a0}'
    ||| c == '\u{1680}'
    ||| '\u{2000}' <= c <= '\u{200a}'
    ||| c == '\u{2028}'
    ||| c == '\u{2029}'
    ||| c == '\u{202f}'
    ||| c == '\u{205f}'
    ||| c == '\u{3000}'
}

/// Whether `c` has the Unicode property White_Space.
pub fn white_space(c: char) -> (r: bool)
    ensures
        r == is_white_space(c),
{
    ('\u{9}' <= c && c <= '\u{d}') || c == '\u{20}' || c == '\u{85}' || c == '\u{a0}' || c
        == '\u{1680}' || ('\u{2000}' <= c && c <= '\u{200a}') || c == '\u{2028}' || c
        == '\u{2029}' || c == '\u{202f}' || c == '\u{205f}' || c == '\u{3000}'
}

/// `s` without the white space it begins with.
pub open spec fn trim_left(s: Seq<char>) -> Seq<char>
    decreases s.len(),
{
    if s.len() > 0 && is_white_space(s[0]) {
        trim_left(s.skip(1))
    } else {
        s
    }
}

/// `s` without the white space it ends with.
pub open spec fn trim_right(s: Seq<char>) -> Seq<char>
    decreases s.len(),
{
    if s.len() > 0 && is_white_space(s.last()) {
        trim_right(s.drop_last())
    } else {
        s
    }
}

/// `s` without the white space at either end.
pub open spec fn trimmed(s: Seq<char>) -> Seq<char> {
    trim_right(trim_left(s))
}

/// `s` without the white space it begins with.
pub fn trim_start_chars<'a>(s: &'a [char]) -> (r: &'a [char])
    ensures
        r@ == trim_left(s@),
{
    let mut i: usize = 0;
    assert(s@.skip(0) =~= s@);
    while i < s.len() && white_space(s[i])
        invariant
            i <= s.len(),
            trim_left(s@) == trim_left(s@.skip(i as int)),
        decreases s.len() - i,
    {
        assert(s@.skip(i as int).skip(1) =~= s@.skip(i + 1));
        i = i + 1;
    }
    let r = vstd::slice::slice_subrange(s, i, s.len());
    assert(r@ =~= s@.skip(i as int));
    r
}

/// `s` without the white space at either end.
pub fn trim_chars<'a>(s: &'a [char]) -> (r: &'a [char])
    ensures
        r@ == trimmed(s@),
{
    let t = trim_start_chars(s);
    let mut n: usize = t.len();
    assert(t@.take(t@.len() as int) =~= t@);
    while n > 0 && white_space(t[n - 1])
        invariant
            n <= t.len(),
            trim_right(t@) == trim_right(t@.take(n as int)),
        decreases n,
    {
        assert(t@.take(n as int).drop_last() =~= t@.take(n - 1));
        n = n - 1;
    }
    let r = vstd::slice::slice_subrange(t, 0, n);
    assert(r@ =~= t@.take(n as int));
    r
}

/// `s` without the white space at either end.
pub fn trim_text(s: &str) -> (r: String)
    ensures
        r@ == trimmed(s@),
{
    let cs = chars_of(s);
    let t = trim_chars(&cs);
    text_of(t)
}

// ---------------------------------------------------------------------------------------------
// Decimal numbers

/// The digit of value `d`, for `d` below ten.
pub open spec fn digit_char(d: nat) -> char {
    (48 + d) as char
}

/// The decimal digits of `n`, without leading zeros.
pub open spec fn decimal(n: nat) -> Seq<char>
    decreases n,
{
    if n < 10 {
        seq![digit_char(n)]
    } else {
        decimal(n / 10).push(digit_char(n % 10))
    }
}

/// Whether `c` is one of the ten ASCII digits.
pub open spec fn is_digit(c: char) -> bool {
    '0' <= c <= '9'
}

/// Whether every character of `s` is an ASCII digit.
pub open spec fn all_digits(s: Seq<char>) -> bool {
    forall|i: int| 0 <= i < s.len() ==> is_digit(#[trigger] s[i])
}

/// The number that the digits of `s` write in base ten.
pub open spec fn digits_value(s: Seq<char>) -> nat
    decreases s.len(),
{
    if s.len() == 0 {
        0
    } else {
        digits_value(s.drop_last()) * 10 + (s.last() as int - 48) as nat
    }
}

/// The number that `s` writes: an optional plus sign, then digits only, at least one, of a value
/// that does not exceed `max`.
pub open spec fn unsigned_value(s: Seq<char>, max: nat) -> Option<nat> {
    let d = if s.len() > 0 && s[0] == '+' {
        s.skip(1)
    } else {
        s
    };
    if d.len() > 0 && all_digits(d) && digits_value(d) <= max {
        Some(digits_value(d))
    } else {
        None
    }
}

/// A longer run of digits writes no smaller number.
proof fn lemma_digits_value_grows(s: Seq<char>, n: int)
    requires
        0 <= n <= s.len(),
    ensures
        digits_value(s.take(n)) <= digits_value(s),
    decreases s.len() - n,
{
    if n < s.len() {
        lemma_digits_value_grows(s, n + 1);
        assert(s.take(n + 1).drop_last() =~= s.take(n));
    } else {
        assert(s.take(n) =~= s);
    }
}

/// The number that `s` writes, where it is no larger than `max`.
pub fn parse_unsigned(s: &[char], max: u64) -> (r: Option<u64>)
    ensures
        r is Some <==> unsigned_value(s@, max as nat) is Some,
        r matches Some(v) ==> unsigned_value(s@, max as nat) == Some(v as nat),
{
    let d = if s.len() > 0 && s[0] == '+' {
        let d = vstd::slice::slice_subrange(s, 1, s.len());
        assert(d@ =~= s@.skip(1));
        d
    } else {
        s
    };
    if d.len() == 0 {
        return None;
    }
    let mut v: u64 = 0;
    let mut i: usize = 0;
    while i < d.len()
        invariant
            i <= d.len(),
            forall|j: int| 0 <= j < i ==> is_digit(#[trigger] d@[j]),
            v == digits_value(d@.take(i as int)),
            v <= max,
            d@.len() > 0,
            d@ == (if s@.len() > 0 && s@[0] == '+' { s@.skip(1) } else { s@ }),
        decreases d.len() - i,
    {
        let ch: char = d[i];
        if ch < '0' || '9' < ch {
            return None;
        }
        proof {
            lemma_char_code(ch);
        }
        let c: u32 = ch as u32;
        let k: u64 = (c - 48) as u64;
        proof {
            assert(d@.take(i + 1).drop_last() =~= d@.take(i as int));
            assert(d@.take(i + 1).last() == d@[i as int]);
            assert(digits_value(d@.take(i + 1)) == v * 10 + k);
        }
        if v > max / 10 || k > max || v * 10 > max - k {
            proof {
                lemma_digits_value_grows(d@, i + 1);
            }
            return None;
        }
        v = v * 10 + k;
        i = i + 1;
    }
    assert(d@.take(d@.len() as int) =~= d@);
    Some(v)
}

/// The decimal digits of `n`.
pub fn decimal_text(n: u64) -> (r: String)
    ensures
        r@ == decimal(n as nat),
    decreases n,
{
    let d: u32 = 48 + (n % 10) as u32;
    let c: char = match d {
        48 => '0',
        49 => '1',
        50 => '2',
        51 => '3',
        52 => '4',
        53 => '5',
        54 => '6',
        55 => '7',
        56 => '8',
        _ => '9',
    };
    let mut out = if n < 10 {
        String::new()
    } else {
        decimal_text(n / 10)
    };
    out.push(c);
    assert(c == digit_char((n % 10) as nat));
    out
}

/// Decimal digits are digits, there is at least one, and they write the number they came from.
pub proof fn lemma_decimal(n: nat)
    ensures
        decimal(n).len() > 0,
        all_digits(decimal(n)),
        digits_value(decimal(n)) == n,
    decreases n,
{
    let c = digit_char(n % 10);
    assert(c as int == 48 + n % 10);
    if n < 10 {
        let s = decimal(n);
        assert(s.drop_last() =~= Seq::<char>::empty());
        assert(digits_value(s.drop_last()) == 0);
    } else {
        lemma_decimal(n / 10);
        assert(decimal(n).drop_last() =~= decimal(n / 10));
    }
}

/// Reading back the decimal digits of a number gives the number.
pub proof fn lemma_decimal_roundtrip(n: nat, max: nat)
    requires
        n <= max,
    ensures
        unsigned_value(decimal(n), max) == Some(n),
{
    lemma_decimal(n);
    assert(is_digit(decimal(n)[0]));
}

// ---------------------------------------------------------------------------------------------
// Laws

/// Which characters are white space, by their codes.
pub proof fn law_white_space_codes(c: char)
    ensures
        is_white_space(c) <==> {
            let n = c as int;
            ||| 9 <= n <= 13
            ||| n == 32 || n == 0x85 || n == 0xa0 || n == 0x1680
            ||| 0x2000 <= n <= 0x200a
            ||| n == 0x2028 || n == 0x2029 || n == 0x202f || n == 0x205f || n == 0x3000
        },
{
}

proof fn lemma_trim_left(s: Seq<char>) -> (i: int)
    ensures
        0 <= i <= s.len(),
        trim_left(s) == s.skip(i),
        forall|k: int| 0 <= k < i ==> is_white_space(#[trigger] s[k]),
        i < s.len() ==> !is_white_space(s[i]),
    decreases s.len(),
{
    if s.len() > 0 && is_white_space(s[0]) {
        let t = s.skip(1);
        let i = lemma_trim_left(t);
        assert(t.skip(i) =~= s.skip(i + 1));
        assert forall|k: int| 0 <= k < i + 1 implies is_white_space(#[trigger] s[k]) by {
            if k > 0 {
                assert(t[k - 1] == s[k]);
            }
        }
        if i + 1 < s.len() {
            assert(t[i] == s[i + 1]);
        }
        i + 1
    } else {
        assert(s.skip(0) =~= s);
        0
    }
}

proof fn lemma_trim_right(s: Seq<char>) -> (j: int)
    ensures
        0 <= j <= s.len(),
        trim_right(s) == s.take(j),
        forall|k: int| j <= k < s.len() ==> is_white_space(#[trigger] s[k]),
        j > 0 ==> !is_white_space(s[j - 1]),
    decreases s.len(),
{
    if s.len() > 0 && is_white_space(s.last()) {
        let t = s.drop_last();
        let j = lemma_trim_right(t);
        assert(t.take(j) =~= s.take(j));
        assert forall|k: int| j <= k < s.len() implies is_white_space(#[trigger] s[k]) by {
            if k < s.len() - 1 {
                assert(t[k] == s[k]);
            }
        }
        j
    } else {
        assert(s.take(s.len() as int) =~= s);
        s.len() as int
    }
}

/// To trim a text takes off the white space at its ends and nothing else: `start` characters at the
/// beginning and all from `end` on. What is left neither begins nor ends with white space, and nothing
/// is left only of a text that is white space throughout.
pub proof fn law_trimmed(s: Seq<char>) -> (ends: (int, int))
    ensures
        0 <= ends.0 <= ends.1 <= s.len(),
        trimmed(s) == s.subrange(ends.0, ends.1),
        forall|k: int| 0 <= k < ends.0 ==> is_white_space(#[trigger] s[k]),
        forall|k: int| ends.1 <= k < s.len() ==> is_white_space(#[trigger] s[k]),
        ends.0 < ends.1 ==> !is_white_space(s[ends.0]) && !is_white_space(s[ends.1 - 1]),
        trimmed(s).len() == 0 <==> forall|k: int| 0 <= k < s.len() ==> is_white_space(#[trigger] s[k]),
{
    let i = lemma_trim_left(s);
    let t = s.skip(i);
    let j = lemma_trim_right(t);
    assert(t.take(j) =~= s.subrange(i, i + j));
    assert forall|k: int| i + j <= k < s.len() implies is_white_space(#[trigger] s[k]) by {
        assert(t[k - i] == s[k]);
    }
    if j > 0 {
        assert(t[j - 1] == s[i + j - 1]);
        assert(t[0] == s[i]);
    }
    if trimmed(s).len() > 0 {
        assert(!is_white_space(s[i]));
    }
    (i, i + j)
}

/// A number in decimal has one digit for each power of ten that it reaches, the most significant first
/// and never a zero in front.
pub proof fn law_decimal_digits(n: nat, d: nat)
    requires
        d < 10,
    ensures
        decimal(d) == seq![(48 + d) as char],
        n > 0 ==> decimal(n * 10 + d) == decimal(n).push((48 + d) as char),
        n > 0 ==> decimal(n)[0] != '0',
    decreases n,
{
    if n > 0 {
        assert((n * 10 + d) / 10 == n);
        assert((n * 10 + d) % 10 == d);
        if n >= 10 {
            law_decimal_digits(n / 10, 0);
            assert(decimal(n)[0] == decimal(n / 10)[0]) by {
                lemma_decimal(n / 10);
            }
        }
    }
}

/// What is read as a number: digits, with or without a plus sign in front, that come to no more than
/// the limit. One more digit makes it ten times as large and adds its value.
pub proof fn law_unsigned_numbers(d: Seq<char>, c: char, max: nat, n: nat)
    requires
        d.len() > 0,
        unsigned_value(d, max) == Some(n),
    ensures
        n <= max,
        '0' <= c <= '9' && n * 10 + (c as int - 48) <= max ==> unsigned_value(d.push(c), max)
            == Some((n * 10 + (c as int - 48)) as nat),
        '0' <= c <= '9' && n * 10 + (c as int - 48) > max ==> unsigned_value(d.push(c), max) is None,
        !('0' <= c <= '9') ==> unsigned_value(d.push(c), max) is None,
        d[0] != '+' ==> unsigned_value(seq!['+'] + d, max) == Some(n),
        forall|k: int| 1 <= k < d.len() ==> '0' <= #[trigger] d[k] <= '9',
        d[0] == '+' || '0' <= d[0] <= '9',
{
    let signed = d[0] == '+';
    let digits = if signed {
        d.skip(1)
    } else {
        d
    };
    let more = d.push(c);
    let more_digits = if signed {
        more.skip(1)
    } else {
        more
    };
    assert(more_digits =~= digits.push(c));
    assert(more_digits.drop_last() =~= digits);
    assert(more_digits.last() == c);
    assert(all_digits(more_digits) <==> is_digit(c)) by {
        if is_digit(c) {
            assert forall|i: int| 0 <= i < more_digits.len() implies is_digit(
                #[trigger] more_digits[i],
            ) by {
                if i < digits.len() {
                    assert(more_digits[i] == digits[i]);
                }
            }
        } else {
            assert(!is_digit(more_digits[digits.len() as int]));
        }
    }
    if !signed {
        assert((seq!['+'] + d).skip(1) =~= d);
    }
    assert forall|k: int| 1 <= k < d.len() implies '0' <= #[trigger] d[k] <= '9' by {
        if signed {
            assert(is_digit(digits[k - 1]));
        } else {
            assert(is_digit(digits[k]));
        }
    }
    if !signed {
        assert(is_digit(digits[0]));
    }
}

/// A single digit is read as its value; nothing, and a sign alone, is no number.
pub proof fn law_single_digits(c: char, max: nat)
    requires
        max >= 9,
    ensures
        '0' <= c <= '9' ==> unsigned_value(seq![c], max) == Some((c as int - 48) as nat),
        !('0' <= c <= '9') ==> unsigned_value(seq![c], max) is None,
        unsigned_value(Seq::empty(), max) is None,
{
    let s = seq![c];
    assert(s.drop_last() =~= Seq::<char>::empty());
    assert(digits_value(s.drop_last()) == 0);
    assert(s.last() == c);
    if !is_digit(c) {
        assert(!is_digit(s[0]));
    } else {
        assert(all_digits(s));
    }
    assert(s.skip(1) =~= Seq::<char>::empty());
}

/// A text is found where it stands first: there, character by character, and at no earlier place; and
/// it is not found only where it stands nowhere.
pub proof fn law_found_is_first(s: Seq<char>, needle: Seq<char>, at: int)
    requires
        0 <= at,
        at + needle.len() <= s.len(),
        forall|k: int| 0 <= k < needle.len() ==> s[at + k] == #[trigger] needle[k],
    ensures
        find_text(s, needle) matches Some(p) && 0 <= p <= at && forall|k: int|
            0 <= k < needle.len() ==> s[p + k] == #[trigger] needle[k],
{
    assert(s.subrange(at, at + needle.len()) =~= needle);
    lemma_found(s, needle, 0, at);
    let p = find_text(s, needle)->0;
    assert(s.subrange(p, p + needle.len()) == needle);
    assert forall|k: int| 0 <= k < needle.len() implies s[p + k] == #[trigger] needle[k] by {
        assert(s.subrange(p, p + needle.len())[k] == s[p + k]);
    }
}

proof fn lemma_found(s: Seq<char>, needle: Seq<char>, from: int, at: int)
    requires
        0 <= from <= at,
        occurs_at(s, needle, at),
    ensures
        find_from(s, needle, from) matches Some(p) && from <= p <= at && occurs_at(s, needle, p),
    decreases at - from,
{
    if from < at && !occurs_at(s, needle, from) {
        lemma_found(s, needle, from + 1, at);
    }
}

/// Texts are ordered as in a dictionary: by the first character in which they differ, and a text comes
/// before every longer one that begins with it.
pub proof fn law_dictionary_order(front: Seq<char>, a: char, b: char, x: Seq<char>, y: Seq<char>)
    requires
        a != b,
    ensures
        text_le(front + seq![a] + x, front + seq![b] + y) <==> a < b,
        text_le(front, front + y),
        y.len() > 0 ==> !text_le(front + y, front),
    decreases front.len(),
{
    let s = front + seq![a] + x;
    let t = front + seq![b] + y;
    if front.len() == 0 {
        assert(s[0] == a && t[0] == b);
    } else {
        law_dictionary_order(front.skip(1), a, b, x, y);
        assert(s[0] == front[0] && t[0] == front[0]);
        assert(s.skip(1) =~= front.skip(1) + seq![a] + x);
        assert(t.skip(1) =~= front.skip(1) + seq![b] + y);
        assert((front + y).skip(1) =~= front.skip(1) + y);
    }
}

/// A text that begins with a prefix, or ends with a suffix, is taken apart there.
pub proof fn law_taken_apart(a: Seq<char>, b: Seq<char>)
    ensures
        after_prefix(a + b, a) == Some(b),
        before_suffix(a + b, b) == Some(a),
{
    assert((a + b).skip(a.len() as int) =~= b);
    assert((a + b).take(a.len() as int) =~= a);
    assert(a =~= (a + b).subrange(0, a.len() as int));
    assert((a + b).len() - b.len() == a.len());
}

} // verus!
