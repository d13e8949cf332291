//! What one end announces of its channels is what the other end learns.

use crate::constants::MAX_CHANNELS;
use crate::metadata::{
    bare, channel_list, coded_char, digit_run, entries_text, entry_channel, entry_label, entry_of,
    entry_text, escape_at, escaped, escaped_char, field_opening, hex_char, is_control,
    label_or_default, labels_in, largest_channel, metadata_of, pieces, quoted, string_field,
    MetadataView, Place, RemoteMetadata,
};
use crate::packet::{handshake_of, law_metadata_roundtrip, metadata_bytes, HandshakeView};
use crate::routing::{
    matrix_sources, received_endpoint, shown_channels, shown_device, shown_labels,
};
use crate::state::WebState;
use crate::text::{
    all_digits, decimal, find_from, is_digit, is_white_space, lemma_char_code, lemma_decimal,
    lemma_decimal_roundtrip, occurs_at, trim_left,
};
use crate::token::{hex_value, is_hex_digit};
use vstd::prelude::*;
use vstd::utf8::encode_utf8;

verus! {

// ---------------------------------------------------------------------------------------------
// Searching

proof fn lemma_find_from_none(s: Seq<char>, needle: Seq<char>, from: int)
    requires
        0 <= from,
        forall|j: int| from <= j ==> !occurs_at(s, needle, j),
    ensures
        find_from(s, needle, from) is None,
    decreases s.len() - from + 1,
{
    if from + needle.len() <= s.len() {
        lemma_find_from_none(s, needle, from + 1);
    }
}

proof fn lemma_find_from_is(s: Seq<char>, needle: Seq<char>, from: int, p: int)
    requires
        0 <= from <= p,
        occurs_at(s, needle, p),
        forall|j: int| from <= j < p ==> !occurs_at(s, needle, j),
    ensures
        find_from(s, needle, from) == Some(p),
    decreases p - from,
{
    if from < p {
        lemma_find_from_is(s, needle, from + 1, p);
    }
}

// ---------------------------------------------------------------------------------------------
// Pieces

/// Where the character behind `s` stands, where `s` begins at `at`.
spec fn place_behind(s: Seq<char>, at: Place) -> Place
    decreases s.len(),
{
    if s.len() == 0 {
        at
    } else {
        place_behind(s.skip(1), at.behind(s[0]))
    }
}

proof fn lemma_place_concat(a: Seq<char>, b: Seq<char>, at: Place)
    ensures
        place_behind(a + b, at) == place_behind(b, place_behind(a, at)),
    decreases a.len(),
{
    if a.len() == 0 {
        assert(a + b =~= b);
    } else {
        assert((a + b).skip(1) =~= a.skip(1) + b);
        lemma_place_concat(a.skip(1), b, at.behind(a[0]));
    }
}

proof fn lemma_bare_concat(a: Seq<char>, b: Seq<char>, c: char, at: Place)
    ensures
        0 <= bare(a, c, at) <= a.len(),
        bare(a + b, c, at) == if bare(a, c, at) < a.len() {
            bare(a, c, at)
        } else {
            a.len() + bare(b, c, place_behind(a, at))
        },
    decreases a.len(),
{
    if a.len() == 0 {
        assert(a + b =~= b);
    } else if !(at == Place::Outside && a[0] == c) {
        assert((a + b).skip(1) =~= a.skip(1) + b);
        lemma_bare_concat(a.skip(1), b, c, at.behind(a[0]));
    }
}

/// What stands behind a brace outside of strings begins outside of strings.
proof fn lemma_behind_brace(s: Seq<char>, at: Place)
    requires
        bare(s, '{', at) < s.len(),
    ensures
        0 <= bare(s, '{', at),
        s[bare(s, '{', at)] == '{',
        place_behind(s.skip(bare(s, '{', at) + 1), Place::Outside) == place_behind(s, at),
    decreases s.len(),
{
    let i = bare(s, '{', at);
    if at == Place::Outside && s[0] == '{' {
        assert(s.skip(1) =~= s.skip(i + 1));
    } else {
        let t = s.skip(1);
        lemma_behind_brace(t, at.behind(s[0]));
        assert(t.skip(i) =~= s.skip(i + 1));
    }
}

/// Pieces of two texts put together are the pieces of each, where the first ends outside of strings
/// and the second begins with a brace.
proof fn lemma_pieces_concat(a: Seq<char>, b: Seq<char>)
    requires
        place_behind(a, Place::Outside) == Place::Outside,
        b.len() == 0 || b[0] == '{',
    ensures
        pieces(a + b) == pieces(a) + pieces(b),
    decreases a.len(),
{
    let ab = a + b;
    let i = bare(a, '{', Place::Outside);
    lemma_bare_concat(a, b, '{', Place::Outside);
    if b.len() == 0 {
        assert(ab =~= a);
        assert(pieces(a) + pieces(b) =~= pieces(a));
    } else if i == a.len() {
        assert(bare(b, '{', Place::Outside) == 0);
        assert(ab.skip(i + 1) =~= b.skip(1));
        assert(pieces(a) + pieces(b) =~= pieces(b));
    } else {
        let ra = a.skip(i + 1);
        let rab = ab.skip(i + 1);
        assert(rab =~= ra + b);
        lemma_behind_brace(a, Place::Outside);
        lemma_pieces_concat(ra, b);
        lemma_bare_concat(ra, b, '{', Place::Outside);
        let u = bare(ra, '{', Place::Outside);
        assert(bare(b, '{', Place::Outside) == 0);
        assert(bare(rab, '{', Place::Outside) == u);
        assert(rab.take(u) =~= ra.take(u));
        assert(pieces(ab) =~= pieces(a) + pieces(b));
    }
}

/// A beginning without a brace that ends outside of strings plays no part in the pieces.
proof fn lemma_pieces_skip(a: Seq<char>, b: Seq<char>)
    requires
        bare(a, '{', Place::Outside) == a.len(),
        place_behind(a, Place::Outside) == Place::Outside,
    ensures
        pieces(a + b) == pieces(b),
{
    let ab = a + b;
    lemma_bare_concat(a, b, '{', Place::Outside);
    lemma_bare_concat(b, Seq::empty(), '{', Place::Outside);
    let u = bare(b, '{', Place::Outside);
    if u < b.len() {
        assert(ab.skip(a.len() + u + 1) =~= b.skip(u + 1));
    }
}

proof fn lemma_largest_concat(p: Seq<Seq<char>>, q: Seq<Seq<char>>)
    ensures
        largest_channel(p + q) == if largest_channel(p) > largest_channel(q) {
            largest_channel(p)
        } else {
            largest_channel(q)
        },
    decreases q.len(),
{
    if q.len() == 0 {
        assert(p + q =~= p);
    } else {
        lemma_largest_concat(p, q.drop_last());
        assert((p + q).drop_last() =~= p + q.drop_last());
        assert((p + q).last() == q.last());
    }
}

proof fn lemma_labels_concat(p: Seq<Seq<char>>, q: Seq<Seq<char>>)
    ensures
        labels_in(p + q) == labels_in(p) + labels_in(q),
    decreases q.len(),
{
    if q.len() == 0 {
        assert(p + q =~= p);
        assert(labels_in(p) + labels_in(q) =~= labels_in(p));
    } else {
        lemma_labels_concat(p, q.drop_last());
        assert((p + q).drop_last() =~= p + q.drop_last());
        assert((p + q).last() == q.last());
        assert(labels_in(p + q) =~= labels_in(p) + labels_in(q));
    }
}

// ---------------------------------------------------------------------------------------------
// Escaped text

proof fn lemma_escaped_concat(a: Seq<char>, b: Seq<char>)
    ensures
        escaped(a + b) == escaped(a) + escaped(b),
    decreases b.len(),
{
    if b.len() == 0 {
        assert(a + b =~= a);
        assert(escaped(a) + escaped(b) =~= escaped(a));
    } else {
        lemma_escaped_concat(a, b.drop_last());
        assert((a + b).drop_last() =~= a + b.drop_last());
        assert(escaped(a + b) =~= escaped(a) + escaped(b));
    }
}

proof fn lemma_escaped_first(s: Seq<char>)
    requires
        s.len() > 0,
    ensures
        escaped(s) == escaped_char(s[0]) + escaped(s.skip(1)),
{
    let first = seq![s[0]];
    assert(s =~= first + s.skip(1));
    lemma_escaped_concat(first, s.skip(1));
    assert(first.drop_last() =~= Seq::<char>::empty());
    assert(escaped(first.drop_last()) =~= Seq::<char>::empty());
    assert(escaped(first) =~= escaped_char(s[0]));
}

/// A character that was escaped is read back as it was.
proof fn lemma_quoted_char(c: char, rest: Seq<char>)
    ensures
        quoted(escaped_char(c) + rest) == (match quoted(rest) {
            Some(t) => Some(seq![c] + t),
            None => None,
        }),
{
    let e = escaped_char(c);
    let s = e + rest;
    assert(s.skip(e.len() as int) =~= rest);
    if c == '\\' || c == '"' || c == '\n' || c == '\r' || c == '\t' {
        assert(e.len() == 2);
        assert(s[0] == '\\' && s[1] == e[1]);
        assert(escape_at(s) == (c, 2int));
    } else if is_control(c) {
        lemma_char_code(c);
        let code = c as int;
        assert(e.len() == 6);
        let digits = s.skip(2);
        let hi = hex_char(code / 16);
        let lo = hex_char(code % 16);
        assert(digits[0] == '0' && digits[1] == '0' && digits[2] == hi && digits[3] == lo);
        assert(0 <= code / 16 < 16 && 0 <= code % 16 < 16);
        assert(is_hex_digit(hi) && hex_value(hi) == code / 16);
        assert(is_hex_digit(lo) && hex_value(lo) == code % 16);
        assert(coded_char(digits) == Some(c));
        assert(s[0] == '\\' && s[1] == 'u');
        assert(escape_at(s) == (c, 6int));
    } else {
        assert(e.len() == 1);
        assert(s[0] == c);
    }
}

/// A text that was escaped is read back as it was, up to the quote behind it.
proof fn lemma_quoted_escaped(s: Seq<char>, rest: Seq<char>)
    ensures
        quoted(escaped(s) + seq!['"'] + rest) == Some(s),
    decreases s.len(),
{
    let end = seq!['"'] + rest;
    assert(escaped(s) + seq!['"'] + rest =~= escaped(s) + end);
    if s.len() == 0 {
        assert(escaped(s) + end =~= end);
        assert(s =~= Seq::<char>::empty());
    } else {
        let t = s.skip(1);
        lemma_escaped_first(s);
        lemma_quoted_escaped(t, rest);
        assert(escaped(t) + seq!['"'] + rest =~= escaped(t) + end);
        assert(escaped(s) + end =~= escaped_char(s[0]) + (escaped(t) + end));
        lemma_quoted_char(s[0], escaped(t) + end);
        assert(seq![s[0]] + t =~= s);
    }
}

/// An escaped character does not leave the string that it stands in.
proof fn lemma_escaped_char_inside(c: char, brace: char)
    ensures
        place_behind(escaped_char(c), Place::Inside) == Place::Inside,
        bare(escaped_char(c), brace, Place::Inside) == escaped_char(c).len(),
{
    reveal_with_fuel(place_behind, 8);
    reveal_with_fuel(bare, 8);
    let e = escaped_char(c);
    if is_control(c) {
        let hi = hex_char(c as int / 16);
        let lo = hex_char(c as int % 16);
        assert((c as int) < 160);
        assert(hi != '"' && hi != '\\');
        assert(lo != '"' && lo != '\\');
    }
}

/// An escaped text does not leave the string that it stands in.
proof fn lemma_escaped_inside(s: Seq<char>, brace: char)
    ensures
        place_behind(escaped(s), Place::Inside) == Place::Inside,
        bare(escaped(s), brace, Place::Inside) == escaped(s).len(),
    decreases s.len(),
{
    if s.len() > 0 {
        let before = escaped(s.drop_last());
        let last = escaped_char(s.last());
        lemma_escaped_inside(s.drop_last(), brace);
        lemma_escaped_char_inside(s.last(), brace);
        lemma_place_concat(before, last, Place::Inside);
        lemma_bare_concat(before, last, brace, Place::Inside);
    }
}

/// Every quote of an escaped text stands behind a backslash.
proof fn lemma_escaped_quotes(s: Seq<char>)
    ensures
        forall|j: int|
            0 <= j < escaped(s).len() && #[trigger] escaped(s)[j] == '"' ==> j > 0 && escaped(s)[j - 1]
                == '\\',
    decreases s.len(),
{
    if s.len() > 0 {
        lemma_escaped_quotes(s.drop_last());
        let a = escaped(s.drop_last());
        let b = escaped_char(s.last());
        lemma_escaped_char_quotes(s.last());
        assert forall|j: int| 0 <= j < escaped(s).len() && #[trigger] escaped(s)[j] == '"' implies j
            > 0 && escaped(s)[j - 1] == '\\' by {
            if j < a.len() {
                assert(a[j] == '"');
                assert(escaped(s)[j - 1] == a[j - 1]);
            } else {
                assert(b[j - a.len()] == '"');
                assert(escaped(s)[j - 1] == b[j - a.len() - 1]);
            }
        }
    }
}

proof fn lemma_escaped_char_quotes(c: char)
    ensures
        forall|j: int|
            0 <= j < escaped_char(c).len() && #[trigger] escaped_char(c)[j] == '"' ==> j > 0
                && escaped_char(c)[j - 1] == '\\',
{
    let hi = hex_char(c as int / 16);
    let lo = hex_char(c as int % 16);
    if is_control(c) {
        assert((c as int) < 160);
        assert(hi != '"');
        assert(lo != '"');
    }
}

// ---------------------------------------------------------------------------------------------
// One entry

/// What stands before the label of a channel, behind the opening brace.
spec fn entry_head(ch: int) -> Seq<char> {
    "\"c\":"@ + decimal((ch + 1) as nat) + ",\"l\":\""@
}

/// What stands in an entry behind its opening brace, up to the next entry.
spec fn entry_body(ch: int, label: Seq<char>, sep: char) -> Seq<char> {
    entry_head(ch) + escaped(label) + seq!['"'] + seq!['}', sep]
}

proof fn lemma_entry_parts(ch: int, label: Seq<char>, sep: char)
    ensures
        entry_text(ch, label) + seq![sep] == seq!['{'] + entry_body(ch, label, sep),
{
    reveal_strlit("{\"c\":");
    reveal_strlit("\"c\":");
    reveal_strlit("\"}");
    assert("{\"c\":"@ =~= seq!['{'] + "\"c\":"@);
    assert("\"}"@ =~= seq!['"', '}']);
    assert(entry_text(ch, label) + seq![sep] =~= seq!['{'] + entry_body(ch, label, sep));
}

proof fn lemma_digits_outside(d: Seq<char>, brace: char)
    requires
        all_digits(d),
        !is_digit(brace),
    ensures
        place_behind(d, Place::Outside) == Place::Outside,
        bare(d, brace, Place::Outside) == d.len(),
    decreases d.len(),
{
    if d.len() > 0 {
        assert(is_digit(d[0]));
        let t = d.skip(1);
        assert(all_digits(t)) by {
            assert forall|i: int| 0 <= i < t.len() implies is_digit(#[trigger] t[i]) by {
                assert(t[i] == d[i + 1]);
            }
        }
        lemma_digits_outside(t, brace);
    }
}

/// What stands before a label holds no brace, and the label stands inside of a string.
proof fn lemma_head_opens(ch: int, brace: char)
    requires
        ch >= 0,
        brace == '{' || brace == '}',
    ensures
        place_behind(entry_head(ch), Place::Outside) == Place::Inside,
        bare(entry_head(ch), brace, Place::Outside) == entry_head(ch).len(),
        entry_head(ch).len() == 10 + decimal((ch + 1) as nat).len(),
{
    reveal_strlit("\"c\":");
    reveal_strlit(",\"l\":\"");
    reveal_with_fuel(place_behind, 8);
    reveal_with_fuel(bare, 8);
    let d = decimal((ch + 1) as nat);
    lemma_decimal((ch + 1) as nat);
    let a = "\"c\":"@;
    let b = ",\"l\":\""@;
    assert(a =~= seq!['"', 'c', '"', ':']);
    assert(b =~= seq![',', '"', 'l', '"', ':', '"']);
    assert(place_behind(a, Place::Outside) == Place::Outside);
    assert(bare(a, brace, Place::Outside) == 4);
    assert(place_behind(b, Place::Outside) == Place::Inside);
    assert(bare(b, brace, Place::Outside) == 6);
    lemma_digits_outside(d, brace);
    lemma_place_concat(a, d, Place::Outside);
    lemma_bare_concat(a, d, brace, Place::Outside);
    lemma_place_concat(a + d, b, Place::Outside);
    lemma_bare_concat(a + d, b, brace, Place::Outside);
}

/// The first brace of an entry outside of strings is the one that closes it, whatever the label is.
proof fn lemma_body_braces(ch: int, label: Seq<char>, sep: char)
    requires
        ch >= 0,
        sep == ',' || sep == ']',
    ensures
        ({
            let body = entry_body(ch, label, sep);
            &&& bare(body, '{', Place::Outside) == body.len()
            &&& bare(body, '}', Place::Outside) == entry_head(ch).len() + escaped(label).len() + 1
            &&& place_behind(body, Place::Outside) == Place::Outside
        }),
{
    reveal_with_fuel(place_behind, 4);
    reveal_with_fuel(bare, 4);
    let head = entry_head(ch);
    let esc = escaped(label);
    let quote = seq!['"'];
    let end = seq!['}', sep];
    lemma_head_opens(ch, '{');
    lemma_head_opens(ch, '}');
    lemma_escaped_inside(label, '{');
    lemma_escaped_inside(label, '}');
    lemma_place_concat(head, esc, Place::Outside);
    lemma_bare_concat(head, esc, '{', Place::Outside);
    lemma_bare_concat(head, esc, '}', Place::Outside);
    assert(place_behind(quote, Place::Inside) == Place::Outside);
    assert(bare(quote, '{', Place::Inside) == 1);
    assert(bare(quote, '}', Place::Inside) == 1);
    lemma_place_concat(head + esc, quote, Place::Outside);
    lemma_bare_concat(head + esc, quote, '{', Place::Outside);
    lemma_bare_concat(head + esc, quote, '}', Place::Outside);
    assert(place_behind(end, Place::Outside) == Place::Outside);
    assert(bare(end, '{', Place::Outside) == 2);
    assert(bare(end, '}', Place::Outside) == 0);
    lemma_place_concat(head + esc + quote, end, Place::Outside);
    lemma_bare_concat(head + esc + quote, end, '{', Place::Outside);
    lemma_bare_concat(head + esc + quote, end, '}', Place::Outside);
}

proof fn lemma_digit_run(d: Seq<char>, rest: Seq<char>)
    requires
        all_digits(d),
        rest.len() == 0 || !is_digit(rest[0]),
    ensures
        digit_run(d + rest) == d.len(),
    decreases d.len(),
{
    if d.len() == 0 {
        assert(d + rest =~= rest);
    } else {
        assert(is_digit(d[0]));
        let t = d.skip(1);
        assert(all_digits(t)) by {
            assert forall|i: int| 0 <= i < t.len() implies is_digit(#[trigger] t[i]) by {
                assert(t[i] == d[i + 1]);
            }
        }
        lemma_digit_run(t, rest);
        assert((d + rest).skip(1) =~= t + rest);
    }
}

/// An entry that begins as the entry of a channel does gives the number of that channel.
proof fn lemma_entry_channel(e: Seq<char>, ch: int)
    requires
        0 <= ch < usize::MAX,
        entry_head(ch).is_prefix_of(e),
    ensures
        entry_channel(e) == Some((ch + 1) as nat),
{
    reveal_strlit("\"c\":");
    reveal_strlit(",\"l\":\"");
    let mark = "\"c\":"@;
    let n = (ch + 1) as nat;
    let d = decimal(n);
    let h = entry_head(ch);
    lemma_decimal(n);
    assert(h =~= e.subrange(0, h.len() as int));
    assert forall|j: int| 0 <= j < h.len() implies e[j] == h[j] by {
        assert(e.subrange(0, h.len() as int)[j] == e[j]);
    }
    assert(e.subrange(0, 4) =~= mark);
    assert(occurs_at(e, mark, 0));
    lemma_find_from_is(e, mark, 0, 0);
    let t = e.skip(4);
    let rest = t.skip(d.len() as int);
    assert(t =~= d + rest);
    assert(rest[0] == ',') by {
        assert(rest[0] == e[4 + d.len() as int]);
    }
    assert(is_digit(d[0]));
    assert(t[0] == d[0]);
    assert(!is_white_space(t[0]));
    assert(trim_left(t) == t);
    lemma_digit_run(d, rest);
    assert(t.take(d.len() as int) =~= d);
    lemma_decimal_roundtrip(n, usize::MAX as nat);
}

/// The entry of a channel, up to its closing brace.
spec fn entry_inner(ch: int, label: Seq<char>) -> Seq<char> {
    entry_head(ch) + escaped(label) + seq!['"']
}

/// The entry of a channel, with what separates it from the next, is one piece, and ends outside of
/// strings.
proof fn lemma_entry_pieces(ch: int, label: Seq<char>, sep: char)
    requires
        ch >= 0,
        sep == ',' || sep == ']',
    ensures
        ({
            let g = entry_text(ch, label) + seq![sep];
            &&& pieces(g) == seq![entry_body(ch, label, sep)]
            &&& entry_of(entry_body(ch, label, sep)) == entry_inner(ch, label)
            &&& place_behind(g, Place::Outside) == Place::Outside
            &&& g[0] == '{'
        }),
{
    let body = entry_body(ch, label, sep);
    let g = seq!['{'] + body;
    lemma_entry_parts(ch, label, sep);
    lemma_body_braces(ch, label, sep);
    assert(bare(g, '{', Place::Outside) == 0);
    assert(g.skip(1) =~= body);
    assert(body.take(body.len() as int) =~= body);
    assert(pieces(body) =~= Seq::<Seq<char>>::empty());
    assert(pieces(g) =~= seq![body]);
    assert(body.take(bare(body, '}', Place::Outside)) =~= entry_inner(ch, label));
}

/// The label that the entry of a channel gives is the one it was written for.
proof fn lemma_entry_label(ch: int, label: Seq<char>)
    requires
        ch >= 0,
    ensures
        entry_label(entry_inner(ch, label)) == Some(label),
{
    reveal_strlit("\"c\":");
    reveal_strlit(",\"l\":\"");
    reveal_strlit("\"l\":\"");
    let d = decimal((ch + 1) as nat);
    lemma_decimal((ch + 1) as nat);
    let head = entry_head(ch);
    let e = entry_inner(ch, label);
    let mark = "\"l\":\""@;
    let p = 5 + d.len() as int;
    lemma_head_opens(ch, '{');
    assert(e.subrange(p, p + 5) =~= mark);
    assert forall|j: int| 0 <= j < p implies !occurs_at(e, mark, j) by {
        if occurs_at(e, mark, j) {
            let part = e.subrange(j, j + 5);
            assert(part == mark);
            assert(part[0] == '"' && part[1] == 'l');
            assert(e[j] == '"' && e[j + 1] == 'l');
            assert(e[j] == head[j]);
            if 4 <= j < 4 + d.len() {
                assert(head[j] == d[j - 4]);
                assert(is_digit(d[j - 4]));
            }
            assert(e[j + 1] == head[j + 1]);
        }
    }
    lemma_find_from_is(e, mark, 0, p);
    lemma_quoted_escaped(label, Seq::empty());
    assert(e.skip(p + 5) =~= escaped(label) + seq!['"'] + Seq::<char>::empty());
}

/// What an entry adds to the number of channels and to the labels.
proof fn lemma_entry_says(ch: int, label: Seq<char>, sep: char)
    requires
        0 <= ch < usize::MAX,
        sep == ',' || sep == ']',
    ensures
        largest_channel(pieces(entry_text(ch, label) + seq![sep])) == ch + 1,
        labels_in(pieces(entry_text(ch, label) + seq![sep])) == seq![label],
{
    lemma_entry_pieces(ch, label, sep);
    lemma_entry_label(ch, label);
    let body = entry_body(ch, label, sep);
    let e = entry_inner(ch, label);
    assert(entry_head(ch) =~= e.subrange(0, entry_head(ch).len() as int));
    lemma_entry_channel(e, ch);
    let one = seq![body];
    assert(one.drop_last() =~= Seq::<Seq<char>>::empty());
    assert(one.last() == body);
    assert(largest_channel(one.drop_last()) == 0);
    assert(labels_in(one.drop_last()) =~= Seq::<Seq<char>>::empty());
    assert(labels_in(one) =~= seq![label]);
}

// ---------------------------------------------------------------------------------------------
// The whole list

/// The labels of the first `n` channels, each that is missing replaced by the one of a channel
/// without a label.
pub open spec fn announced_labels(labels: Seq<Seq<char>>, n: int) -> Seq<Seq<char>> {
    Seq::new(n as nat, |ch: int| label_or_default(labels, ch))
}

proof fn lemma_entries_say(labels: Seq<Seq<char>>, n: int, sep: char)
    requires
        1 <= n <= usize::MAX,
        sep == ',' || sep == ']',
    ensures
        ({
            let s = entries_text(labels, n) + seq![sep];
            &&& largest_channel(pieces(s)) == n
            &&& labels_in(pieces(s)) == announced_labels(labels, n)
            &&& place_behind(s, Place::Outside) == Place::Outside
        }),
    decreases n,
{
    let l = label_or_default(labels, n - 1);
    let last = entry_text(n - 1, l) + seq![sep];
    lemma_entry_pieces(n - 1, l, sep);
    lemma_entry_says(n - 1, l, sep);
    if n == 1 {
        assert(announced_labels(labels, 1) =~= seq![l]);
    } else {
        reveal_strlit(",");
        lemma_entries_say(labels, n - 1, ',');
        let before = entries_text(labels, n - 1) + seq![','];
        assert(","@ =~= seq![',']);
        assert(entries_text(labels, n) + seq![sep] =~= before + last);
        lemma_pieces_concat(before, last);
        lemma_largest_concat(pieces(before), pieces(last));
        lemma_labels_concat(pieces(before), pieces(last));
        lemma_place_concat(before, last, Place::Outside);
        assert(announced_labels(labels, n) =~= announced_labels(labels, n - 1) + seq![l]);
    }
}

proof fn lemma_list_says(labels: Seq<Seq<char>>, n: int)
    requires
        0 <= n <= usize::MAX,
    ensures
        largest_channel(pieces(channel_list(labels, n))) == n,
        labels_in(pieces(channel_list(labels, n))) == announced_labels(labels, n),
{
    reveal_strlit("[");
    reveal_strlit("]");
    reveal_with_fuel(place_behind, 3);
    reveal_with_fuel(bare, 3);
    let open = seq!['['];
    let rest = entries_text(labels, n) + seq![']'];
    assert(channel_list(labels, n) =~= open + rest);
    assert(bare(open, '{', Place::Outside) == 1);
    assert(place_behind(open, Place::Outside) == Place::Outside);
    lemma_pieces_skip(open, rest);
    if n == 0 {
        assert(rest =~= seq![']']);
        assert(bare(rest, '{', Place::Outside) == 1);
        assert(pieces(rest) =~= Seq::<Seq<char>>::empty());
        assert(announced_labels(labels, 0) =~= Seq::<Seq<char>>::empty());
    } else {
        lemma_entries_say(labels, n, ']');
    }
}

// ---------------------------------------------------------------------------------------------
// The name of the node

/// Whether every quote stands behind one of the characters that the list puts before quotes, or
/// before a closing brace.
spec fn quotes_in_place(s: Seq<char>) -> bool {
    forall|j: int|
        0 <= j < s.len() && #[trigger] s[j] == '"' ==> (j > 0 && (s[j - 1] == '\\' || s[j - 1] == '{'
            || s[j - 1] == 'c' || s[j - 1] == ':' || s[j - 1] == ',' || s[j - 1] == 'l')) || (j + 1
            < s.len() && s[j + 1] == '}')
}

proof fn lemma_quotes_concat(a: Seq<char>, b: Seq<char>)
    requires
        quotes_in_place(a),
        quotes_in_place(b),
    ensures
        quotes_in_place(a + b),
{
    let s = a + b;
    assert forall|j: int| 0 <= j < s.len() && #[trigger] s[j] == '"' implies (j > 0 && (s[j - 1]
        == '\\' || s[j - 1] == '{' || s[j - 1] == 'c' || s[j - 1] == ':' || s[j - 1] == ',' || s[j
        - 1] == 'l')) || (j + 1 < s.len() && s[j + 1] == '}') by {
        if j < a.len() {
            assert(a[j] == '"');
        } else {
            assert(b[j - a.len()] == '"');
        }
    }
}

proof fn lemma_entry_quotes(ch: int, label: Seq<char>)
    requires
        ch >= 0,
    ensures
        quotes_in_place(entry_text(ch, label)),
{
    reveal_strlit("{\"c\":");
    reveal_strlit(",\"l\":\"");
    reveal_strlit("\"}");
    let d = decimal((ch + 1) as nat);
    lemma_decimal((ch + 1) as nat);
    lemma_escaped_quotes(label);
    assert(quotes_in_place("{\"c\":"@));
    assert(quotes_in_place(d)) by {
        assert forall|j: int| 0 <= j < d.len() implies #[trigger] d[j] != '"' by {
            assert(is_digit(d[j]));
        }
    }
    assert(quotes_in_place(",\"l\":\""@));
    assert(quotes_in_place(escaped(label)));
    assert(quotes_in_place("\"}"@));
    lemma_quotes_concat("{\"c\":"@, d);
    lemma_quotes_concat("{\"c\":"@ + d, ",\"l\":\""@);
    lemma_quotes_concat("{\"c\":"@ + d + ",\"l\":\""@, escaped(label));
    lemma_quotes_concat("{\"c\":"@ + d + ",\"l\":\""@ + escaped(label), "\"}"@);
}

proof fn lemma_entries_quotes(labels: Seq<Seq<char>>, n: int)
    requires
        n >= 0,
    ensures
        quotes_in_place(entries_text(labels, n)),
    decreases n,
{
    if n > 0 {
        let last = entry_text(n - 1, label_or_default(labels, n - 1));
        lemma_entry_quotes(n - 1, label_or_default(labels, n - 1));
        if n > 1 {
            lemma_entries_quotes(labels, n - 1);
            reveal_strlit(",");
            assert(quotes_in_place(","@));
            lemma_quotes_concat(entries_text(labels, n - 1), ","@);
            lemma_quotes_concat(entries_text(labels, n - 1) + ","@, last);
        }
    }
}

proof fn lemma_list_has_no_node(labels: Seq<Seq<char>>, n: int)
    requires
        n >= 0,
    ensures
        string_field(channel_list(labels, n), "id"@) is None,
{
    reveal_strlit("[");
    reveal_strlit("]");
    reveal_strlit("\"");
    reveal_strlit("id");
    reveal_strlit("\":\"");
    let s = channel_list(labels, n);
    lemma_entries_quotes(labels, n);
    assert(quotes_in_place("["@));
    assert(quotes_in_place("]"@));
    lemma_quotes_concat("["@, entries_text(labels, n));
    lemma_quotes_concat("["@ + entries_text(labels, n), "]"@);
    let opening = field_opening("id"@);
    assert(opening =~= seq!['"', 'i', 'd', '"', ':', '"']);
    assert forall|j: int| 0 <= j implies !occurs_at(s, opening, j) by {
        if occurs_at(s, opening, j) {
            let part = s.subrange(j, j + 6);
            assert(part == opening);
            assert(part[2] == 'd' && part[3] == '"' && part[4] == ':');
            assert(s[j + 3] == '"');
            assert(s[j + 2] == 'd');
            assert(s[j + 4] == ':');
        }
    }
    lemma_find_from_none(s, opening, 0);
}

/// The other end learns how many channels there are, whatever their labels, up to the number that a
/// link carries, and takes nothing in a label for the name of the node.
pub proof fn law_channel_count_is_learnt(labels: Seq<Seq<char>>, n: int)
    requires
        0 <= n <= usize::MAX,
    ensures
        metadata_of(channel_list(labels, n)).channels == if n < MAX_CHANNELS {
            n
        } else {
            MAX_CHANNELS as int
        },
        metadata_of(channel_list(labels, n)).node_id is None,
{
    lemma_list_says(labels, n);
    lemma_list_has_no_node(labels, n);
}

/// The other end learns the labels as they were set, whatever characters they hold.
pub proof fn law_labels_are_learnt(labels: Seq<Seq<char>>, n: int)
    requires
        0 <= n <= usize::MAX,
    ensures
        metadata_of(channel_list(labels, n)).labels == announced_labels(labels, n),
{
    lemma_list_says(labels, n);
}

/// A metadata packet brings the number of channels and their labels to the other end, as long as its
/// length field can hold the length, or holds a remainder too small to be one.
pub proof fn law_announcement_arrives(token: Seq<u8>, labels: Seq<Seq<char>>, n: int)
    requires
        token.len() == 16,
        0 <= n <= usize::MAX,
        16 + encode_utf8(channel_list(labels, n)).len() < 0x1_0000 || (16 + encode_utf8(
            channel_list(labels, n),
        ).len()) % 0x1_0000 < 16,
    ensures
        handshake_of(metadata_bytes(token, channel_list(labels, n))) == Some(
            HandshakeView::Metadata(
                MetadataView {
                    node_id: None,
                    channels: if n < MAX_CHANNELS {
                        n
                    } else {
                        MAX_CHANNELS as int
                    },
                    labels: announced_labels(labels, n),
                },
            ),
        ),
{
    law_metadata_roundtrip(token, channel_list(labels, n));
    law_channel_count_is_learnt(labels, n);
    law_labels_are_learnt(labels, n);
}

/// The rows of the matrix for what is received carry the names that the other end has set.
pub proof fn law_matrix_shows_the_labels(
    state: WebState,
    heard: RemoteMetadata,
    labels: Seq<Seq<char>>,
    n: int,
    ch: int,
)
    requires
        state.remote_metadata == Some(heard),
        heard@ == metadata_of(channel_list(labels, n)),
        0 <= ch < n <= MAX_CHANNELS,
    ensures
        shown_channels(state) == n,
        matrix_sources(state)[2 + state.local_input_channels + ch].label == "Connected Device"@
            + " \u{2022} "@ + label_or_default(labels, ch),
{
    law_channel_count_is_learnt(labels, n);
    law_labels_are_learnt(labels, n);
    let row = matrix_sources(state)[2 + state.local_input_channels + ch];
    assert(row == received_endpoint(shown_device(state), shown_labels(state), ch));
    assert(shown_labels(state) == announced_labels(labels, n));
}

} // verus!
