//! The channel list that one end of a link sends to the other.
//!
//! The list is JSON: `[{"c":1,"l":"Ch 1"},{"c":2,"l":"Ch 2"}]`, with the channel's number and its
//! label. The reader takes what it knows out of the text and passes over everything else, so that
//! it also reads lists that are wrapped in an object with an `id`.

use crate::constants::MAX_CHANNELS;
use crate::text::{
    chars_of, decimal, decimal_text, find_text, is_char_code, is_digit, law_found_is_first,
    lemma_char_code, occurs_at, optional_text, parse_unsigned, position_of, same_text, texts,
    trim_left, trim_start_chars, unsigned_value,
};
use crate::token::{digit_value, hex_value, is_hex_digit};
use vstd::prelude::*;

verus! {

// ---------------------------------------------------------------------------------------------
// Escaping

/// Whether `c` is a control character.
pub open spec fn is_control(c: char) -> bool {
    c <= '\u{1f}' || '\u{7f}' <= c <= '\u{9f}'
}

/// The hexadecimal digit of value `d`, for `d` below sixteen.
pub open spec fn hex_char(d: int) -> char {
    if d < 10 {
        (48 + d) as char
    } else {
        (87 + d) as char
    }
}

/// `c` as it stands inside a JSON string.
pub open spec fn escaped_char(c: char) -> Seq<char> {
    if c == '\\' {
        seq!['\\', '\\']
    } else if c == '"' {
        seq!['\\', '"']
    } else if c == '\n' {
        seq!['\\', 'n']
    } else if c == '\r' {
        seq!['\\', 'r']
    } else if c == '\t' {
        seq!['\\', 't']
    } else if is_control(c) {
        seq!['\\', 'u', '0', '0', hex_char(c as int / 16), hex_char(c as int % 16)]
    } else {
        seq![c]
    }
}

/// `s` as it stands inside a JSON string.
pub open spec fn escaped(s: Seq<char>) -> Seq<char>
    decreases s.len(),
{
    if s.len() == 0 {
        Seq::empty()
    } else {
        escaped(s.drop_last()) + escaped_char(s.last())
    }
}

/// The hexadecimal digit of value `d`.
pub fn hex_digit(d: u8) -> (r: char)
    requires
        d < 16,
    ensures
        r == hex_char(d as int),
{
    match d {
        0 => '0',
        1 => '1',
        2 => '2',
        3 => '3',
        4 => '4',
        5 => '5',
        6 => '6',
        7 => '7',
        8 => '8',
        9 => '9',
        10 => 'a',
        11 => 'b',
        12 => 'c',
        13 => 'd',
        14 => 'e',
        _ => 'f',
    }
}

/// `value` as it stands inside a JSON string.
pub fn json_escape(value: &str) -> (r: String)
    ensures
        r@ == escaped(value@),
{
    let cs = chars_of(value);
    let mut out = String::new();
    for i in 0..cs.len()
        invariant
            cs@ == value@,
            out@ == escaped(value@.take(i as int)),
    {
        let ghost before = out@;
        let c: char = cs[i];
        proof {
            assert(value@.take(i + 1).drop_last() =~= value@.take(i as int));
            assert(value@.take(i + 1).last() == c);
        }
        if c == '\\' {
            out.push('\\');
            out.push('\\');
        } else if c == '"' {
            out.push('\\');
            out.push('"');
        } else if c == '\n' {
            out.push('\\');
            out.push('n');
        } else if c == '\r' {
            out.push('\\');
            out.push('r');
        } else if c == '\t' {
            out.push('\\');
            out.push('t');
        } else if c <= '\u{1f}' || ('\u{7f}' <= c && c <= '\u{9f}') {
            proof {
                lemma_char_code(c);
            }
            let u: u32 = c as u32;
            out.push('\\');
            out.push('u');
            out.push('0');
            out.push('0');
            out.push(hex_digit((u / 16) as u8));
            out.push(hex_digit((u % 16) as u8));
        } else {
            out.push(c);
        }
        assert(out@ =~= before + escaped_char(c));
    }
    assert(value@.take(value@.len() as int) =~= value@);
    out
}

// ---------------------------------------------------------------------------------------------
// Writing

/// The label of a channel that has none of its own.
pub open spec fn channel_label(ch: int) -> Seq<char> {
    "Ch "@ + decimal((ch + 1) as nat)
}

/// The label of a channel that has none of its own: `Ch 1` for the first.
pub fn local_channel_label(ch: usize) -> (r: String)
    requires
        ch < usize::MAX,
    ensures
        r@ == channel_label(ch as int),
{
    let mut out = "Ch ".to_string();
    let number = decimal_text(ch as u64 + 1);
    out.append(number.as_str());
    out
}

/// The label of channel `ch` in a list that may be too short.
pub open spec fn label_or_default(labels: Seq<Seq<char>>, ch: int) -> Seq<char> {
    if ch < labels.len() {
        labels[ch]
    } else {
        channel_label(ch)
    }
}

/// The label of channel `ch` in a list that may be too short.
pub fn label_at(labels: &[String], ch: usize) -> (r: String)
    requires
        ch < usize::MAX,
    ensures
        r@ == label_or_default(texts(labels@), ch as int),
{
    if ch < labels.len() {
        labels[ch].clone()
    } else {
        local_channel_label(ch)
    }
}

/// The entry of one channel.
pub open spec fn entry_text(ch: int, label: Seq<char>) -> Seq<char> {
    "{\"c\":"@ + decimal((ch + 1) as nat) + ",\"l\":\""@ + escaped(label) + "\"}"@
}

/// The entries of the first `n` channels, separated by commas.
pub open spec fn entries_text(labels: Seq<Seq<char>>, n: int) -> Seq<char>
    decreases n,
{
    if n <= 0 {
        Seq::empty()
    } else if n == 1 {
        entry_text(0, label_or_default(labels, 0))
    } else {
        entries_text(labels, n - 1) + ","@ + entry_text(n - 1, label_or_default(labels, n - 1))
    }
}

/// The list of the first `n` channels.
pub open spec fn channel_list(labels: Seq<Seq<char>>, n: int) -> Seq<char> {
    "["@ + entries_text(labels, n) + "]"@
}

/// The list of the first `num_channels` channels.
pub fn channel_list_text(labels: &[String], num_channels: usize) -> (r: String)
    ensures
        r@ == channel_list(texts(labels@), num_channels as int),
{
    let mut json = "[".to_string();
    for ch in 0..num_channels
        invariant
            json@ == "["@ + entries_text(texts(labels@), ch as int),
    {
        let ghost ls = texts(labels@);
        let ghost before = json@;
        if ch > 0 {
            json.append(",");
        }
        let label = label_at(labels, ch);
        let number = decimal_text(ch as u64 + 1);
        let text = json_escape(label.as_str());
        json.append("{\"c\":");
        json.append(number.as_str());
        json.append(",\"l\":\"");
        json.append(text.as_str());
        json.append("\"}");
        proof {
            let e = entry_text(ch as int, label_or_default(ls, ch as int));
            if ch > 0 {
                assert(json@ =~= before + ","@ + e);
                assert(json@ =~= "["@ + (entries_text(ls, ch as int) + ","@ + e));
            } else {
                assert(json@ =~= before + e);
                assert(json@ =~= "["@ + e);
            }
        }
    }
    json.append("]");
    json
}

// ---------------------------------------------------------------------------------------------
// Reading

/// What the other end says of itself.
#[derive(Debug, PartialEq, Eq)]
pub struct RemoteMetadata {
    pub node_id: Option<String>,
    pub channels: usize,
    pub labels: Vec<String>,
}

/// What the other end says of itself.
#[verifier::ext_equal]
pub struct MetadataView {
    pub node_id: Option<Seq<char>>,
    pub channels: int,
    pub labels: Seq<Seq<char>>,
}

impl View for RemoteMetadata {
    type V = MetadataView;

    open spec fn view(&self) -> MetadataView {
        MetadataView {
            node_id: optional_text(self.node_id),
            channels: self.channels as int,
            labels: texts(self.labels@),
        }
    }
}

impl Clone for RemoteMetadata {
    fn clone(&self) -> (r: Self)
        ensures
            r@ == self@,
    {
        let labels = self.labels.clone();
        assert(texts(labels@) =~= texts(self.labels@));
        RemoteMetadata { node_id: self.node_id.clone(), channels: self.channels, labels }
    }
}

impl RemoteMetadata {
    /// The name of the other end, as far as it is known.
    pub fn display_name(&self) -> (r: &str)
        ensures
            r@ == (match self@.node_id {
                Some(n) => n,
                None => "unknown device"@,
            }),
    {
        match &self.node_id {
            Some(n) => n.as_str(),
            None => "unknown device",
        }
    }

    /// Whether the two say the same.
    pub fn same(&self, other: &RemoteMetadata) -> (r: bool)
        ensures
            r == (self@ == other@),
    {
        if self.channels != other.channels {
            return false;
        }
        let same_id: bool = match (&self.node_id, &other.node_id) {
            (Some(a), Some(b)) => same_text(a.as_str(), b.as_str()),
            (None, None) => true,
            _ => false,
        };
        if !same_id {
            return false;
        }
        if self.labels.len() != other.labels.len() {
            assert(self@.labels.len() != other@.labels.len());
            return false;
        }
        for i in 0..self.labels.len()
            invariant
                self.labels@.len() == other.labels@.len(),
                forall|j: int| 0 <= j < i ==> self.labels@[j]@ == other.labels@[j]@,
        {
            if !same_text(self.labels[i].as_str(), other.labels[i].as_str()) {
                assert(self@.labels[i as int] != other@.labels[i as int]);
                return false;
            }
        }
        assert(self@.labels =~= other@.labels);
        true
    }
}

/// The character that a backslash and `c` stand for.
pub open spec fn unescaped_char(c: char) -> char {
    if c == 'n' {
        '\n'
    } else if c == 'r' {
        '\r'
    } else if c == 't' {
        '\t'
    } else {
        c
    }
}

/// The character whose code the four hexadecimal digits write that `s` begins with.
pub open spec fn coded_char(s: Seq<char>) -> Option<char> {
    if s.len() >= 4 && is_hex_digit(s[0]) && is_hex_digit(s[1]) && is_hex_digit(s[2])
        && is_hex_digit(s[3]) {
        let code = hex_value(s[0]) * 4096 + hex_value(s[1]) * 256 + hex_value(s[2]) * 16
            + hex_value(s[3]);
        if is_char_code(code) {
            Some(code as char)
        } else {
            None
        }
    } else {
        None
    }
}

/// The character that `s`, which begins with a backslash, stands for at its start, and how many
/// characters of `s` it takes up.
pub open spec fn escape_at(s: Seq<char>) -> (char, int) {
    match coded_char(s.skip(2)) {
        Some(c) => if s[1] == 'u' {
            (c, 6)
        } else {
            (unescaped_char(s[1]), 2)
        },
        None => (unescaped_char(s[1]), 2),
    }
}

/// The string that `s` begins with, read up to its closing quote.
pub open spec fn quoted(s: Seq<char>) -> Option<Seq<char>>
    decreases s.len(),
{
    if s.len() == 0 {
        None
    } else if s[0] == '"' {
        Some(Seq::empty())
    } else if s[0] == '\\' {
        if s.len() == 1 {
            None
        } else {
            let (c, n) = escape_at(s);
            match quoted(s.skip(n)) {
                Some(t) => Some(seq![c] + t),
                None => None,
            }
        }
    } else {
        match quoted(s.skip(1)) {
            Some(t) => Some(seq![s[0]] + t),
            None => None,
        }
    }
}

fn coded(s: &[char]) -> (r: Option<char>)
    ensures
        r == coded_char(s@),
{
    if s.len() < 4 {
        return None;
    }
    match (digit_value(s[0]), digit_value(s[1]), digit_value(s[2]), digit_value(s[3])) {
        (Some(a), Some(b), Some(c), Some(d)) => {
            let code: u32 = a as u32 * 4096 + b as u32 * 256 + c as u32 * 16 + d as u32;
            let r = char::from_u32(code);
            proof {
                if let Some(ch) = r {
                    lemma_char_code(ch);
                }
            }
            r
        },
        _ => None,
    }
}

/// Reads the string that `s` begins with, up to its closing quote.
fn read_quoted(s: &[char]) -> (r: Option<String>)
    ensures
        optional_text(r) == quoted(s@),
{
    let mut out = String::new();
    let mut i: usize = 0;
    proof {
        assert(s@.skip(0) =~= s@);
        if let Some(t) = quoted(s@) {
            assert(out@ + t =~= t);
        }
    }
    while i < s.len()
        invariant
            i <= s.len(),
            quoted(s@) == (match quoted(s@.skip(i as int)) {
                Some(t) => Some(out@ + t),
                None => None,
            }),
        decreases s.len() - i,
    {
        let ghost here = s@.skip(i as int);
        let ghost before = out@;
        let c: char = s[i];
        assert(here[0] == c);
        if c == '"' {
            assert(out@ + Seq::<char>::empty() =~= out@);
            return Some(out);
        }
        if c == '\\' {
            if i + 1 >= s.len() {
                return None;
            }
            let d: char = s[i + 1];
            assert(here[1] == d);
            let behind = vstd::slice::slice_subrange(s, i + 2, s.len());
            assert(behind@ =~= here.skip(2));
            let code: Option<char> = if d == 'u' {
                coded(behind)
            } else {
                None
            };
            let e: char = match code {
                Some(e) => e,
                None => match d {
                    'n' => '\n',
                    'r' => '\r',
                    't' => '\t',
                    other => other,
                },
            };
            out.push(e);
            let n: usize = if code.is_some() {
                6
            } else {
                2
            };
            assert(escape_at(here) == (e, n as int));
            i = i + n;
            assert(here.skip(n as int) =~= s@.skip(i as int));
            proof {
                if let Some(t) = quoted(s@.skip(i as int)) {
                    assert(before + (seq![e] + t) =~= out@ + t);
                }
            }
        } else {
            out.push(c);
            i = i + 1;
            assert(here.skip(1) =~= s@.skip(i as int));
            proof {
                if let Some(t) = quoted(s@.skip(i as int)) {
                    assert(before + (seq![c] + t) =~= out@ + t);
                }
            }
        }
    }
    None
}

/// The text that a field of the given name begins with, up to the field's value.
pub open spec fn field_opening(field: Seq<char>) -> Seq<char> {
    "\""@ + field + "\":\""@
}

/// The value of the first string field of the given name.
pub open spec fn string_field(json: Seq<char>, field: Seq<char>) -> Option<Seq<char>> {
    match find_text(json, field_opening(field)) {
        Some(p) => quoted(json.skip(p + field_opening(field).len())),
        None => None,
    }
}

/// The value of the first string field of the given name.
pub fn parse_json_string_field(json: &str, field: &str) -> (r: Option<String>)
    ensures
        optional_text(r) == string_field(json@, field@),
{
    let s = chars_of(json);
    let mut needle_text = "\"".to_string();
    needle_text.append(field);
    needle_text.append("\":\"");
    let needle = chars_of(needle_text.as_str());
    assert(needle@ =~= field_opening(field@));
    let start: usize = match position_of(&s, &needle) {
        Some(p) => p + needle.len(),
        None => {
            return None;
        },
    };
    let rest = vstd::slice::slice_subrange(&s, start, s.len());
    assert(rest@ =~= json@.skip(start as int));
    read_quoted(rest)
}

/// Where a character of a JSON text stands: outside of strings, inside of one, or there behind a
/// backslash.
#[derive(Clone, Copy, Debug, PartialEq, Eq, Structural)]
pub enum Place {
    Outside,
    Inside,
    Escaped,
}

impl Place {
    /// Where the next character stands, behind `c`.
    pub open spec fn behind(self, c: char) -> Place {
        match self {
            Place::Outside => if c == '"' {
                Place::Inside
            } else {
                Place::Outside
            },
            Place::Inside => if c == '"' {
                Place::Outside
            } else if c == '\\' {
                Place::Escaped
            } else {
                Place::Inside
            },
            Place::Escaped => Place::Inside,
        }
    }

    /// Where the next character stands, behind `c`.
    pub fn next(self, c: char) -> (r: Place)
        ensures
            r == self.behind(c),
    {
        match self {
            Place::Outside => if c == '"' {
                Place::Inside
            } else {
                Place::Outside
            },
            Place::Inside => if c == '"' {
                Place::Outside
            } else if c == '\\' {
                Place::Escaped
            } else {
                Place::Inside
            },
            Place::Escaped => Place::Inside,
        }
    }
}

/// The position of the first `c` in `s` that stands outside of strings, or the length of `s`, where
/// `s` begins at `at`.
pub open spec fn bare(s: Seq<char>, c: char, at: Place) -> int
    decreases s.len(),
{
    if s.len() == 0 || (at == Place::Outside && s[0] == c) {
        0
    } else {
        1 + bare(s.skip(1), c, at.behind(s[0]))
    }
}

/// The runs of text behind each opening brace of `s` that stands outside of strings, up to the next
/// one.
pub open spec fn pieces(s: Seq<char>) -> Seq<Seq<char>>
    decreases s.len(),
{
    let i = bare(s, '{', Place::Outside);
    if i < 0 || i >= s.len() {
        Seq::empty()
    } else {
        let rest = s.skip(i + 1);
        seq![rest.take(bare(rest, '{', Place::Outside))] + pieces(rest)
    }
}

/// The part of a piece before its closing brace.
pub open spec fn entry_of(piece: Seq<char>) -> Seq<char> {
    piece.take(bare(piece, '}', Place::Outside))
}

/// How many digits `s` begins with.
pub open spec fn digit_run(s: Seq<char>) -> int
    decreases s.len(),
{
    if s.len() == 0 || !is_digit(s[0]) {
        0
    } else {
        1 + digit_run(s.skip(1))
    }
}

/// The digits behind the position `p` of `s`, white space passed over.
pub open spec fn digits_behind(s: Seq<char>, p: int) -> Seq<char> {
    let t = trim_left(s.skip(p));
    t.take(digit_run(t))
}

/// The channel number that an entry gives.
pub open spec fn entry_channel(e: Seq<char>) -> Option<nat> {
    match find_text(e, "\"c\":"@) {
        Some(p) => unsigned_value(digits_behind(e, p + 4), usize::MAX as nat),
        None => None,
    }
}

/// The label that an entry gives.
pub open spec fn entry_label(e: Seq<char>) -> Option<Seq<char>> {
    match find_text(e, "\"l\":\""@) {
        Some(p) => quoted(e.skip(p + 5)),
        None => None,
    }
}

/// The largest channel number among the pieces, zero if there is none.
pub open spec fn largest_channel(ps: Seq<Seq<char>>) -> nat
    decreases ps.len(),
{
    if ps.len() == 0 {
        0
    } else {
        let before = largest_channel(ps.drop_last());
        match entry_channel(entry_of(ps.last())) {
            Some(c) => if c > before {
                c
            } else {
                before
            },
            None => before,
        }
    }
}

/// The labels among the pieces, in order.
pub open spec fn labels_in(ps: Seq<Seq<char>>) -> Seq<Seq<char>>
    decreases ps.len(),
{
    if ps.len() == 0 {
        Seq::empty()
    } else {
        match entry_label(entry_of(ps.last())) {
            Some(l) => labels_in(ps.drop_last()).push(l),
            None => labels_in(ps.drop_last()),
        }
    }
}

/// What a channel list says.
pub open spec fn metadata_of(json: Seq<char>) -> MetadataView {
    let n = largest_channel(pieces(json)) as int;
    MetadataView {
        node_id: string_field(json, "id"@),
        channels: if n < MAX_CHANNELS as int {
            n
        } else {
            MAX_CHANNELS as int
        },
        labels: labels_in(pieces(json)),
    }
}

fn digit_count(s: &[char]) -> (r: usize)
    ensures
        r as int == digit_run(s@),
        r <= s@.len(),
{
    let mut i: usize = 0;
    assert(s@.skip(0) =~= s@);
    while i < s.len() && '0' <= s[i] && s[i] <= '9'
        invariant
            i <= s.len(),
            digit_run(s@) == i + digit_run(s@.skip(i as int)),
        decreases s.len() - i,
    {
        assert(s@.skip(i as int).skip(1) =~= s@.skip(i + 1));
        i = i + 1;
    }
    i
}

fn channel_in(e: &[char]) -> (r: Option<usize>)
    ensures
        r is Some <==> entry_channel(e@) is Some,
        r matches Some(c) ==> entry_channel(e@) == Some(c as nat),
{
    proof {
        reveal_strlit("\"c\":");
    }
    let needle = chars_of("\"c\":");
    match position_of(e, &needle) {
        Some(p) => {
            let tail = vstd::slice::slice_subrange(e, p + 4, e.len());
            assert(tail@ =~= e@.skip(p + 4));
            let t = trim_start_chars(tail);
            let n = digit_count(t);
            let digits = vstd::slice::slice_subrange(t, 0, n);
            assert(digits@ =~= digits_behind(e@, p + 4));
            match parse_unsigned(digits, usize::MAX as u64) {
                Some(v) => Some(v as usize),
                None => None,
            }
        },
        None => None,
    }
}

fn label_in(e: &[char]) -> (r: Option<String>)
    ensures
        optional_text(r) == entry_label(e@),
{
    proof {
        reveal_strlit("\"l\":\"");
    }
    let needle = chars_of("\"l\":\"");
    match position_of(e, &needle) {
        Some(p) => {
            let rest = vstd::slice::slice_subrange(e, p + 5, e.len());
            assert(rest@ =~= e@.skip(p + 5));
            read_quoted(rest)
        },
        None => None,
    }
}

fn bare_position(s: &[char], c: char) -> (r: usize)
    ensures
        r as int == bare(s@, c, Place::Outside),
        r <= s@.len(),
{
    let mut i: usize = 0;
    let mut at: Place = Place::Outside;
    assert(s@.skip(0) =~= s@);
    while i < s.len()
        invariant
            i <= s.len(),
            bare(s@, c, Place::Outside) == i + bare(s@.skip(i as int), c, at),
        decreases s.len() - i,
    {
        let d: char = s[i];
        assert(s@.skip(i as int)[0] == d);
        if at == Place::Outside && d == c {
            return i;
        }
        assert(s@.skip(i as int).skip(1) =~= s@.skip(i + 1));
        at = at.next(d);
        i = i + 1;
    }
    i
}

/// Reads a channel list.
pub fn parse_channel_metadata(json: &str) -> (r: RemoteMetadata)
    ensures
        r@ == metadata_of(json@),
{
    let s = chars_of(json);
    let mut max_channel: usize = 0;
    let mut labels: Vec<String> = Vec::new();
    let ghost mut seen: Seq<Seq<char>> = Seq::empty();
    let mut i: usize = 0;
    proof {
        assert(s@.skip(0) =~= s@);
        assert(seen + pieces(s@) =~= pieces(s@));
        assert(texts(labels@) =~= labels_in(seen));
    }
    loop
        invariant
            s@ == json@,
            i <= s.len(),
            seen + pieces(s@.skip(i as int)) == pieces(s@),
            max_channel == largest_channel(seen),
            texts(labels@) == labels_in(seen),
        ensures
            seen == pieces(s@),
        decreases s.len() - i,
    {
        let tail = vstd::slice::slice_subrange(&s, i, s.len());
        assert(tail@ =~= s@.skip(i as int));
        let open = bare_position(tail, '{');
        if open == tail.len() {
            assert(seen + Seq::<Seq<char>>::empty() =~= seen);
            break;
        }
        let rest = vstd::slice::slice_subrange(tail, open + 1, tail.len());
        assert(rest@ =~= tail@.skip(open + 1));
        let next = bare_position(rest, '{');
        let piece = vstd::slice::slice_subrange(rest, 0, next);
        assert(piece@ =~= rest@.take(next as int));
        let close = bare_position(piece, '}');
        let entry = vstd::slice::slice_subrange(piece, 0, close);
        assert(entry@ =~= entry_of(piece@));
        let ghost now = seen.push(piece@);
        assert(now.drop_last() =~= seen);
        if let Some(c) = channel_in(entry) {
            if c > max_channel {
                max_channel = c;
            }
        }
        let ghost old_labels = labels@;
        match label_in(entry) {
            Some(l) => {
                labels.push(l);
                assert(texts(labels@) =~= texts(old_labels).push(l@));
            },
            None => {},
        }
        i = i + open + 1;
        proof {
            assert(rest@ =~= s@.skip(i as int));
            assert(seen + (seq![piece@] + pieces(rest@)) =~= now + pieces(rest@));
            seen = now;
        }
    }
    let channels: usize = if max_channel < MAX_CHANNELS {
        max_channel
    } else {
        MAX_CHANNELS
    };
    RemoteMetadata { node_id: parse_json_string_field(json, "id"), channels, labels }
}

// ---------------------------------------------------------------------------------------------
// Laws

/// How a character stands inside a JSON string: quotes and backslashes behind a backslash, the new line,
/// the carriage return and the tabulator by a letter behind one, other control characters by four
/// hexadecimal digits, and every other character as it is.
pub proof fn law_escapes(s: Seq<char>, c: char)
    ensures
        escaped(Seq::empty()).len() == 0,
        c == '"' || c == '\\' ==> escaped(s.push(c)) == escaped(s) + seq!['\\', c],
        c == '\n' ==> escaped(s.push(c)) == escaped(s) + seq!['\\', 'n'],
        c == '\r' ==> escaped(s.push(c)) == escaped(s) + seq!['\\', 'r'],
        c == '\t' ==> escaped(s.push(c)) == escaped(s) + seq!['\\', 't'],
        (c as int) < 32 && c != '\n' && c != '\r' && c != '\t' || 127 <= c as int <= 159 ==> escaped(
            s.push(c),
        ) == escaped(s) + seq!['\\', 'u', '0', '0', hex_char(c as int / 16), hex_char(c as int % 16)],
        32 <= c as int && !(127 <= c as int <= 159) && c != '"' && c != '\\' ==> escaped(s.push(c))
            == escaped(s).push(c),
{
    assert(s.push(c).drop_last() =~= s);
    assert(s.push(c).last() == c);
    lemma_char_code(c);
    assert(escaped(s) + seq![c] =~= escaped(s).push(c));
}

/// A hexadecimal digit for each number below sixteen.
pub proof fn law_hex_chars(d: int)
    ensures
        0 <= d < 10 ==> hex_char(d) as int == 48 + d,
        10 <= d < 16 ==> hex_char(d) as int == 87 + d,
{
}

/// A text without quotes, backslashes and control characters is not changed.
pub proof fn law_plain_text_is_not_escaped(s: Seq<char>)
    requires
        forall|k: int|
            0 <= k < s.len() ==> #[trigger] s[k] != '"' && s[k] != '\\' && s[k] as int >= 32 && !(127
                <= s[k] as int <= 159),
    ensures
        escaped(s) == s,
    decreases s.len(),
{
    if s.len() > 0 {
        let front = s.drop_last();
        assert forall|k: int| 0 <= k < front.len() implies #[trigger] front[k] != '"' && front[k] != '\\'
            && front[k] as int >= 32 && !(127 <= front[k] as int <= 159) by {
            assert(front[k] == s[k]);
        }
        law_plain_text_is_not_escaped(front);
        assert(s[s.len() - 1] as int >= 32);
        law_escapes(front, s.last());
        assert(front.push(s.last()) =~= s);
    }
}

/// How the channels are announced: a JSON array with an object for each, which holds the number of the
/// channel, counted from one, and its label.
pub proof fn law_channel_list(labels: Seq<Seq<char>>, n: int)
    requires
        1 <= n,
    ensures
        channel_list(labels, 0) == seq!['[', ']'],
        channel_list(labels, 1) == "["@ + ("{\"c\":"@ + decimal(1) + ",\"l\":\""@ + escaped(
            label_or_default(labels, 0),
        ) + "\"}"@) + "]"@,
        channel_list(labels, n + 1) == channel_list(labels, n).drop_last() + ","@ + ("{\"c\":"@ + decimal(
            (n + 1) as nat,
        ) + ",\"l\":\""@ + escaped(label_or_default(labels, n)) + "\"}"@) + "]"@,
{
    reveal_strlit("[");
    reveal_strlit("]");
    reveal_with_fuel(entries_text, 2);
    assert("["@ + Seq::<char>::empty() + "]"@ =~= seq!['[', ']']);
    assert(channel_list(labels, n).drop_last() =~= "["@ + entries_text(labels, n));
    assert(channel_list(labels, n + 1) =~= "["@ + entries_text(labels, n) + ","@ + entry_text(
        n,
        label_or_default(labels, n),
    ) + "]"@);
}

/// A channel is named by its label, or by its number where it has none.
pub proof fn law_labels_of_channels(labels: Seq<Seq<char>>, ch: int)
    requires
        0 <= ch,
    ensures
        ch < labels.len() ==> label_or_default(labels, ch) == labels[ch],
        ch >= labels.len() ==> label_or_default(labels, ch) == "Ch "@ + decimal((ch + 1) as nat),
        channel_label(ch) == "Ch "@ + decimal((ch + 1) as nat),
{
}

/// How a string is read: up to the first quote, characters as they stand, and behind a backslash a
/// letter for the new line, the carriage return and the tabulator, a code of four digits behind `u`, and
/// any other character for itself. One that does not end is none.
pub proof fn law_strings_are_read(rest: Seq<char>, c: char)
    ensures
        quoted(Seq::empty()) is None,
        quoted(seq!['"'] + rest) == Some(Seq::<char>::empty()),
        c != '"' && c != '\\' ==> quoted(seq![c] + rest) == (match quoted(rest) {
            Some(t) => Some(seq![c] + t),
            None => None,
        }),
        c != 'u' ==> quoted(seq!['\\', c] + rest) == (match quoted(rest) {
            Some(t) => Some(
                seq![
                    if c == 'n' {
                        '\n'
                    } else if c == 'r' {
                        '\r'
                    } else if c == 't' {
                        '\t'
                    } else {
                        c
                    },
                ] + t,
            ),
            None => None,
        }),
{
    assert((seq![c] + rest).skip(1) =~= rest);
    let s = seq!['\\', c] + rest;
    assert(s[0] == '\\' && s[1] == c);
    assert(s.skip(2) =~= rest);
}

/// A character by its code: four hexadecimal digits behind a backslash and `u`.
pub proof fn law_codes_are_read(a: char, b: char, c: char, d: char, rest: Seq<char>)
    requires
        is_hex_digit(a),
        is_hex_digit(b),
        is_hex_digit(c),
        is_hex_digit(d),
        is_char_code(
            hex_value(a) * 4096 + hex_value(b) * 256 + hex_value(c) * 16 + hex_value(d),
        ),
    ensures
        quoted(seq!['\\', 'u', a, b, c, d] + rest) == (match quoted(rest) {
            Some(t) => Some(
                seq![
                    (hex_value(a) * 4096 + hex_value(b) * 256 + hex_value(c) * 16 + hex_value(
                        d,
                    )) as char,
                ] + t,
            ),
            None => None,
        }),
{
    let s = seq!['\\', 'u', a, b, c, d] + rest;
    assert(s[0] == '\\' && s[1] == 'u');
    let digits = s.skip(2);
    assert(digits[0] == a && digits[1] == b && digits[2] == c && digits[3] == d);
    assert(s.skip(6) =~= rest);
}

/// A string is found in JSON by the name of its field, where that stands first.
pub proof fn law_field_is_found(
    json: Seq<char>,
    before: Seq<char>,
    opening: Seq<char>,
    field: Seq<char>,
    text: Seq<char>,
    behind: Seq<char>,
)
    requires
        opening == seq!['"'] + field + seq!['"', ':', '"'],
        json == before + opening + text + seq!['"'] + behind,
        forall|k: int| 0 <= k < text.len() ==> #[trigger] text[k] != '"' && text[k] != '\\',
        forall|p: int| 0 <= p < before.len() ==> !#[trigger] occurs_at(json, opening, p),
    ensures
        string_field(json, field) == Some(text),
{
    reveal_strlit("\"");
    reveal_strlit("\":\"");
    assert(field_opening(field) =~= opening);
    let at = before.len() as int;
    assert forall|k: int| 0 <= k < opening.len() implies json[at + k] == #[trigger] opening[k] by {}
    law_found_is_first(json, opening, at);
    let p = find_text(json, opening)->0;
    assert(json.subrange(p, p + opening.len()) =~= opening);
    assert(occurs_at(json, opening, p));
    assert(p == at);
    assert(json.skip(at + opening.len()) =~= text + seq!['"'] + behind);
    lemma_plain_is_read(text, behind);
}

proof fn lemma_plain_is_read(text: Seq<char>, behind: Seq<char>)
    requires
        forall|k: int|
            0 <= k < text.len() ==> #[trigger] text[k] != '"' && text[k] != '\\',
    ensures
        quoted(text + seq!['"'] + behind) == Some(text),
    decreases text.len(),
{
    let s = text + seq!['"'] + behind;
    if text.len() == 0 {
        assert(s =~= seq!['"'] + behind);
        law_strings_are_read(behind, '"');
        assert(text =~= Seq::<char>::empty());
    } else {
        let t = text.skip(1);
        assert forall|k: int| 0 <= k < t.len() implies #[trigger] t[k] != '"' && t[k] != '\\' by {
            assert(t[k] == text[k + 1]);
        }
        lemma_plain_is_read(t, behind);
        assert(s =~= seq![text[0]] + (t + seq!['"'] + behind));
        law_strings_are_read(t + seq!['"'] + behind, text[0]);
        assert(seq![text[0]] + t =~= text);
    }
}

/// The number of channels that is read is the largest that any entry names, up to 64, and the labels are
/// those of the entries that have one.
pub proof fn law_channels_that_are_read(json: Seq<char>, i: int)
    requires
        0 <= i < pieces(json).len(),
    ensures
        entry_channel(entry_of(pieces(json)[i])) matches Some(c) ==> metadata_of(json).channels >= if c
            <= 64 {
            c as int
        } else {
            64
        },
        metadata_of(json).channels <= 64,
        entry_label(entry_of(pieces(json)[i])) matches Some(l) ==> metadata_of(json).labels.contains(
            l,
        ),
{
    lemma_largest(pieces(json), i);
}

proof fn lemma_largest(ps: Seq<Seq<char>>, i: int)
    requires
        0 <= i < ps.len(),
    ensures
        entry_channel(entry_of(ps[i])) matches Some(c) ==> largest_channel(ps) >= c,
        entry_label(entry_of(ps[i])) matches Some(l) ==> labels_in(ps).contains(l),
    decreases ps.len(),
{
    let front = ps.drop_last();
    if i < front.len() {
        assert(front[i] == ps[i]);
        lemma_largest(front, i);
        if let Some(l) = entry_label(entry_of(ps[i])) {
            let k = choose|k: int| 0 <= k < labels_in(front).len() && labels_in(front)[k] == l;
            assert(labels_in(ps)[k] == l);
        }
    } else if let Some(l) = entry_label(entry_of(ps[i])) {
        assert(labels_in(ps)[labels_in(front).len() as int] == l);
    }
}

} // verus!
