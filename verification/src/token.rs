//! The sixteen-byte tokens by which the two ends of a link know each other.
//!
//! A token is derived from names and a password; none of these is ever sent.

use crate::metadata::{hex_char, hex_digit};
use crate::text::{
    chars_of, comes_first, lemma_char_code, lemma_text_le_antisymmetric, lemma_text_le_total,
    text_le,
};
use crate::wire::be64;
use vstd::prelude::*;
use vstd::utf8::encode_utf8;

verus! {

/// One step of the first hash.
pub open spec fn hash_step(state: u64, byte: u64) -> u64 {
    (state ^ byte).wrapping_mul(0x0000_0100_0000_01b3)
}

/// The first hash of `bytes`.
pub open spec fn hash_a(bytes: Seq<u8>) -> u64
    decreases bytes.len(),
{
    if bytes.len() == 0 {
        0xcbf2_9ce4_8422_2325
    } else {
        hash_step(hash_a(bytes.drop_last()), bytes.last() as u64)
    }
}

/// The second hash of `bytes`: it starts elsewhere and takes each byte doubled.
pub open spec fn hash_b(bytes: Seq<u8>) -> u64
    decreases bytes.len(),
{
    if bytes.len() == 0 {
        0x8422_2325_cbf2_9ce4
    } else {
        hash_step(hash_b(bytes.drop_last()), (bytes.last() * 2) as u64)
    }
}

/// The token of a text.
pub open spec fn text_token(text: Seq<char>) -> Seq<u8> {
    be64(hash_a(encode_utf8(text))) + be64(hash_b(encode_utf8(text)))
}

fn token_of_halves(a: u64, b: u64) -> (r: [u8; 16])
    ensures
        r@ == be64(a) + be64(b),
{
    let mut bytes: Vec<u8> = Vec::new();
    crate::wire::put_be64(&mut bytes, a);
    crate::wire::put_be64(&mut bytes, b);
    let mut out: [u8; 16] = [0u8; 16];
    for i in 0..16usize
        invariant
            bytes@ == be64(a) + be64(b),
            forall|j: int| 0 <= j < i ==> out@[j] == bytes@[j],
    {
        out[i] = bytes[i];
    }
    assert(out@ =~= be64(a) + be64(b));
    out
}

/// The token of a text.
pub fn derive_token_from_text(text: &str) -> (r: [u8; 16])
    ensures
        r@ == text_token(text@),
{
    let bytes = text.as_bytes();
    let mut a: u64 = 0xcbf2_9ce4_8422_2325;
    let mut b: u64 = 0x8422_2325_cbf2_9ce4;
    for i in 0..bytes.len()
        invariant
            bytes@ == encode_utf8(text@),
            a == hash_a(bytes@.take(i as int)),
            b == hash_b(bytes@.take(i as int)),
    {
        let byte: u64 = bytes[i] as u64;
        proof {
            assert(bytes@.take(i + 1).drop_last() =~= bytes@.take(i as int));
            assert(bytes@.take(i + 1).last() == bytes@[i as int]);
        }
        a = (a ^ byte).wrapping_mul(0x0000_0100_0000_01b3);
        b = (b ^ (byte * 2)).wrapping_mul(0x0000_0100_0000_01b3);
    }
    assert(bytes@.take(bytes@.len() as int) =~= bytes@);
    token_of_halves(a, b)
}

/// The text that the token of a link is derived from: the two names, the smaller first, and the
/// password, if there is one.
pub open spec fn link_text(
    my_name: Seq<char>,
    remote_name: Seq<char>,
    password: Option<Seq<char>>,
) -> Seq<char> {
    let names = if text_le(my_name, remote_name) {
        my_name + ":"@ + remote_name
    } else {
        remote_name + ":"@ + my_name
    };
    match password {
        Some(p) => if p.len() > 0 {
            names + ":"@ + p
        } else {
            names
        },
        None => names,
    }
}

/// The token of a link.
pub open spec fn link_token(
    my_name: Seq<char>,
    remote_name: Seq<char>,
    password: Option<Seq<char>>,
) -> Seq<u8> {
    text_token(link_text(my_name, remote_name, password))
}

/// The token of the link between two names. An empty password counts as none.
pub fn derive_link_token(my_name: &str, remote_name: &str, password: Option<&str>) -> (r: [u8; 16])
    ensures
        r@ == link_token(
            my_name@,
            remote_name@,
            match password {
                Some(p) => Some(p@),
                None => None,
            },
        ),
{
    let mut text = String::new();
    if comes_first(my_name, remote_name) {
        text.append(my_name);
        text.append(":");
        text.append(remote_name);
        assert(text@ =~= my_name@ + ":"@ + remote_name@);
    } else {
        text.append(remote_name);
        text.append(":");
        text.append(my_name);
        assert(text@ =~= remote_name@ + ":"@ + my_name@);
    }
    match password {
        Some(p) => if !p.is_empty() {
            text.append(":");
            text.append(p);
        },
        None => {},
    }
    derive_token_from_text(text.as_str())
}

/// Both ends of a link derive the same token, whichever name is their own.
pub proof fn law_link_token_symmetric(
    a: Seq<char>,
    b: Seq<char>,
    password: Option<Seq<char>>,
)
    ensures
        link_token(a, b, password) == link_token(b, a, password),
{
    lemma_text_le_total(a, b);
    if text_le(a, b) && text_le(b, a) {
        lemma_text_le_antisymmetric(a, b);
    }
}

/// Every token has sixteen bytes.
pub proof fn law_token_length(text: Seq<char>)
    ensures
        text_token(text).len() == 16,
{
    crate::wire::lemma_be64_roundtrip(hash_a(encode_utf8(text)));
    crate::wire::lemma_be64_roundtrip(hash_b(encode_utf8(text)));
}

// ---------------------------------------------------------------------------------------------
// Hexadecimal

/// The bytes in hexadecimal, two digits each.
pub open spec fn hex_text(bytes: Seq<u8>) -> Seq<char> {
    Seq::new(
        bytes.len() * 2,
        |i: int|
            if i % 2 == 0 {
                hex_char(bytes[i / 2] as int / 16)
            } else {
                hex_char(bytes[i / 2] as int % 16)
            },
    )
}

/// Whether `c` is a hexadecimal digit, of either case.
pub open spec fn is_hex_digit(c: char) -> bool {
    '0' <= c <= '9' || 'a' <= c <= 'f' || 'A' <= c <= 'F'
}

/// The value of a hexadecimal digit.
pub open spec fn hex_value(c: char) -> int {
    if '0' <= c <= '9' {
        c as int - 48
    } else if 'a' <= c <= 'f' {
        c as int - 87
    } else {
        c as int - 55
    }
}

/// `s` without its hyphens.
pub open spec fn without_hyphens(s: Seq<char>) -> Seq<char> {
    s.filter(|c: char| c != '-')
}

/// Whether `s` writes a token in hexadecimal: thirty-two digits.
pub open spec fn is_hex_token(s: Seq<char>) -> bool {
    s.len() == 32 && forall|i: int| 0 <= i < s.len() ==> is_hex_digit(#[trigger] s[i])
}

/// The bytes that hexadecimal digits write, two for each byte.
pub open spec fn hex_bytes(s: Seq<char>) -> Seq<u8> {
    Seq::new(s.len() / 2, |i: int| (hex_value(s[2 * i]) * 16 + hex_value(s[2 * i + 1])) as u8)
}

/// The token that an operator means by `value`: the digits where it is a token in hexadecimal,
/// hyphens passed over, and the token of the text otherwise.
pub open spec fn token_of_arg(value: Seq<char>) -> Seq<u8> {
    if is_hex_token(without_hyphens(value)) {
        hex_bytes(without_hyphens(value))
    } else {
        text_token(value)
    }
}

/// Why a text is no token. No text is refused: what is not hexadecimal is taken as a text.
#[derive(Debug, PartialEq, Eq)]
pub enum TokenError {
    InvalidDigit,
}

/// The value of a hexadecimal digit, of either case.
pub fn digit_value(c: char) -> (r: Option<u8>)
    ensures
        r is Some <==> is_hex_digit(c),
        r matches Some(v) ==> v == hex_value(c) && v < 16,
{
    proof {
        lemma_char_code(c);
    }
    let u: u32 = c as u32;
    if '0' <= c && c <= '9' {
        Some((u - 48) as u8)
    } else if 'a' <= c && c <= 'f' {
        Some((u - 87) as u8)
    } else if 'A' <= c && c <= 'F' {
        Some((u - 55) as u8)
    } else {
        None
    }
}

fn drop_hyphens(s: &[char]) -> (r: Vec<char>)
    ensures
        r@ == without_hyphens(s@),
{
    let mut out: Vec<char> = Vec::new();
    let ghost keep = |c: char| c != '-';
    proof {
        reveal(Seq::filter);
    }
    for i in 0..s.len()
        invariant
            out@ == s@.take(i as int).filter(keep),
            keep == (|c: char| c != '-'),
    {
        proof {
            reveal(Seq::filter);
            assert(s@.take(i + 1).drop_last() =~= s@.take(i as int));
            assert(s@.take(i + 1).last() == s@[i as int]);
        }
        if s[i] != '-' {
            out.push(s[i]);
        }
    }
    assert(s@.take(s@.len() as int) =~= s@);
    out
}

/// The token that an operator means by `value`.
pub fn parse_token_arg(value: &str) -> (r: Result<[u8; 16], TokenError>)
    ensures
        r is Ok,
        r matches Ok(t) ==> t@ == token_of_arg(value@),
{
    let all = chars_of(value);
    let cleaned = drop_hyphens(&all);
    if cleaned.len() != 32 {
        return Ok(derive_token_from_text(value));
    }
    let mut out: [u8; 16] = [0u8; 16];
    for i in 0..16usize
        invariant
            cleaned@ == without_hyphens(value@),
            cleaned@.len() == 32,
            forall|j: int| 0 <= j < 2 * i ==> is_hex_digit(#[trigger] cleaned@[j]),
            forall|j: int| 0 <= j < i ==> out@[j] == #[trigger] hex_bytes(cleaned@)[j],
    {
        match (digit_value(cleaned[2 * i]), digit_value(cleaned[2 * i + 1])) {
            (Some(hi), Some(lo)) => {
                out[i] = hi * 16 + lo;
            },
            _ => {
                return Ok(derive_token_from_text(value));
            },
        }
    }
    assert(out@ =~= hex_bytes(cleaned@));
    Ok(out)
}

/// The token in hexadecimal.
pub fn token_to_hex(token: &[u8; 16]) -> (r: String)
    ensures
        r@ == hex_text(token@),
{
    let mut out = String::new();
    for i in 0..16usize
        invariant
            out@ == hex_text(token@.take(i as int)),
    {
        let ghost before = out@;
        let b: u8 = token[i];
        out.push(hex_digit(b / 16));
        out.push(hex_digit(b % 16));
        proof {
            let now = token@.take(i + 1);
            assert(now.take(i as int) =~= token@.take(i as int));
            assert forall|k: int| 0 <= k < 2 * (i + 1) implies out@[k] == hex_text(now)[k] by {
                if k < 2 * i {
                    assert(out@[k] == before[k]);
                    assert(token@.take(i as int)[k / 2] == now[k / 2]);
                } else {
                    assert(k / 2 == i);
                    assert(now[k / 2] == b);
                }
            }
            assert(out@ =~= hex_text(now));
        }
    }
    assert(token@.take(16) =~= token@);
    out
}

/// A text without hyphens is left as it is by taking the hyphens out.
proof fn lemma_no_hyphens(s: Seq<char>)
    requires
        forall|i: int| 0 <= i < s.len() ==> s[i] != '-',
    ensures
        without_hyphens(s) == s,
    decreases s.len(),
{
    reveal(Seq::filter);
    if s.len() > 0 {
        lemma_no_hyphens(s.drop_last());
        assert(s =~= s.drop_last().push(s.last()));
    }
}

/// A token that was written in hexadecimal is read back as it was.
pub proof fn law_token_hex_roundtrip(token: Seq<u8>)
    requires
        token.len() == 16,
    ensures
        token_of_arg(hex_text(token)) == token,
{
    let h = hex_text(token);
    assert forall|i: int| 0 <= i < h.len() implies is_hex_digit(#[trigger] h[i]) && h[i] != '-' by {
        let b = token[i / 2];
        assert(0 <= b as int / 16 < 16);
    }
    lemma_no_hyphens(h);
    assert forall|i: int| 0 <= i < 16 implies hex_bytes(h)[i] == token[i] by {
        let b = token[i];
        assert((2 * i) / 2 == i && (2 * i) % 2 == 0);
        assert((2 * i + 1) / 2 == i && (2 * i + 1) % 2 == 1);
        assert(hex_value(h[2 * i]) == b as int / 16);
        assert(hex_value(h[2 * i + 1]) == b as int % 16);
    }
    assert(hex_bytes(h) =~= token);
}

// ---------------------------------------------------------------------------------------------
// Laws

/// The two halves of a token each start from a number of their own and take the bytes in one by one:
/// the number so far is combined with the byte (in the second half with twice the byte), multiplied by
/// the prime of the hash, and taken modulo two to the power of 64.
pub proof fn law_hash_takes_bytes_in(bytes: Seq<u8>, b: u8)
    ensures
        hash_a(Seq::empty()) == 14_695_981_039_346_656_037,
        hash_b(Seq::empty()) == 9_521_211_207_457_086_692,
        hash_a(bytes.push(b)) == ((hash_a(bytes) ^ (b as u64)) * 1_099_511_628_211)
            % 0x1_0000_0000_0000_0000,
        hash_b(bytes.push(b)) == ((hash_b(bytes) ^ ((b * 2) as u64)) * 1_099_511_628_211)
            % 0x1_0000_0000_0000_0000,
{
    assert(bytes.push(b).drop_last() =~= bytes);
}

/// The token of a text is the two halves, each most significant byte first.
pub proof fn law_token_is_two_halves(text: Seq<char>)
    ensures
        text_token(text).take(8) == be64(hash_a(encode_utf8(text))),
        text_token(text).skip(8) == be64(hash_b(encode_utf8(text))),
{
    crate::wire::lemma_be64_roundtrip(hash_a(encode_utf8(text)));
    crate::wire::lemma_be64_roundtrip(hash_b(encode_utf8(text)));
    assert(text_token(text).take(8) =~= be64(hash_a(encode_utf8(text))));
    assert(text_token(text).skip(8) =~= be64(hash_b(encode_utf8(text))));
}

/// A link is named by the names of its ends, the one that comes first in a dictionary first, with a
/// colon between them, and behind another colon by the password, if there is one.
pub proof fn law_link_is_named(a: Seq<char>, b: Seq<char>, password: Seq<char>)
    requires
        text_le(a, b),
    ensures
        link_text(a, b, None) == a + seq![':'] + b,
        link_text(b, a, None) == a + seq![':'] + b,
        link_text(a, b, Some(Seq::empty())) == a + seq![':'] + b,
        password.len() > 0 ==> link_text(a, b, Some(password)) == a + seq![':'] + b + seq![':']
            + password,
        password.len() > 0 ==> link_text(b, a, Some(password)) == a + seq![':'] + b + seq![':']
            + password,
        link_token(a, b, Some(password)) == text_token(link_text(a, b, Some(password))),
{
    reveal_strlit(":");
    assert(":"@ =~= seq![':']);
    if text_le(b, a) {
        lemma_text_le_antisymmetric(a, b);
    }
}

/// A token is shown as two digits for each byte, the higher one first, small letters for ten to fifteen.
pub proof fn law_hex_digits(bytes: Seq<u8>, i: int)
    requires
        0 <= i < bytes.len(),
    ensures
        hex_text(bytes).len() == 2 * bytes.len(),
        ({
            let hi = bytes[i] as int / 16;
            let lo = bytes[i] as int % 16;
            &&& hex_text(bytes)[2 * i] as int == if hi < 10 {
                48 + hi
            } else {
                87 + hi
            }
            &&& hex_text(bytes)[2 * i + 1] as int == if lo < 10 {
                48 + lo
            } else {
                87 + lo
            }
        }),
{
    assert((2 * i) % 2 == 0 && (2 * i) / 2 == i);
    assert((2 * i + 1) % 2 == 1 && (2 * i + 1) / 2 == i);
}

/// Hyphens are left out of what is read as digits, and nothing else is.
pub proof fn law_hyphens_are_left_out(s: Seq<char>, c: char)
    ensures
        without_hyphens(Seq::empty()).len() == 0,
        without_hyphens(s.push('-')) == without_hyphens(s),
        c != '-' ==> without_hyphens(s.push(c)) == without_hyphens(s).push(c),
{
    let keep = |c: char| c != '-';
    assert(s.push('-').drop_last() =~= s);
    assert(s.push(c).drop_last() =~= s);
    reveal(Seq::filter);
    reveal_with_fuel(Seq::filter, 2);
}

/// What is given as a token is its 32 digits where that is what is left without hyphens, capital letters
/// or small, and otherwise the text that the token is made of.
pub proof fn law_token_argument(value: Seq<char>, i: int)
    requires
        0 <= i < 16,
    ensures
        ({
            let d = without_hyphens(value);
            let digits = d.len() == 32 && forall|k: int|
                0 <= k < 32 ==> ('0' <= #[trigger] d[k] <= '9' || 'a' <= d[k] <= 'f' || 'A' <= d[k]
                    <= 'F');
            &&& !digits ==> token_of_arg(value) == text_token(value)
            &&& digits ==> token_of_arg(value).len() == 16 && token_of_arg(value)[i] == 16 * (if d[2
                * i] <= '9' {
                d[2 * i] as int - 48
            } else if d[2 * i] <= 'F' {
                d[2 * i] as int - 55
            } else {
                d[2 * i] as int - 87
            }) + (if d[2 * i + 1] <= '9' {
                d[2 * i + 1] as int - 48
            } else if d[2 * i + 1] <= 'F' {
                d[2 * i + 1] as int - 55
            } else {
                d[2 * i + 1] as int - 87
            })
        }),
{
    let d = without_hyphens(value);
    if d.len() == 32 && forall|k: int|
        0 <= k < 32 ==> ('0' <= #[trigger] d[k] <= '9' || 'a' <= d[k] <= 'f' || 'A' <= d[k] <= 'F') {
        assert(is_hex_token(d));
        assert('0' <= d[2 * i] <= '9' || 'a' <= d[2 * i] <= 'f' || 'A' <= d[2 * i] <= 'F');
        assert('0' <= d[2 * i + 1] <= '9' || 'a' <= d[2 * i + 1] <= 'f' || 'A' <= d[2 * i + 1] <= 'F');
    } else if is_hex_token(d) {
        assert forall|k: int| 0 <= k < 32 implies ('0' <= #[trigger] d[k] <= '9' || 'a' <= d[k] <= 'f'
            || 'A' <= d[k] <= 'F') by {
            assert(is_hex_digit(d[k]));
        }
    }
}

} // verus!
