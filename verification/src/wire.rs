//! Numbers in network byte order.

use vstd::prelude::*;

verus! {

/// The two bytes of `x`, most significant first.
pub open spec fn be16(x: u16) -> Seq<u8> {
    seq![(x / 256) as u8, (x % 256) as u8]
}

/// The four bytes of `x`, most significant first.
pub open spec fn be32(x: u32) -> Seq<u8> {
    be16((x / 0x1_0000) as u16) + be16((x % 0x1_0000) as u16)
}

/// The eight bytes of `x`, most significant first.
pub open spec fn be64(x: u64) -> Seq<u8> {
    be32((x / 0x1_0000_0000) as u32) + be32((x % 0x1_0000_0000) as u32)
}

/// The number that two bytes write, most significant first.
pub open spec fn be16_value(b: Seq<u8>) -> u16 {
    (b[0] * 256 + b[1]) as u16
}

/// The number that four bytes write, most significant first.
pub open spec fn be32_value(b: Seq<u8>) -> u32 {
    (be16_value(b.take(2)) * 0x1_0000 + be16_value(b.skip(2))) as u32
}

/// The number that eight bytes write, most significant first.
pub open spec fn be64_value(b: Seq<u8>) -> u64 {
    (be32_value(b.take(4)) * 0x1_0000_0000 + be32_value(b.skip(4))) as u64
}

/// Reading two bytes gives the number that was written.
pub proof fn lemma_be16_roundtrip(x: u16)
    ensures
        be16(x).len() == 2,
        be16_value(be16(x)) == x,
{
}

/// Reading four bytes gives the number that was written.
pub proof fn lemma_be32_roundtrip(x: u32)
    ensures
        be32(x).len() == 4,
        be32_value(be32(x)) == x,
{
    let hi = (x / 0x1_0000) as u16;
    let lo = (x % 0x1_0000) as u16;
    lemma_be16_roundtrip(hi);
    lemma_be16_roundtrip(lo);
    assert(be32(x).take(2) =~= be16(hi));
    assert(be32(x).skip(2) =~= be16(lo));
}

/// Reading eight bytes gives the number that was written.
pub proof fn lemma_be64_roundtrip(x: u64)
    ensures
        be64(x).len() == 8,
        be64_value(be64(x)) == x,
{
    let hi = (x / 0x1_0000_0000) as u32;
    let lo = (x % 0x1_0000_0000) as u32;
    lemma_be32_roundtrip(hi);
    lemma_be32_roundtrip(lo);
    assert(be64(x).take(4) =~= be32(hi));
    assert(be64(x).skip(4) =~= be32(lo));
}

/// Appends `bytes` to `out`.
pub fn put_bytes(out: &mut Vec<u8>, bytes: &[u8])
    ensures
        final(out)@ == old(out)@ + bytes@,
{
    out.extend_from_slice(bytes);
    assert(out@ =~= old(out)@ + bytes@);
}

/// Appends `x` to `out`, most significant byte first.
pub fn put_be16(out: &mut Vec<u8>, x: u16)
    ensures
        final(out)@ == old(out)@ + be16(x),
{
    out.push((x / 256) as u8);
    out.push((x % 256) as u8);
    assert(out@ =~= old(out)@ + be16(x));
}

/// Appends `x` to `out`, most significant byte first.
pub fn put_be32(out: &mut Vec<u8>, x: u32)
    ensures
        final(out)@ == old(out)@ + be32(x),
{
    put_be16(out, (x / 0x1_0000) as u16);
    put_be16(out, (x % 0x1_0000) as u16);
    assert(out@ =~= old(out)@ + be32(x));
}

/// Appends `x` to `out`, most significant byte first.
pub fn put_be64(out: &mut Vec<u8>, x: u64)
    ensures
        final(out)@ == old(out)@ + be64(x),
{
    put_be32(out, (x / 0x1_0000_0000) as u32);
    put_be32(out, (x % 0x1_0000_0000) as u32);
    assert(out@ =~= old(out)@ + be64(x));
}

/// The number in the two bytes of `data` at `at`.
pub fn get_be16(data: &[u8], at: usize) -> (r: u16)
    requires
        at + 2 <= data.len(),
    ensures
        r == be16_value(data@.subrange(at as int, at + 2)),
{
    data[at] as u16 * 256 + data[at + 1] as u16
}

/// The number in the four bytes of `data` at `at`.
pub fn get_be32(data: &[u8], at: usize) -> (r: u32)
    requires
        at + 4 <= data.len(),
    ensures
        r == be32_value(data@.subrange(at as int, at + 4)),
{
    let hi: u16 = get_be16(data, at);
    let lo: u16 = get_be16(data, at + 2);
    proof {
        let b = data@.subrange(at as int, at + 4);
        assert(b.take(2) =~= data@.subrange(at as int, at + 2));
        assert(b.skip(2) =~= data@.subrange(at + 2, at + 4));
    }
    hi as u32 * 0x1_0000 + lo as u32
}

/// The number in the eight bytes of `data` at `at`.
pub fn get_be64(data: &[u8], at: usize) -> (r: u64)
    requires
        at + 8 <= data.len(),
    ensures
        r == be64_value(data@.subrange(at as int, at + 8)),
{
    let hi: u32 = get_be32(data, at);
    let lo: u32 = get_be32(data, at + 4);
    proof {
        let b = data@.subrange(at as int, at + 8);
        assert(b.take(4) =~= data@.subrange(at as int, at + 4));
        assert(b.skip(4) =~= data@.subrange(at + 4, at + 8));
    }
    hi as u64 * 0x1_0000_0000 + lo as u64
}

// ---------------------------------------------------------------------------------------------
// Laws

/// Numbers are written with the most significant byte first.
pub proof fn law_most_significant_byte_first(x: u16, y: u32, z: u64)
    ensures
        be16(x).len() == 2,
        be16(x)[0] * 0x100 + be16(x)[1] == x,
        be32(y).len() == 4,
        be32(y)[0] * 0x100_0000 + be32(y)[1] * 0x1_0000 + be32(y)[2] * 0x100 + be32(y)[3] == y,
        be64(z).len() == 8,
        be64(z)[0] * 0x100_0000_0000_0000 + be64(z)[1] * 0x1_0000_0000_0000 + be64(z)[2]
            * 0x100_0000_0000 + be64(z)[3] * 0x1_0000_0000 + be64(z)[4] * 0x100_0000 + be64(z)[5]
            * 0x1_0000 + be64(z)[6] * 0x100 + be64(z)[7] == z,
{
    lemma_two_and_four_bytes(x, y);
    let hi = (z / 0x1_0000_0000) as u32;
    let lo = (z % 0x1_0000_0000) as u32;
    lemma_two_and_four_bytes(x, hi);
    lemma_two_and_four_bytes(x, lo);
    assert(be64(z) =~= be32(hi) + be32(lo));
    assert(hi * 0x1_0000_0000 + lo == z);
}

proof fn lemma_two_and_four_bytes(x: u16, y: u32)
    ensures
        be16(x).len() == 2,
        be16(x)[0] * 0x100 + be16(x)[1] == x,
        be32(y).len() == 4,
        be32(y)[0] * 0x100_0000 + be32(y)[1] * 0x1_0000 + be32(y)[2] * 0x100 + be32(y)[3] == y,
{
    let hi = (y / 0x1_0000) as u16;
    let lo = (y % 0x1_0000) as u16;
    assert(be16(x)[0] * 0x100 + be16(x)[1] == x);
    assert(be16(hi)[0] * 0x100 + be16(hi)[1] == hi);
    assert(be16(lo)[0] * 0x100 + be16(lo)[1] == lo);
    assert(be32(y) =~= be16(hi) + be16(lo));
}

/// Numbers are read with the most significant byte first.
pub proof fn law_read_most_significant_byte_first(a: Seq<u8>, b: Seq<u8>, c: Seq<u8>)
    requires
        a.len() == 2,
        b.len() == 4,
        c.len() == 8,
    ensures
        be16_value(a) == a[0] * 0x100 + a[1],
        be32_value(b) == b[0] * 0x100_0000 + b[1] * 0x1_0000 + b[2] * 0x100 + b[3],
        be64_value(c) == c[0] * 0x100_0000_0000_0000 + c[1] * 0x1_0000_0000_0000 + c[2]
            * 0x100_0000_0000 + c[3] * 0x1_0000_0000 + c[4] * 0x100_0000 + c[5] * 0x1_0000 + c[6]
            * 0x100 + c[7],
{
    lemma_four_bytes(b);
    lemma_four_bytes(c.take(4));
    lemma_four_bytes(c.skip(4));
}

proof fn lemma_four_bytes(b: Seq<u8>)
    requires
        b.len() == 4,
    ensures
        be32_value(b) == b[0] * 0x100_0000 + b[1] * 0x1_0000 + b[2] * 0x100 + b[3],
{
    assert(be16_value(b.take(2)) == b[0] * 0x100 + b[1]);
    assert(be16_value(b.skip(2)) == b[2] * 0x100 + b[3]);
}

} // verus!
