//! Little-endian integer encodings used by the record format.
use vstd::prelude::*;

verus! {

/// The two little-endian bytes of `x`.
pub open spec fn le16(x: u16) -> Seq<u8> {
    seq![(x % 256) as u8, (x / 256) as u8]
}

/// The four little-endian bytes of `x`.
pub open spec fn le32(x: u32) -> Seq<u8> {
    seq![
        (x % 256) as u8,
        (x / 0x100 % 256) as u8,
        (x / 0x10000 % 256) as u8,
        (x / 0x1000000) as u8,
    ]
}

/// The eight little-endian bytes of `x`.
pub open spec fn le64(x: u64) -> Seq<u8> {
    seq![
        (x % 256) as u8,
        (x / 0x100 % 256) as u8,
        (x / 0x10000 % 256) as u8,
        (x / 0x1000000 % 256) as u8,
        (x / 0x100000000 % 256) as u8,
        (x / 0x10000000000 % 256) as u8,
        (x / 0x1000000000000 % 256) as u8,
        (x / 0x100000000000000) as u8,
    ]
}

/// The value of two little-endian bytes.
pub open spec fn from_le16(s: Seq<u8>) -> u16 {
    (s[0] + 256 * s[1]) as u16
}

/// The value of four little-endian bytes.
pub open spec fn from_le32(s: Seq<u8>) -> u32 {
    (s[0] + 0x100 * s[1] + 0x10000 * s[2] + 0x1000000 * s[3]) as u32
}

/// The value of eight little-endian bytes.
pub open spec fn from_le64(s: Seq<u8>) -> u64 {
    (s[0] + 0x100 * s[1] + 0x10000 * s[2] + 0x1000000 * s[3] + 0x100000000 * s[4]
        + 0x10000000000 * s[5] + 0x1000000000000 * s[6] + 0x100000000000000 * s[7]) as u64
}

pub proof fn lemma_le16_roundtrip(x: u16)
    ensures
        le16(x).len() == 2,
        from_le16(le16(x)) == x,
{
}

pub proof fn lemma_le32_roundtrip(x: u32)
    ensures
        le32(x).len() == 4,
        from_le32(le32(x)) == x,
{
}

pub proof fn lemma_le64_roundtrip(x: u64)
    ensures
        le64(x).len() == 8,
        from_le64(le64(x)) == x,
{
    let b = le64(x);
    assert(b[0] == (x % 256) as u8 && b[7] == (x / 0x100000000000000) as u8);
    assert(((x % 256) as u8) + 0x100 * ((x / 0x100 % 256) as u8) + 0x10000 * ((x / 0x10000 % 256) as u8)
        + 0x1000000 * ((x / 0x1000000 % 256) as u8) + 0x100000000 * ((x / 0x100000000 % 256) as u8)
        + 0x10000000000 * ((x / 0x10000000000 % 256) as u8) + 0x1000000000000 * ((x / 0x1000000000000 % 256) as u8)
        + 0x100000000000000 * ((x / 0x100000000000000) as u8) == x) by (bit_vector);
}

/// Appends the little-endian bytes of `x` to `buf`.
pub fn push_le16(buf: &mut Vec<u8>, x: u16)
    ensures
        final(buf)@ == old(buf)@ + le16(x),
{
    buf.push((x % 256) as u8);
    buf.push((x / 256) as u8);
    proof {
        assert(final(buf)@ =~= old(buf)@ + le16(x));
    }
}

/// Appends the little-endian bytes of `x` to `buf`.
pub fn push_le32(buf: &mut Vec<u8>, x: u32)
    ensures
        final(buf)@ == old(buf)@ + le32(x),
{
    buf.push((x % 256) as u8);
    buf.push((x / 0x100 % 256) as u8);
    buf.push((x / 0x10000 % 256) as u8);
    buf.push((x / 0x1000000) as u8);
    proof {
        assert(final(buf)@ =~= old(buf)@ + le32(x));
    }
}

/// Appends the little-endian bytes of `x` to `buf`.
pub fn push_le64(buf: &mut Vec<u8>, x: u64)
    ensures
        final(buf)@ == old(buf)@ + le64(x),
{
    buf.push((x % 256) as u8);
    buf.push((x / 0x100 % 256) as u8);
    buf.push((x / 0x10000 % 256) as u8);
    buf.push((x / 0x1000000 % 256) as u8);
    buf.push((x / 0x100000000 % 256) as u8);
    buf.push((x / 0x10000000000 % 256) as u8);
    buf.push((x / 0x1000000000000 % 256) as u8);
    buf.push((x / 0x100000000000000) as u8);
    proof {
        assert(final(buf)@ =~= old(buf)@ + le64(x));
    }
}

} // verus!
