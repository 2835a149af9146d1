//! Big-endian integers on the wire, read with bounds checked by contract.
use vstd::prelude::*;

verus! {

/// Why a byte slice could not be read as a header.
#[derive(Debug, Clone, Copy, PartialEq, Eq, Structural)]
pub enum MalformedPacket {
    /// Fewer bytes than the header's minimum size.
    Truncated,
    /// A length field below the minimum, or beyond the bytes at hand.
    BadHeaderLength,
    /// An enum-coded field holding a value this stack does not know.
    UnknownProtocol,
}

pub open spec fn be16(s: Seq<u8>, i: int) -> nat {
    s[i] as nat * 256 + s[i + 1] as nat
}

pub open spec fn be32(s: Seq<u8>, i: int) -> nat {
    s[i] as nat * 0x100_0000 + s[i + 1] as nat * 0x1_0000 + s[i + 2] as nat * 0x100 + s[i + 3] as nat
}

pub open spec fn u16_bytes(v: u16) -> Seq<u8> {
    seq![(v / 256) as u8, (v % 256) as u8]
}

pub open spec fn u32_bytes(v: u32) -> Seq<u8> {
    seq![(v / 0x100_0000) as u8, ((v / 0x1_0000) % 256) as u8, ((v / 256) % 256) as u8, (v % 256) as u8]
}

pub proof fn lemma_u16_bytes(v: u16)
    ensures
        be16(u16_bytes(v), 0) == v,
        u16_bytes(v).len() == 2,
{
}

pub proof fn lemma_be16_bytes(s: Seq<u8>, i: int)
    requires
        0 <= i,
        i + 2 <= s.len(),
    ensures
        be16(s, i) <= 0xFFFF,
        u16_bytes(be16(s, i) as u16) =~= s.subrange(i, i + 2),
{
}

pub proof fn lemma_be32_bytes(s: Seq<u8>, i: int)
    requires
        0 <= i,
        i + 4 <= s.len(),
    ensures
        be32(s, i) <= 0xFFFF_FFFF,
        u32_bytes(be32(s, i) as u32) =~= s.subrange(i, i + 4),
{
    let v = be32(s, i);
    let (a, b, c, d) = (s[i], s[i + 1], s[i + 2], s[i + 3]);
    assert(v / 0x100_0000 == a && (v / 0x1_0000) % 256 == b && (v / 256) % 256 == c && v % 256 == d)
        by (nonlinear_arith)
        requires
            v == a as nat * 0x100_0000 + b as nat * 0x1_0000 + c as nat * 0x100 + d as nat,
            a < 256,
            b < 256,
            c < 256,
            d < 256,
    ;
}

pub fn read_u16(s: &[u8], i: usize) -> (r: u16)
    requires
        i + 2 <= s@.len(),
    ensures
        r == be16(s@, i as int),
{
    s[i] as u16 * 256 + s[i + 1] as u16
}

pub fn read_u32(s: &[u8], i: usize) -> (r: u32)
    requires
        i + 4 <= s@.len(),
    ensures
        r == be32(s@, i as int),
{
    s[i] as u32 * 0x100_0000 + s[i + 1] as u32 * 0x1_0000 + s[i + 2] as u32 * 0x100 + s[i + 3] as u32
}

pub fn push_u16(out: &mut Vec<u8>, v: u16)
    ensures
        final(out)@ == old(out)@ + u16_bytes(v),
{
    out.push((v / 256) as u8);
    out.push((v % 256) as u8);
    assert(final(out)@ =~= old(out)@ + u16_bytes(v));
}

pub fn push_u32(out: &mut Vec<u8>, v: u32)
    ensures
        final(out)@ == old(out)@ + u32_bytes(v),
{
    out.push((v / 0x100_0000) as u8);
    out.push(((v / 0x1_0000) % 256) as u8);
    out.push(((v / 256) % 256) as u8);
    out.push((v % 256) as u8);
    assert(final(out)@ =~= old(out)@ + u32_bytes(v));
}

/// Appends `bytes` to `out`.
pub fn push_all(out: &mut Vec<u8>, bytes: &[u8])
    ensures
        final(out)@ == old(out)@ + bytes@,
{
    let mut i: usize = 0;
    while i < bytes.len()
        invariant
            i <= bytes@.len(),
            out@ == old(out)@ + bytes@.subrange(0, i as int),
        decreases bytes@.len() - i,
    {
        out.push(bytes[i]);
        i = i + 1;
        assert(out@ =~= old(out)@ + bytes@.subrange(0, i as int));
    }
    assert(bytes@.subrange(0, i as int) =~= bytes@);
}

/// A copy of `s[start..end]`.
pub fn copy_range(s: &[u8], start: usize, end: usize) -> (r: Vec<u8>)
    requires
        start <= end <= s@.len(),
    ensures
        r@ == s@.subrange(start as int, end as int),
{
    let mut r: Vec<u8> = Vec::new();
    let mut i: usize = start;
    while i < end
        invariant
            start <= i <= end,
            end <= s@.len(),
            r@ == s@.subrange(start as int, i as int),
        decreases end - i,
    {
        r.push(s[i]);
        i = i + 1;
        assert(r@ =~= s@.subrange(start as int, i as int));
    }
    r
}

} // verus!
