//! Big-endian encoding of the fixed-width integer fields found in packet headers.
use vstd::prelude::*;

verus! {

/// Big-endian bytes of a 16-bit value.
pub open spec fn be16(v: u16) -> Seq<u8> {
    seq![(v / 0x100) as u8, (v % 0x100) as u8]
}

/// Big-endian bytes of a 32-bit value.
pub open spec fn be32(v: u32) -> Seq<u8> {
    be16((v / 0x1_0000) as u16) + be16((v % 0x1_0000) as u16)
}

/// Big-endian bytes of a 64-bit value.
pub open spec fn be64(v: u64) -> Seq<u8> {
    be32((v / 0x1_0000_0000) as u32) + be32((v % 0x1_0000_0000) as u32)
}

/// Big-endian bytes of a 128-bit value.
pub open spec fn be128(v: u128) -> Seq<u8> {
    be64((v / 0x1_0000_0000_0000_0000) as u64) + be64((v % 0x1_0000_0000_0000_0000) as u64)
}

/// The 16-bit big-endian value at offset `i` of `s`.
pub open spec fn get_u16(s: Seq<u8>, i: int) -> u16 {
    (s[i] as int * 0x100 + s[i + 1] as int) as u16
}

/// The 32-bit big-endian value at offset `i` of `s`.
pub open spec fn get_u32(s: Seq<u8>, i: int) -> u32 {
    (get_u16(s, i) as int * 0x1_0000 + get_u16(s, i + 2) as int) as u32
}

/// Reading back the bytes of a 16-bit value gives the value.
pub proof fn lemma_get_u16_be16(v: u16, s: Seq<u8>, i: int)
    requires
        0 <= i,
        i + 2 <= s.len(),
        s.subrange(i, i + 2) == be16(v),
    ensures
        get_u16(s, i) == v,
{
    assert(s[i] == be16(v)[0]);
    assert(s[i + 1] == be16(v)[1]);
}

/// Reading back the bytes of a 32-bit value gives the value.
pub proof fn lemma_get_u32_be32(v: u32, s: Seq<u8>, i: int)
    requires
        0 <= i,
        i + 4 <= s.len(),
        s.subrange(i, i + 4) == be32(v),
    ensures
        get_u32(s, i) == v,
{
    let hi = (v / 0x1_0000) as u16;
    let lo = (v % 0x1_0000) as u16;
    let w = s.subrange(i, i + 4);
    assert(w.subrange(0, 2) =~= be16(hi));
    assert(w.subrange(2, 4) =~= be16(lo));
    assert(s.subrange(i, i + 2) =~= w.subrange(0, 2));
    assert(s.subrange(i + 2, i + 4) =~= w.subrange(2, 4));
    lemma_get_u16_be16(hi, s, i);
    lemma_get_u16_be16(lo, s, i + 2);
}

/// The bytes of a 16-bit value read from `s` are the bytes of `s`.
pub proof fn lemma_be16_get_u16(s: Seq<u8>, i: int)
    requires
        0 <= i,
        i + 2 <= s.len(),
    ensures
        be16(get_u16(s, i)) == s.subrange(i, i + 2),
{
    assert(be16(get_u16(s, i)) =~= s.subrange(i, i + 2));
}

/// The bytes of a 32-bit value read from `s` are the bytes of `s`.
pub proof fn lemma_be32_get_u32(s: Seq<u8>, i: int)
    requires
        0 <= i,
        i + 4 <= s.len(),
    ensures
        be32(get_u32(s, i)) == s.subrange(i, i + 4),
{
    let v = get_u32(s, i);
    assert((v / 0x1_0000) as u16 == get_u16(s, i));
    assert((v % 0x1_0000) as u16 == get_u16(s, i + 2));
    lemma_be16_get_u16(s, i);
    lemma_be16_get_u16(s, i + 2);
    assert(be32(v) =~= s.subrange(i, i + 4));
}

/// Read the 16-bit big-endian value at offset `i`.
pub fn read_u16(s: &[u8], i: usize) -> (r: u16)
    requires
        i + 2 <= s.len(),
    ensures
        r == get_u16(s@, i as int),
{
    (s[i] as u16) * 0x100 + (s[i + 1] as u16)
}

/// Read the 32-bit big-endian value at offset `i`.
pub fn read_u32(s: &[u8], i: usize) -> (r: u32)
    requires
        i + 4 <= s.len(),
    ensures
        r == get_u32(s@, i as int),
{
    (read_u16(s, i) as u32) * 0x1_0000 + (read_u16(s, i + 2) as u32)
}

/// Append the big-endian bytes of a 16-bit value.
pub fn push_u16(out: &mut Vec<u8>, v: u16)
    ensures
        final(out)@ == old(out)@ + be16(v),
{
    out.push((v / 0x100) as u8);
    out.push((v % 0x100) as u8);
    assert(final(out)@ =~= old(out)@ + be16(v));
}

/// Append the big-endian bytes of a 32-bit value.
pub fn push_u32(out: &mut Vec<u8>, v: u32)
    ensures
        final(out)@ == old(out)@ + be32(v),
{
    push_u16(out, (v / 0x1_0000) as u16);
    push_u16(out, (v % 0x1_0000) as u16);
    assert(final(out)@ =~= old(out)@ + be32(v));
}

/// Append the big-endian bytes of a 64-bit value.
pub fn push_u64(out: &mut Vec<u8>, v: u64)
    ensures
        final(out)@ == old(out)@ + be64(v),
{
    push_u32(out, (v / 0x1_0000_0000) as u32);
    push_u32(out, (v % 0x1_0000_0000) as u32);
    assert(final(out)@ =~= old(out)@ + be64(v));
}

/// Append the big-endian bytes of a 128-bit value.
pub fn push_u128(out: &mut Vec<u8>, v: u128)
    ensures
        final(out)@ == old(out)@ + be128(v),
{
    push_u64(out, (v / 0x1_0000_0000_0000_0000) as u64);
    push_u64(out, (v % 0x1_0000_0000_0000_0000) as u64);
    assert(final(out)@ =~= old(out)@ + be128(v));
}

} // verus!
