//! Little-endian integer fields and small byte-sequence helpers.
use vstd::prelude::*;

verus! {

/// Value of a four-byte little-endian field.
pub open spec fn le_u32(s: Seq<u8>) -> nat {
    (s[0] + s[1] * 0x100 + s[2] * 0x1_0000 + s[3] * 0x100_0000) as nat
}

/// The four little-endian bytes of `n`.
pub open spec fn u32_le_bytes(n: u32) -> Seq<u8> {
    seq![
        (n % 0x100) as u8,
        ((n / 0x100) % 0x100) as u8,
        ((n / 0x1_0000) % 0x100) as u8,
        (n / 0x100_0000) as u8,
    ]
}

/// Value of an eight-byte little-endian field.
pub open spec fn le_u64(s: Seq<u8>) -> nat {
    le_u32(s.subrange(0, 4)) + le_u32(s.subrange(4, 8)) * 0x1_0000_0000
}

/// The eight little-endian bytes of `n`.
pub open spec fn u64_le_bytes(n: u64) -> Seq<u8> {
    u32_le_bytes((n % 0x1_0000_0000) as u32) + u32_le_bytes((n / 0x1_0000_0000) as u32)
}

pub proof fn lemma_u32_le_roundtrip(n: u32)
    ensures
        u32_le_bytes(n).len() == 4,
        le_u32(u32_le_bytes(n)) == n,
{
    let b0: u32 = n % 0x100;
    let b1: u32 = (n / 0x100) % 0x100;
    let b2: u32 = (n / 0x1_0000) % 0x100;
    let b3: u32 = n / 0x100_0000;
    assert(b0 + b1 * 0x100 + b2 * 0x1_0000 + b3 * 0x100_0000 == n) by (bit_vector)
        requires
            b0 == n % 0x100,
            b1 == (n / 0x100) % 0x100,
            b2 == (n / 0x1_0000) % 0x100,
            b3 == n / 0x100_0000,
    ;
    assert(b3 < 0x100) by (bit_vector)
        requires
            b3 == n / 0x100_0000,
    ;
}

pub proof fn lemma_le_u32_bytes_roundtrip(s: Seq<u8>)
    requires
        s.len() == 4,
    ensures
        le_u32(s) <= u32::MAX,
        u32_le_bytes(le_u32(s) as u32) == s,
{
    let b0: u32 = s[0] as u32;
    let b1: u32 = s[1] as u32;
    let b2: u32 = s[2] as u32;
    let b3: u32 = s[3] as u32;
    let n: u32 = (b0 + b1 * 0x100 + b2 * 0x1_0000 + b3 * 0x100_0000) as u32;
    assert(b0 + b1 * 0x100 + b2 * 0x1_0000 + b3 * 0x100_0000 <= u32::MAX) by (bit_vector)
        requires
            b0 < 0x100,
            b1 < 0x100,
            b2 < 0x100,
            b3 < 0x100,
    ;
    assert(n % 0x100 == b0 && (n / 0x100) % 0x100 == b1 && (n / 0x1_0000) % 0x100 == b2
        && n / 0x100_0000 == b3) by (bit_vector)
        requires
            b0 < 0x100,
            b1 < 0x100,
            b2 < 0x100,
            b3 < 0x100,
            n == b0 + b1 * 0x100 + b2 * 0x1_0000 + b3 * 0x100_0000,
    ;
    assert(u32_le_bytes(n) =~= s);
}

pub proof fn lemma_u64_le_roundtrip(n: u64)
    ensures
        u64_le_bytes(n).len() == 8,
        le_u64(u64_le_bytes(n)) == n,
{
    let lo = (n % 0x1_0000_0000) as u32;
    let hi = (n / 0x1_0000_0000) as u32;
    lemma_u32_le_roundtrip(lo);
    lemma_u32_le_roundtrip(hi);
    let s = u64_le_bytes(n);
    assert(s.subrange(0, 4) =~= u32_le_bytes(lo));
    assert(s.subrange(4, 8) =~= u32_le_bytes(hi));
    assert(lo + hi * 0x1_0000_0000 == n) by (bit_vector)
        requires
            lo == (n % 0x1_0000_0000) as u32,
            hi == (n / 0x1_0000_0000) as u32,
    ;
}

pub proof fn lemma_le_u64_bytes_roundtrip(s: Seq<u8>)
    requires
        s.len() == 8,
    ensures
        le_u64(s) <= u64::MAX,
        u64_le_bytes(le_u64(s) as u64) == s,
{
    let lo_s = s.subrange(0, 4);
    let hi_s = s.subrange(4, 8);
    lemma_le_u32_bytes_roundtrip(lo_s);
    lemma_le_u32_bytes_roundtrip(hi_s);
    let lo: u32 = le_u32(lo_s) as u32;
    let hi: u32 = le_u32(hi_s) as u32;
    let n: u64 = (lo + hi * 0x1_0000_0000) as u64;
    assert(lo + hi * 0x1_0000_0000 <= u64::MAX) by (bit_vector);
    assert((n % 0x1_0000_0000) as u32 == lo && (n / 0x1_0000_0000) as u32 == hi) by (bit_vector)
        requires
            n == (lo + hi * 0x1_0000_0000) as u64,
    ;
    assert(u64_le_bytes(n) =~= lo_s + hi_s);
    assert(lo_s + hi_s =~= s);
}

/// Reads the four-byte little-endian field that starts at `off`.
pub fn read_u32_le(b: &[u8], off: usize) -> (r: u32)
    requires
        off + 4 <= b@.len(),
    ensures
        r == le_u32(b@.subrange(off as int, off + 4)),
{
    let b0 = b[off];
    let b1 = b[off + 1];
    let b2 = b[off + 2];
    let b3 = b[off + 3];
    assert(b0 + b1 * 0x100 + b2 * 0x1_0000 + b3 * 0x100_0000 <= u32::MAX) by (bit_vector);
    (b0 as u32) + (b1 as u32) * 0x100 + (b2 as u32) * 0x1_0000 + (b3 as u32) * 0x100_0000
}

/// Reads the eight-byte little-endian field that starts at `off`.
pub fn read_u64_le(b: &[u8], off: usize) -> (r: u64)
    requires
        off + 8 <= b@.len(),
    ensures
        r == le_u64(b@.subrange(off as int, off + 8)),
{
    assert(off + 8 <= b.len());
    let lo = read_u32_le(b, off);
    let hi = read_u32_le(b, off + 4);
    let ghost s = b@.subrange(off as int, off + 8);
    assert(s.subrange(0, 4) =~= b@.subrange(off as int, off + 4));
    assert(s.subrange(4, 8) =~= b@.subrange(off + 4, off + 8));
    assert(lo + hi * 0x1_0000_0000 <= u64::MAX) by (bit_vector);
    (lo as u64) + (hi as u64) * 0x1_0000_0000
}

/// Appends the four little-endian bytes of `n`.
pub fn push_u32_le(out: &mut Vec<u8>, n: u32)
    ensures
        final(out)@ == old(out)@ + u32_le_bytes(n),
{
    out.push((n % 0x100) as u8);
    out.push(((n / 0x100) % 0x100) as u8);
    out.push(((n / 0x1_0000) % 0x100) as u8);
    out.push((n / 0x100_0000) as u8);
    assert(out@ =~= old(out)@ + u32_le_bytes(n));
}

/// Appends the eight little-endian bytes of `n`.
pub fn push_u64_le(out: &mut Vec<u8>, n: u64)
    ensures
        final(out)@ == old(out)@ + u64_le_bytes(n),
{
    push_u32_le(out, (n % 0x1_0000_0000) as u32);
    push_u32_le(out, (n / 0x1_0000_0000) as u32);
    assert(out@ =~= old(out)@ + u64_le_bytes(n));
}

/// Appends every byte of `s`.
pub fn push_all(out: &mut Vec<u8>, s: &[u8])
    ensures
        final(out)@ == old(out)@ + s@,
{
    let mut i: usize = 0;
    while i < s.len()
        invariant
            i <= s@.len(),
            out@ == old(out)@ + s@.subrange(0, i as int),
        decreases s@.len() - i,
    {
        out.push(s[i]);
        i = i + 1;
        assert(out@ =~= old(out)@ + s@.subrange(0, i as int));
    }
    assert(s@.subrange(0, s@.len() as int) =~= s@);
}

/// A copy of `b[start..end]`.
pub fn copy_range(b: &[u8], start: usize, end: usize) -> (r: Vec<u8>)
    requires
        start <= end <= b@.len(),
    ensures
        r@ == b@.subrange(start as int, end as int),
{
    vstd::slice::slice_to_vec(&b[start..end])
}

/// Whether `b` begins with `prefix`.
pub fn starts_with(b: &[u8], prefix: &[u8]) -> (r: bool)
    ensures
        r == (prefix@.len() <= b@.len() && b@.subrange(0, prefix@.len() as int) == prefix@),
{
    if prefix.len() > b.len() {
        return false;
    }
    let mut i: usize = 0;
    while i < prefix.len()
        invariant
            prefix@.len() <= b@.len(),
            i <= prefix@.len(),
            b@.subrange(0, i as int) == prefix@.subrange(0, i as int),
        decreases prefix@.len() - i,
    {
        if b[i] != prefix[i] {
            assert(b@.subrange(0, prefix@.len() as int)[i as int] != prefix@[i as int]);
            return false;
        }
        i = i + 1;
        assert(b@.subrange(0, i as int) =~= prefix@.subrange(0, i as int));
    }
    assert(prefix@.subrange(0, i as int) =~= prefix@);
    true
}

} // verus!
