//! Fixed-width integer byte encodings.
use vstd::prelude::*;

verus! {

/// The big-endian `u16` held by bytes `i` and `i + 1`.
pub open spec fn be_u16_at(s: Seq<u8>, i: int) -> nat {
    (s[i] as nat) * 256 + (s[i + 1] as nat)
}

/// The big-endian `u32` held by bytes `i .. i + 4`.
pub open spec fn be_u32_at(s: Seq<u8>, i: int) -> nat {
    (s[i] as nat) * 16777216 + (s[i + 1] as nat) * 65536 + (s[i + 2] as nat) * 256 + (s[i
        + 3] as nat)
}

/// The little-endian `u64` held by bytes `i .. i + 8`.
pub open spec fn le_u64_at(s: Seq<u8>, i: int) -> nat {
    (s[i] as nat) + (s[i + 1] as nat) * 0x100 + (s[i + 2] as nat) * 0x10000 + (s[i + 3] as nat)
        * 0x1000000 + (s[i + 4] as nat) * 0x100000000 + (s[i + 5] as nat) * 0x10000000000 + (s[i
        + 6] as nat) * 0x1000000000000 + (s[i + 7] as nat) * 0x100000000000000
}

/// The little-endian `u32` held by bytes `i .. i + 4`.
pub open spec fn le_u32_at(s: Seq<u8>, i: int) -> nat {
    (s[i] as nat) + (s[i + 1] as nat) * 0x100 + (s[i + 2] as nat) * 0x10000 + (s[i + 3] as nat)
        * 0x1000000
}

/// The little-endian `u16` held by bytes `i` and `i + 1`.
pub open spec fn le_u16_at(s: Seq<u8>, i: int) -> nat {
    (s[i] as nat) + (s[i + 1] as nat) * 0x100
}

/// The eight little-endian bytes of `x`.
pub open spec fn le_u64_bytes(x: u64) -> Seq<u8> {
    seq![
        (x & 0xff) as u8,
        ((x >> 8) & 0xff) as u8,
        ((x >> 16) & 0xff) as u8,
        ((x >> 24) & 0xff) as u8,
        ((x >> 32) & 0xff) as u8,
        ((x >> 40) & 0xff) as u8,
        ((x >> 48) & 0xff) as u8,
        ((x >> 56) & 0xff) as u8,
    ]
}

/// Reads a big-endian `u16` at position `i`.
pub fn read_be_u16(s: &[u8], i: usize) -> (r: u16)
    requires
        i + 2 <= s@.len(),
    ensures
        r == be_u16_at(s@, i as int),
{
    (s[i] as u16) * 256 + (s[i + 1] as u16)
}

/// Reads a big-endian `u32` at position `i`.
pub fn read_be_u32(s: &[u8], i: usize) -> (r: u32)
    requires
        i + 4 <= s@.len(),
    ensures
        r == be_u32_at(s@, i as int),
{
    (s[i] as u32) * 16777216 + (s[i + 1] as u32) * 65536 + (s[i + 2] as u32) * 256 + (s[i
        + 3] as u32)
}

/// Reads a little-endian `u64` at position `i`.
pub fn read_le_u64(s: &[u8], i: usize) -> (r: u64)
    requires
        i + 8 <= s@.len(),
    ensures
        r == le_u64_at(s@, i as int),
{
    (s[i] as u64) + (s[i + 1] as u64) * 0x100 + (s[i + 2] as u64) * 0x10000 + (s[i + 3] as u64)
        * 0x1000000 + (s[i + 4] as u64) * 0x100000000 + (s[i + 5] as u64) * 0x10000000000 + (s[i
        + 6] as u64) * 0x1000000000000 + (s[i + 7] as u64) * 0x100000000000000
}

/// Reads a little-endian `u32` at position `i`.
pub fn read_le_u32(s: &[u8], i: usize) -> (r: u32)
    requires
        i + 4 <= s@.len(),
    ensures
        r == le_u32_at(s@, i as int),
{
    (s[i] as u32) + (s[i + 1] as u32) * 0x100 + (s[i + 2] as u32) * 0x10000 + (s[i + 3] as u32)
        * 0x1000000
}

/// Reads a little-endian `u16` at position `i`.
pub fn read_le_u16(s: &[u8], i: usize) -> (r: u16)
    requires
        i + 2 <= s@.len(),
    ensures
        r == le_u16_at(s@, i as int),
{
    (s[i] as u16) + (s[i + 1] as u16) * 0x100
}

/// Appends the little-endian bytes of `x`.
pub fn write_u64_le(out: &mut Vec<u8>, x: u64)
    ensures
        final(out)@ == old(out)@ + le_u64_bytes(x),
{
    out.push((x & 0xff) as u8);
    out.push(((x >> 8) & 0xff) as u8);
    out.push(((x >> 16) & 0xff) as u8);
    out.push(((x >> 24) & 0xff) as u8);
    out.push(((x >> 32) & 0xff) as u8);
    out.push(((x >> 40) & 0xff) as u8);
    out.push(((x >> 48) & 0xff) as u8);
    out.push(((x >> 56) & 0xff) as u8);
    assert(out@ =~= old(out)@ + le_u64_bytes(x));
}

/// Decoding the little-endian bytes of `x` gives `x` back.
pub proof fn lemma_le_u64_roundtrip(x: u64)
    ensures
        le_u64_at(le_u64_bytes(x), 0) == x,
{
    let b0 = (x & 0xff) as u8;
    let b1 = ((x >> 8) & 0xff) as u8;
    let b2 = ((x >> 16) & 0xff) as u8;
    let b3 = ((x >> 24) & 0xff) as u8;
    let b4 = ((x >> 32) & 0xff) as u8;
    let b5 = ((x >> 40) & 0xff) as u8;
    let b6 = ((x >> 48) & 0xff) as u8;
    let b7 = ((x >> 56) & 0xff) as u8;
    assert(x == (b0 as u64) + (b1 as u64) * 0x100 + (b2 as u64) * 0x10000 + (b3 as u64) * 0x1000000
        + (b4 as u64) * 0x100000000 + (b5 as u64) * 0x10000000000 + (b6 as u64) * 0x1000000000000
        + (b7 as u64) * 0x100000000000000) by (bit_vector)
        requires
            b0 == (x & 0xff) as u8,
            b1 == ((x >> 8) & 0xff) as u8,
            b2 == ((x >> 16) & 0xff) as u8,
            b3 == ((x >> 24) & 0xff) as u8,
            b4 == ((x >> 32) & 0xff) as u8,
            b5 == ((x >> 40) & 0xff) as u8,
            b6 == ((x >> 48) & 0xff) as u8,
            b7 == ((x >> 56) & 0xff) as u8,
    ;
}


/// The little-endian bytes of the word read at `i` are the eight bytes there.
pub proof fn lemma_le_u64_bytes_of_read(s: Seq<u8>, i: int)
    requires
        0 <= i,
        i + 8 <= s.len(),
    ensures
        le_u64_at(s, i) <= u64::MAX,
        le_u64_bytes(le_u64_at(s, i) as u64) == s.subrange(i, i + 8),
{
    let b0 = s[i] as u64;
    let b1 = s[i + 1] as u64;
    let b2 = s[i + 2] as u64;
    let b3 = s[i + 3] as u64;
    let b4 = s[i + 4] as u64;
    let b5 = s[i + 5] as u64;
    let b6 = s[i + 6] as u64;
    let b7 = s[i + 7] as u64;
    assert(b0 + b1 * 0x100 + b2 * 0x10000 + b3 * 0x1000000 + b4 * 0x100000000 + b5 * 0x10000000000
        + b6 * 0x1000000000000 + b7 * 0x100000000000000 <= 0xffff_ffff_ffff_ffff) by (nonlinear_arith)
        requires
            b0 < 256, b1 < 256, b2 < 256, b3 < 256, b4 < 256, b5 < 256, b6 < 256, b7 < 256,
    ;
    let x: u64 = (b0 + b1 * 0x100 + b2 * 0x10000 + b3 * 0x1000000 + b4 * 0x100000000 + b5
        * 0x10000000000 + b6 * 0x1000000000000 + b7 * 0x100000000000000) as u64;
    assert(x & 0xff == b0 && (x >> 8) & 0xff == b1 && (x >> 16) & 0xff == b2 && (x >> 24) & 0xff
        == b3 && (x >> 32) & 0xff == b4 && (x >> 40) & 0xff == b5 && (x >> 48) & 0xff == b6 && (x
        >> 56) & 0xff == b7) by (bit_vector)
        requires
            b0 < 256, b1 < 256, b2 < 256, b3 < 256, b4 < 256, b5 < 256, b6 < 256, b7 < 256,
            x == b0 + b1 * 0x100 + b2 * 0x10000 + b3 * 0x1000000 + b4 * 0x100000000 + b5
                * 0x10000000000 + b6 * 0x1000000000000 + b7 * 0x100000000000000,
    ;
    assert(le_u64_bytes(x) =~= s.subrange(i, i + 8));
}

} // verus!
