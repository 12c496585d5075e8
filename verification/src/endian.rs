//! Little-endian integers in byte buffers.

use vstd::prelude::*;

verus! {

/// The 32-bit number whose little-endian bytes are `b0`, `b1`, `b2`, `b3`.
#[verifier::opaque]
pub open spec fn u32_from_le(b0: u8, b1: u8, b2: u8, b3: u8) -> u32 {
    (b0 + b1 * 0x100 + b2 * 0x1_0000 + b3 * 0x100_0000) as u32
}

/// Byte `k` of `x`, counted from the least significant one; `k` is below 4.
#[verifier::opaque]
pub open spec fn le_byte(x: u32, k: int) -> u8 {
    if k == 0 {
        (x % 0x100) as u8
    } else if k == 1 {
        ((x / 0x100) % 0x100) as u8
    } else if k == 2 {
        ((x / 0x1_0000) % 0x100) as u8
    } else {
        (x / 0x100_0000) as u8
    }
}

/// The four little-endian bytes of `x`.
pub open spec fn u32_le_bytes(x: u32) -> Seq<u8> {
    seq![le_byte(x, 0), le_byte(x, 1), le_byte(x, 2), le_byte(x, 3)]
}

/// The 32-bit little-endian number at byte `p` of `s`.
pub open spec fn u32_le_at(s: Seq<u8>, p: int) -> u32 {
    u32_from_le(s[p], s[p + 1], s[p + 2], s[p + 3])
}

/// The 64-bit little-endian number at byte `p` of `s`.
#[verifier::opaque]
pub open spec fn u64_le_at(s: Seq<u8>, p: int) -> u64 {
    (u32_le_at(s, p) + u32_le_at(s, p + 4) * 0x1_0000_0000) as u64
}

/// The eight little-endian bytes of `x`.
#[verifier::opaque]
pub open spec fn u64_le_bytes(x: u64) -> Seq<u8> {
    u32_le_bytes((x % 0x1_0000_0000) as u32) + u32_le_bytes((x / 0x1_0000_0000) as u32)
}

/// Reading back the bytes of a number gives the number, wherever in a buffer
/// they stand.
pub proof fn lemma_u32_le_round_trip(x: u32, s: Seq<u8>, p: int)
    requires
        0 <= p,
        p + 4 <= s.len(),
        s.subrange(p, p + 4) == u32_le_bytes(x),
    ensures
        u32_le_at(s, p) == x,
{
    reveal(u32_from_le);
    reveal(le_byte);
    let t = s.subrange(p, p + 4);
    assert(t[0] == s[p] && t[1] == s[p + 1] && t[2] == s[p + 2] && t[3] == s[p + 3]);
}

proof fn lemma_le_digits(b0: u8, b1: u8, b2: u8, b3: u8)
    by (bit_vector)
    ensures
        b0 + b1 * 0x100 + b2 * 0x1_0000 + b3 * 0x100_0000 <= 0xffff_ffff,
        (b0 + b1 * 0x100 + b2 * 0x1_0000 + b3 * 0x100_0000) % 0x100 == b0,
        ((b0 + b1 * 0x100 + b2 * 0x1_0000 + b3 * 0x100_0000) / 0x100) % 0x100 == b1,
        ((b0 + b1 * 0x100 + b2 * 0x1_0000 + b3 * 0x100_0000) / 0x1_0000) % 0x100 == b2,
        (b0 + b1 * 0x100 + b2 * 0x1_0000 + b3 * 0x100_0000) / 0x100_0000 == b3,
{
}

/// Writing out a number that was read from four bytes gives those bytes.
pub proof fn lemma_u32_le_bytes_of_read(s: Seq<u8>, p: int)
    requires
        0 <= p,
        p + 4 <= s.len(),
    ensures
        u32_le_bytes(u32_le_at(s, p)) == s.subrange(p, p + 4),
{
    reveal(u32_from_le);
    reveal(le_byte);
    lemma_le_digits(s[p], s[p + 1], s[p + 2], s[p + 3]);
    assert(u32_le_bytes(u32_le_at(s, p)) =~= s.subrange(p, p + 4));
}

/// Reading back the bytes of a number gives the number, wherever in a buffer
/// they stand.
pub proof fn lemma_u64_le_round_trip(x: u64, s: Seq<u8>, p: int)
    requires
        0 <= p,
        p + 8 <= s.len(),
        s.subrange(p, p + 8) == u64_le_bytes(x),
    ensures
        u64_le_at(s, p) == x,
{
    reveal(u64_le_bytes);
    reveal(u64_le_at);
    let t = s.subrange(p, p + 8);
    let lo = (x % 0x1_0000_0000) as u32;
    let hi = (x / 0x1_0000_0000) as u32;
    assert(s.subrange(p, p + 4) =~= u32_le_bytes(lo)) by {
        assert forall|i: int| 0 <= i < 4 implies s.subrange(p, p + 4)[i] == u32_le_bytes(lo)[i] by {
            assert(t[i] == s[p + i]);
        }
    }
    assert(s.subrange(p + 4, p + 8) =~= u32_le_bytes(hi)) by {
        assert forall|i: int| 0 <= i < 4 implies s.subrange(p + 4, p + 8)[i] == u32_le_bytes(
            hi,
        )[i] by {
            assert(t[i + 4] == s[p + 4 + i]);
        }
    }
    lemma_u32_le_round_trip(lo, s, p);
    lemma_u32_le_round_trip(hi, s, p + 4);
}

/// Nothing, followed by `s`, is `s`.
pub proof fn lemma_empty_then(s: Seq<u8>)
    ensures
        Seq::<u8>::empty() + s == s,
{
    assert(Seq::<u8>::empty() + s =~= s);
}

/// Reads the 32-bit little-endian number at byte `pos`.
pub fn read_u32_le(data: &[u8], pos: usize) -> (r: u32)
    requires
        pos + 4 <= data@.len(),
    ensures
        r == u32_le_at(data@, pos as int),
{
    proof {
        reveal(u32_from_le);
    }
    let b0 = data[pos] as u32;
    let b1 = data[pos + 1] as u32;
    let b2 = data[pos + 2] as u32;
    let b3 = data[pos + 3] as u32;
    b0 + b1 * 0x100 + b2 * 0x1_0000 + b3 * 0x100_0000
}

/// Reads the 64-bit little-endian number at byte `pos`.
pub fn read_u64_le(data: &[u8], pos: usize) -> (r: u64)
    requires
        pos + 8 <= data@.len(),
    ensures
        r == u64_le_at(data@, pos as int),
{
    proof {
        reveal(u64_le_at);
    }
    let _ = data.len();
    let lo = read_u32_le(data, pos) as u64;
    let hi = read_u32_le(data, pos + 4) as u64;
    lo + hi * 0x1_0000_0000
}

/// Appends the four little-endian bytes of `x`.
pub fn push_u32_le(out: &mut Vec<u8>, x: u32)
    ensures
        final(out)@ == old(out)@ + u32_le_bytes(x),
        final(out)@.len() == old(out)@.len() + 4,
{
    proof {
        reveal(le_byte);
    }
    out.push((x % 0x100) as u8);
    out.push(((x / 0x100) % 0x100) as u8);
    out.push(((x / 0x1_0000) % 0x100) as u8);
    out.push((x / 0x100_0000) as u8);
    assert(out@ =~= old(out)@ + u32_le_bytes(x));
}

/// Appends the eight little-endian bytes of `x`.
pub fn push_u64_le(out: &mut Vec<u8>, x: u64)
    ensures
        final(out)@ == old(out)@ + u64_le_bytes(x),
        final(out)@.len() == old(out)@.len() + 8,
{
    push_u32_le(out, (x % 0x1_0000_0000) as u32);
    push_u32_le(out, (x / 0x1_0000_0000) as u32);
    proof {
        reveal(u64_le_bytes);
    }
    assert(out@ =~= old(out)@ + u64_le_bytes(x));
}

/// `s` with the four bytes from byte `p` on replaced by the little-endian
/// bytes of `x`.
pub open spec fn with_u32_le(s: Seq<u8>, p: int, x: u32) -> Seq<u8> {
    Seq::new(
        s.len(),
        |i: int|
            if p <= i < p + 4 {
                u32_le_bytes(x)[i - p]
            } else {
                s[i]
            },
    )
}

/// Overwrites the four bytes from byte `pos` on with the little-endian bytes
/// of `x`.
pub fn write_u32_le(data: &mut [u8], pos: usize, x: u32)
    requires
        pos + 4 <= old(data)@.len(),
    ensures
        final(data)@ == with_u32_le(old(data)@, pos as int, x),
{
    proof {
        reveal(le_byte);
    }
    data[pos] = (x % 0x100) as u8;
    data[pos + 1] = ((x / 0x100) % 0x100) as u8;
    data[pos + 2] = ((x / 0x1_0000) % 0x100) as u8;
    data[pos + 3] = (x / 0x100_0000) as u8;
    assert(data@ =~= with_u32_le(old(data)@, pos as int, x));
}

} // verus!
