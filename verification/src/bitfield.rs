//! Bit-level reading and writing of fixed-width unsigned fields inside a byte
//! buffer, together with the facts that the packed arrays of this crate rest on.
//!
//! A field is `n` bits wide (`1 <= n <= 32`) and starts `off` bits (`off < 8`)
//! into byte `p` of a buffer. Such a field never reaches past byte `p + 4`, so
//! the five bytes from `p` on, joined little-endian into one `u64`, always
//! hold all of it.

use vstd::prelude::*;

verus! {

/// The word whose `n` lowest bits are set and whose other bits are clear.
pub open spec fn low_mask(n: u64) -> u64 {
    !(u64::MAX << n)
}

/// The largest value that an `n`-bit field can hold, `2^n - 1`.
pub open spec fn max_value(n: usize) -> u32 {
    low_mask(n as u64) as u32
}

/// Number of bytes that an `n`-bit field at bit offset `off` reaches into.
pub open spec fn span(off: u64, n: u64) -> u64 {
    ((off + n + 7) / 8) as u64
}

/// Byte `k` of `s`, reading zero outside the buffer.
pub open spec fn byte_at(s: Seq<u8>, k: int) -> u8 {
    if 0 <= k < s.len() {
        s[k]
    } else {
        0u8
    }
}

/// Five bytes joined little-endian.
pub open spec fn join5(b0: u8, b1: u8, b2: u8, b3: u8, b4: u8) -> u64 {
    (b0 as u64) | ((b1 as u64) << 8) | ((b2 as u64) << 16) | ((b3 as u64) << 24) | ((b4 as u64)
        << 32)
}

/// The five bytes of `s` from byte `p` on, joined little-endian.
pub open spec fn word_at(s: Seq<u8>, p: int) -> u64 {
    join5(byte_at(s, p), byte_at(s, p + 1), byte_at(s, p + 2), byte_at(s, p + 3), byte_at(s, p + 4))
}

/// Bits `off .. off + n` of `w`.
pub open spec fn extract(w: u64, off: u64, n: u64) -> u32 {
    ((w >> off) & low_mask(n)) as u32
}

/// The `n`-bit field that starts `off` bits into byte `p` of `s`.
pub open spec fn field_at(s: Seq<u8>, p: int, off: u64, n: u64) -> u32 {
    extract(word_at(s, p), off, n)
}

/// Byte `d` of the word `w`, counted from the least significant one.
pub open spec fn byte_of(w: u64, d: u64) -> u8 {
    ((w >> (8 * d)) & 0xff) as u8
}

/// `x` with the bits of `m` replaced by those of `v`.
pub open spec fn merge(x: u8, m: u8, v: u8) -> u8 {
    (x & !m) | v
}

proof fn lemma_low_mask(n: u64)
    by (bit_vector)
    requires
        n <= 32,
    ensures
        low_mask(n) <= 0xffff_ffff,
        (1u64 << n) >= 1,
        ((1u64 << n) - 1) as u64 == low_mask(n),
        n == 32 ==> low_mask(n) == 0xffff_ffff,
{
}

proof fn lemma_low_mask_u32(n: u32)
    by (bit_vector)
    requires
        n < 32,
    ensures
        (1u32 << n) >= 1,
        ((1u32 << n) - 1) as u64 == low_mask(n as u64),
{
}

spec fn keep(b: u8, i: u64, k: u64) -> u8 {
    if i < k {
        b
    } else {
        0u8
    }
}

spec fn pick(b0: u8, b1: u8, b2: u8, b3: u8, b4: u8, i: u64) -> u8 {
    if i == 0 {
        b0
    } else if i == 1 {
        b1
    } else if i == 2 {
        b2
    } else if i == 3 {
        b3
    } else {
        b4
    }
}

spec fn join_first(b0: u8, b1: u8, b2: u8, b3: u8, b4: u8, k: u64) -> u64 {
    join5(keep(b0, 0, k), keep(b1, 1, k), keep(b2, 2, k), keep(b3, 3, k), keep(b4, 4, k))
}

proof fn lemma_join_step(b0: u8, b1: u8, b2: u8, b3: u8, b4: u8, i: u64)
    by (bit_vector)
    requires
        i < 5,
    ensures
        join_first(b0, b1, b2, b3, b4, i) | ((pick(b0, b1, b2, b3, b4, i) as u64) << (8 * i))
            == join_first(b0, b1, b2, b3, b4, (i + 1) as u64),
        join_first(b0, b1, b2, b3, b4, 0) == 0,
{
}

proof fn lemma_join_enough(b0: u8, b1: u8, b2: u8, b3: u8, b4: u8, off: u64, n: u64)
    by (bit_vector)
    requires
        off < 8,
        1 <= n <= 32,
    ensures
        extract(join_first(b0, b1, b2, b3, b4, span(off, n)), off, n) == extract(
            join5(b0, b1, b2, b3, b4),
            off,
            n,
        ),
{
}

spec fn put(b: u8, m: u64, w: u64, d: u64, k: u64) -> u8 {
    if d < k {
        merge(b, byte_of(m, d), byte_of(w, d))
    } else {
        b
    }
}

spec fn lay(b: u8, w: u64, d: u64, k: u64) -> u8 {
    if d < k {
        b | byte_of(w, d)
    } else {
        b
    }
}

proof fn lemma_store_hit(b0: u8, b1: u8, b2: u8, b3: u8, b4: u8, off: u64, n: u64, v: u64)
    by (bit_vector)
    requires
        off < 8,
        1 <= n <= 32,
        v <= low_mask(n),
    ensures
        extract(
            join5(
                put(b0, low_mask(n) << off, v << off, 0, span(off, n)),
                put(b1, low_mask(n) << off, v << off, 1, span(off, n)),
                put(b2, low_mask(n) << off, v << off, 2, span(off, n)),
                put(b3, low_mask(n) << off, v << off, 3, span(off, n)),
                put(b4, low_mask(n) << off, v << off, 4, span(off, n)),
            ),
            off,
            n,
        ) == v,
{
}

proof fn lemma_or_hit(b0: u8, b1: u8, b2: u8, b3: u8, b4: u8, off: u64, n: u64, v: u64)
    by (bit_vector)
    requires
        off < 8,
        1 <= n <= 32,
        v <= low_mask(n),
    ensures
        extract(
            join5(
                lay(b0, v << off, 0, span(off, n)),
                lay(b1, v << off, 1, span(off, n)),
                lay(b2, v << off, 2, span(off, n)),
                lay(b3, v << off, 3, span(off, n)),
                lay(b4, v << off, 4, span(off, n)),
            ),
            off,
            n,
        ) == extract(join5(b0, b1, b2, b3, b4), off, n) | (v as u32),
{
}

proof fn lemma_same_field(
    b0: u8,
    b1: u8,
    b2: u8,
    b3: u8,
    b4: u8,
    c0: u8,
    c1: u8,
    c2: u8,
    c3: u8,
    c4: u8,
    off: u64,
    n: u64,
)
    by (bit_vector)
    requires
        off < 8,
        1 <= n <= 32,
        b0 & byte_of(low_mask(n) << off, 0) == c0 & byte_of(low_mask(n) << off, 0),
        b1 & byte_of(low_mask(n) << off, 1) == c1 & byte_of(low_mask(n) << off, 1),
        b2 & byte_of(low_mask(n) << off, 2) == c2 & byte_of(low_mask(n) << off, 2),
        b3 & byte_of(low_mask(n) << off, 3) == c3 & byte_of(low_mask(n) << off, 3),
        b4 & byte_of(low_mask(n) << off, 4) == c4 & byte_of(low_mask(n) << off, 4),
    ensures
        extract(join5(b0, b1, b2, b3, b4), off, n) == extract(join5(c0, c1, c2, c3, c4), off, n),
{
}

/// A byte that a write to one field changes keeps the bits that another,
/// disjoint field reads from it. `d` counts the byte within the written
/// field, `t` within the field that is read.
proof fn lemma_byte_untouched(x: u8, off_w: u64, off_r: u64, n: u64, v: u64, t: u64, d: u64)
    by (bit_vector)
    requires
        off_w < 8,
        off_r < 8,
        1 <= n <= 32,
        v <= low_mask(n),
        t < 5,
        d < 5,
        off_r + n + 8 * d <= 8 * t + off_w || 8 * t + off_w + n <= 8 * d + off_r,
    ensures
        merge(x, byte_of(low_mask(n) << off_w, d), byte_of(v << off_w, d)) & byte_of(
            low_mask(n) << off_r,
            t,
        ) == x & byte_of(low_mask(n) << off_r, t),
        (x | byte_of(v << off_w, d)) & byte_of(low_mask(n) << off_r, t) == x & byte_of(
            low_mask(n) << off_r,
            t,
        ),
{
}

proof fn lemma_clear_field(b0: u8, off: u64, n: u64)
    by (bit_vector)
    requires
        off < 8,
        1 <= n <= 32,
        off == 0 ==> b0 == 0,
        off > 0 ==> b0 >> off == 0,
    ensures
        extract(join5(b0, 0, 0, 0, 0), off, n) == 0,
{
}

proof fn lemma_tail_grows(x: u8, a: u64, b: u64)
    by (bit_vector)
    requires
        0 < a <= b < 8,
        x >> a == 0,
    ensures
        x >> b == 0,
{
}

proof fn lemma_tail_byte(x: u8, off: u64, n: u64, v: u64, d: u64, c: u64)
    by (bit_vector)
    requires
        off < 8,
        1 <= n <= 32,
        v <= low_mask(n),
        d < 5,
        c < 8,
        off + n <= 8 * d + c,
        c == 0 ==> x == 0,
        c > 0 ==> x >> c == 0,
    ensures
        c == 0 ==> merge(x, byte_of(low_mask(n) << off, d), byte_of(v << off, d)) == 0,
        c == 0 ==> x | byte_of(v << off, d) == 0,
        c > 0 ==> merge(x, byte_of(low_mask(n) << off, d), byte_of(v << off, d)) >> c == 0,
        c > 0 ==> (x | byte_of(v << off, d)) >> c == 0,
{
}

/// `s` with the `k` bytes from byte `p` on merged with the bytes of the word
/// `w` under the mask word `m`. Bytes past the end of `s` are left out.
pub open spec fn store_bytes(s: Seq<u8>, p: int, m: u64, w: u64, k: int) -> Seq<u8> {
    Seq::new(
        s.len(),
        |i: int|
            if p <= i < p + k {
                merge(s[i], byte_of(m, (i - p) as u64), byte_of(w, (i - p) as u64))
            } else {
                s[i]
            },
    )
}

/// `s` with the bytes of the word `w` OR-ed into the `k` bytes from byte `p`
/// on. Bytes past the end of `s` are left out.
pub open spec fn or_bytes(s: Seq<u8>, p: int, w: u64, k: int) -> Seq<u8> {
    Seq::new(
        s.len(),
        |i: int|
            if p <= i < p + k {
                s[i] | byte_of(w, (i - p) as u64)
            } else {
                s[i]
            },
    )
}

/// `s` after the `n`-bit field that starts `off` bits into byte `p` has been
/// overwritten with `v`; every bit outside the field stays as it was.
pub open spec fn with_field(s: Seq<u8>, p: int, off: u64, n: u64, v: u32) -> Seq<u8> {
    store_bytes(s, p, low_mask(n) << off, (v as u64) << off, span(off, n) as int)
}

/// `s` after `v` has been OR-ed into the `n`-bit field that starts `off` bits
/// into byte `p`; no bit is cleared.
pub open spec fn with_field_or(s: Seq<u8>, p: int, off: u64, n: u64, v: u32) -> Seq<u8> {
    or_bytes(s, p, (v as u64) << off, span(off, n) as int)
}

/// The largest value of an `n`-bit field.
pub fn max_value_of(n: usize) -> (r: u32)
    requires
        1 <= n <= 32,
    ensures
        r == max_value(n),
{
    proof {
        lemma_low_mask(n as u64);
        if n < 32 {
            lemma_low_mask_u32(n as u32);
        }
    }
    if n == 32 {
        u32::MAX
    } else {
        (1u32 << n) - 1
    }
}

fn mask_of(n: usize) -> (r: u64)
    requires
        1 <= n <= 32,
    ensures
        r == low_mask(n as u64),
{
    proof {
        lemma_low_mask(n as u64);
    }
    (1u64 << n) - 1
}

/// Reads the `n`-bit field that starts `bit_offset` bits into byte `byte_pos`.
/// Bytes past the end of `data` read as zero.
pub fn read_field(data: &[u8], byte_pos: usize, bit_offset: usize, n: usize) -> (r: u32)
    requires
        bit_offset < 8,
        1 <= n <= 32,
    ensures
        r == field_at(data@, byte_pos as int, bit_offset as u64, n as u64),
{
    let num_bytes = (n + bit_offset + 7) / 8;
    assert(num_bytes <= 5);
    let len = data.len();
    let ghost b0 = byte_at(data@, byte_pos as int);
    let ghost b1 = byte_at(data@, byte_pos + 1);
    let ghost b2 = byte_at(data@, byte_pos + 2);
    let ghost b3 = byte_at(data@, byte_pos + 3);
    let ghost b4 = byte_at(data@, byte_pos + 4);
    let mut val: u64 = 0;
    let mut i: usize = 0;
    proof {
        lemma_join_step(b0, b1, b2, b3, b4, 0);
    }
    while i < num_bytes
        invariant
            i <= num_bytes <= 5,
            len == data@.len(),
            b0 == byte_at(data@, byte_pos as int),
            b1 == byte_at(data@, byte_pos + 1),
            b2 == byte_at(data@, byte_pos + 2),
            b3 == byte_at(data@, byte_pos + 3),
            b4 == byte_at(data@, byte_pos + 4),
            val == join_first(b0, b1, b2, b3, b4, i as u64),
        decreases num_bytes - i,
    {
        proof {
            lemma_join_step(b0, b1, b2, b3, b4, i as u64);
        }
        if byte_pos < len && i < len - byte_pos {
            val = val | ((data[byte_pos + i] as u64) << (i * 8));
        } else {
            assert(pick(b0, b1, b2, b3, b4, i as u64) == 0);
            assert(val | (0u64 << ((i * 8) as u64)) == val) by (bit_vector);
        }
        i += 1;
    }
    proof {
        lemma_join_enough(b0, b1, b2, b3, b4, bit_offset as u64, n as u64);
    }
    let mask = mask_of(n);
    ((val >> bit_offset) & mask) as u32
}

/// Overwrites the `n`-bit field that starts `bit_offset` bits into byte
/// `byte_pos` with `value`, clearing the field first. Nothing outside the
/// field changes, and bytes past the end of `data` are skipped.
pub fn write_field(data: &mut [u8], byte_pos: usize, bit_offset: usize, n: usize, value: u32)
    requires
        bit_offset < 8,
        1 <= n <= 32,
    ensures
        final(data)@ == with_field(
            old(data)@,
            byte_pos as int,
            bit_offset as u64,
            n as u64,
            value,
        ),
{
    let num_bytes = (n + bit_offset + 7) / 8;
    assert(num_bytes <= 5);
    let len = data.len();
    let v: u64 = (value as u64) << bit_offset;
    let mask: u64 = mask_of(n) << bit_offset;
    let ghost orig = data@;
    let mut i: usize = 0;
    while i < num_bytes
        invariant
            i <= num_bytes <= 5,
            len == data@.len(),
            len == orig.len(),
            data@ == store_bytes(orig, byte_pos as int, mask, v, i as int),
        decreases num_bytes - i,
    {
        if byte_pos < len && i < len - byte_pos {
            let byte_mask = ((mask >> (i * 8)) & 0xFF) as u8;
            let value_byte = ((v >> (i * 8)) & 0xFF) as u8;
            let cur = data[byte_pos + i];
            data[byte_pos + i] = (cur & !byte_mask) | value_byte;
        }
        i += 1;
        assert(data@ =~= store_bytes(orig, byte_pos as int, mask, v, i as int));
    }
}

/// ORs `value` into the `n`-bit field that starts `bit_offset` bits into byte
/// `byte_pos`. No bit is cleared, and bytes past the end of `data` are
/// skipped.
pub fn or_field(data: &mut [u8], byte_pos: usize, bit_offset: usize, n: usize, value: u32)
    requires
        bit_offset < 8,
        1 <= n <= 32,
    ensures
        final(data)@ == with_field_or(
            old(data)@,
            byte_pos as int,
            bit_offset as u64,
            n as u64,
            value,
        ),
{
    let num_bytes = (n + bit_offset + 7) / 8;
    assert(num_bytes <= 5);
    let len = data.len();
    let v: u64 = (value as u64) << bit_offset;
    let ghost orig = data@;
    let mut i: usize = 0;
    while i < num_bytes
        invariant
            i <= num_bytes <= 5,
            len == data@.len(),
            len == orig.len(),
            data@ == or_bytes(orig, byte_pos as int, v, i as int),
        decreases num_bytes - i,
    {
        if byte_pos < len && i < len - byte_pos {
            let value_byte = ((v >> (i * 8)) & 0xFF) as u8;
            let cur = data[byte_pos + i];
            data[byte_pos + i] = cur | value_byte;
        }
        i += 1;
        assert(data@ =~= or_bytes(orig, byte_pos as int, v, i as int));
    }
}

/// Element `i` of an array of `n`-bit values packed from byte `base` of `s` on:
/// the field that starts at bit `i * n` of that region.
pub open spec fn element(s: Seq<u8>, base: int, n: usize, i: int) -> u32 {
    field_at(s, base + (i * n) / 8, ((i * n) % 8) as u64, n as u64)
}

/// The first `len` elements of the array packed from byte `base` of `s` on.
pub open spec fn elements(s: Seq<u8>, base: int, n: usize, len: nat) -> Seq<u32> {
    Seq::new(len, |i: int| element(s, base, n, i))
}

/// Number of bytes that `len` elements of `n` bits take, `ceil(len * n / 8)`.
pub open spec fn bytes_for(len: int, n: usize) -> int {
    (len * n + 7) / 8
}

/// `x` has no bit set at position `c` or above.
pub open spec fn tail_ok(x: u8, c: int) -> bool {
    if c <= 0 {
        x == 0
    } else if c >= 8 {
        true
    } else {
        x >> (c as u64) == 0
    }
}

/// Every bit of the region that starts at byte `base` of `s` is zero from bit
/// `bit` of the region on.
pub open spec fn clear_from(s: Seq<u8>, base: int, bit: int) -> bool {
    forall|k: int| base <= k < s.len() ==> tail_ok(#[trigger] s[k], bit - 8 * (k - base))
}

/// `t` is `s` after one write, of either kind, of `v` to element `i`.
pub open spec fn written(s: Seq<u8>, t: Seq<u8>, base: int, n: usize, i: int, v: u32) -> bool {
    ||| t == with_field(s, base + (i * n) / 8, ((i * n) % 8) as u64, n as u64, v)
    ||| t == with_field_or(s, base + (i * n) / 8, ((i * n) % 8) as u64, n as u64, v)
}

/// Bit `k` of the buffer `s`, counted from the least significant bit of its
/// first byte; bits past the end of the buffer are clear.
pub open spec fn bit_at(s: Seq<u8>, k: int) -> bool {
    (byte_at(s, k / 8) >> ((k % 8) as u64)) & 1 == 1
}

proof fn lemma_field_bit(b0: u8, b1: u8, b2: u8, b3: u8, b4: u8, off: u64, n: u64, j: u64)
    by (bit_vector)
    requires
        off < 8,
        1 <= n <= 32,
        j < 32,
    ensures
        j < n ==> ((extract(join5(b0, b1, b2, b3, b4), off, n) >> j) & 1 == 1) == ((pick(
            b0,
            b1,
            b2,
            b3,
            b4,
            ((off + j) / 8) as u64,
        ) >> ((off + j) % 8)) & 1 == 1),
        j >= n ==> (extract(join5(b0, b1, b2, b3, b4), off, n) >> j) & 1 == 0,
{
}

/// What an element is, bit by bit: bit `j` of element `i` is bit
/// `i * n + j` of the region that starts at byte `base`, for `j` below `n`,
/// and the bits of the element from `n` on are clear.
pub proof fn lemma_element_bit(s: Seq<u8>, base: int, n: usize, i: int, j: u64)
    requires
        1 <= n <= 32,
        0 <= base,
        0 <= i,
        j < 32,
    ensures
        j < n ==> ((element(s, base, n, i) >> j) & 1 == 1) == bit_at(s, 8 * base + i * n + j),
        j >= n ==> (element(s, base, n, i) >> j) & 1 == 0,
{
    lemma_positions(n, i, i + 1);
    let p = base + (i * n) / 8;
    let off = ((i * n) % 8) as u64;
    lemma_field_bit(
        byte_at(s, p),
        byte_at(s, p + 1),
        byte_at(s, p + 2),
        byte_at(s, p + 3),
        byte_at(s, p + 4),
        off,
        n as u64,
        j,
    );
    if j < n {
        let k = 8 * base + i * n + j;
        assert(k / 8 == p + (off + j) / 8);
        assert(k % 8 == (off + j) % 8);
    }
}

proof fn lemma_written_byte_bit(x: u8, off: u64, n: u64, v: u64, d: u64, r: u64)
    by (bit_vector)
    requires
        off < 8,
        1 <= n <= 32,
        v <= low_mask(n),
        d < 5,
        r < 8,
    ensures
        off <= 8 * d + r < off + n ==> ((merge(
            x,
            byte_of(low_mask(n) << off, d),
            byte_of(v << off, d),
        ) >> r) & 1 == 1) == ((v >> ((8 * d + r - off) as u64)) & 1 == 1),
        off <= 8 * d + r < off + n ==> (((x | byte_of(v << off, d)) >> r) & 1 == 1) == ((x >> r)
            & 1 == 1 || (v >> ((8 * d + r - off) as u64)) & 1 == 1),
        !(off <= 8 * d + r < off + n) ==> (merge(
            x,
            byte_of(low_mask(n) << off, d),
            byte_of(v << off, d),
        ) >> r) & 1 == (x >> r) & 1,
        !(off <= 8 * d + r < off + n) ==> ((x | byte_of(v << off, d)) >> r) & 1 == (x >> r) & 1,
{
}

/// What a write does, bit by bit: of the bits that the buffer holds, those
/// of element `i` become the bits of `v`, or are joined with them by OR,
/// and every other bit stays as it was.
pub proof fn lemma_written_bit(s: Seq<u8>, t: Seq<u8>, base: int, n: usize, i: int, v: u32, k: int)
    requires
        1 <= n <= 32,
        0 <= base,
        0 <= i,
        v <= max_value(n),
        written(s, t, base, n, i, v),
        0 <= k < 8 * s.len(),
    ensures
        t.len() == s.len(),
        !(8 * base + i * n <= k < 8 * base + i * n + n) ==> bit_at(t, k) == bit_at(s, k),
        8 * base + i * n <= k < 8 * base + i * n + n && t == replaced(s, base, n, i, v) ==> bit_at(
            t,
            k,
        ) == ((v >> ((k - (8 * base + i * n)) as u64)) & 1 == 1),
        8 * base + i * n <= k < 8 * base + i * n + n && t != replaced(s, base, n, i, v) ==> bit_at(
            t,
            k,
        ) == (bit_at(s, k) || (v >> ((k - (8 * base + i * n)) as u64)) & 1 == 1),
{
    lemma_low_mask(n as u64);
    lemma_positions(n, i, i + 1);
    let p = base + (i * n) / 8;
    let off = ((i * n) % 8) as u64;
    let byte = k / 8;
    let r = (k % 8) as u64;
    let x = s[byte];
    if p <= byte < p + span(off, n as u64) {
        let d = (byte - p) as u64;
        lemma_written_byte_bit(x, off, n as u64, v as u64, d, r);
        assert(8 * d + r - off == k - (8 * base + i * n));
    } else {
        assert(t[byte] == x);
    }
}

/// `2^n - 1` is what `max_value` names.
pub proof fn lemma_max_value_is_pow2(n: usize)
    requires
        n <= 32,
    ensures
        max_value(n) == vstd::arithmetic::power2::pow2(n as nat) - 1,
{
    lemma_low_mask(n as u64);
    vstd::bits::lemma_u64_pow2_no_overflow(n as nat);
    vstd::bits::lemma_u64_shl_is_mul(1, n as u64);
}

proof fn lemma_positions(n: usize, i: int, j: int)
    requires
        1 <= n <= 32,
        0 <= i < j,
    ensures
        0 <= i * n,
        (i + 1) * n <= j * n,
        (i + 1) * n == i * n + n,
{
    assert(0 <= i * n) by (nonlinear_arith)
        requires
            0 <= i,
            0 <= n,
    ;
    assert((i + 1) * n <= j * n) by (nonlinear_arith)
        requires
            i + 1 <= j,
            0 <= n,
    ;
    assert((i + 1) * n == i * n + n) by (nonlinear_arith);
}

proof fn lemma_window_byte(
    s: Seq<u8>,
    t: Seq<u8>,
    base: int,
    n: usize,
    i: int,
    j: int,
    v: u32,
    tt: int,
)
    requires
        1 <= n <= 32,
        0 <= base,
        0 <= i,
        0 <= j,
        i != j,
        v <= max_value(n),
        written(s, t, base, n, i, v),
        0 <= tt < 5,
    ensures
        byte_at(t, base + (j * n) / 8 + tt) & byte_of(
            low_mask(n as u64) << (((j * n) % 8) as u64),
            tt as u64,
        ) == byte_at(s, base + (j * n) / 8 + tt) & byte_of(
            low_mask(n as u64) << (((j * n) % 8) as u64),
            tt as u64,
        ),
{
    lemma_low_mask(n as u64);
    if i < j {
        lemma_positions(n, i, j);
        lemma_positions(n, j, j + 1);
    } else {
        lemma_positions(n, j, i);
        lemma_positions(n, i, i + 1);
    }
    let pw = base + (i * n) / 8;
    let ow = ((i * n) % 8) as u64;
    let pr = base + (j * n) / 8;
    let or = ((j * n) % 8) as u64;
    let k = pr + tt;
    let x = byte_at(s, k);
    if 0 <= k < s.len() && pw <= k < pw + span(ow, n as u64) {
        let d = (k - pw) as u64;
        lemma_byte_untouched(x, ow, or, n as u64, v as u64, tt as u64, d);
    }
}

/// A write to element `i` leaves every other element as it was.
pub proof fn lemma_written_other(s: Seq<u8>, t: Seq<u8>, base: int, n: usize, i: int, j: int, v: u32)
    requires
        1 <= n <= 32,
        0 <= base,
        0 <= i,
        0 <= j,
        i != j,
        v <= max_value(n),
        written(s, t, base, n, i, v),
    ensures
        element(t, base, n, j) == element(s, base, n, j),
{
    let pr = base + (j * n) / 8;
    let or = ((j * n) % 8) as u64;
    lemma_window_byte(s, t, base, n, i, j, v, 0);
    lemma_window_byte(s, t, base, n, i, j, v, 1);
    lemma_window_byte(s, t, base, n, i, j, v, 2);
    lemma_window_byte(s, t, base, n, i, j, v, 3);
    lemma_window_byte(s, t, base, n, i, j, v, 4);
    lemma_same_field(
        byte_at(t, pr),
        byte_at(t, pr + 1),
        byte_at(t, pr + 2),
        byte_at(t, pr + 3),
        byte_at(t, pr + 4),
        byte_at(s, pr),
        byte_at(s, pr + 1),
        byte_at(s, pr + 2),
        byte_at(s, pr + 3),
        byte_at(s, pr + 4),
        or,
        n as u64,
    );
}

/// Overwriting element `i` with `v` makes it read `v`, given that the buffer
/// holds all of its bytes.
pub proof fn lemma_stored_reads(s: Seq<u8>, base: int, n: usize, i: int, v: u32)
    requires
        1 <= n <= 32,
        0 <= base,
        0 <= i,
        v <= max_value(n),
        base + bytes_for(i + 1, n) <= s.len(),
    ensures
        element(with_field(s, base + (i * n) / 8, ((i * n) % 8) as u64, n as u64, v), base, n, i)
            == v,
{
    lemma_low_mask(n as u64);
    lemma_positions(n, i, i + 1);
    let p = base + (i * n) / 8;
    let off = ((i * n) % 8) as u64;
    lemma_store_hit(
        byte_at(s, p),
        byte_at(s, p + 1),
        byte_at(s, p + 2),
        byte_at(s, p + 3),
        byte_at(s, p + 4),
        off,
        n as u64,
        v as u64,
    );
}

/// OR-ing `v` into element `i` makes it read its old value OR `v`, given that
/// the buffer holds all of its bytes.
pub proof fn lemma_ored_reads(s: Seq<u8>, base: int, n: usize, i: int, v: u32)
    requires
        1 <= n <= 32,
        0 <= base,
        0 <= i,
        v <= max_value(n),
        base + bytes_for(i + 1, n) <= s.len(),
    ensures
        element(
            with_field_or(s, base + (i * n) / 8, ((i * n) % 8) as u64, n as u64, v),
            base,
            n,
            i,
        ) == element(s, base, n, i) | v,
{
    lemma_low_mask(n as u64);
    lemma_positions(n, i, i + 1);
    let p = base + (i * n) / 8;
    let off = ((i * n) % 8) as u64;
    lemma_or_hit(
        byte_at(s, p),
        byte_at(s, p + 1),
        byte_at(s, p + 2),
        byte_at(s, p + 3),
        byte_at(s, p + 4),
        off,
        n as u64,
        v as u64,
    );
}

/// Where the region is clear from the first bit of element `i` on, that
/// element reads zero.
pub proof fn lemma_clear_reads_zero(s: Seq<u8>, base: int, n: usize, i: int)
    requires
        1 <= n <= 32,
        0 <= base,
        0 <= i,
        clear_from(s, base, i * n),
    ensures
        element(s, base, n, i) == 0,
{
    lemma_positions(n, i, i + 1);
    let p = base + (i * n) / 8;
    let off = ((i * n) % 8) as u64;
    let b0 = byte_at(s, p);
    assert(off > 0 ==> 0u8 >> off == 0) by (bit_vector);
    if p < s.len() {
        assert(tail_ok(s[p], i * n - 8 * (p - base)));
    }
    assert(byte_at(s, p + 1) == 0) by {
        if p + 1 < s.len() {
            assert(tail_ok(s[p + 1], i * n - 8 * (p + 1 - base)));
        }
    }
    assert(byte_at(s, p + 2) == 0) by {
        if p + 2 < s.len() {
            assert(tail_ok(s[p + 2], i * n - 8 * (p + 2 - base)));
        }
    }
    assert(byte_at(s, p + 3) == 0) by {
        if p + 3 < s.len() {
            assert(tail_ok(s[p + 3], i * n - 8 * (p + 3 - base)));
        }
    }
    assert(byte_at(s, p + 4) == 0) by {
        if p + 4 < s.len() {
            assert(tail_ok(s[p + 4], i * n - 8 * (p + 4 - base)));
        }
    }
    lemma_clear_field(b0, off, n as u64);
}

proof fn lemma_tail_wider(x: u8, a: int, b: int)
    requires
        a <= b,
        tail_ok(x, a),
    ensures
        tail_ok(x, b),
{
    if 0 < b < 8 {
        if a <= 0 {
            let c = b as u64;
            assert(0u8 >> c == 0) by (bit_vector);
        } else {
            lemma_tail_grows(x, a as u64, b as u64);
        }
    }
}

/// A write to element `i` keeps the region clear from any bit on that lies at
/// or past the end of that element.
pub proof fn lemma_written_keeps_clear(
    s: Seq<u8>,
    t: Seq<u8>,
    base: int,
    n: usize,
    i: int,
    v: u32,
    from: int,
    to: int,
)
    requires
        1 <= n <= 32,
        0 <= base,
        0 <= i,
        v <= max_value(n),
        written(s, t, base, n, i, v),
        clear_from(s, base, from),
        from <= to,
        (i + 1) * n <= to,
    ensures
        clear_from(t, base, to),
{
    lemma_low_mask(n as u64);
    lemma_positions(n, i, i + 1);
    let p = base + (i * n) / 8;
    let off = ((i * n) % 8) as u64;
    assert forall|k: int| base <= k < t.len() implies tail_ok(
        #[trigger] t[k],
        to - 8 * (k - base),
    ) by {
        let x = s[k];
        let c = to - 8 * (k - base);
        assert(tail_ok(x, from - 8 * (k - base)));
        lemma_tail_wider(x, from - 8 * (k - base), c);
        if p <= k < p + span(off, n as u64) && c < 8 {
            let d = (k - p) as u64;
            let cc = if c < 0 {
                0u64
            } else {
                c as u64
            };
            lemma_tail_byte(x, off, n as u64, v as u64, d, cc);
        }
    }
}

/// Two buffers that agree on every byte from `base` on, bytes past the end
/// counting as zero, hold the same elements.
pub proof fn lemma_same_region(s: Seq<u8>, t: Seq<u8>, base: int, n: usize, i: int)
    requires
        0 <= base,
        0 <= i,
        forall|k: int| base <= k ==> byte_at(s, k) == byte_at(t, k),
    ensures
        element(s, base, n, i) == element(t, base, n, i),
{
    assert(0 <= i * n) by (nonlinear_arith)
        requires
            0 <= i,
            0 <= n,
    ;
}

/// `s`, lengthened with zero bytes where it is shorter than `need`.
pub open spec fn grown(s: Seq<u8>, need: int) -> Seq<u8> {
    if s.len() >= need {
        s
    } else {
        s + Seq::new((need - s.len()) as nat, |i: int| 0u8)
    }
}

/// The buffer after `v` has been appended as element `len`: grown with zero
/// bytes as far as the new element reaches, then `v` OR-ed into its field.
pub open spec fn pushed(s: Seq<u8>, base: int, n: usize, len: int, v: u32) -> Seq<u8> {
    with_field_or(
        grown(s, base + bytes_for(len + 1, n)),
        base + (len * n) / 8,
        ((len * n) % 8) as u64,
        n as u64,
        v,
    )
}

/// The buffer after element `i` has been overwritten with `v`.
pub open spec fn replaced(s: Seq<u8>, base: int, n: usize, i: int, v: u32) -> Seq<u8> {
    with_field(s, base + (i * n) / 8, ((i * n) % 8) as u64, n as u64, v)
}

/// Growing a buffer with zero bytes changes no element and keeps it clear.
pub proof fn lemma_grown(s: Seq<u8>, need: int, base: int, n: usize)
    requires
        0 <= base,
    ensures
        grown(s, need).len() == if s.len() >= need {
            s.len() as int
        } else {
            need
        },
        forall|k: int| 0 <= k < s.len() ==> grown(s, need)[k] == s[k],
        forall|k: int| s.len() <= k < grown(s, need).len() ==> grown(s, need)[k] == 0,
        forall|i: int| 0 <= i ==> element(grown(s, need), base, n, i) == element(s, base, n, i),
        forall|bit: int| clear_from(s, base, bit) ==> clear_from(grown(s, need), base, bit),
{
    let g = grown(s, need);
    assert forall|i: int| 0 <= i implies element(g, base, n, i) == element(s, base, n, i) by {
        lemma_same_region(g, s, base, n, i);
    }
    assert forall|bit: int| clear_from(s, base, bit) implies clear_from(g, base, bit) by {
        assert forall|k: int| base <= k < g.len() implies tail_ok(
            #[trigger] g[k],
            bit - 8 * (k - base),
        ) by {
            if k < s.len() {
                assert(tail_ok(s[k], bit - 8 * (k - base)));
            } else if bit - 8 * (k - base) > 0 {
                lemma_tail_wider(0u8, 0, bit - 8 * (k - base));
            }
        }
    }
}

/// What appending does to the elements: the earlier ones stay, and the new
/// one reads `v` OR-ed onto whatever the buffer held in its place. Where the
/// buffer was clear past its last element, the new element reads `v` and the
/// buffer is clear past it again.
pub proof fn lemma_pushed(s: Seq<u8>, base: int, n: usize, len: nat, v: u32)
    requires
        1 <= n <= 32,
        0 <= base,
        v <= max_value(n),
    ensures
        pushed(s, base, n, len as int, v).len() == if s.len() >= base + bytes_for(len as int + 1, n) {
            s.len() as int
        } else {
            base + bytes_for(len as int + 1, n)
        },
        forall|k: int|
            0 <= k < base && k < s.len() ==> pushed(s, base, n, len as int, v)[k] == s[k],
        elements(pushed(s, base, n, len as int, v), base, n, len + 1) == elements(
            s,
            base,
            n,
            len,
        ).push(element(s, base, n, len as int) | v),
        clear_from(s, base, len * n) ==> {
            &&& clear_from(pushed(s, base, n, len as int, v), base, (len + 1) * n)
            &&& elements(pushed(s, base, n, len as int, v), base, n, len + 1) == elements(
                s,
                base,
                n,
                len,
            ).push(v)
        },
{
    let need = base + bytes_for(len as int + 1, n);
    let g = grown(s, need);
    let t = pushed(s, base, n, len as int, v);
    lemma_grown(s, need, base, n);
    lemma_positions(n, len as int, len as int + 1);
    assert(written(g, t, base, n, len as int, v));
    lemma_ored_reads(g, base, n, len as int, v);
    assert forall|j: int| 0 <= j < len implies element(t, base, n, j) == element(s, base, n, j) by {
        lemma_written_other(g, t, base, n, len as int, j, v);
    }
    assert(elements(t, base, n, len + 1) =~= elements(s, base, n, len).push(
        element(s, base, n, len as int) | v,
    ));
    if clear_from(s, base, len * n) {
        lemma_clear_reads_zero(g, base, n, len as int);
        assert(0u32 | v == v) by (bit_vector);
        lemma_written_keeps_clear(g, t, base, n, len as int, v, len * n, (len + 1) * n);
    }
}

/// What overwriting does to the elements: element `i` reads `v`, the others
/// stay, and a buffer that was clear past its last element still is.
pub proof fn lemma_replaced(s: Seq<u8>, base: int, n: usize, len: nat, i: int, v: u32)
    requires
        1 <= n <= 32,
        0 <= base,
        0 <= i < len,
        v <= max_value(n),
        base + bytes_for(len as int, n) <= s.len(),
    ensures
        replaced(s, base, n, i, v).len() == s.len(),
        forall|k: int| 0 <= k < base ==> replaced(s, base, n, i, v)[k] == s[k],
        elements(replaced(s, base, n, i, v), base, n, len) == elements(s, base, n, len).update(
            i,
            v,
        ),
        clear_from(s, base, len * n) ==> clear_from(replaced(s, base, n, i, v), base, len * n),
{
    let t = replaced(s, base, n, i, v);
    lemma_positions(n, i, len as int);
    lemma_positions(n, i, i + 1);
    assert(written(s, t, base, n, i, v));
    lemma_stored_reads(s, base, n, i, v);
    assert forall|j: int| 0 <= j < len && j != i implies element(t, base, n, j) == element(
        s,
        base,
        n,
        j,
    ) by {
        lemma_written_other(s, t, base, n, i, j, v);
    }
    assert(elements(t, base, n, len) =~= elements(s, base, n, len).update(i, v));
    if clear_from(s, base, len * n) {
        lemma_written_keeps_clear(s, t, base, n, i, v, len * n, len * n);
    }
}

/// The buffer after the values of `values` have been appended in turn, the
/// first of them as element `len`.
pub open spec fn pushed_all(s: Seq<u8>, base: int, n: usize, len: int, values: Seq<u32>) -> Seq<u8>
    decreases values.len(),
{
    if values.len() == 0 {
        s
    } else {
        pushed(
            pushed_all(s, base, n, len, values.drop_last()),
            base,
            n,
            len + values.len() - 1,
            values.last(),
        )
    }
}

/// Every value of `values` fits in `n` bits.
pub open spec fn all_fit(values: Seq<u32>, n: usize) -> bool {
    forall|i: int| 0 <= i < values.len() ==> #[trigger] values[i] <= max_value(n)
}

/// Appending values that fit to a buffer that is clear past its last element
/// appends them to the elements, and leaves the buffer clear past the new
/// last element.
pub proof fn lemma_pushed_all(s: Seq<u8>, base: int, n: usize, len: nat, values: Seq<u32>)
    requires
        1 <= n <= 32,
        0 <= base,
        all_fit(values, n),
        clear_from(s, base, len * n),
    ensures
        s.len() <= pushed_all(s, base, n, len as int, values).len(),
        forall|k: int|
            0 <= k < base && k < s.len() ==> pushed_all(s, base, n, len as int, values)[k]
                == s[k],
        clear_from(pushed_all(s, base, n, len as int, values), base, (len + values.len()) * n),
        elements(pushed_all(s, base, n, len as int, values), base, n, len + values.len())
            == elements(s, base, n, len) + values,
    decreases values.len(),
{
    if values.len() == 0 {
        assert(elements(s, base, n, len) + values =~= elements(s, base, n, len));
    } else {
        let front = values.drop_last();
        let mid = pushed_all(s, base, n, len as int, front);
        lemma_pushed_all(s, base, n, len, front);
        lemma_pushed(mid, base, n, len + front.len(), values.last());
        assert(elements(s, base, n, len) + values =~= (elements(s, base, n, len) + front).push(
            values.last(),
        ));
    }
}

/// Splits the bit position `index * n` into a byte position and a bit offset
/// below 8, without overflow in between.
pub fn locate(index: usize, n: usize) -> (r: (usize, usize))
    requires
        1 <= n <= 32,
        (index * n) / 8 <= usize::MAX,
    ensures
        r.0 == (index * n) / 8,
        r.1 == (index * n) % 8,
{
    assert(0 <= index * n <= 0xffff_ffff_ffff_ffff * 32) by (nonlinear_arith)
        requires
            0 <= index <= 0xffff_ffff_ffff_ffff,
            1 <= n <= 32,
    ;
    let bits: u128 = (index as u128) * (n as u128);
    ((bits / 8) as usize, (bits % 8) as usize)
}

/// The number of bytes that `len` elements of `n` bits take, or `None` where
/// that number does not fit in `usize`.
pub fn byte_count(len: usize, n: usize) -> (r: Option<usize>)
    requires
        1 <= n <= 32,
    ensures
        r == if bytes_for(len as int, n) <= usize::MAX {
            Some(bytes_for(len as int, n) as usize)
        } else {
            None
        },
{
    assert(0 <= len * n <= 0xffff_ffff_ffff_ffff * 32) by (nonlinear_arith)
        requires
            0 <= len <= 0xffff_ffff_ffff_ffff,
            1 <= n <= 32,
    ;
    let bits: u128 = (len as u128) * (n as u128);
    let bytes: u128 = (bits + 7) / 8;
    if bytes <= usize::MAX as u128 {
        Some(bytes as usize)
    } else {
        None
    }
}

/// Number of whole `n`-bit elements that fit in `byte_capacity` bytes, capped
/// at `usize::MAX`.
pub open spec fn element_capacity(byte_capacity: usize, n: usize) -> usize {
    if (byte_capacity * 8) / (n as int) <= usize::MAX {
        ((byte_capacity * 8) / (n as int)) as usize
    } else {
        usize::MAX
    }
}

/// Computes [`element_capacity`].
pub fn capacity_in_elements(byte_capacity: usize, n: usize) -> (r: usize)
    requires
        1 <= n <= 32,
    ensures
        r == element_capacity(byte_capacity, n),
{
    let bits: u128 = (byte_capacity as u128) * 8;
    let count: u128 = bits / (n as u128);
    if count <= usize::MAX as u128 {
        count as usize
    } else {
        usize::MAX
    }
}

/// Like [`locate`], for a region that starts at byte `base`: the byte
/// position counts from the start of the buffer. `None` where that position
/// does not fit in `usize`, so that no buffer can hold the byte.
pub fn locate_from(base: usize, index: usize, n: usize) -> (r: Option<(usize, usize)>)
    requires
        1 <= n <= 32,
    ensures
        match r {
            Some((p, off)) => p == base + (index * n) / 8 && off == (index * n) % 8,
            None => base + (index * n) / 8 > usize::MAX,
        },
{
    assert(0 <= index * n <= 0xffff_ffff_ffff_ffff * 32) by (nonlinear_arith)
        requires
            0 <= index <= 0xffff_ffff_ffff_ffff,
            1 <= n <= 32,
    ;
    let bits: u128 = (index as u128) * (n as u128);
    let p: u128 = (base as u128) + bits / 8;
    if p <= usize::MAX as u128 {
        Some((p as usize, (bits % 8) as usize))
    } else {
        None
    }
}

/// A field that starts past the end of the buffer reads zero, and a write to
/// it changes nothing.
pub proof fn lemma_field_past_end(s: Seq<u8>, p: int, off: u64, n: u64, v: u32)
    requires
        s.len() <= p,
        off < 8,
        1 <= n <= 32,
    ensures
        field_at(s, p, off, n) == 0,
        with_field(s, p, off, n, v) == s,
        with_field_or(s, p, off, n, v) == s,
{
    assert(extract(join5(0, 0, 0, 0, 0), off, n) == 0) by (bit_vector)
        requires
            off < 8,
            1 <= n <= 32,
    ;
    assert(with_field(s, p, off, n, v) =~= s);
    assert(with_field_or(s, p, off, n, v) =~= s);
}

/// Values of `n` bits stay within `n` bits under OR, AND-NOT and XOR.
pub proof fn lemma_masks_fit(a: u32, b: u32, n: usize)
    requires
        1 <= n <= 32,
        a <= max_value(n),
    ensures
        a & !b <= max_value(n),
        b <= max_value(n) ==> a | b <= max_value(n) && a ^ b <= max_value(n),
{
    lemma_low_mask(n as u64);
    let m = n as u64;
    assert((a as u64) <= low_mask(m) ==> ((a & !b) as u64) <= low_mask(m)) by (bit_vector)
        requires
            1 <= m <= 32,
    ;
    assert((a as u64) <= low_mask(m) && (b as u64) <= low_mask(m) ==> ((a | b) as u64) <= low_mask(
        m,
    ) && ((a ^ b) as u64) <= low_mask(m)) by (bit_vector)
        requires
            1 <= m <= 32,
    ;
}

/// Every element fits in `n` bits.
pub proof fn lemma_element_fits(s: Seq<u8>, base: int, n: usize, i: int)
    requires
        1 <= n <= 32,
    ensures
        element(s, base, n, i) <= max_value(n),
{
    lemma_low_mask(n as u64);
    let w = word_at(s, base + (i * n) / 8);
    let off = ((i * n) % 8) as u64;
    let m = n as u64;
    assert(((w >> off) & low_mask(m)) <= low_mask(m)) by (bit_vector);
}

} // verus!
