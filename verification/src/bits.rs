//! Reading and writing a run of bits inside a byte buffer.
//!
//! Bits are numbered from the most significant bit of `data[0]`: position
//! `p` is bit `7 - p % 8` of byte `p / 8`. A field of `width` bits stored at
//! `offset` occupies positions `offset .. offset + width`, its most
//! significant bit first.
use vstd::arithmetic::power2::{
    lemma2_to64, lemma_pow2_adds, lemma_pow2_pos, lemma_pow2_strictly_increases, lemma_pow2_unfold, pow2,
};
use vstd::bits::lemma_u64_shl_is_mul;
use vstd::prelude::*;

verus! {

/// The bit (0 or 1) at position `p` of `data`.
pub open spec fn bit_at(data: Seq<u8>, p: int) -> u64 {
    ((data[p / 8] as u64) >> ((7 - p % 8) as u64)) & 1
}

/// The number whose binary digits are the `len` bits of `data` starting at
/// position `start`, the first of them being the most significant.
pub open spec fn bits_value(data: Seq<u8>, start: int, len: nat) -> nat
    decreases len,
{
    if len == 0 {
        0
    } else {
        bits_value(data, start, (len - 1) as nat) * 2 + bit_at(data, start + len - 1) as nat
    }
}

/// Bit `i` of a `width`-bit field holding `v`, bit 0 being the most significant.
pub open spec fn field_bit(v: u64, width: nat, i: int) -> u64 {
    (v >> ((width - 1 - i) as u64)) & 1
}

/// The mask of the `n` low bits of a `u64`.
pub open spec fn low_mask(n: nat) -> u64 {
    if n >= 64 {
        u64::MAX
    } else {
        ((1u64 << (n as u64)) - 1) as u64
    }
}

/// What a write of `v` into the `width` bits at `offset` leaves at position
/// `p`: the old bit, or-ed with the field's bit when `p` lies in the field.
pub open spec fn written_bit(old: Seq<u8>, offset: int, width: nat, v: u64, p: int) -> u64 {
    if offset <= p < offset + width {
        bit_at(old, p) | field_bit(v, width, p - offset)
    } else {
        bit_at(old, p)
    }
}

/// `data` after a write of `v` into the `width` bits at `offset`: every bit
/// of the buffer, bit by bit.
pub open spec fn is_written(old: Seq<u8>, new: Seq<u8>, offset: int, width: nat, v: u64) -> bool {
    &&& new.len() == old.len()
    &&& forall|p: int| 0 <= p < 8 * old.len() ==> #[trigger] bit_at(new, p) == written_bit(old, offset, width, v, p)
}

proof fn lemma_mask_step(x: u64, k: u64, n: u64)
    requires
        k + n + 1 <= 64,
    ensures
        (x >> k) & low_mask((n + 1) as nat) == ((x >> ((k + 1) as u64)) & low_mask(n as nat)) * 2
            + ((x >> k) & 1),
{
    if n + 1 < 64 {
        assert((x >> k) & (((1u64 << ((n + 1) as u64)) - 1) as u64) == ((x >> ((k + 1) as u64)) & (
        ((1u64 << n) - 1) as u64)) * 2 + ((x >> k) & 1)) by (bit_vector)
            requires
                k + n + 1 <= 64,
                n + 1 < 64,
        ;
    } else {
        assert(k == 0);
        assert(x & 0xffff_ffff_ffff_ffffu64 == ((x >> 1u64) & (((1u64 << 63u64) - 1) as u64)) * 2 + (x
            & 1)) by (bit_vector);
        assert((x >> 0u64) == x) by (bit_vector);
    }
}

/// The bits of a region that carry the bits of a word `x` read back as that
/// part of `x`.
proof fn lemma_bits_value_of_word(data: Seq<u8>, start: int, x: u64, k: nat, n: nat)
    requires
        k + n <= 64,
        forall|i: int| 0 <= i < n ==> #[trigger] bit_at(data, start + i) == (x >> ((k + n - 1 - i) as u64)) & 1,
    ensures
        bits_value(data, start, n) == ((x >> (k as u64)) & low_mask(n)) as nat,
    decreases n,
{
    if n == 0 {
        assert((x >> (k as u64)) & (((1u64 << 0u64) - 1) as u64) == 0) by (bit_vector);
    } else {
        assert forall|i: int| 0 <= i < n - 1 implies #[trigger] bit_at(data, start + i) == (x >> ((
        (k + 1) + (n - 1) - 1 - i) as u64)) & 1 by {
            assert(bit_at(data, start + i) == (x >> ((k + n - 1 - i) as u64)) & 1);
        }
        lemma_bits_value_of_word(data, start, x, k + 1, (n - 1) as nat);
        assert(bit_at(data, start + n - 1) == (x >> (k as u64)) & 1) by {
            assert(bit_at(data, start + (n - 1)) == (x >> ((k + n - 1 - (n - 1)) as u64)) & 1);
        }
        lemma_mask_step(x, k as u64, (n - 1) as u64);
    }
}

pub(crate) proof fn lemma_bits_value_bound(data: Seq<u8>, start: int, n: nat)
    ensures
        bits_value(data, start, n) < pow2(n),
    decreases n,
{
    if n == 0 {
        lemma2_to64();
    } else {
        lemma_bits_value_bound(data, start, (n - 1) as nat);
        lemma_pow2_unfold(n);
        assert(bit_at(data, start + n - 1) <= 1) by {
            let b = data[(start + n - 1) / 8] as u64;
            let s = ((7 - (start + n - 1) % 8) as u64);
            assert((b >> s) & 1 <= 1) by (bit_vector);
        }
    }
}

proof fn lemma_bits_value_concat(data: Seq<u8>, start: int, a: nat, c: nat)
    ensures
        bits_value(data, start, a + c) == bits_value(data, start, a) * pow2(c) + bits_value(
            data,
            start + a,
            c,
        ),
    decreases c,
{
    if c == 0 {
        lemma2_to64();
    } else {
        lemma_bits_value_concat(data, start, a, (c - 1) as nat);
        lemma_pow2_unfold(c);
        let x = bits_value(data, start, a);
        let p = pow2((c - 1) as nat);
        let y = bits_value(data, start + a, (c - 1) as nat);
        assert((x * p + y) * 2 == x * (2 * p) + y * 2) by (nonlinear_arith);
        assert(bits_value(data, start, a + c) == bits_value(data, start, (a + c - 1) as nat) * 2
            + bit_at(data, start + (a + c) - 1));
        assert(bits_value(data, start + a, c) == y * 2 + bit_at(data, start + a + c - 1));
    }
}

/// The `bits` bits of byte `data[idx]` from bit position `off` of that byte read
/// as the value of the corresponding positions of the buffer.
proof fn lemma_byte_chunk(data: Seq<u8>, idx: int, off: nat, bits: nat)
    requires
        0 <= idx < data.len(),
        off + bits <= 8,
    ensures
        bits_value(data, 8 * idx + off, bits) == (((data[idx] as u64) >> ((8 - bits - off) as u64))
            & low_mask(bits)) as nat,
{
    let x = data[idx] as u64;
    let k = (8 - bits - off) as nat;
    assert forall|i: int| 0 <= i < bits implies #[trigger] bit_at(data, 8 * idx + off + i) == (x >> ((
    k + bits - 1 - i) as u64)) & 1 by {
        let p = 8 * idx + off + i;
        assert(p / 8 == idx && p % 8 == off + i);
    }
    lemma_bits_value_of_word(data, 8 * idx + off, x, k, bits);
}

proof fn lemma_pow2_le_64(e: nat)
    requires
        e <= 64,
    ensures
        pow2(e) <= 0x1_0000_0000_0000_0000,
{
    lemma2_to64();
    if e < 64 {
        lemma_pow2_strictly_increases(e, 64);
    }
}

/// One step of `get_bits`: or-ing the next chunk of `bits` bits, shifted to its
/// place, into the value read so far.
proof fn lemma_get_step(
    data: Seq<u8>,
    offset: int,
    idx: int,
    off: nat,
    consumed: nat,
    bits: nat,
    rem: nat,
    chunk: u64,
)
    requires
        0 <= idx < data.len(),
        1 <= bits,
        off + bits <= 8,
        8 * idx + off == offset + consumed,
        consumed + bits + rem <= 64,
        bits_value(data, offset, consumed) < pow2(consumed),
        chunk == ((data[idx] as u64) >> ((8 - bits - off) as u64)) & (((1u64 << (bits as u64)) - 1) as u64),
    ensures
        bits_value(data, offset, consumed + bits) < pow2(consumed + bits),
        ((bits_value(data, offset, consumed) as u64) << ((rem + bits) as u64)) | (chunk << (rem as u64))
            == (bits_value(data, offset, consumed + bits) as u64) << (rem as u64),
{
    let a = bits_value(data, offset, consumed);
    let cb: nat = consumed + bits;
    lemma_byte_chunk(data, idx, off, bits);
    assert(((1u64 << (bits as u64)) - 1) as u64 == low_mask(bits));
    assert(chunk as nat == bits_value(data, offset + consumed, bits));
    lemma_bits_value_concat(data, offset, consumed, bits);
    lemma_bits_value_bound(data, offset, cb);
    let r = rem as u64;
    let bw = bits as u64;
    let au = a as u64;
    let o = off as u64;
    let byte = data[idx] as u64;
    assert(chunk < (1u64 << bw)) by (bit_vector)
        requires
            chunk == (byte >> ((8 - bw - o) as u64)) & (((1u64 << bw) - 1) as u64),
            1 <= bw <= 8,
    ;
    assert(au << ((r + bw) as u64) == (au << bw) << r) by (bit_vector)
        requires
            r + bw <= 64,
    ;
    let hi = au << bw;
    assert((hi << r) | (chunk << r) == (hi | chunk) << r) by (bit_vector);
    assert(hi | chunk == hi + chunk) by (bit_vector)
        requires
            hi == au << bw,
            chunk < (1u64 << bw),
            1 <= bw <= 8,
    ;
    lemma_pow2_adds(consumed, bits);
    lemma_pow2_pos(bits);
    assert(a * pow2(bits) < pow2(consumed) * pow2(bits)) by (nonlinear_arith)
        requires
            a < pow2(consumed),
            pow2(bits) > 0,
    ;
    lemma_pow2_le_64(cb);
    lemma_pow2_le_64(consumed);
    assert(au == a);
    lemma_u64_shl_is_mul(au, bw);
    assert(hi + chunk == bits_value(data, offset, cb));
}

/// Reads the `width` bits of `data` at bit position `offset`, the first of
/// them as the most significant bit of the result.
pub fn get_bits(data: &[u8], offset: usize, width: usize) -> (v: u64)
    requires
        width <= 64,
        offset + width <= 8 * data@.len(),
    ensures
        v as nat == bits_value(data@, offset as int, width as nat),
{
    let mut idx = offset / 8;
    let mut off = offset % 8;
    let mut v: u64 = 0;
    let mut remaining = width;
    proof {
        lemma2_to64();
        assert(0u64 << (width as u64) == 0) by (bit_vector);
    }
    while remaining > 0
        invariant
            width <= 64,
            offset + width <= 8 * data@.len(),
            remaining <= width,
            off < 8,
            remaining > 0 ==> 8 * idx + off == offset + (width - remaining),
            bits_value(data@, offset as int, (width - remaining) as nat) < pow2(
                (width - remaining) as nat,
            ),
            v == (bits_value(data@, offset as int, (width - remaining) as nat) as u64) << (
            remaining as u64),
        decreases remaining,
    {
        let ghost consumed = (width - remaining) as nat;
        let ghost a = bits_value(data@, offset as int, consumed);
        let bits = if remaining < 8 - off {
            remaining
        } else {
            8 - off
        };
        remaining -= bits;
        let byte = data[idx] as u64;
        let bw = bits as u64;
        assert(1u64 << bw >= 1) by (bit_vector)
            requires
                bw <= 8,
        ;
        let chunk = (byte >> ((8 - bits - off) as u64)) & ((1u64 << bw) - 1);
        proof {
            lemma_get_step(data@, offset as int, idx as int, off as nat, consumed, bits as nat, remaining as nat, chunk);
        }
        v = v | (chunk << (remaining as u64));
        idx += 1;
        off = 0;
    }
    proof {
        let a = bits_value(data@, offset as int, width as nat);
        let au = a as u64;
        assert(au << 0u64 == au) by (bit_vector);
        lemma_pow2_le_64(width as nat);
    }
    v
}

} // verus!

verus! {

proof fn lemma_bit_of_or(x: u64, y: u64, k: u64)
    requires
        k < 64,
    ensures
        ((x | y) >> k) & 1 == ((x >> k) & 1) | ((y >> k) & 1),
{
    assert(((x | y) >> k) & 1 == ((x >> k) & 1) | ((y >> k) & 1)) by (bit_vector);
}

proof fn lemma_bit_of_shifted(p: u64, bw: u64, s: u64, k: u64)
    requires
        p < (1u64 << bw),
        s + bw <= 8,
        k < 8,
    ensures
        ((p << s) >> k) & 1 == if s <= k && k < s + bw {
            (p >> ((k - s) as u64)) & 1
        } else {
            0
        },
        p << s < 256,
{
    assert(((p << s) >> k) & 1 == if s <= k && k < s + bw {
        (p >> ((k - s) as u64)) & 1
    } else {
        0
    }) by (bit_vector)
        requires
            p < (1u64 << bw),
            s + bw <= 8,
            k < 8,
    ;
    assert(p << s < 256) by (bit_vector)
        requires
            p < (1u64 << bw),
            s + bw <= 8,
    ;
}

proof fn lemma_bit_of_masked(v: u64, r: u64, bw: u64, i: u64)
    requires
        r + bw <= 64,
        1 <= bw <= 8,
        i < bw,
    ensures
        (((v >> r) & (((1u64 << bw) - 1) as u64)) >> i) & 1 == (v >> ((r + i) as u64)) & 1,
        (v >> r) & (((1u64 << bw) - 1) as u64) < (1u64 << bw),
{
    assert((((v >> r) & (((1u64 << bw) - 1) as u64)) >> i) & 1 == (v >> ((r + i) as u64)) & 1) by (
    bit_vector)
        requires
            r + bw <= 64,
            1 <= bw <= 8,
            i < bw,
    ;
    assert((v >> r) & (((1u64 << bw) - 1) as u64) < (1u64 << bw)) by (bit_vector)
        requires
            1 <= bw <= 8,
    ;
}

/// One step of `set_bits`: or-ing the next `bits` bits of the field into
/// byte `idx` writes exactly the field's bits at the positions of that byte.
proof fn lemma_set_step(
    orig: Seq<u8>,
    cur: Seq<u8>,
    offset: int,
    width: nat,
    v: u64,
    idx: int,
    off: nat,
    consumed: nat,
    bits: nat,
    rem: nat,
    piece: u64,
)
    requires
        cur.len() == orig.len(),
        0 <= idx < cur.len(),
        cur[idx] == orig[idx],
        1 <= bits,
        off + bits <= 8,
        8 * idx + off == offset + consumed,
        consumed + bits + rem == width,
        consumed > 0 ==> off == 0,
        rem > 0 ==> off + bits == 8,
        width <= 64,
        offset >= 0,
        piece == ((v >> (rem as u64)) & (((1u64 << (bits as u64)) - 1) as u64)) << ((8 - bits
            - off) as u64),
    ensures
        piece < 256,
        forall|j: int|
            0 <= j < 8 ==> #[trigger] bit_at(cur.update(idx, cur[idx] | (piece as u8)), 8 * idx + j)
                == written_bit(orig, offset, width, v, 8 * idx + j),
{
    let r = rem as u64;
    let bw = bits as u64;
    let s = (8 - bits - off) as u64;
    let masked = (v >> r) & (((1u64 << bw) - 1) as u64);
    lemma_bit_of_masked(v, r, bw, 0);
    lemma_bit_of_shifted(masked, bw, s, 0);
    let b = orig[idx];
    let new = cur.update(idx, cur[idx] | (piece as u8));
    assert((b | (piece as u8)) as u64 == (b as u64) | piece) by (bit_vector)
        requires
            piece < 256,
    ;
    assert forall|j: int| 0 <= j < 8 implies #[trigger] bit_at(new, 8 * idx + j) == written_bit(
        orig,
        offset,
        width,
        v,
        8 * idx + j,
    ) by {
        let p = 8 * idx + j;
        assert(p / 8 == idx && p % 8 == j);
        let k = (7 - j) as u64;
        lemma_bit_of_or(b as u64, piece, k);
        lemma_bit_of_shifted(masked, bw, s, k);
        assert(bit_at(new, p) == ((b as u64 | piece) >> k) & 1);
        assert(bit_at(orig, p) == ((b as u64) >> k) & 1);
        let ob = ((b as u64) >> k) & 1;
        if s <= k && k < s + bw {
            lemma_bit_of_masked(v, r, bw, (k - s) as u64);
            assert(offset <= p < offset + width);
            assert((width - 1 - (p - offset)) as u64 == (r + (k - s)) as u64);
            assert(bit_at(new, p) == ob | field_bit(v, width, p - offset));
        } else {
            assert(!(offset <= p < offset + width));
            assert(ob | 0 == ob) by (bit_vector);
        }
    }
}

/// Writes the low `width` bits of `v` into `data` at bit position `offset`,
/// or-ing each of them into the bit already there.
pub fn set_bits(data: &mut [u8], offset: usize, width: usize, v: u64)
    requires
        width <= 64,
        offset + width <= 8 * old(data)@.len(),
    ensures
        is_written(old(data)@, final(data)@, offset as int, width as nat, v),
{
    let ghost orig = data@;
    let mut idx = offset / 8;
    let mut off = offset % 8;
    let mut remaining = width;
    while remaining > 0
        invariant
            data@.len() == orig.len(),
            width <= 64,
            offset + width <= 8 * orig.len(),
            remaining <= width,
            off < 8,
            remaining > 0 ==> 8 * idx + off == offset + (width - remaining),
            remaining == width ==> 8 * idx + off == offset,
            remaining < width ==> off == 0,
            remaining == 0 && width > 0 ==> offset + width <= 8 * idx,
            idx <= orig.len(),
            forall|q: int| idx <= q < orig.len() ==> data@[q] == orig[q],
            forall|p: int|
                0 <= p < 8 * idx ==> #[trigger] bit_at(data@, p) == written_bit(
                    orig,
                    offset as int,
                    width as nat,
                    v,
                    p,
                ),
        decreases remaining,
    {
        let ghost consumed = (width - remaining) as nat;
        let ghost before = data@;
        let bits = if remaining < 8 - off {
            remaining
        } else {
            8 - off
        };
        remaining -= bits;
        let bw = bits as u64;
        assert(1u64 << bw >= 1) by (bit_vector)
            requires
                bw <= 8,
        ;
        let piece = ((v >> (remaining as u64)) & ((1u64 << bw) - 1)) << ((8 - bits - off) as u64);
        proof {
            lemma_set_step(
                orig,
                before,
                offset as int,
                width as nat,
                v,
                idx as int,
                off as nat,
                consumed,
                bits as nat,
                remaining as nat,
                piece,
            );
        }
        data[idx] = data[idx] | (piece as u8);
        proof {
            assert(data@ == before.update(idx as int, before[idx as int] | (piece as u8)));
            assert forall|p: int| 0 <= p < 8 * (idx + 1) implies #[trigger] bit_at(data@, p)
                == written_bit(orig, offset as int, width as nat, v, p) by {
                if p < 8 * idx {
                    assert(p / 8 < idx);
                    assert(bit_at(data@, p) == bit_at(before, p));
                } else {
                    let j = p - 8 * idx;
                    assert(bit_at(data@, 8 * idx + j) == written_bit(orig, offset as int, width as nat, v, 8 * idx + j));
                }
            }
        }
        idx += 1;
        off = 0;
    }
    proof {
        assert forall|p: int| 0 <= p < 8 * orig.len() implies #[trigger] bit_at(data@, p)
            == written_bit(orig, offset as int, width as nat, v, p) by {
            if p >= 8 * idx {
                assert(p / 8 >= idx);
                assert(data@[p / 8] == orig[p / 8]);
            }
        }
    }
}

} // verus!

verus! {

proof fn lemma_bits_value_same_bits(d1: Seq<u8>, d2: Seq<u8>, start: int, n: nat)
    requires
        forall|i: int| 0 <= i < n ==> #[trigger] bit_at(d1, start + i) == bit_at(d2, start + i),
    ensures
        bits_value(d1, start, n) == bits_value(d2, start, n),
    decreases n,
{
    if n > 0 {
        lemma_bits_value_same_bits(d1, d2, start, (n - 1) as nat);
        assert(bit_at(d1, start + (n - 1)) == bit_at(d2, start + (n - 1)));
    }
}

/// Reading a field back gives the value written into it: after a write of
/// `v` into a field whose bits were all clear, the field reads as the low
/// `width` bits of `v`.
pub proof fn law_read_after_write(old: Seq<u8>, new: Seq<u8>, offset: int, width: nat, v: u64)
    requires
        width <= 64,
        0 <= offset,
        offset + width <= 8 * old.len(),
        forall|i: int| 0 <= i < width ==> #[trigger] bit_at(old, offset + i) == 0,
        is_written(old, new, offset, width, v),
    ensures
        bits_value(new, offset, width) == (v & low_mask(width)) as nat,
{
    assert forall|i: int| 0 <= i < width implies #[trigger] bit_at(new, offset + i) == (v >> ((0
        + width - 1 - i) as u64)) & 1 by {
        let p = offset + i;
        assert(bit_at(new, p) == written_bit(old, offset, width, v, p));
        let fb = field_bit(v, width, i);
        assert(0u64 | fb == fb) by (bit_vector);
    }
    lemma_bits_value_of_word(new, offset, v, 0, width);
    assert(v >> 0u64 == v) by (bit_vector);
}

/// Writing one field leaves every field that does not overlap it as it was.
pub proof fn law_write_keeps_other_fields(
    old: Seq<u8>,
    new: Seq<u8>,
    offset: int,
    width: nat,
    v: u64,
    other: int,
    other_width: nat,
)
    requires
        0 <= other,
        other + other_width <= 8 * old.len(),
        other + other_width <= offset || offset + width <= other,
        is_written(old, new, offset, width, v),
    ensures
        bits_value(new, other, other_width) == bits_value(old, other, other_width),
{
    assert forall|i: int| 0 <= i < other_width implies #[trigger] bit_at(new, other + i) == bit_at(
        old,
        other + i,
    ) by {
        assert(bit_at(new, other + i) == written_bit(old, offset, width, v, other + i));
    }
    lemma_bits_value_same_bits(new, old, other, other_width);
}

/// A value below `2^n` keeps all its bits under the mask of the `n` low bits.
pub proof fn lemma_low_mask_keeps_small(v: u64, n: nat)
    requires
        n <= 64,
        (v as nat) < pow2(n),
    ensures
        v & low_mask(n) == v,
{
    if n < 64 {
        let k = n as u64;
        vstd::bits::lemma_u64_pow2_no_overflow(n);
        vstd::bits::lemma_u64_shl_is_mul(1, k);
        assert(v & (((1u64 << k) - 1) as u64) == v) by (bit_vector)
            requires
                k < 64,
                v < (1u64 << k),
        ;
    } else {
        assert(v & u64::MAX == v) by (bit_vector);
    }
}

/// A buffer of zero bytes has every bit clear.
pub proof fn law_zero_bytes_have_clear_bits(data: Seq<u8>, p: int)
    requires
        0 <= p < 8 * data.len(),
        forall|q: int| 0 <= q < data.len() ==> data[q] == 0,
    ensures
        bit_at(data, p) == 0,
{
    let k = (7 - p % 8) as u64;
    assert(data[p / 8] == 0);
    assert((0u64 >> k) & 1 == 0) by (bit_vector);
}

} // verus!

verus! {

/// Bits are read from the first byte on, each byte's most significant bit
/// first: the eight bits of byte `k` read as the byte's own value.
pub proof fn law_whole_byte_reads_as_its_value(data: Seq<u8>, k: int)
    requires
        0 <= k < data.len(),
    ensures
        bits_value(data, 8 * k, 8) == data[k] as nat,
{
    assert((8 * k + 0) / 8 == k && (8 * k + 0) % 8 == 0) by (nonlinear_arith)
        requires
            0 <= k,
    ;
    assert((8 * k + 1) / 8 == k && (8 * k + 1) % 8 == 1) by (nonlinear_arith)
        requires
            0 <= k,
    ;
    assert((8 * k + 2) / 8 == k && (8 * k + 2) % 8 == 2) by (nonlinear_arith)
        requires
            0 <= k,
    ;
    assert((8 * k + 3) / 8 == k && (8 * k + 3) % 8 == 3) by (nonlinear_arith)
        requires
            0 <= k,
    ;
    assert((8 * k + 4) / 8 == k && (8 * k + 4) % 8 == 4) by (nonlinear_arith)
        requires
            0 <= k,
    ;
    assert((8 * k + 5) / 8 == k && (8 * k + 5) % 8 == 5) by (nonlinear_arith)
        requires
            0 <= k,
    ;
    assert((8 * k + 6) / 8 == k && (8 * k + 6) % 8 == 6) by (nonlinear_arith)
        requires
            0 <= k,
    ;
    assert((8 * k + 7) / 8 == k && (8 * k + 7) % 8 == 7) by (nonlinear_arith)
        requires
            0 <= k,
    ;
    let b = data[k] as u64;
    reveal_with_fuel(bits_value, 9);
    assert(bits_value(data, 8 * k, 8) == (bit_at(data, 8 * k + 0) * 128 + bit_at(data, 8 * k + 1) * 64 + bit_at(data, 8 * k + 2) * 32 + bit_at(data, 8 * k + 3) * 16 + bit_at(data, 8 * k + 4) * 8 + bit_at(data, 8 * k + 5) * 4 + bit_at(data, 8 * k + 6) * 2 + bit_at(data, 8 * k + 7) * 1) as nat);
    assert(b == ((b >> 7u64) & 1) * 128 + ((b >> 6u64) & 1) * 64 + ((b >> 5u64) & 1) * 32 + ((b >> 4u64) & 1) * 16 + ((b >> 3u64) & 1) * 8 + ((b >> 2u64) & 1) * 4 + ((b >> 1u64) & 1) * 2 + ((b >> 0u64) & 1) * 1) by (bit_vector)
        requires
            b < 256,
    ;
}

} // verus!
