//! Executable bit-span primitives.
//!
//! [`get`] reads and [`set`] overwrites an unsigned value of a given bit
//! width at a given bit offset of a byte buffer. Both walk the buffer one
//! containing byte at a time; a field may start and end in the middle of a
//! byte, and neighbouring fields packed into the same byte are never
//! disturbed. The byte-level helpers compute in 16-bit registers so that a
//! full-byte slice (`len == 8`) never shifts an 8-bit value by its own
//! width.

use vstd::prelude::*;

verus! {

use vstd::arithmetic::power2::pow2;
use vstd::arithmetic::power2::lemma_pow2_adds;
use vstd::arithmetic::power2::lemma_pow2_pos;
use vstd::arithmetic::power2::lemma2_to64;
use vstd::arithmetic::div_mod::lemma_mod_division_less_than_divisor;
use vstd::bits::low_bits_mask;
use vstd::bits::lemma_u16_shl_is_mul;
use vstd::bits::lemma_u16_shr_is_div;
use vstd::bits::lemma_u16_low_bits_mask_is_mod;
use vstd::bits::lemma_u64_shl_is_mul;
use vstd::arithmetic::power2::lemma2_to64_rest;
use crate::bitbuf::span_of;
use crate::bitbuf::buf_nat;
use vstd::bits::lemma_u64_shr_is_div;
use vstd::bits::lemma_u64_low_bits_mask_is_mod;
use vstd::arithmetic::div_mod::lemma_multiply_divide_lt;
use crate::bitbuf::is_splice;
use crate::bitbuf::lemma_pow2_le;

/// The number of whole bytes needed to hold `bits_size` bits.
pub fn bits_size_to_byte_size(bits_size: usize) -> (r: usize)
    requires
        bits_size + 7 <= usize::MAX,
    ensures
        r == (bits_size + 7) / 8,
        bits_size <= 8 * r,
        8 * r < bits_size + 8,
{
    (bits_size + 7) / 8
}

/// The byte mask covering bit positions `[pos, pos+len)`:
/// `mask(5, 1) == 0b0011_1110`.
pub fn mask(len: u32, pos: u32) -> (r: u8)
    requires
        1 <= len,
        pos + len <= 8,
    ensures
        r as nat == (pow2(len as nat) - 1) * pow2(pos as nat),
{
    let l16: u16 = len as u16;
    let p16: u16 = pos as u16;
    let base: u16 = 1u16 << l16;
    proof {
        lemma2_to64();
        lemma_pow2_le(len as nat, 8);
        lemma_pow2_le((pos + len) as nat, 8);
        lemma_pow2_pos(pos as nat);
        lemma_pow2_adds(len as nat, pos as nat);
        lemma_u16_shl_is_mul(1u16, l16);
        assert(pow2(l16 as nat) == pow2(len as nat));
        assert(base == pow2(len as nat));
        assert((pow2(len as nat) - 1) * pow2(pos as nat) + pow2(pos as nat)
            == pow2((len + pos) as nat)) by (nonlinear_arith)
            requires
                pow2((len + pos) as nat) == pow2(len as nat) * pow2(pos as nat),
                pow2(len as nat) >= 1,
        ;
    }
    let m: u16 = (base - 1) << p16;
    proof {
        lemma_u16_shl_is_mul((base - 1) as u16, p16);
        assert(pow2(p16 as nat) == pow2(pos as nat));
        assert(m as nat == (pow2(len as nat) - 1) * pow2(pos as nat));
        assert(m < 256);
    }
    m as u8
}

/// The complement of [`mask`]: every bit of the byte outside
/// `[pos, pos+len)`.
pub fn mask_neg(len: u32, pos: u32) -> (r: u8)
    requires
        1 <= len,
        pos + len <= 8,
    ensures
        r as nat == 255 - (pow2(len as nat) - 1) * pow2(pos as nat),
{
    let m = mask(len, pos);
    proof {
        assert((!m) as int == 255 - m as int) by (bit_vector);
    }
    !m
}

/// Extracts the `len`-bit slice at position `pos` of byte `d`.
pub fn mask_get(d: u8, len: u32, pos: u32) -> (r: u8)
    requires
        1 <= len,
        pos + len <= 8,
    ensures
        r as nat == ((d as nat) / pow2(pos as nat)) % pow2(len as nat),
        (r as nat) < pow2(len as nat),
{
    let l16: u16 = len as u16;
    let p16: u16 = pos as u16;
    let x: u16 = (d as u16) >> p16;
    let base: u16 = 1u16 << l16;
    proof {
        lemma2_to64();
        lemma_pow2_le(len as nat, 8);
        lemma_pow2_pos(len as nat);
        lemma_u16_shl_is_mul(1u16, l16);
        assert(pow2(l16 as nat) == pow2(len as nat));
        assert(base == pow2(len as nat));
    }
    let m: u16 = base - 1;
    let r16: u16 = x & m;
    proof {
        lemma_pow2_pos(pos as nat);
        lemma_u16_shr_is_div(d as u16, p16);
        assert(pow2(p16 as nat) == pow2(pos as nat));
        assert(x as nat == (d as nat) / pow2(pos as nat));
        assert(m == low_bits_mask(len as nat) as u16);
        lemma_u16_low_bits_mask_is_mod(x, len as nat);
        assert(r16 as nat == (x as nat) % pow2(len as nat));
        lemma_mod_division_less_than_divisor(x as int, pow2(len as nat) as int);
        assert(r16 < 256);
    }
    r16 as u8
}

/// Overwrites the `len`-bit slice at position `pos` of byte `d` with the
/// low `len` bits of `v`, leaving every other bit of `d` as it was.
pub fn mask_set(d: u8, v: u8, len: u32, pos: u32) -> (r: u8)
    requires
        1 <= len,
        pos + len <= 8,
    ensures
        is_splice(d as nat, r as nat, pos as nat, len as nat,
            (v as nat) % pow2(len as nat)),
{
    let low = mask(len, 0);
    let vm = v & low;
    proof {
        lemma2_to64();
        lemma_pow2_le(len as nat, 8);
        lemma_pow2_pos(len as nat);
        assert(pow2(0) == 1);
        assert(low as nat == pow2(len as nat) - 1);
        assert(low == low_bits_mask(len as nat) as u8);
        if len < 8 {
            vstd::bits::lemma_u8_low_bits_mask_is_mod(v, len as nat);
            assert(vm as nat == (v as nat) % pow2(len as nat));
        } else {
            assert(v & low == v) by (bit_vector)
                requires low == 0xffu8,
            ;
            vstd::arithmetic::div_mod::lemma_small_mod(v as nat, pow2(8));
        }
        lemma_mod_division_less_than_divisor(v as int, pow2(len as nat) as int);
    }
    mask_set_unchecked(d, vm, len, pos)
}

/// As [`mask_set`], but `v` must already fit in `len` bits.
pub fn mask_set_unchecked(d: u8, v: u8, len: u32, pos: u32) -> (r: u8)
    requires
        1 <= len,
        pos + len <= 8,
        (v as nat) < pow2(len as nat),
    ensures
        is_splice(d as nat, r as nat, pos as nat, len as nat, v as nat),
{
    let l16: u16 = len as u16;
    let p16: u16 = pos as u16;
    let dd: u16 = d as u16;
    let vv: u16 = v as u16;
    let keep: u16 = (mask_neg(len, pos) as u16);
    let r16: u16 = (dd & keep) | (vv << p16);
    proof {
        lemma2_to64();
        lemma_pow2_le(len as nat, 8);
        lemma_pow2_le((pos + len) as nat, 8);
        lemma_pow2_pos(pos as nat);
        lemma_pow2_pos(len as nat);
        lemma_pow2_adds(len as nat, pos as nat);
        lemma_pow2_adds(pos as nat, len as nat);
        // Bring the three masks and shifts into power-of-two form.
        lemma_u16_shl_is_mul(1u16, l16);
        assert(pow2(l16 as nat) == pow2(len as nat));
        assert((1u16 << l16) == pow2(len as nat));
        let lp16: u16 = (pos + len) as u16;
        lemma_u16_shl_is_mul(1u16, lp16);
        assert(pow2(lp16 as nat) == pow2((pos + len) as nat));
        assert((1u16 << lp16) == pow2((pos + len) as nat));
        assert(keep as nat == 255 - (pow2(len as nat) - 1) * pow2(pos as nat));
        lemma_u16_shl_is_mul(1u16, p16);
        assert(pow2(p16 as nat) == pow2(pos as nat));
        assert((1u16 << p16) == pow2(pos as nat));
        let lowm: u16 = ((1u16 << l16) - 1) as u16;
        assert(keep == 255 - (lowm << p16)) by {
            lemma_u16_shl_is_mul(lowm, p16);
            assert(lowm as nat * pow2(p16 as nat)
                == (pow2(len as nat) - 1) * pow2(pos as nat)) by (nonlinear_arith)
                requires
                    lowm as nat == pow2(len as nat) - 1,
                    pow2(p16 as nat) == pow2(pos as nat),
            ;
        }
        // The whole splice, word-level.
        assert(
            ((dd & keep) | (vv << p16))
                == dd % (1u16 << p16) + vv * (1u16 << p16)
                    + (dd / (1u16 << (p16 + l16))) * (1u16 << (p16 + l16))
        ) by (bit_vector)
            requires
                dd < 256,
                vv < (1u16 << l16),
                1 <= l16,
                p16 + l16 <= 8,
                keep == 255 - (lowm << p16),
                lowm == ((1u16 << l16) - 1) as u16,
        ;
        assert(p16 + l16 == lp16);
        // Rewrite each piece over `pow2`.
        assert(dd % (1u16 << p16) == (d as nat) % pow2(pos as nat));
        assert((dd / (1u16 << lp16)) as nat == (d as nat) / pow2((pos + len) as nat));
        assert(vv as nat * ((1u16 << p16) as nat) == (v as nat) * pow2(pos as nat))
            by (nonlinear_arith)
            requires
                ((1u16 << p16) as nat) == pow2(pos as nat),
                vv as nat == v as nat,
        ;
        assert(((dd / (1u16 << lp16)) * (1u16 << lp16)) as nat
            == ((d as nat) / pow2((pos + len) as nat)) * pow2((pos + len) as nat))
            by (nonlinear_arith)
            requires
                (dd / (1u16 << lp16)) as nat == (d as nat) / pow2((pos + len) as nat),
                ((1u16 << lp16) as nat) == pow2((pos + len) as nat),
        ;
        assert(r16 as nat == (d as nat) % pow2(pos as nat)
            + (v as nat) * pow2(pos as nat)
            + ((d as nat) / pow2((pos + len) as nat)) * pow2((pos + len) as nat));
        assert(is_splice(d as nat, r16 as nat, pos as nat, len as nat, v as nat));
        crate::bitbuf::lemma_splice_bound(d as nat, r16 as nat, pos as nat, len as nat,
            v as nat, 8);
        assert(pow2(8) == 256);
        assert(r16 < 256);
    }
    r16 as u8
}

/// Reads the unsigned value of the bit span `[from, from+bits)` of the
/// buffer, assembling it least-significant bit first.
#[verifier::rlimit(50)]
pub fn get(a: &Vec<u8>, from: usize, bits: usize) -> (r: u64)
    requires
        1 <= bits <= 64,
        from + bits <= 8 * a@.len(),
        from + bits <= usize::MAX,
    ensures
        r as nat == span_of(a@, from as nat, bits as nat),
        (r as nat) < pow2(bits as nat),
{
    let mut out: u64 = 0;
    let mut idx_bits: usize = from;
    let mut left_bits: usize = bits;
    let mut pos_bits: usize = idx_bits % 8;
    proof {
        lemma2_to64();
        assert(pow2(0) == 1);
        assert(span_of(a@, from as nat, 0) == 0) by {
            lemma_pow2_pos(from as nat);
            vstd::arithmetic::div_mod::lemma_small_mod(0, pow2(0));
        }
    }
    while left_bits > 0
        invariant
            1 <= bits <= 64,
            from + bits <= 8 * a@.len(),
            from + bits <= usize::MAX,
            left_bits <= bits,
            idx_bits == from + bits - left_bits,
            left_bits > 0 ==> pos_bits == idx_bits % 8,
            out as nat == span_of(a@, from as nat, (bits - left_bits) as nat),
            (out as nat) < pow2((bits - left_bits) as nat),
        decreases left_bits,
    {
        let ghost done: nat = (bits - left_bits) as nat;
        let mut len_bits: usize = 8 - pos_bits;
        if len_bits > left_bits {
            len_bits = left_bits;
        }
        let idx_bytes: usize = idx_bits / 8;
        proof {
            assert(idx_bits < 8 * a@.len());
            vstd::arithmetic::div_mod::lemma_multiply_divide_lt(
                idx_bits as int, 8, a@.len() as int);
        }
        let b = mask_get(a[idx_bytes], len_bits as u32, pos_bits as u32);
        proof {
            lemma2_to64();
            lemma2_to64_rest();
            let lenn = len_bits as nat;
            let s: u64 = (bits - left_bits) as u64;
            let t: u64 = len_bits as u64;
            lemma_pow2_pos(lenn);
            lemma_pow2_pos(done);
            lemma_pow2_adds(done, lenn);
            lemma_pow2_le((done + lenn) as nat, 64);
            // The extracted slice is the span of this byte's window.
            assert(b as nat == span_of(a@, idx_bits as nat, lenn)) by {
                crate::bitbuf::lemma_span_in_byte(a@, idx_bits as nat, lenn);
                assert(idx_bits as nat / 8 == idx_bytes as nat);
                assert(idx_bits as nat % 8 == pos_bits as nat);
            }
            // Appending the slice extends the span read so far.
            crate::bitbuf::lemma_span_concat(a@, from as nat, done, lenn);
            assert((from + done) as nat == idx_bits as nat);
            // The shift cannot overflow 64 bits.
            assert((b as nat) * pow2(done) + pow2(done) <= pow2((done + lenn) as nat))
                by (nonlinear_arith)
                requires
                    (b as nat) < pow2(lenn),
                    pow2((done + lenn) as nat) == pow2(done) * pow2(lenn),
                    pow2(done) >= 1,
            ;
            assert(pow2(s as nat) == pow2(done));
            assert(pow2(t as nat) == pow2(lenn));
            lemma_u64_shl_is_mul(b as u64, s);
            lemma_u64_shl_is_mul(1u64, s);
            lemma_u64_shl_is_mul(1u64, t);
            assert(((b as u64) << s) as nat == (b as nat) * pow2(done))
                by (nonlinear_arith)
                requires
                    ((b as u64) << s) as nat == ((b as u64) as nat) * pow2(s as nat),
                    ((b as u64) as nat) == b as nat,
                    pow2(s as nat) == pow2(done),
            ;
            let bb: u64 = b as u64;
            assert(out | (bb << s) == out + (bb << s)) by (bit_vector)
                requires
                    out < (1u64 << s),
                    bb < (1u64 << t),
                    s < 64,
                    t <= 64,
                    s + t <= 64,
            ;
            // The new accumulator is the longer span, still in range.
            assert(out + (b as nat) * pow2(done)
                == span_of(a@, from as nat, (done + lenn) as nat))
                by (nonlinear_arith)
                requires
                    span_of(a@, from as nat, (done + lenn) as nat)
                        == span_of(a@, from as nat, done)
                            + pow2(done) * span_of(a@, idx_bits as nat, lenn),
                    out as nat == span_of(a@, from as nat, done),
                    b as nat == span_of(a@, idx_bits as nat, lenn),
            ;
            assert(out + (b as nat) * pow2(done) < pow2((done + lenn) as nat))
                by (nonlinear_arith)
                requires
                    out < pow2(done),
                    (b as nat) < pow2(lenn),
                    pow2((done + lenn) as nat) == pow2(done) * pow2(lenn),
            ;
        }
        out = out | ((b as u64) << ((bits - left_bits) as u64));
        idx_bits = idx_bits + len_bits;
        left_bits = left_bits - len_bits;
        pos_bits = 0;
        proof {
            if left_bits > 0 {
                assert(idx_bits % 8 == 0);
            }
        }
    }
    out
}

/// As [`get`], with the offset and width fixed at compile time.
pub fn get_generic<const F: usize, const L: usize>(a: &Vec<u8>) -> (r: u64)
    requires
        1 <= L <= 64,
        F + L <= 8 * a@.len(),
        F + L <= usize::MAX,
    ensures
        r as nat == span_of(a@, F as nat, L as nat),
        (r as nat) < pow2(L as nat),
{
    get(a, F, L)
}

/// Overwrites the bit span `[from, from+bits)` of the buffer with the low
/// `bits` bits of `v`. Every bit outside the span keeps its value, so a
/// neighbouring field that shares a byte with the span is never disturbed.
#[verifier::rlimit(50)]
pub fn set(a: &mut Vec<u8>, v: u64, from: usize, bits: usize)
    requires
        1 <= bits <= 64,
        from + bits <= 8 * old(a)@.len(),
        from + bits <= usize::MAX,
    ensures
        final(a)@.len() == old(a)@.len(),
        is_splice(buf_nat(old(a)@), buf_nat(final(a)@), from as nat, bits as nat,
            (v as nat) % pow2(bits as nat)),
        span_of(final(a)@, from as nat, bits as nat) == (v as nat) % pow2(bits as nat),
        forall|o2: nat, w2: nat| o2 + w2 <= from ==>
            #[trigger] span_of(final(a)@, o2, w2) == span_of(old(a)@, o2, w2),
        forall|o2: nat, w2: nat| o2 >= from + bits ==>
            #[trigger] span_of(final(a)@, o2, w2) == span_of(old(a)@, o2, w2),
{
    let mut idx_bits: usize = from;
    let mut left_bits: usize = bits;
    let mut pos_bits: usize = idx_bits % 8;
    proof {
        lemma2_to64();
        crate::bitbuf::lemma_splice_refl(buf_nat(a@), from as nat);
        assert(pow2(0) == 1);
        assert((v as nat) % pow2(0) == 0);
    }
    while left_bits > 0
        invariant
            1 <= bits <= 64,
            from + bits <= 8 * old(a)@.len(),
            from + bits <= usize::MAX,
            a@.len() == old(a)@.len(),
            left_bits <= bits,
            idx_bits == from + bits - left_bits,
            left_bits > 0 ==> pos_bits == idx_bits % 8,
            is_splice(buf_nat(old(a)@), buf_nat(a@), from as nat,
                (bits - left_bits) as nat,
                (v as nat) % pow2((bits - left_bits) as nat)),
        decreases left_bits,
    {
        let ghost done: nat = (bits - left_bits) as nat;
        let ghost prev: Seq<u8> = a@;
        let mut len_bits: usize = 8 - pos_bits;
        if len_bits > left_bits {
            len_bits = left_bits;
        }
        proof {
            assert(idx_bits < 8 * a@.len());
            lemma_multiply_divide_lt(idx_bits as int, 8, a@.len() as int);
            lemma2_to64();
            lemma2_to64_rest();
            lemma_pow2_le(len_bits as nat, 64);
            lemma_u64_shl_is_mul(1u64, len_bits as u64);
            assert(pow2((len_bits as u64) as nat) == pow2(len_bits as nat));
        }
        let idx_bytes: usize = idx_bits / 8;
        let sh: u64 = (bits - left_bits) as u64;
        let chunk: u64 = (v >> sh) & ((1u64 << (len_bits as u64)) - 1);
        proof {
            let lenn = len_bits as nat;
            lemma_pow2_pos(lenn);
            lemma_pow2_pos(done);
            lemma_u64_shr_is_div(v, sh);
            assert(pow2(sh as nat) == pow2(done));
            assert((v >> sh) as nat == (v as nat) / pow2(done));
            assert(((1u64 << (len_bits as u64)) - 1) as u64
                == low_bits_mask(lenn) as u64);
            lemma_u64_low_bits_mask_is_mod(v >> sh, lenn);
            assert(chunk as nat == ((v as nat) / pow2(done)) % pow2(lenn));
            lemma_mod_division_less_than_divisor((v >> sh) as int, pow2(lenn) as int);
            assert((chunk as nat) < pow2(lenn));
            lemma_pow2_le(lenn, 8);
            assert(pow2(8) == 256);
            assert(chunk < 256);
        }
        let nb = mask_set_unchecked(a[idx_bytes], chunk as u8, len_bits as u32,
            pos_bits as u32);
        a.set(idx_bytes, nb);
        proof {
            let lenn = len_bits as nat;
            let c = (chunk as u8) as nat;
            let m1 = (v as nat) % pow2(done);
            // Splicing the byte splices the buffer at this window.
            crate::bitbuf::lemma_byte_splice(prev, idx_bytes as int, nb,
                pos_bits as nat, lenn, c);
            assert(8 * (idx_bytes as int) + pos_bits == idx_bits);
            assert((8 * (idx_bytes as int) + pos_bits as nat) as nat
                == (from + done) as nat);
            assert(is_splice(buf_nat(prev), buf_nat(a@),
                ((from + done) as nat) as nat, lenn, c));
            // Chain it onto the bits already written.
            crate::bitbuf::lemma_splice_extend(buf_nat(old(a)@), buf_nat(prev),
                buf_nat(a@), from as nat, done, lenn, m1, c);
            // The combined window holds the low `done + lenn` bits of `v`.
            crate::bitbuf::lemma_pow2_mod_split(v as nat, done, lenn);
            assert((m1 + c * pow2(done)) as nat
                == (v as nat) % pow2((done + lenn) as nat)) by (nonlinear_arith)
                requires
                    (v as nat) % pow2((done + lenn) as nat)
                        == (v as nat) % pow2(done)
                            + pow2(done) * (((v as nat) / pow2(done)) % pow2(lenn)),
                    m1 == (v as nat) % pow2(done),
                    c == ((v as nat) / pow2(done)) % pow2(lenn),
            ;
        }
        idx_bits = idx_bits + len_bits;
        left_bits = left_bits - len_bits;
        pos_bits = 0;
        proof {
            if left_bits > 0 {
                assert(idx_bits % 8 == 0);
            }
        }
    }
    proof {
        let x = buf_nat(old(a)@);
        let y = buf_nat(a@);
        let m = (v as nat) % pow2(bits as nat);
        crate::bitbuf::lemma_splice_mid(x, y, from as nat, bits as nat, m);
        assert forall|o2: nat, w2: nat| o2 + w2 <= from implies
            #[trigger] span_of(a@, o2, w2) == span_of(old(a)@, o2, w2) by {
            crate::bitbuf::lemma_splice_low(x, y, from as nat, bits as nat, m, o2, w2);
        }
        assert forall|o2: nat, w2: nat| o2 >= from + bits implies
            #[trigger] span_of(a@, o2, w2) == span_of(old(a)@, o2, w2) by {
            crate::bitbuf::lemma_splice_high(x, y, from as nat, bits as nat, m, o2, w2);
        }
    }
}

/// As [`set`], with the offset and width fixed at compile time.
pub fn set_generic<const F: usize, const L: usize>(a: &mut Vec<u8>, v: u64)
    requires
        1 <= L <= 64,
        F + L <= 8 * old(a)@.len(),
        F + L <= usize::MAX,
    ensures
        final(a)@.len() == old(a)@.len(),
        is_splice(buf_nat(old(a)@), buf_nat(final(a)@), F as nat, L as nat,
            (v as nat) % pow2(L as nat)),
        span_of(final(a)@, F as nat, L as nat) == (v as nat) % pow2(L as nat),
        forall|o2: nat, w2: nat| o2 + w2 <= F ==>
            #[trigger] span_of(final(a)@, o2, w2) == span_of(old(a)@, o2, w2),
        forall|o2: nat, w2: nat| o2 >= F + L ==>
            #[trigger] span_of(final(a)@, o2, w2) == span_of(old(a)@, o2, w2),
{
    set(a, v, F, L)
}

} // verus!
