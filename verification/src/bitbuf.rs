//! The mathematical model of a bit-addressed byte buffer.
//!
//! A buffer is read as one natural number, least-significant byte first:
//! byte `k` holds bits `[8k, 8k+8)` of the bit-offset space, and within a
//! byte, bit positions count from the least significant bit. A field
//! occupying bits `[off, off+w)` has the value `(buf / 2^off) % 2^w`, so
//! bit 0 of a field's value is the bit at its lowest offset.

use vstd::prelude::*;

verus! {

use vstd::arithmetic::power2::pow2;
use vstd::arithmetic::power2::lemma_pow2_adds;
use vstd::arithmetic::power2::lemma_pow2_pos;
use vstd::arithmetic::power2::lemma2_to64;
use vstd::arithmetic::div_mod::lemma_small_mod;
use vstd::arithmetic::div_mod::lemma_div_denominator;
use vstd::arithmetic::div_mod::lemma_div_multiples_vanish_fancy;
use vstd::arithmetic::div_mod::lemma_mod_multiples_vanish;
use vstd::arithmetic::div_mod::lemma_mod_breakdown;
use vstd::arithmetic::div_mod::lemma_fundamental_div_mod;

/// The whole buffer read as one natural number, least-significant byte
/// first.
pub open spec fn buf_nat(data: Seq<u8>) -> nat
    decreases data.len(),
{
    if data.len() == 0 {
        0
    } else {
        data[0] as nat + 256 * buf_nat(data.drop_first())
    }
}

/// The unsigned value held by the bit span `[off, off+w)` of the buffer.
pub open spec fn span_of(data: Seq<u8>, off: nat, w: nat) -> nat {
    (buf_nat(data) / pow2(off)) % pow2(w)
}

/// Every byte zero means the buffer reads as zero.
pub proof fn lemma_buf_nat_zero(data: Seq<u8>)
    requires
        forall|k: int| 0 <= k < data.len() ==> data[k] == 0,
    ensures
        buf_nat(data) == 0,
    decreases data.len(),
{
    if data.len() > 0 {
        lemma_buf_nat_zero(data.drop_first());
    }
}

/// Dividing twice by powers of two divides once by the summed power.
pub proof fn lemma_pow2_div_add(x: nat, a: nat, b: nat)
    ensures
        x / pow2(a) / pow2(b) == x / pow2(a + b),
{
    lemma_pow2_pos(a);
    lemma_pow2_pos(b);
    lemma_div_denominator(x as int, pow2(a) as int, pow2(b) as int);
    lemma_pow2_adds(a, b);
}

/// Reducing modulo a larger power of two first does not change a
/// remainder modulo a smaller one.
pub proof fn lemma_pow2_mod_mod(x: nat, a: nat, b: nat)
    requires
        b <= a,
    ensures
        (x % pow2(a)) % pow2(b) == x % pow2(b),
{
    lemma_pow2_pos(a);
    lemma_pow2_pos(b);
    lemma_pow2_pos((a - b) as nat);
    lemma_pow2_adds(b, (a - b) as nat);
    lemma_mod_breakdown(x as int, pow2(b) as int, pow2((a - b) as nat) as int);
    let k = (x as int / pow2(b) as int) % pow2((a - b) as nat) as int;
    assert(x % pow2(a) == pow2(b) * k + x % pow2(b));
    lemma_mod_multiples_vanish(k, (x % pow2(b)) as int, pow2(b) as int);
    lemma_small_mod(x % pow2(b), pow2(b));
}

/// A remainder modulo `2^(a+b)` splits into the low `a` bits and the
/// following `b` bits.
pub proof fn lemma_pow2_mod_split(x: nat, a: nat, b: nat)
    ensures
        x % pow2(a + b) == x % pow2(a) + pow2(a) * ((x / pow2(a)) % pow2(b)),
{
    lemma_pow2_pos(a);
    lemma_pow2_pos(b);
    lemma_pow2_adds(a, b);
    lemma_mod_breakdown(x as int, pow2(a) as int, pow2(b) as int);
}

/// Dividing a remainder modulo `2^a` by `2^b` keeps the bits `[b, a)`.
pub proof fn lemma_pow2_mod_div(x: nat, a: nat, b: nat)
    requires
        b <= a,
    ensures
        (x % pow2(a)) / pow2(b) == (x / pow2(b)) % pow2((a - b) as nat),
{
    lemma_pow2_pos(a);
    lemma_pow2_pos(b);
    lemma_pow2_pos((a - b) as nat);
    let m = (x / pow2(b)) % pow2((a - b) as nat);
    assert(x % pow2(a) == x % pow2(b) + pow2(b) * m) by {
        lemma_pow2_mod_split(x, b, (a - b) as nat);
    }
    assert(0 <= x % pow2(b) < pow2(b)) by {
        lemma_small_mod(x % pow2(b), pow2(b));
        vstd::arithmetic::div_mod::lemma_mod_division_less_than_divisor(
            x as int, pow2(b) as int);
    }
    lemma_div_multiples_vanish_fancy(m as int, (x % pow2(b)) as int, pow2(b) as int);
}

/// Byte `i` of the buffer holds bits `[8i, 8i+8)` of the whole number.
pub proof fn lemma_buf_nat_index(data: Seq<u8>, i: int)
    requires
        0 <= i < data.len(),
    ensures
        data[i] as nat == (buf_nat(data) / pow2((8 * i) as nat)) % 256,
    decreases i,
{
    let rest = data.drop_first();
    lemma2_to64();
    if i == 0 {
        assert(buf_nat(data) / pow2(0) == buf_nat(data)) by {
            assert(pow2(0) == 1);
        }
        lemma_mod_multiples_vanish(buf_nat(rest) as int, data[0] as int, 256);
        lemma_small_mod(data[0] as nat, 256);
    } else {
        assert(buf_nat(data) / 256 == buf_nat(rest)) by {
            lemma_div_multiples_vanish_fancy(buf_nat(rest) as int, data[0] as int, 256);
        }
        lemma_buf_nat_index(rest, i - 1);
        assert(buf_nat(data) / pow2(8) / pow2((8 * (i - 1)) as nat)
            == buf_nat(data) / pow2((8 * i) as nat)) by {
            lemma_pow2_div_add(buf_nat(data), 8, (8 * (i - 1)) as nat);
            assert(8 + 8 * (i - 1) == 8 * i);
        }
        assert(pow2(8) == 256);
    }
}

/// Replacing byte `i` changes the buffer's number by the byte's weighted
/// difference and nothing else.
pub proof fn lemma_buf_nat_update(data: Seq<u8>, i: int, b: u8)
    requires
        0 <= i < data.len(),
    ensures
        buf_nat(data.update(i, b)) + data[i] as nat * pow2((8 * i) as nat)
            == buf_nat(data) + b as nat * pow2((8 * i) as nat),
    decreases i,
{
    let upd = data.update(i, b);
    lemma2_to64();
    if i == 0 {
        assert(upd.drop_first() =~= data.drop_first());
        assert(pow2(0) == 1);
        assert(data[i] as nat * pow2((8 * i) as nat) == data[i] as nat) by (nonlinear_arith)
            requires pow2((8 * i) as nat) == 1,
        ;
        assert(b as nat * pow2((8 * i) as nat) == b as nat) by (nonlinear_arith)
            requires pow2((8 * i) as nat) == 1,
        ;
    } else {
        assert(upd.drop_first() =~= data.drop_first().update(i - 1, b));
        let rest = data.drop_first();
        lemma_buf_nat_update(rest, i - 1, b);
        assert(pow2((8 * i) as nat) == 256 * pow2((8 * (i - 1)) as nat)) by {
            lemma_pow2_adds(8, (8 * (i - 1)) as nat);
            assert(8 + 8 * (i - 1) == 8 * i);
            assert(pow2(8) == 256);
        }
        let p = pow2((8 * (i - 1)) as nat);
        let ru = buf_nat(rest.update(i - 1, b));
        let r = buf_nat(rest);
        assert(buf_nat(upd) == upd[0] as nat + 256 * ru);
        assert(buf_nat(data) == data[0] as nat + 256 * r);
        assert(upd[0] == data[0]);
        assert(rest[i - 1] == data[i]);
        let bigp = pow2((8 * i) as nat);
        assert(256 * ru + data[i] as nat * bigp == 256 * r + b as nat * bigp)
            by (nonlinear_arith)
            requires
                ru + rest[i - 1] as nat * p == r + b as nat * p,
                rest[i - 1] == data[i],
                bigp == 256 * p,
        ;
    }
}

/// A bit span splits at any interior point: the low `w1` bits plus the
/// remaining `w2` bits shifted up by `w1`.
pub proof fn lemma_span_concat(data: Seq<u8>, off: nat, w1: nat, w2: nat)
    ensures
        span_of(data, off, (w1 + w2) as nat)
            == span_of(data, off, w1) + pow2(w1) * span_of(data, (off + w1) as nat, w2),
{
    let x = buf_nat(data) / pow2(off);
    lemma_pow2_mod_split(x, w1, w2);
    lemma_pow2_div_add(buf_nat(data), off, w1);
}

/// A span that stays inside one byte is a slice of that byte.
pub proof fn lemma_span_in_byte(data: Seq<u8>, off: nat, len: nat)
    requires
        off % 8 + len <= 8,
        off < 8 * data.len(),
    ensures
        span_of(data, off, len)
            == ((data[(off / 8) as int] as nat) / pow2((off % 8) as nat)) % pow2(len),
{
    let i = (off / 8) as int;
    let pos = (off % 8) as nat;
    lemma2_to64();
    assert(0 <= i < data.len());
    lemma_buf_nat_index(data, i);
    let d = data[i] as nat;
    assert(d == (buf_nat(data) / pow2((8 * i) as nat)) % pow2(8)) by {
        assert(pow2(8) == 256);
    }
    assert((d / pow2(pos)) % pow2(len)
        == ((buf_nat(data) / pow2((8 * i) as nat) / pow2(pos)) % pow2((8 - pos) as nat))
            % pow2(len)) by {
        lemma_pow2_mod_div(buf_nat(data) / pow2((8 * i) as nat), 8, pos);
    }
    assert(buf_nat(data) / pow2((8 * i) as nat) / pow2(pos) == buf_nat(data) / pow2(off)) by {
        lemma_pow2_div_add(buf_nat(data), (8 * i) as nat, pos);
        assert(8 * i + pos == off);
    }
    lemma_pow2_mod_mod(buf_nat(data) / pow2(off), (8 - pos) as nat, len);
}

/// How a spliced number relates to the original: `y` agrees with `x`
/// outside `[off, off+w)` and holds `m` in `[off, off+w)`.
pub open spec fn is_splice(x: nat, y: nat, off: nat, w: nat, m: nat) -> bool {
    &&& m < pow2(w)
    &&& y == x % pow2(off) + m * pow2(off) + (x / pow2(off + w)) * pow2(off + w)
}

/// The spliced-in bits read back exactly.
pub proof fn lemma_splice_mid(x: nat, y: nat, off: nat, w: nat, m: nat)
    requires
        is_splice(x, y, off, w, m),
    ensures
        (y / pow2(off)) % pow2(w) == m,
{
    lemma_pow2_pos(off);
    lemma_pow2_pos(w);
    lemma_pow2_adds(off, w);
    let lo = x % pow2(off);
    let hi = x / pow2(off + w);
    assert(y == lo + pow2(off) * (m + pow2(w) * hi)) by (nonlinear_arith)
        requires
            y == lo + m * pow2(off) + hi * pow2(off + w),
            pow2(off + w) == pow2(off) * pow2(w),
    ;
    assert(0 <= lo < pow2(off)) by {
        vstd::arithmetic::div_mod::lemma_mod_division_less_than_divisor(
            x as int, pow2(off) as int);
    }
    assert(y / pow2(off) == m + pow2(w) * hi) by {
        lemma_div_multiples_vanish_fancy((m + pow2(w) * hi) as int, lo as int,
            pow2(off) as int);
    }
    assert((m + pow2(w) * hi) % pow2(w) == m) by (nonlinear_arith)
        requires
            m < pow2(w),
            pow2(w) > 0,
    ;
}

/// Bits wholly below the spliced window are unchanged.
pub proof fn lemma_splice_low(x: nat, y: nat, off: nat, w: nat, m: nat, o2: nat, w2: nat)
    requires
        is_splice(x, y, off, w, m),
        o2 + w2 <= off,
    ensures
        (y / pow2(o2)) % pow2(w2) == (x / pow2(o2)) % pow2(w2),
{
    lemma_pow2_pos(off);
    lemma_pow2_pos(w);
    lemma_pow2_adds(off, w);
    let lo = x % pow2(off);
    let hi = x / pow2(off + w);
    assert(y == lo + pow2(off) * (m + pow2(w) * hi)) by (nonlinear_arith)
        requires
            y == lo + m * pow2(off) + hi * pow2(off + w),
            pow2(off + w) == pow2(off) * pow2(w),
    ;
    assert(y % pow2(off) == x % pow2(off)) by {
        lemma_mod_multiples_vanish((m + pow2(w) * hi) as int, lo as int, pow2(off) as int);
        lemma_small_mod(lo, pow2(off));
        vstd::arithmetic::div_mod::lemma_mod_division_less_than_divisor(
            x as int, pow2(off) as int);
    }
    lemma_pow2_mod_div(y, off, o2);
    lemma_pow2_mod_div(x, off, o2);
    assert((y / pow2(o2)) % pow2((off - o2) as nat) == (x / pow2(o2)) % pow2((off - o2) as nat));
    lemma_pow2_mod_mod(y / pow2(o2), (off - o2) as nat, w2);
    lemma_pow2_mod_mod(x / pow2(o2), (off - o2) as nat, w2);
}

/// Bits wholly above the spliced window are unchanged.
pub proof fn lemma_splice_high(x: nat, y: nat, off: nat, w: nat, m: nat, o2: nat, w2: nat)
    requires
        is_splice(x, y, off, w, m),
        off + w <= o2,
    ensures
        (y / pow2(o2)) % pow2(w2) == (x / pow2(o2)) % pow2(w2),
{
    lemma_pow2_pos(off);
    lemma_pow2_pos(w);
    lemma_pow2_adds(off, w);
    let lo = x % pow2(off);
    let hi = x / pow2(off + w);
    assert(0 <= lo < pow2(off)) by {
        vstd::arithmetic::div_mod::lemma_mod_division_less_than_divisor(
            x as int, pow2(off) as int);
    }
    assert(lo + m * pow2(off) < pow2(off + w)) by (nonlinear_arith)
        requires
            lo < pow2(off),
            m < pow2(w),
            pow2(off + w) == pow2(off) * pow2(w),
            pow2(off) >= 1,
    ;
    assert(y == pow2(off + w) * hi + (lo + m * pow2(off))) by (nonlinear_arith)
        requires y == lo + m * pow2(off) + hi * pow2(off + w),
    ;
    assert(y / pow2(off + w) == hi) by {
        lemma_div_multiples_vanish_fancy(hi as int, (lo + m * pow2(off)) as int,
            pow2(off + w) as int);
    }
    lemma_pow2_div_add(y, off + w, (o2 - off - w) as nat);
    lemma_pow2_div_add(x, off + w, (o2 - off - w) as nat);
}

/// Any number splits into its bits below `a`, its bits `[a, a+b)`, and
/// its bits from `a+b` up.
pub proof fn lemma_pow2_three_way(x: nat, a: nat, b: nat)
    ensures
        x == x % pow2(a) + ((x / pow2(a)) % pow2(b)) * pow2(a)
            + (x / pow2(a + b)) * pow2(a + b),
{
    lemma_pow2_pos(a);
    lemma_pow2_pos(b);
    lemma_pow2_adds(a, b);
    let q = x / pow2(a);
    let qd = q / pow2(b);
    let qm = q % pow2(b);
    lemma_fundamental_div_mod(x as int, pow2(a) as int);
    lemma_fundamental_div_mod(q as int, pow2(b) as int);
    lemma_pow2_div_add(x, a, b);
    assert(x == x % pow2(a) + qm * pow2(a) + qd * pow2(a + b)) by (nonlinear_arith)
        requires
            x == pow2(a) * q + x % pow2(a),
            q == pow2(b) * qd + qm,
            pow2(a + b) == pow2(a) * pow2(b),
    ;
}

/// `is_splice` follows from agreement on the three regions.
pub proof fn lemma_splice_intro(x: nat, y: nat, off: nat, w: nat, m: nat)
    requires
        m < pow2(w),
        y % pow2(off) == x % pow2(off),
        (y / pow2(off)) % pow2(w) == m,
        y / pow2(off + w) == x / pow2(off + w),
    ensures
        is_splice(x, y, off, w, m),
{
    lemma_pow2_three_way(y, off, w);
}

/// A splice leaves remainders below the window unchanged.
pub proof fn lemma_splice_mod_low(x: nat, y: nat, off: nat, w: nat, m: nat, a: nat)
    requires
        is_splice(x, y, off, w, m),
        a <= off,
    ensures
        y % pow2(a) == x % pow2(a),
{
    lemma_pow2_pos(off);
    lemma_pow2_pos(w);
    lemma_pow2_pos(a);
    lemma_pow2_adds(off, w);
    lemma_pow2_adds(a, (off - a) as nat);
    let lo = x % pow2(off);
    let hi = x / pow2(off + w);
    let k = m * pow2((off - a) as nat) + hi * pow2((off - a) as nat) * pow2(w);
    assert(y == lo + k * pow2(a)) by (nonlinear_arith)
        requires
            y == lo + m * pow2(off) + hi * pow2(off + w),
            pow2(off + w) == pow2(off) * pow2(w),
            pow2(off) == pow2(a) * pow2((off - a) as nat),
            k == m * pow2((off - a) as nat) + hi * pow2((off - a) as nat) * pow2(w),
    ;
    assert((pow2(a) * k + lo) % pow2(a) == lo % pow2(a)) by {
        lemma_mod_multiples_vanish(k as int, lo as int, pow2(a) as int);
    }
    assert(y % pow2(a) == lo % pow2(a));
    lemma_pow2_mod_mod(x, off, a);
}

/// A splice leaves quotients above the window unchanged.
pub proof fn lemma_splice_div_high(x: nat, y: nat, off: nat, w: nat, m: nat, a: nat)
    requires
        is_splice(x, y, off, w, m),
        off + w <= a,
    ensures
        y / pow2(a) == x / pow2(a),
{
    lemma_pow2_pos(a);
    lemma_pow2_pos(off);
    lemma_pow2_pos(w);
    lemma_pow2_adds(off, w);
    let lo = x % pow2(off);
    let hi = x / pow2(off + w);
    assert(0 <= lo < pow2(off)) by {
        vstd::arithmetic::div_mod::lemma_mod_division_less_than_divisor(
            x as int, pow2(off) as int);
    }
    assert(lo + m * pow2(off) < pow2(off + w)) by (nonlinear_arith)
        requires
            lo < pow2(off),
            m < pow2(w),
            pow2(off + w) == pow2(off) * pow2(w),
            pow2(off) >= 1,
    ;
    assert(y == pow2(off + w) * hi + (lo + m * pow2(off))) by (nonlinear_arith)
        requires y == lo + m * pow2(off) + hi * pow2(off + w),
    ;
    assert(y / pow2(off + w) == hi) by {
        vstd::arithmetic::div_mod::lemma_div_multiples_vanish_fancy(
            hi as int, (lo + m * pow2(off)) as int, pow2(off + w) as int);
    }
    lemma_pow2_div_add(y, off + w, (a - off - w) as nat);
    lemma_pow2_div_add(x, off + w, (a - off - w) as nat);
}

/// A value spliced into a window that sits under `n` bits stays under
/// `n` bits.
pub proof fn lemma_splice_bound(x: nat, y: nat, off: nat, w: nat, m: nat, n: nat)
    requires
        is_splice(x, y, off, w, m),
        off + w <= n,
        x < pow2(n),
    ensures
        y < pow2(n),
{
    lemma_pow2_pos(off);
    lemma_pow2_pos(w);
    lemma_pow2_adds(off, w);
    lemma_pow2_adds(off + w, (n - off - w) as nat);
    let lo = x % pow2(off);
    let hi = x / pow2(off + w);
    assert(0 <= lo < pow2(off)) by {
        vstd::arithmetic::div_mod::lemma_mod_division_less_than_divisor(
            x as int, pow2(off) as int);
    }
    assert(hi < pow2((n - off - w) as nat)) by {
        vstd::arithmetic::div_mod::lemma_multiply_divide_lt(
            x as int, pow2(off + w) as int, pow2((n - off - w) as nat) as int);
    }
    assert(lo + m * pow2(off) + hi * pow2(off + w) < pow2(n)) by (nonlinear_arith)
        requires
            lo < pow2(off),
            m < pow2(w),
            hi < pow2((n - off - w) as nat),
            pow2(off + w) == pow2(off) * pow2(w),
            pow2(n) == pow2(off + w) * pow2((n - off - w) as nat),
            pow2(off) >= 1,
            pow2(w) >= 1,
    ;
}

/// Splicing nothing changes nothing.
pub proof fn lemma_splice_refl(x: nat, off: nat)
    ensures
        is_splice(x, x, off, 0, 0),
{
    lemma_pow2_pos(off);
    assert(pow2(0) == 1) by { lemma2_to64(); }
    lemma_fundamental_div_mod(x as int, pow2(off) as int);
    assert(x == x % pow2(off) + 0 * pow2(off) + (x / pow2(off)) * pow2(off))
        by (nonlinear_arith)
        requires x == pow2(off) * (x / pow2(off)) + x % pow2(off),
    ;
}

/// Splicing a byte of the buffer splices the buffer: replacing bits
/// `[pos, pos+len)` of byte `i` replaces bits `[8i+pos, 8i+pos+len)` of
/// the whole number.
pub proof fn lemma_byte_splice(data: Seq<u8>, i: int, b2: u8, pos: nat, len: nat, c: nat)
    requires
        0 <= i < data.len(),
        1 <= len,
        pos + len <= 8,
        is_splice(data[i] as nat, b2 as nat, pos, len, c),
    ensures
        is_splice(buf_nat(data), buf_nat(data.update(i, b2)),
            (8 * i + pos) as nat, len, c),
{
    let x = buf_nat(data);
    let y = buf_nat(data.update(i, b2));
    let d = data[i] as nat;
    let bb = b2 as nat;
    let off = (8 * i + pos) as nat;
    let base = (8 * i) as nat;
    lemma_pow2_pos(pos);
    lemma_pow2_pos(len);
    lemma_pow2_pos(base);
    lemma_pow2_pos(off);
    lemma_pow2_adds(base, pos);
    lemma_pow2_adds(off, len);
    lemma_pow2_adds(pos, len);
    lemma_buf_nat_update(data, i, b2);

    // The two bytes differ exactly by the window's contents.
    let md = (d / pow2(pos)) % pow2(len);
    lemma_pow2_three_way(d, pos, len);
    assert(d == d % pow2(pos) + md * pow2(pos) + (d / pow2(pos + len)) * pow2(pos + len));
    assert(bb == d % pow2(pos) + c * pow2(pos) + (d / pow2(pos + len)) * pow2(pos + len));

    // Hence the two buffers differ exactly by the window's contents.
    assert(y + (d % pow2(pos) + md * pow2(pos) + (d / pow2(pos + len)) * pow2(pos + len)) * pow2(base)
        == x + (d % pow2(pos) + c * pow2(pos) + (d / pow2(pos + len)) * pow2(pos + len)) * pow2(base));
    assert(y + md * pow2(off) == x + c * pow2(off)) by (nonlinear_arith)
        requires
            y + (d % pow2(pos) + md * pow2(pos) + (d / pow2(pos + len)) * pow2(pos + len)) * pow2(base)
                == x + (d % pow2(pos) + c * pow2(pos) + (d / pow2(pos + len)) * pow2(pos + len)) * pow2(base),
            pow2(off) == pow2(base) * pow2(pos),
    ;

    // The old window holds `md`, so removing it and inserting `c` is a
    // splice.
    assert((x / pow2(off)) % pow2(len) == md) by {
        assert(off < 8 * data.len());
        lemma_span_in_byte(data, off, len);
        assert(off / 8 == i && off % 8 == pos) by (nonlinear_arith)
            requires off == 8 * i + pos, 0 <= pos < 8, i >= 0,
        ;
    }
    lemma_pow2_three_way(x, off, len);
    assert(y == x % pow2(off) + c * pow2(off) + (x / pow2(off + len)) * pow2(off + len));
}

/// Two splices at adjacent windows amount to one splice of the combined
/// window.
pub proof fn lemma_splice_extend(
    x: nat, y: nat, z: nat, off: nat, w1: nat, w2: nat, m1: nat, c: nat,
)
    requires
        is_splice(x, y, off, w1, m1),
        is_splice(y, z, (off + w1) as nat, w2, c),
    ensures
        is_splice(x, z, off, (w1 + w2) as nat, (m1 + c * pow2(w1)) as nat),
{
    lemma_pow2_pos(off);
    lemma_pow2_pos(w1);
    lemma_pow2_pos(w2);
    lemma_pow2_adds(w1, w2);
    lemma_pow2_adds(off, w1);
    lemma_pow2_adds(off + w1, w2);
    let m = (m1 + c * pow2(w1)) as nat;
    assert(m < pow2(w1 + w2)) by (nonlinear_arith)
        requires
            m1 < pow2(w1),
            c < pow2(w2),
            m == m1 + c * pow2(w1),
            pow2(w1 + w2) == pow2(w1) * pow2(w2),
    ;
    // Region below `off`.
    lemma_splice_mod_low(y, z, (off + w1) as nat, w2, c, off);
    lemma_splice_mod_low(x, y, off, w1, m1, off);
    // The combined window.
    assert((z / pow2(off)) % pow2(w1) == m1) by {
        lemma_splice_low(y, z, (off + w1) as nat, w2, c, off, w1);
        lemma_splice_mid(x, y, off, w1, m1);
    }
    assert((z / pow2(off + w1)) % pow2(w2) == c) by {
        lemma_splice_mid(y, z, (off + w1) as nat, w2, c);
    }
    assert((z / pow2(off)) % pow2(w1 + w2) == m) by {
        lemma_pow2_mod_split(z / pow2(off), w1, w2);
        lemma_pow2_div_add(z, off, w1);
        assert(m1 + pow2(w1) * c == m) by (nonlinear_arith)
            requires m == m1 + c * pow2(w1),
        ;
    }
    // Region above the combined window.
    assert(z / pow2(off + w1 + w2) == x / pow2(off + w1 + w2)) by {
        lemma_splice_div_high(y, z, (off + w1) as nat, w2, c, (off + w1 + w2) as nat);
        lemma_splice_div_high(x, y, off, w1, m1, (off + w1 + w2) as nat);
    }
    lemma_splice_intro(x, z, off, (w1 + w2) as nat, m);
}

/// Powers of two are monotone.
pub proof fn lemma_pow2_le(a: nat, b: nat)
    requires
        a <= b,
    ensures
        pow2(a) <= pow2(b),
{
    if a < b {
        vstd::arithmetic::power2::lemma_pow2_strictly_increases(a, b);
    }
}
} // verus!
