//! Enum-ordinal specifiers: a closed, ordered set of named variants,
//! each owning one small unsigned ordinal stored in a bit field.
//!
//! Encoding a variant always succeeds; decoding an ordinal that no
//! variant owns is a recoverable [`DecodeError`], never a silent default.
//! Two policies exist for building a map: explicit ordinals only need to
//! fit in the derived width, while automatically assigned ordinals
//! demand a power-of-two variant count.

use vstd::prelude::*;

verus! {

use vstd::arithmetic::power2::pow2;
use vstd::arithmetic::power2::lemma_pow2_pos;
use vstd::arithmetic::power2::lemma2_to64;
use vstd::arithmetic::power2::lemma2_to64_rest;
use vstd::bits::lemma_u64_shr_is_div;
use vstd::bits::lemma_u64_shl_is_mul;
use crate::bitbuf::lemma_pow2_le;

/// Decoding failed: the raw value is an ordinal no variant owns.
#[derive(Clone, Copy, PartialEq, Eq, Structural, Debug)]
pub enum DecodeError {
    /// Holds the raw value that matched no variant.
    UnknownOrdinal(u64),
}

/// Why an enum-ordinal map failed to build.
#[derive(Clone, Copy, PartialEq, Eq, Structural, Debug)]
pub enum MappingError {
    /// Automatic ordinal assignment demands a power-of-two variant
    /// count, and `count` is not one.
    NonPowerOfTwoVariantCount { count: usize },
    /// A variant's explicit ordinal does not fit in the derived bit
    /// width; `max` is the largest representable ordinal.
    OrdinalOutOfRange { variant: usize, ordinal: u64, max: u64 },
}

/// `b` is the minimum bit width that represents a domain of `v` values:
/// `ceil(log2(v))`, but at least 1 even for a trivial domain.
pub open spec fn is_bits_for(b: nat, v: nat) -> bool {
    &&& b >= 1
    &&& v <= pow2(b)
    &&& b > 1 ==> pow2((b - 1) as nat) < v
}

/// The minimum width is well defined.
pub proof fn lemma_bits_for_unique(b1: nat, b2: nat, v: nat)
    requires
        is_bits_for(b1, v),
        is_bits_for(b2, v),
    ensures
        b1 == b2,
{
    if b1 < b2 {
        lemma_pow2_le(b1, (b2 - 1) as nat);
    }
    if b2 < b1 {
        lemma_pow2_le(b2, (b1 - 1) as nat);
    }
}

/// The minimum number of bits needed to distinguish `v` values, and at
/// least 1: `bits_u64(0) == bits_u64(1) == 1`, `bits_u64(4) == 2`,
/// `bits_u64(9) == 4`.
pub fn bits_u64(v: u64) -> (r: u32)
    ensures
        is_bits_for(r as nat, v as nat),
        r <= 64,
{
    if v == 0 {
        proof {
            lemma2_to64();
        }
        return 1;
    }
    let mut bits: u32 = 1;
    proof {
        lemma2_to64();
    }
    while bits < 64 && ((v - 1) >> (bits as u64)) != 0
        invariant
            v >= 1,
            1 <= bits <= 64,
            bits > 1 ==> pow2((bits - 1) as nat) < v,
        decreases 64 - bits,
    {
        proof {
            lemma_u64_shr_is_div((v - 1) as u64, bits as u64);
            lemma_pow2_pos(bits as nat);
            assert((v - 1) as nat / pow2(bits as nat) > 0 ==> ((v - 1) as nat) >= pow2(bits as nat))
                by (nonlinear_arith)
                requires pow2(bits as nat) > 0,
            ;
        }
        bits = bits + 1;
    }
    proof {
        if bits < 64 {
            lemma_u64_shr_is_div((v - 1) as u64, bits as u64);
            lemma_pow2_pos(bits as nat);
            vstd::arithmetic::div_mod::lemma_small_div_converse((v - 1) as int,
                pow2(bits as nat) as int);
            assert((v - 1) as nat / pow2(bits as nat) == 0);
            assert(((v - 1) as nat) < pow2(bits as nat)) by (nonlinear_arith)
                requires
                    (v - 1) as nat / pow2(bits as nat) == 0,
                    pow2(bits as nat) > 0,
            ;
        } else {
            lemma2_to64_rest();
            assert(v as nat <= pow2(64));
        }
    }
    bits
}

/// The out-of-range errors of the first `i` variants, for a map of
/// width `b`.
pub open spec fn ordinal_errors_upto(vars: Seq<(String, u64)>, b: nat, i: int) -> Seq<MappingError>
    decreases i,
{
    if i <= 0 {
        Seq::empty()
    } else {
        ordinal_errors_upto(vars, b, i - 1)
            + if vars[i - 1].1 as nat >= pow2(b) {
                seq![MappingError::OrdinalOutOfRange {
                    variant: (i - 1) as usize,
                    ordinal: vars[i - 1].1,
                    max: (pow2(b) - 1) as u64,
                }]
            } else {
                Seq::empty()
            }
    }
}

/// The error lists are empty exactly when every ordinal fits.
pub proof fn lemma_ordinal_errors_empty(vars: Seq<(String, u64)>, b: nat, i: int)
    requires
        0 <= i <= vars.len(),
    ensures
        (ordinal_errors_upto(vars, b, i).len() == 0)
            <==> (forall|j: int| 0 <= j < i ==> (#[trigger] vars[j].1 as nat) < pow2(b)),
    decreases i,
{
    if i > 0 {
        lemma_ordinal_errors_empty(vars, b, i - 1);
    }
}

/// A closed, ordered mapping between named variants and the ordinals
/// stored for them, together with the bit width any field holding them
/// needs.
pub struct EnumOrdinalMap {
    variants: Vec<(String, u64)>,
    bits: u32,
}

impl View for EnumOrdinalMap {
    type V = Seq<(String, u64)>;

    closed spec fn view(&self) -> Seq<(String, u64)> {
        self.variants@
    }
}

impl EnumOrdinalMap {
    /// The bit width needed to store any of the map's ordinals.
    pub closed spec fn spec_bits(&self) -> u32 {
        self.bits
    }

    /// The map's validity invariant: the width is the minimum for the
    /// variant count and every ordinal fits in it.
    pub open spec fn wf(&self) -> bool {
        &&& is_bits_for(self.spec_bits() as nat, self@.len() as nat)
        &&& self.spec_bits() <= 64
        &&& forall|i: int| 0 <= i < self@.len() ==>
            (#[trigger] self@[i].1 as nat) < pow2(self.spec_bits() as nat)
    }

    /// Builds a map from explicitly assigned ordinals. Every ordinal
    /// must fit in the width derived from the variant count; all
    /// violations are collected and reported together.
    pub fn build(variants: Vec<(String, u64)>) -> (r: Result<EnumOrdinalMap, Vec<MappingError>>)
        ensures
            forall|b: nat| is_bits_for(b, variants@.len() as nat) ==> match r {
                Ok(m) => m@ == variants@ && m.wf() && m.spec_bits() as nat == b
                    && ordinal_errors_upto(variants@, b, variants@.len() as int).len() == 0,
                Err(es) => es@ == ordinal_errors_upto(variants@, b, variants@.len() as int)
                    && es@.len() > 0,
            },
            r is Ok <==> forall|b: nat| is_bits_for(b, variants@.len() as nat) ==>
                forall|j: int| 0 <= j < variants@.len() ==>
                    (#[trigger] variants@[j].1 as nat) < pow2(b),
    {
        let n = variants.len();
        let bits = bits_u64(n as u64);
        proof {
            lemma2_to64();
            lemma2_to64_rest();
            lemma_pow2_le(bits as nat, 64);
            lemma_pow2_pos(bits as nat);
        }
        let max: u64 = if bits >= 64 {
            0xffff_ffff_ffff_ffffu64
        } else {
            proof {
                lemma_u64_shl_is_mul(1u64, bits as u64);
            }
            (1u64 << (bits as u64)) - 1
        };
        proof {
            assert(max as nat == pow2(bits as nat) - 1);
        }
        let mut errs: Vec<MappingError> = Vec::new();
        let mut i: usize = 0;
        while i < n
            invariant
                n == variants@.len(),
                i <= n,
                max as nat == pow2(bits as nat) - 1,
                errs@ == ordinal_errors_upto(variants@, bits as nat, i as int),
            decreases n - i,
        {
            let ord = variants[i].1;
            if ord > max {
                errs.push(MappingError::OrdinalOutOfRange {
                    variant: i,
                    ordinal: ord,
                    max: max,
                });
            }
            proof {
                assert(errs@ =~= ordinal_errors_upto(variants@, bits as nat, i + 1));
            }
            i = i + 1;
        }
        proof {
            lemma_ordinal_errors_empty(variants@, bits as nat, n as int);
            assert forall|b: nat| is_bits_for(b, variants@.len() as nat) implies
                b == bits as nat by {
                lemma_bits_for_unique(b, bits as nat, variants@.len() as nat);
            }
        }
        if errs.len() == 0 {
            Ok(EnumOrdinalMap { variants, bits })
        } else {
            Err(errs)
        }
    }

    /// Builds a map whose ordinals are assigned automatically, in
    /// order, from zero. Under this policy the variant count must be an
    /// exact power of two, so that every representable bit pattern is a
    /// variant.
    pub fn build_auto(names: Vec<String>) -> (r: Result<EnumOrdinalMap, MappingError>)
        ensures
            forall|b: nat| is_bits_for(b, names@.len() as nat) ==>
                ((r is Ok) <==> pow2(b) == names@.len()),
            match r {
                Ok(m) => m@.len() == names@.len() && m.wf()
                    && forall|i: int| 0 <= i < names@.len() ==>
                        (#[trigger] m@[i]).0 == names@[i] && m@[i].1 == i as u64,
                Err(e) => e == (MappingError::NonPowerOfTwoVariantCount {
                    count: names@.len() as usize,
                }),
            },
    {
        let n = names.len();
        let bits = bits_u64(n as u64);
        proof {
            lemma2_to64();
            lemma2_to64_rest();
            lemma_pow2_le(bits as nat, 64);
            lemma_pow2_pos(bits as nat);
            assert forall|b: nat| is_bits_for(b, names@.len() as nat) implies
                b == bits as nat by {
                lemma_bits_for_unique(b, bits as nat, names@.len() as nat);
            }
        }
        if bits >= 64 {
            // The count is at most `u64::MAX`, so it cannot be `2^64`.
            proof {
                lemma2_to64_rest();
            }
            return Err(MappingError::NonPowerOfTwoVariantCount { count: n });
        }
        proof {
            lemma_u64_shl_is_mul(1u64, bits as u64);
        }
        if (1u64 << (bits as u64)) != (n as u64) {
            return Err(MappingError::NonPowerOfTwoVariantCount { count: n });
        }
        let mut variants: Vec<(String, u64)> = Vec::new();
        let mut i: usize = 0;
        while i < n
            invariant
                n == names@.len(),
                i <= n,
                n < pow2(64),
                variants@.len() == i,
                forall|j: int| 0 <= j < i ==>
                    (#[trigger] variants@[j]).0 == names@[j] && variants@[j].1 == j as u64,
            decreases n - i,
        {
            variants.push((names[i].clone(), i as u64));
            i = i + 1;
        }
        proof {
            lemma2_to64_rest();
        }
        Ok(EnumOrdinalMap { variants, bits })
    }

    /// How many variants the map has.
    pub fn variant_count(&self) -> (r: usize)
        ensures
            r == self@.len(),
    {
        self.variants.len()
    }

    /// The bit width any field storing these ordinals needs.
    pub fn bits(&self) -> (r: u32)
        ensures
            r == self.spec_bits(),
    {
        self.bits
    }

    /// The name of variant `i`.
    pub fn variant_name(&self, i: usize) -> (r: &String)
        requires
            i < self@.len(),
        ensures
            *r == self@[i as int].0,
    {
        &self.variants[i].0
    }

    /// The ordinal assigned to variant `i`. Total: every variant has
    /// exactly one ordinal.
    pub fn encode(&self, variant: usize) -> (r: u64)
        requires
            variant < self@.len(),
        ensures
            r == self@[variant as int].1,
    {
        self.variants[variant].1
    }

    /// The first variant owning ordinal `raw`, or
    /// [`DecodeError::UnknownOrdinal`] when no variant owns it.
    pub fn decode(&self, raw: u64) -> (r: Result<usize, DecodeError>)
        ensures
            match r {
                Ok(i) => i < self@.len() && self@[i as int].1 == raw
                    && forall|j: int| 0 <= j < i ==> self@[j].1 != raw,
                Err(e) => e == DecodeError::UnknownOrdinal(raw)
                    && forall|j: int| 0 <= j < self@.len() ==> self@[j].1 != raw,
            },
            (r is Ok) <==> exists|j: int| 0 <= j < self@.len() && self@[j].1 == raw,
    {
        let n = self.variants.len();
        let mut i: usize = 0;
        while i < n
            invariant
                n == self@.len(),
                i <= n,
                forall|j: int| 0 <= j < i ==> self@[j].1 != raw,
            decreases n - i,
        {
            if self.variants[i].1 == raw {
                return Ok(i);
            }
            i = i + 1;
        }
        Err(DecodeError::UnknownOrdinal(raw))
    }
}

} // verus!
