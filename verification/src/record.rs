//! Packed records: a fixed byte buffer holding one value per field of a
//! record layout, with per-field accessors.
//!
//! A record is created with every bit zero and owns a buffer of exactly
//! the layout's byte size. Setting a field stores the low `width` bits
//! of the given value and provably leaves every other field unchanged,
//! even when fields share a byte; getting a field returns exactly the
//! stored bits.

use vstd::prelude::*;

verus! {

use vstd::arithmetic::power2::pow2;
use crate::bitbuf::span_of;
use crate::layout::FieldSpec;
use crate::layout::FieldKind;
use crate::layout::RecordLayout;
use crate::layout::total_bits_of;
use crate::layout::offset_of;
use crate::layout::lemma_field_in_total;
use crate::layout::lemma_no_gap;
use crate::layout::lemma_offset_monotone;
use crate::layout::first_with_name;
use crate::ordinal::EnumOrdinalMap;
use crate::ordinal::DecodeError;

/// A zero-initialized buffer of a layout's exact byte size, mutated in
/// place by per-field set operations. The record borrows its layout; it
/// never owns it.
pub struct PackedRecord<'a> {
    layout: &'a RecordLayout,
    data: Vec<u8>,
}

impl<'a> View for PackedRecord<'a> {
    type V = Seq<u8>;

    closed spec fn view(&self) -> Seq<u8> {
        self.data@
    }
}

impl<'a> PackedRecord<'a> {
    /// The fields of the layout this record was created for.
    pub closed spec fn layout_view(&self) -> Seq<FieldSpec> {
        self.layout@
    }

    /// The record's validity: its layout is well formed and its buffer
    /// covers the layout's bits exactly.
    pub open spec fn wf(&self) -> bool {
        &&& crate::layout::fields_wf(self.layout_view())
        &&& 8 * self@.len() == total_bits_of(self.layout_view())
        &&& total_bits_of(self.layout_view()) + 7 <= usize::MAX
    }

    /// The value stored in field `i`: the bits of its span, read
    /// least-significant bit first.
    pub open spec fn field_value(&self, i: int) -> nat {
        span_of(self@, offset_of(self.layout_view(), i),
            self.layout_view()[i].bit_width as nat)
    }

    /// Creates a record for the layout with every bit zero, so every
    /// field reads zero.
    pub fn new(layout: &'a RecordLayout) -> (r: PackedRecord<'a>)
        requires
            layout.wf(),
            total_bits_of(layout@) + 7 <= usize::MAX,
        ensures
            r.wf(),
            r.layout_view() == layout@,
            r@.len() == (total_bits_of(layout@) + 7) / 8,
            forall|i: int| 0 <= i < layout@.len() ==> #[trigger] r.field_value(i) == 0,
    {
        let n = layout.byte_size();
        let mut data: Vec<u8> = Vec::new();
        let mut i: usize = 0;
        while i < n
            invariant
                i <= n,
                data@.len() == i,
                forall|k: int| 0 <= k < i ==> data@[k] == 0,
            decreases n - i,
        {
            data.push(0);
            i = i + 1;
        }
        let r = PackedRecord { layout, data };
        proof {
            assert(8 * r@.len() == total_bits_of(layout@)) by {
                assert(total_bits_of(layout@) % 8 == 0);
                vstd::arithmetic::div_mod::lemma_fundamental_div_mod(
                    total_bits_of(layout@) as int, 8);
            }
            crate::bitbuf::lemma_buf_nat_zero(r@);
            assert forall|i2: int| 0 <= i2 < layout@.len() implies
                #[trigger] r.field_value(i2) == 0 by {
                let off = offset_of(layout@, i2);
                let w = layout@[i2].bit_width as nat;
                vstd::arithmetic::power2::lemma_pow2_pos(off);
                vstd::arithmetic::power2::lemma_pow2_pos(w);
                assert(span_of(r@, off, w) == (0nat / pow2(off)) % pow2(w));
                assert(0nat / pow2(off) == 0) by (nonlinear_arith)
                    requires pow2(off) > 0,
                ;
                vstd::arithmetic::div_mod::lemma_small_mod(0, pow2(w));
            }
        }
        r
    }

    /// How many bytes the record's buffer holds.
    pub fn byte_len(&self) -> (r: usize)
        ensures
            r == self@.len(),
    {
        self.data.len()
    }

    /// The byte at buffer position `i`; the binary interop contract:
    /// byte `k` holds bits `[8k, 8k+8)` of the record's bit space.
    pub fn byte_at(&self, i: usize) -> (r: u8)
        requires
            i < self@.len(),
        ensures
            r == self@[i as int],
    {
        self.data[i]
    }

    /// The raw bits of field `i`, exactly as stored.
    pub fn get_at(&self, i: usize) -> (r: u64)
        requires
            self.wf(),
            i < self.layout_view().len(),
        ensures
            r as nat == self.field_value(i as int),
            (r as nat) < pow2(self.layout_view()[i as int].bit_width as nat),
    {
        proof {
            lemma_field_in_total(self.layout_view(), i as int);
        }
        let off = self.layout.field_offset(i);
        let w = self.layout.field(i).bit_width;
        crate::codec::get(&self.data, off, w as usize)
    }

    /// Stores the low `width` bits of `v` in field `i`. Every other
    /// field keeps its value, even one sharing a byte with field `i`.
    pub fn set_at(&mut self, i: usize, v: u64)
        requires
            old(self).wf(),
            i < old(self).layout_view().len(),
        ensures
            final(self).wf(),
            final(self).layout_view() == old(self).layout_view(),
            final(self)@.len() == old(self)@.len(),
            final(self).field_value(i as int)
                == (v as nat) % pow2(old(self).layout_view()[i as int].bit_width as nat),
            forall|j: int| 0 <= j < old(self).layout_view().len() && j != i ==>
                #[trigger] final(self).field_value(j) == old(self).field_value(j),
    {
        proof {
            lemma_field_in_total(self.layout_view(), i as int);
        }
        let off = self.layout.field_offset(i);
        let w = self.layout.field(i).bit_width;
        crate::codec::set(&mut self.data, v, off, w as usize);
        proof {
            let fields = self.layout_view();
            assert forall|j: int| 0 <= j < fields.len() && j != i implies
                #[trigger] self.field_value(j) == old(self).field_value(j) by {
                let oj = offset_of(fields, j);
                let wj = fields[j].bit_width as nat;
                if j < i {
                    lemma_no_gap(fields, j);
                    lemma_offset_monotone(fields, j + 1, i as int);
                    assert(oj + wj <= off as nat);
                } else {
                    lemma_no_gap(fields, i as int);
                    lemma_offset_monotone(fields, i as int + 1, j);
                    assert(oj >= off as nat + w as nat);
                }
                assert(span_of(self@, oj, wj) == span_of(old(self)@, oj, wj));
            }
        }
    }

    /// The flag stored in a boolean field: set exactly when the raw
    /// bits are not zero.
    pub fn get_bool_at(&self, i: usize) -> (r: bool)
        requires
            self.wf(),
            i < self.layout_view().len(),
            self.layout_view()[i as int].kind == FieldKind::Boolean,
        ensures
            r == (self.field_value(i as int) != 0),
    {
        self.get_at(i) != 0
    }

    /// Stores a flag in a boolean field: one for `true`, zero for
    /// `false`. Other fields keep their values.
    pub fn set_bool_at(&mut self, i: usize, v: bool)
        requires
            old(self).wf(),
            i < old(self).layout_view().len(),
            old(self).layout_view()[i as int].kind == FieldKind::Boolean,
        ensures
            final(self).wf(),
            final(self).layout_view() == old(self).layout_view(),
            final(self).field_value(i as int) == (if v { 1nat } else { 0nat }),
            forall|j: int| 0 <= j < old(self).layout_view().len() && j != i ==>
                #[trigger] final(self).field_value(j) == old(self).field_value(j),
    {
        proof {
            let w = old(self).layout_view()[i as int].bit_width as nat;
            vstd::arithmetic::power2::lemma_pow2_pos(w);
            vstd::arithmetic::power2::lemma2_to64();
            crate::bitbuf::lemma_pow2_le(1, w);
            vstd::arithmetic::div_mod::lemma_small_mod(1, pow2(w));
            vstd::arithmetic::div_mod::lemma_small_mod(0, pow2(w));
        }
        self.set_at(i, if v { 1 } else { 0 });
    }

    /// Decodes an enum field through its ordinal map: the first variant
    /// owning the stored ordinal, or the raw value in
    /// [`DecodeError::UnknownOrdinal`] when no variant owns it.
    pub fn get_enum_at(&self, i: usize, map: &EnumOrdinalMap) -> (r: Result<
        usize,
        DecodeError,
    >)
        requires
            self.wf(),
            i < self.layout_view().len(),
            self.layout_view()[i as int].kind == FieldKind::EnumOrdinal,
        ensures
            match r {
                Ok(v) => v < map@.len()
                    && map@[v as int].1 as nat == self.field_value(i as int)
                    && forall|j: int| 0 <= j < v ==>
                        map@[j].1 as nat != self.field_value(i as int),
                Err(e) => {
                    &&& exists|raw: u64| e == DecodeError::UnknownOrdinal(raw)
                        && raw as nat == self.field_value(i as int)
                    &&& forall|j: int| 0 <= j < map@.len() ==>
                        map@[j].1 as nat != self.field_value(i as int)
                },
            },
    {
        map.decode(self.get_at(i))
    }

    /// Encodes a variant through its ordinal map and stores the
    /// ordinal in an enum field. The field must be wide enough for the
    /// map's ordinals. Other fields keep their values.
    pub fn set_enum_at(&mut self, i: usize, map: &EnumOrdinalMap, variant: usize)
        requires
            old(self).wf(),
            map.wf(),
            i < old(self).layout_view().len(),
            old(self).layout_view()[i as int].kind == FieldKind::EnumOrdinal,
            variant < map@.len(),
            map.spec_bits() <= old(self).layout_view()[i as int].bit_width,
        ensures
            final(self).wf(),
            final(self).layout_view() == old(self).layout_view(),
            final(self).field_value(i as int) == map@[variant as int].1 as nat,
            forall|j: int| 0 <= j < old(self).layout_view().len() && j != i ==>
                #[trigger] final(self).field_value(j) == old(self).field_value(j),
    {
        let ord = map.encode(variant);
        proof {
            let w = old(self).layout_view()[i as int].bit_width as nat;
            crate::bitbuf::lemma_pow2_le(map.spec_bits() as nat, w);
            vstd::arithmetic::power2::lemma_pow2_pos(w);
            vstd::arithmetic::div_mod::lemma_small_mod(ord as nat, pow2(w));
        }
        self.set_at(i, ord);
    }

    /// The raw bits of the first field with the given name, or nothing
    /// when no field has it.
    pub fn get_field(&self, name: &String) -> (r: Option<u64>)
        requires
            self.wf(),
        ensures
            (r is Some) <==> exists|i: int|
                #[trigger] first_with_name(self.layout_view(), name@, i),
            match r {
                Some(v) => forall|i: int|
                    #[trigger] first_with_name(self.layout_view(), name@, i) ==>
                        v as nat == self.field_value(i),
                None => true,
            },
    {
        match self.layout.field_index(name) {
            Some(i) => {
                proof {
                    assert(first_with_name(self.layout_view(), name@, i as int));
                    assert forall|i2: int|
                        first_with_name(self.layout_view(), name@, i2) implies
                        i2 == i as int by {
                        crate::layout::lemma_first_with_name_unique(
                            self.layout_view(), name@, i2, i as int);
                    }
                }
                Some(self.get_at(i))
            }
            None => None,
        }
    }

    /// Stores the low `width` bits of `v` in the first field with the
    /// given name. Returns whether such a field exists; without one the
    /// record is unchanged.
    pub fn set_field(&mut self, name: &String, v: u64) -> (r: bool)
        requires
            old(self).wf(),
        ensures
            final(self).wf(),
            final(self).layout_view() == old(self).layout_view(),
            r <==> exists|i: int|
                #[trigger] first_with_name(old(self).layout_view(), name@, i),
            !r ==> final(self)@ == old(self)@,
            forall|i: int|
                #[trigger] first_with_name(old(self).layout_view(), name@, i) ==> {
                    &&& final(self).field_value(i) == (v as nat)
                        % pow2(old(self).layout_view()[i].bit_width as nat)
                    &&& forall|j: int|
                        0 <= j < old(self).layout_view().len() && j != i ==>
                            #[trigger] final(self).field_value(j)
                                == old(self).field_value(j)
                },
    {
        match self.layout.field_index(name) {
            Some(i) => {
                proof {
                    assert(first_with_name(self.layout_view(), name@, i as int));
                    assert forall|i2: int|
                        first_with_name(self.layout_view(), name@, i2) implies
                        i2 == i as int by {
                        crate::layout::lemma_first_with_name_unique(
                            self.layout_view(), name@, i2, i as int);
                    }
                }
                self.set_at(i, v);
                true
            }
            None => false,
        }
    }
}

/// The round-trip law: a store that [`PackedRecord::set_at`] performed
/// with a value that fits the field's width reads back as exactly that
/// value, and every other field keeps the value it had before the
/// store.
pub proof fn lemma_round_trip<'a>(pre: PackedRecord<'a>, post: PackedRecord<'a>, i: int, v: u64)
    requires
        pre.wf(),
        0 <= i < pre.layout_view().len(),
        post.layout_view() == pre.layout_view(),
        (v as nat) < pow2(pre.layout_view()[i].bit_width as nat),
        post.field_value(i)
            == (v as nat) % pow2(pre.layout_view()[i].bit_width as nat),
        forall|j: int| 0 <= j < pre.layout_view().len() && j != i ==>
            #[trigger] post.field_value(j) == pre.field_value(j),
    ensures
        post.field_value(i) == v as nat,
        forall|j: int| 0 <= j < pre.layout_view().len() && j != i ==>
            #[trigger] post.field_value(j) == pre.field_value(j),
{
    let w = pre.layout_view()[i].bit_width as nat;
    vstd::arithmetic::power2::lemma_pow2_pos(w);
    vstd::arithmetic::div_mod::lemma_small_mod(v as nat, pow2(w));
}

} // verus!
