//! Record layouts: an ordered list of named fields, each with a bit
//! width, packed back to back with no gaps.
//!
//! A layout assigns every field an offset by accumulating the widths in
//! declaration order. A layout is valid only when its total bit width is
//! a multiple of eight; an invalid layout is rejected when it is built,
//! never at field access time, and all structural problems are collected
//! and reported together.

use vstd::prelude::*;

verus! {

/// How the raw bits of a field are interpreted by its accessors.
#[derive(Clone, Copy, PartialEq, Eq, Structural, Debug)]
pub enum FieldKind {
    /// An unsigned integer of the field's width.
    Unsigned,
    /// A single-bit flag; decoded as `raw != 0`.
    Boolean,
    /// An ordinal that an enum-ordinal map translates to a variant.
    EnumOrdinal,
}

/// One named field of a record layout.
#[derive(Clone, Debug)]
pub struct FieldSpec {
    /// The field's name, unique use is the caller's concern.
    pub name: String,
    /// How many bits the field occupies; 1 to 64.
    pub bit_width: u32,
    /// How accessors interpret the raw bits.
    pub kind: FieldKind,
    /// An optional explicit width assertion: building fails when it is
    /// present and differs from `bit_width`.
    pub expected_bits: Option<u32>,
}

/// Why a layout failed to build.
#[derive(Clone, Copy, PartialEq, Eq, Structural, Debug)]
pub enum LayoutError {
    /// The total bit width is not a multiple of eight; holds
    /// `total_bits % 8`.
    NotByteAligned { excess_bits: u32 },
    /// A field's explicit width assertion does not match its width.
    FieldWidthMismatch { field: usize, expected: u32, actual: u32 },
    /// A field's width is outside 1 to 64.
    WidthOutOfRange { field: usize, width: u32 },
}

/// The sum of all field widths.
pub open spec fn total_bits_of(fields: Seq<FieldSpec>) -> nat
    decreases fields.len(),
{
    if fields.len() == 0 {
        0
    } else {
        fields[0].bit_width as nat + total_bits_of(fields.drop_first())
    }
}

/// The bit offset of field `i`: the sum of the widths before it.
pub open spec fn offset_of(fields: Seq<FieldSpec>, i: int) -> nat
    decreases i,
{
    if i <= 0 {
        0
    } else {
        offset_of(fields, i - 1) + fields[i - 1].bit_width as nat
    }
}

/// The field's width is storable: 1 to 64 bits.
pub open spec fn field_width_ok(f: FieldSpec) -> bool {
    1 <= f.bit_width <= 64
}

/// The field's explicit width assertion, if any, matches its width.
pub open spec fn field_declared_ok(f: FieldSpec) -> bool {
    match f.expected_bits {
        Some(e) => e == f.bit_width,
        None => true,
    }
}

/// A well-formed layout: every width storable, every assertion met, and
/// the total byte-aligned.
pub open spec fn fields_wf(fields: Seq<FieldSpec>) -> bool {
    &&& forall|i: int| 0 <= i < fields.len() ==>
        field_width_ok(#[trigger] fields[i]) && field_declared_ok(fields[i])
    &&& total_bits_of(fields) % 8 == 0
}

/// The errors a single field contributes, in report order.
pub open spec fn field_error_list(f: FieldSpec, i: int) -> Seq<LayoutError> {
    let width_part: Seq<LayoutError> = if !field_width_ok(f) {
        seq![LayoutError::WidthOutOfRange { field: i as usize, width: f.bit_width }]
    } else {
        Seq::empty()
    };
    let declared_part: Seq<LayoutError> = if !field_declared_ok(f) {
        seq![LayoutError::FieldWidthMismatch {
            field: i as usize,
            expected: f.expected_bits->0,
            actual: f.bit_width,
        }]
    } else {
        Seq::empty()
    };
    width_part + declared_part
}

/// The per-field errors of the first `i` fields, in field order.
pub open spec fn field_errors_upto(fields: Seq<FieldSpec>, i: int) -> Seq<LayoutError>
    decreases i,
{
    if i <= 0 {
        Seq::empty()
    } else {
        field_errors_upto(fields, i - 1) + field_error_list(fields[i - 1], i - 1)
    }
}

/// Everything wrong with a prospective layout: the per-field errors in
/// field order, then the alignment error if the total is not a multiple
/// of eight.
pub open spec fn spec_layout_errors(fields: Seq<FieldSpec>) -> Seq<LayoutError> {
    let per_field = field_errors_upto(fields, fields.len() as int);
    if total_bits_of(fields) % 8 != 0 {
        per_field + seq![LayoutError::NotByteAligned {
            excess_bits: (total_bits_of(fields) % 8) as u32,
        }]
    } else {
        per_field
    }
}

/// Packing leaves no gaps: each field starts exactly where the one
/// before it ends, and the offsets never decrease.
pub proof fn lemma_no_gap(fields: Seq<FieldSpec>, i: int)
    requires
        0 <= i < fields.len(),
    ensures
        offset_of(fields, i + 1) == offset_of(fields, i) + fields[i].bit_width as nat,
        offset_of(fields, i) <= offset_of(fields, i + 1),
{
}

/// The offset just past the last field is the sum of all the widths:
/// packed fields cover the layout's bits exactly.
pub proof fn lemma_offsets_cover(fields: Seq<FieldSpec>, i: int)
    requires
        0 <= i <= fields.len(),
    ensures
        offset_of(fields, i) + total_bits_of(fields.skip(i)) == total_bits_of(fields),
    decreases i,
{
    if i == 0 {
        assert(fields.skip(0) =~= fields);
    } else {
        lemma_offsets_cover(fields, i - 1);
        assert(fields.skip(i - 1).drop_first() =~= fields.skip(i));
        assert(fields.skip(i - 1)[0] == fields[i - 1]);
        assert(total_bits_of(fields.skip(i - 1))
            == fields[i - 1].bit_width as nat + total_bits_of(fields.skip(i)));
    }
}

/// The sum of all field widths is exactly the layout's total bits:
/// the offset just past the last field is the total.
pub proof fn lemma_widths_sum(fields: Seq<FieldSpec>)
    ensures
        offset_of(fields, fields.len() as int) == total_bits_of(fields),
{
    lemma_offsets_cover(fields, fields.len() as int);
    assert(fields.skip(fields.len() as int) =~= Seq::empty());
}

/// Offsets are monotone: an earlier field starts no later.
pub proof fn lemma_offset_monotone(fields: Seq<FieldSpec>, i: int, j: int)
    requires
        0 <= i <= j,
    ensures
        offset_of(fields, i) <= offset_of(fields, j),
    decreases j - i,
{
    if i < j {
        lemma_offset_monotone(fields, i, j - 1);
    }
}

/// Every field lies inside the layout's total bits.
pub proof fn lemma_field_in_total(fields: Seq<FieldSpec>, i: int)
    requires
        0 <= i < fields.len(),
    ensures
        offset_of(fields, i) + fields[i].bit_width as nat
            <= total_bits_of(fields),
{
    lemma_offsets_cover(fields, i + 1);
    lemma_offset_monotone(fields, i + 1, fields.len() as int);
}

/// The per-field error lists are empty exactly when every field checks
/// out.
pub proof fn lemma_field_errors_empty(fields: Seq<FieldSpec>, i: int)
    requires
        0 <= i <= fields.len(),
    ensures
        (field_errors_upto(fields, i).len() == 0)
            <==> (forall|j: int| 0 <= j < i ==>
                field_width_ok(#[trigger] fields[j]) && field_declared_ok(fields[j])),
    decreases i,
{
    if i > 0 {
        lemma_field_errors_empty(fields, i - 1);
    }
}

/// An ordered, validated list of fields. Built once by [`RecordLayout::build`]
/// and immutable afterwards; offsets are prefix sums of the widths, so
/// the fields pack with no gaps and no reordering.
pub struct RecordLayout {
    fields: Vec<FieldSpec>,
}

impl View for RecordLayout {
    type V = Seq<FieldSpec>;

    closed spec fn view(&self) -> Seq<FieldSpec> {
        self.fields@
    }
}

impl RecordLayout {
    /// The layout's validity invariant; [`RecordLayout::build`]
    /// establishes it and nothing can break it afterwards.
    pub open spec fn wf(&self) -> bool {
        fields_wf(self@)
    }

    /// Validates the field list and builds the layout. All structural
    /// problems are collected and reported together; no partial layout
    /// is returned.
    pub fn build(fields: Vec<FieldSpec>) -> (r: Result<RecordLayout, Vec<LayoutError>>)
        requires
            total_bits_of(fields@) + 7 <= usize::MAX,
        ensures
            r is Ok <==> fields_wf(fields@),
            match r {
                Ok(l) => l@ == fields@ && l.wf() && spec_layout_errors(fields@).len() == 0,
                Err(es) => es@ == spec_layout_errors(fields@) && es@.len() > 0,
            },
    {
        let n = fields.len();
        let mut errs: Vec<LayoutError> = Vec::new();
        let mut total: usize = 0;
        let mut i: usize = 0;
        while i < n
            invariant
                n == fields@.len(),
                i <= n,
                total_bits_of(fields@) + 7 <= usize::MAX,
                total == offset_of(fields@, i as int),
                errs@ == field_errors_upto(fields@, i as int),
            decreases n - i,
        {
            let f = &fields[i];
            proof {
                lemma_field_in_total(fields@, i as int);
            }
            if f.bit_width < 1 || f.bit_width > 64 {
                errs.push(LayoutError::WidthOutOfRange { field: i, width: f.bit_width });
            }
            match f.expected_bits {
                Some(e) => {
                    if e != f.bit_width {
                        errs.push(LayoutError::FieldWidthMismatch {
                            field: i,
                            expected: e,
                            actual: f.bit_width,
                        });
                    }
                }
                None => {}
            }
            proof {
                assert(errs@ =~= field_errors_upto(fields@, i + 1));
            }
            total = total + (f.bit_width as usize);
            i = i + 1;
        }
        proof {
            lemma_offsets_cover(fields@, n as int);
            assert(fields@.skip(n as int) =~= Seq::empty());
            assert(total == total_bits_of(fields@));
        }
        let excess = total % 8;
        if excess != 0 {
            errs.push(LayoutError::NotByteAligned { excess_bits: excess as u32 });
        }
        proof {
            assert(errs@ =~= spec_layout_errors(fields@));
            lemma_field_errors_empty(fields@, n as int);
        }
        if errs.len() == 0 {
            Ok(RecordLayout { fields })
        } else {
            Err(errs)
        }
    }

    /// How many fields the layout has.
    pub fn field_count(&self) -> (r: usize)
        ensures
            r == self@.len(),
    {
        self.fields.len()
    }

    /// The field at declaration position `i`.
    pub fn field(&self, i: usize) -> (r: &FieldSpec)
        requires
            i < self@.len(),
        ensures
            *r == self@[i as int],
    {
        &self.fields[i]
    }

    /// The sum of all field widths.
    pub fn total_bits(&self) -> (r: usize)
        requires
            total_bits_of(self@) <= usize::MAX,
        ensures
            r == total_bits_of(self@),
    {
        let n = self.fields.len();
        let mut total: usize = 0;
        let mut i: usize = 0;
        while i < n
            invariant
                n == self@.len(),
                i <= n,
                total_bits_of(self@) <= usize::MAX,
                total == offset_of(self@, i as int),
            decreases n - i,
        {
            proof {
                lemma_field_in_total(self@, i as int);
            }
            total = total + (self.fields[i].bit_width as usize);
            i = i + 1;
        }
        proof {
            lemma_offsets_cover(self@, n as int);
            assert(self@.skip(n as int) =~= Seq::empty());
        }
        total
    }

    /// The smallest whole number of bytes that holds every field.
    pub fn byte_size(&self) -> (r: usize)
        requires
            total_bits_of(self@) + 7 <= usize::MAX,
        ensures
            r == (total_bits_of(self@) + 7) / 8,
            total_bits_of(self@) <= 8 * r,
            8 * r < total_bits_of(self@) + 8,
    {
        crate::codec::bits_size_to_byte_size(self.total_bits())
    }

    /// The bit offset where field `i` starts; `i` may also be the field
    /// count, giving the total width.
    pub fn field_offset(&self, i: usize) -> (r: usize)
        requires
            i <= self@.len(),
            total_bits_of(self@) <= usize::MAX,
        ensures
            r == offset_of(self@, i as int),
    {
        let mut off: usize = 0;
        let mut j: usize = 0;
        while j < i
            invariant
                i <= self@.len(),
                j <= i,
                total_bits_of(self@) <= usize::MAX,
                off == offset_of(self@, j as int),
            decreases i - j,
        {
            proof {
                lemma_field_in_total(self@, j as int);
                lemma_offset_monotone(self@, j as int, i as int);
            }
            off = off + (self.fields[j].bit_width as usize);
            j = j + 1;
        }
        off
    }

    /// The position of the first field with the given name.
    pub fn field_index(&self, name: &String) -> (r: Option<usize>)
        ensures
            match r {
                Some(i) => i < self@.len() && self@[i as int].name@ == name@
                    && forall|j: int| 0 <= j < i ==> self@[j].name@ != name@,
                None => forall|j: int| 0 <= j < self@.len() ==> self@[j].name@ != name@,
            },
    {
        let n = self.fields.len();
        let mut i: usize = 0;
        while i < n
            invariant
                n == self@.len(),
                i <= n,
                forall|j: int| 0 <= j < i ==> self@[j].name@ != name@,
            decreases n - i,
        {
            if self.fields[i].name == *name {
                return Some(i);
            }
            i = i + 1;
        }
        None
    }
}

/// Field `i` is the first field named `name`.
pub open spec fn first_with_name(fields: Seq<FieldSpec>, name: Seq<char>, i: int) -> bool {
    &&& 0 <= i < fields.len()
    &&& fields[i].name@ == name
    &&& forall|j: int| 0 <= j < i ==> fields[j].name@ != name
}

/// At most one field is the first with a given name.
pub proof fn lemma_first_with_name_unique(fields: Seq<FieldSpec>, name: Seq<char>, i1: int, i2: int)
    requires
        first_with_name(fields, name, i1),
        first_with_name(fields, name, i2),
    ensures
        i1 == i2,
{
}

} // verus!
