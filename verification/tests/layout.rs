use bitfield::layout::{FieldKind, FieldSpec, LayoutError, RecordLayout};

fn unsigned(name: &str, bit_width: u32) -> FieldSpec {
    FieldSpec {
        name: name.to_owned(),
        bit_width,
        kind: FieldKind::Unsigned,
        expected_bits: None,
    }
}

#[test]
fn aligned_layout_builds() {
    let layout = RecordLayout::build(vec![
        unsigned("a", 1),
        unsigned("b", 3),
        unsigned("c", 4),
        unsigned("d", 24),
    ])
    .expect("32 bits are byte-aligned");
    assert_eq!(layout.field_count(), 4);
    assert_eq!(layout.total_bits(), 32);
    assert_eq!(layout.byte_size(), 4);
}

#[test]
fn misaligned_layout_fails() {
    // Widths 1, 3, 4 and 23 total 31 bits: 7 bits short of a byte
    // boundary, so the build must fail with the excess reported.
    let r = RecordLayout::build(vec![
        unsigned("a", 1),
        unsigned("b", 3),
        unsigned("c", 4),
        unsigned("d", 23),
    ]);
    assert_eq!(
        r.err(),
        Some(vec![LayoutError::NotByteAligned { excess_bits: 7 }])
    );
}

#[test]
fn no_gap_offsets() {
    let layout = RecordLayout::build(vec![
        unsigned("a", 9),
        unsigned("b", 6),
        unsigned("c", 13),
        unsigned("d", 4),
    ])
    .expect("32 bits are byte-aligned");
    assert_eq!(layout.field_offset(0), 0);
    assert_eq!(layout.field_offset(1), 9);
    assert_eq!(layout.field_offset(2), 15);
    assert_eq!(layout.field_offset(3), 28);
    assert_eq!(layout.field_offset(4), 32);
    assert_eq!(layout.total_bits(), 32);
}

#[test]
fn width_assertion_checked() {
    let mut ok = unsigned("a", 16);
    ok.expected_bits = Some(16);
    let layout = RecordLayout::build(vec![ok]).expect("assertion matches");
    assert_eq!(layout.byte_size(), 2);

    let mut bad = unsigned("a", 16);
    bad.expected_bits = Some(9);
    let r = RecordLayout::build(vec![bad]);
    assert_eq!(
        r.err(),
        Some(vec![LayoutError::FieldWidthMismatch { field: 0, expected: 9, actual: 16 }])
    );
}

#[test]
fn width_out_of_range() {
    let r = RecordLayout::build(vec![unsigned("a", 0), unsigned("b", 72)]);
    assert_eq!(
        r.err(),
        Some(vec![
            LayoutError::WidthOutOfRange { field: 0, width: 0 },
            LayoutError::WidthOutOfRange { field: 1, width: 72 },
        ])
    );
}

#[test]
fn errors_are_collected_together() {
    // A bad width, a failed assertion and misalignment are all
    // reported in one pass.
    let mut second = unsigned("b", 10);
    second.expected_bits = Some(12);
    let r = RecordLayout::build(vec![unsigned("a", 65), second]);
    assert_eq!(
        r.err(),
        Some(vec![
            LayoutError::WidthOutOfRange { field: 0, width: 65 },
            LayoutError::FieldWidthMismatch { field: 1, expected: 12, actual: 10 },
            LayoutError::NotByteAligned { excess_bits: 3 },
        ])
    );
}

#[test]
fn empty_layout_builds() {
    let layout = RecordLayout::build(Vec::new()).expect("zero bits are aligned");
    assert_eq!(layout.field_count(), 0);
    assert_eq!(layout.total_bits(), 0);
    assert_eq!(layout.byte_size(), 0);
}

#[test]
fn field_lookup_by_name() {
    let layout = RecordLayout::build(vec![
        unsigned("a", 4),
        unsigned("b", 4),
        unsigned("b", 8),
    ])
    .expect("16 bits are byte-aligned");
    assert_eq!(layout.field_index(&"a".to_owned()), Some(0));
    assert_eq!(layout.field_index(&"b".to_owned()), Some(1));
    assert_eq!(layout.field_index(&"z".to_owned()), None);
    assert_eq!(layout.field(2).bit_width, 8);
}
