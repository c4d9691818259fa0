use bitfield::layout::{FieldKind, FieldSpec, RecordLayout};
use bitfield::record::PackedRecord;

fn unsigned(name: &str, bit_width: u32) -> FieldSpec {
    FieldSpec {
        name: name.to_owned(),
        bit_width,
        kind: FieldKind::Unsigned,
        expected_bits: None,
    }
}

fn layout_of(widths: &[u32]) -> RecordLayout {
    let names = ["a", "b", "c", "d", "e", "f", "g", "h"];
    let mut fields = Vec::new();
    for (i, w) in widths.iter().enumerate() {
        fields.push(unsigned(names[i], *w));
    }
    RecordLayout::build(fields).expect("layout should build")
}

#[test]
fn bitfield12() {
    let layout = layout_of(&[9, 6, 13, 4]);
    let mut bitfield = PackedRecord::new(&layout);
    assert_eq!(0, bitfield.get_at(0));
    assert_eq!(0, bitfield.get_at(1));
    assert_eq!(0, bitfield.get_at(2));
    assert_eq!(0, bitfield.get_at(3));

    let a = 0b1100_0011_1;
    let b = 0b101_010;
    let c = 0x1675;
    let d = 0b1110;

    bitfield.set_at(0, a);
    bitfield.set_at(1, b);
    bitfield.set_at(2, c);
    bitfield.set_at(3, d);

    assert_eq!(a, bitfield.get_at(0));
    assert_eq!(b, bitfield.get_at(1));
    assert_eq!(c, bitfield.get_at(2));
    assert_eq!(d, bitfield.get_at(3));
}

#[test]
fn cross_byte_single_set() {
    // Four fields of widths 1, 3, 4 and 24 fill exactly four bytes;
    // setting only the third must leave the others reading zero.
    let layout = layout_of(&[1, 3, 4, 24]);
    let mut r = PackedRecord::new(&layout);
    assert_eq!(r.byte_len(), 4);
    assert_eq!(0, r.get_at(0));
    assert_eq!(0, r.get_at(1));
    assert_eq!(0, r.get_at(2));
    assert_eq!(0, r.get_at(3));

    r.set_at(2, 14);
    assert_eq!(0, r.get_at(0));
    assert_eq!(0, r.get_at(1));
    assert_eq!(14, r.get_at(2));
    assert_eq!(0, r.get_at(3));
}

#[test]
fn cross_byte_all_fields() {
    let layout = layout_of(&[1, 3, 4, 24]);
    let mut r = PackedRecord::new(&layout);
    r.set_at(0, 0b1);
    r.set_at(1, 0b101);
    r.set_at(2, 0b1110);
    r.set_at(3, 0xabcdef);
    assert_eq!(0b1, r.get_at(0));
    assert_eq!(0b101, r.get_at(1));
    assert_eq!(0b1110, r.get_at(2));
    assert_eq!(0xabcdef, r.get_at(3));
}

#[test]
fn byte_layout_contract() {
    // Byte k holds bits [8k, 8k+8): with widths 1, 3 and 4 sharing the
    // first byte, a = 1, b = 0b101, c = 0b1110 packs to 0b1110_1011.
    let layout = layout_of(&[1, 3, 4, 24]);
    let mut r = PackedRecord::new(&layout);
    r.set_at(0, 0b1);
    r.set_at(1, 0b101);
    r.set_at(2, 0b1110);
    assert_eq!(r.byte_at(0), 0b1110_1011);
    assert_eq!(r.byte_at(1), 0);
    assert_eq!(r.byte_at(2), 0);
    assert_eq!(r.byte_at(3), 0);
    // The 24-bit field covers bytes 1 to 3, least significant first.
    r.set_at(3, 0xabcdef);
    assert_eq!(r.byte_at(0), 0b1110_1011);
    assert_eq!(r.byte_at(1), 0xef);
    assert_eq!(r.byte_at(2), 0xcd);
    assert_eq!(r.byte_at(3), 0xab);
}

#[test]
fn wide_multi_field() {
    // Six fields of widths 9, 8, 6, 13, 64 and 4: 104 bits in 13 bytes.
    let layout = layout_of(&[9, 8, 6, 13, 64, 4]);
    let mut r = PackedRecord::new(&layout);
    assert_eq!(r.byte_len(), 13);

    let values: [u64; 6] = [
        0b110000111,
        0b10011010,
        0b101010,
        0x1675,
        0xdeadbeeffacec0de,
        0b1110,
    ];
    for (i, v) in values.iter().enumerate() {
        r.set_at(i, *v);
    }
    for (i, v) in values.iter().enumerate() {
        assert_eq!(r.get_at(i), *v);
    }
}

#[test]
fn wide_multi_field_set_order() {
    // The same values as `wide_multi_field`, stored in two different
    // orders, give the same reads.
    let layout = layout_of(&[9, 8, 6, 13, 64, 4]);
    let values: [u64; 6] = [
        0b110000111,
        0b10011010,
        0b101010,
        0x1675,
        0xdeadbeeffacec0de,
        0b1110,
    ];
    let mut fwd = PackedRecord::new(&layout);
    for (i, v) in values.iter().enumerate() {
        fwd.set_at(i, *v);
    }
    let mut rev = PackedRecord::new(&layout);
    for (i, v) in values.iter().enumerate().rev() {
        rev.set_at(i, *v);
    }
    for (i, v) in values.iter().enumerate() {
        assert_eq!(fwd.get_at(i), *v);
        assert_eq!(rev.get_at(i), *v);
        assert_eq!(fwd.byte_at(i), rev.byte_at(i));
    }
}

#[test]
fn round_trip_all_values_of_narrow_fields() {
    // Every representable value of each narrow field survives a store
    // and read, with the neighbours held at fixed values.
    let layout = layout_of(&[1, 3, 4, 24]);
    let mut r = PackedRecord::new(&layout);
    r.set_at(0, 1);
    r.set_at(3, 0x123456);
    for field in [1usize, 2] {
        let width = [1u32, 3, 4, 24][field];
        for v in 0..(1u64 << width) {
            r.set_at(field, v);
            assert_eq!(r.get_at(field), v);
            assert_eq!(r.get_at(0), 1);
            assert_eq!(r.get_at(3), 0x123456);
        }
    }
}

#[test]
fn set_truncates_to_width() {
    let layout = layout_of(&[4, 4]);
    let mut r = PackedRecord::new(&layout);
    r.set_at(0, 0xff);
    assert_eq!(r.get_at(0), 0xf);
    assert_eq!(r.get_at(1), 0);
}

#[test]
fn field_access_by_name() {
    let layout = layout_of(&[1, 3, 4, 24]);
    let mut r = PackedRecord::new(&layout);
    assert!(r.set_field(&"c".to_owned(), 14));
    assert_eq!(r.get_field(&"c".to_owned()), Some(14));
    assert_eq!(r.get_field(&"a".to_owned()), Some(0));
    assert_eq!(r.get_field(&"nope".to_owned()), None);
    assert!(!r.set_field(&"nope".to_owned(), 1));
    assert_eq!(r.get_at(2), 14);
}

#[test]
fn bool_field_accessors() {
    let fields = vec![
        FieldSpec {
            name: "flag".to_owned(),
            bit_width: 1,
            kind: FieldKind::Boolean,
            expected_bits: None,
        },
        unsigned("rest", 7),
    ];
    let layout = RecordLayout::build(fields).expect("layout should build");
    let mut r = PackedRecord::new(&layout);
    assert!(!r.get_bool_at(0));
    r.set_bool_at(0, true);
    assert!(r.get_bool_at(0));
    assert_eq!(r.get_at(1), 0);
    r.set_bool_at(0, false);
    assert!(!r.get_bool_at(0));
}
