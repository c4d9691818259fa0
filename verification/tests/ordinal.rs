use bitfield::layout::{FieldKind, FieldSpec, RecordLayout};
use bitfield::ordinal::{DecodeError, EnumOrdinalMap, MappingError};
use bitfield::record::PackedRecord;

#[test]
fn bits_u64() {
    assert_eq!(1, bitfield::ordinal::bits_u64(0));
    assert_eq!(1, bitfield::ordinal::bits_u64(1));
    assert_eq!(2, bitfield::ordinal::bits_u64(4));
    assert_eq!(3, bitfield::ordinal::bits_u64(7));
    assert_eq!(3, bitfield::ordinal::bits_u64(8));
    assert_eq!(4, bitfield::ordinal::bits_u64(9));
}

#[test]
fn bits_u64_edges() {
    assert_eq!(1, bitfield::ordinal::bits_u64(2));
    assert_eq!(2, bitfield::ordinal::bits_u64(3));
    assert_eq!(6, bitfield::ordinal::bits_u64(64));
    assert_eq!(7, bitfield::ordinal::bits_u64(65));
    assert_eq!(63, bitfield::ordinal::bits_u64(1u64 << 63));
    assert_eq!(64, bitfield::ordinal::bits_u64((1u64 << 63) + 1));
    assert_eq!(64, bitfield::ordinal::bits_u64(u64::MAX));
}

fn three_variants() -> Vec<(String, u64)> {
    vec![
        ("Zero".to_owned(), 0),
        ("One".to_owned(), 1),
        ("Two".to_owned(), 2),
    ]
}

#[test]
fn enum_decode_failure() {
    // Three variants need two bits; the unused ordinal 3 must decode to
    // a recoverable error naming the raw value, never a default variant.
    let map = EnumOrdinalMap::build(three_variants()).expect("map should build");
    assert_eq!(map.bits(), 2);
    assert_eq!(map.decode(0), Ok(0));
    assert_eq!(map.decode(1), Ok(1));
    assert_eq!(map.decode(2), Ok(2));
    assert_eq!(map.decode(3), Err(DecodeError::UnknownOrdinal(3)));
    assert_eq!(map.decode(250), Err(DecodeError::UnknownOrdinal(250)));
}

#[test]
fn strict_power_of_two_policy() {
    // Automatic ordinals over three variants must be refused, while the
    // same three ordinals assigned explicitly fit width 2 and pass.
    let names = vec!["Zero".to_owned(), "One".to_owned(), "Two".to_owned()];
    match EnumOrdinalMap::build_auto(names) {
        Ok(_) => panic!("a variant count of 3 is not a power of two"),
        Err(e) => assert_eq!(e, MappingError::NonPowerOfTwoVariantCount { count: 3 }),
    }
    let explicit = EnumOrdinalMap::build(three_variants());
    assert!(explicit.is_ok());
}

#[test]
fn auto_ordinals_in_order() {
    let names = vec![
        "N".to_owned(),
        "E".to_owned(),
        "S".to_owned(),
        "W".to_owned(),
    ];
    let map = EnumOrdinalMap::build_auto(names).expect("four variants fit");
    assert_eq!(map.bits(), 2);
    assert_eq!(map.variant_count(), 4);
    assert_eq!(map.variant_name(2), "S");
    assert_eq!(map.encode(3), 3);
    assert_eq!(map.decode(1), Ok(1));
}

#[test]
fn auto_singleton_fails() {
    // One variant still needs one bit, and 2^1 != 1: the strict policy
    // refuses even a singleton.
    let r = EnumOrdinalMap::build_auto(vec!["Only".to_owned()]);
    assert_eq!(r.err(), Some(MappingError::NonPowerOfTwoVariantCount { count: 1 }));
}

#[test]
fn ordinal_out_of_range() {
    // Three variants derive two bits, so an explicit ordinal of 4 is
    // out of range; every violation is reported, in variant order.
    let vars = vec![
        ("Zero".to_owned(), 0),
        ("Four".to_owned(), 4),
        ("Nine".to_owned(), 9),
    ];
    match EnumOrdinalMap::build(vars) {
        Ok(_) => panic!("ordinals 4 and 9 do not fit in 2 bits"),
        Err(es) => {
            assert_eq!(
                es,
                vec![
                    MappingError::OrdinalOutOfRange { variant: 1, ordinal: 4, max: 3 },
                    MappingError::OrdinalOutOfRange { variant: 2, ordinal: 9, max: 3 },
                ]
            );
        }
    }
}

#[test]
fn encode_is_total() {
    let map = EnumOrdinalMap::build(three_variants()).expect("map should build");
    for v in 0..map.variant_count() {
        assert_eq!(map.encode(v), v as u64);
        assert_eq!(map.decode(map.encode(v)), Ok(v));
    }
}

#[test]
fn enum_field_in_record() {
    let map = EnumOrdinalMap::build(three_variants()).expect("map should build");
    let fields = vec![
        FieldSpec {
            name: "mode".to_owned(),
            bit_width: 2,
            kind: FieldKind::EnumOrdinal,
            expected_bits: None,
        },
        FieldSpec {
            name: "rest".to_owned(),
            bit_width: 6,
            kind: FieldKind::Unsigned,
            expected_bits: None,
        },
    ];
    let layout = RecordLayout::build(fields).expect("layout should build");
    let mut r = PackedRecord::new(&layout);
    assert_eq!(r.get_enum_at(0, &map), Ok(0));
    r.set_enum_at(0, &map, 2);
    assert_eq!(r.get_enum_at(0, &map), Ok(2));
    assert_eq!(r.get_at(1), 0);
    // A raw pattern no variant owns surfaces as a decode error.
    r.set_at(0, 3);
    assert_eq!(r.get_enum_at(0, &map), Err(DecodeError::UnknownOrdinal(3)));
}
