use bitfield::codec::{
    bits_size_to_byte_size, get, get_generic, mask, mask_get, mask_neg, mask_set,
    mask_set_unchecked, set_generic,
};

#[test]
fn byte_size_is_ceiling() {
    assert_eq!(bits_size_to_byte_size(0), 0);
    assert_eq!(bits_size_to_byte_size(1), 1);
    assert_eq!(bits_size_to_byte_size(7), 1);
    assert_eq!(bits_size_to_byte_size(8), 1);
    assert_eq!(bits_size_to_byte_size(9), 2);
    assert_eq!(bits_size_to_byte_size(24), 3);
    assert_eq!(bits_size_to_byte_size(31), 4);
    assert_eq!(bits_size_to_byte_size(104), 13);
}

#[test]
fn masks() {
    assert_eq!(mask(5, 1), 0b0011_1110);
    assert_eq!(mask_neg(5, 1), 0b1100_0001);
    assert_eq!(mask(8, 0), 0xff);
    assert_eq!(mask_neg(8, 0), 0x00);
    assert_eq!(mask(1, 7), 0b1000_0000);
}

#[test]
fn mask_get_extracts_slice() {
    assert_eq!(mask_get(0b1110_0101, 3, 2), 0b001);
    assert_eq!(mask_get(0b1110_0101, 8, 0), 0b1110_0101);
    assert_eq!(mask_get(0b1110_0101, 1, 7), 1);
}

#[test]
fn mask_set_preserves_neighbours() {
    assert_eq!(mask_set_unchecked(0b1110_0101, 0b10, 3, 2), 0b1110_1001);
    // mask_set truncates the value to the slice width first.
    assert_eq!(mask_set(0b1110_0101, 0xff, 3, 2), 0b1111_1101);
    assert_eq!(mask_set(0x00, 0xff, 8, 0), 0xff);
}

#[test]
fn get_reads_across_bytes() {
    // Bits 4..16 of these two bytes: high nibble of the first byte and
    // the whole second byte, least significant first.
    let a: Vec<u8> = vec![0xE5, 0x3C];
    assert_eq!(get(&a, 0, 8), 0xE5);
    assert_eq!(get(&a, 8, 8), 0x3C);
    assert_eq!(get(&a, 0, 16), 0x3CE5);
    assert_eq!(get(&a, 4, 8), 0xCE);
    assert_eq!(get(&a, 2, 3), 0b001);
}

#[test]
fn set_writes_across_bytes() {
    let mut a: Vec<u8> = vec![0, 0, 0];
    bitfield::codec::set(&mut a, 0xABC, 6, 12);
    assert_eq!(get(&a, 6, 12), 0xABC);
    assert_eq!(get(&a, 0, 6), 0);
    assert_eq!(get(&a, 18, 6), 0);
    // 0xABC << 6 == 0x2AF00: bytes 0x00, 0xAF, 0x02.
    assert_eq!(a, vec![0x00, 0xAF, 0x02]);
}

#[test]
fn set_preserves_other_bits() {
    let mut a: Vec<u8> = vec![0xFF, 0xFF];
    bitfield::codec::set(&mut a, 0, 3, 7);
    assert_eq!(get(&a, 3, 7), 0);
    assert_eq!(get(&a, 0, 3), 0b111);
    assert_eq!(get(&a, 10, 6), 0b111111);
    assert_eq!(a, vec![0x07, 0xFC]);
}

#[test]
fn set_truncates_value() {
    let mut a: Vec<u8> = vec![0];
    bitfield::codec::set(&mut a, 0b10110, 1, 3);
    assert_eq!(get(&a, 1, 3), 0b110);
    assert_eq!(a, vec![0b0000_1100]);
}

#[test]
fn full_width_64() {
    let mut a: Vec<u8> = vec![0; 9];
    bitfield::codec::set(&mut a, 0xdeadbeeffacec0de, 5, 64);
    assert_eq!(get(&a, 5, 64), 0xdeadbeeffacec0de);
    assert_eq!(get(&a, 0, 5), 0);
    assert_eq!(get(&a, 69, 3), 0);
}

#[test]
fn generic_offsets() {
    let mut a: Vec<u8> = vec![0, 0];
    set_generic::<4, 8>(&mut a, 0x5A);
    assert_eq!(get_generic::<4, 8>(&a), 0x5A);
    assert_eq!(get_generic::<0, 4>(&a), 0);
    assert_eq!(get_generic::<8, 4>(&a), 0x5);
    assert_eq!(get_generic::<12, 4>(&a), 0);
}
