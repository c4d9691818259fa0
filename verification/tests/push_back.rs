use bitfield::push_back::PushBackIterator;
use bitfield::specifier::{Specifier, B};

#[test]
fn hands_items_out_in_order() {
    let mut it = PushBackIterator::new(vec![1, 2, 3]);
    assert_eq!(it.next(), Some(1));
    assert_eq!(it.next(), Some(2));
    assert_eq!(it.next(), Some(3));
    assert_eq!(it.next(), None);
    assert_eq!(it.next(), None);
}

#[test]
fn pushed_back_items_come_first() {
    let mut it = PushBackIterator::new(vec![10, 20, 30]);
    assert_eq!(it.next(), Some(10));
    it.push_back(10);
    assert_eq!(it.next(), Some(10));
    assert_eq!(it.next(), Some(20));
    it.push_back(20);
    it.push_back(21);
    assert_eq!(it.next(), Some(20));
    assert_eq!(it.next(), Some(21));
    assert_eq!(it.next(), Some(30));
    assert_eq!(it.next(), None);
}

#[test]
fn push_back_after_exhaustion() {
    let mut it: PushBackIterator<u8> = PushBackIterator::new(Vec::new());
    assert_eq!(it.next(), None);
    it.push_back(7);
    assert_eq!(it.next(), Some(7));
    assert_eq!(it.next(), None);
}

#[test]
fn specifier_bool_conversions() {
    assert_eq!(<bool as Specifier>::bits(), 1);
    assert!(<bool as Specifier>::get(1));
    assert!(!<bool as Specifier>::get(0));
    assert_eq!(<bool as Specifier>::set(true), 1);
    assert_eq!(<bool as Specifier>::set(false), 0);
}

#[test]
fn specifier_unsigned_conversions() {
    assert_eq!(<u8 as Specifier>::bits(), 8);
    assert_eq!(<u8 as Specifier>::get(0x1ff), 0xff);
    assert_eq!(<u8 as Specifier>::set(0xab), 0xab);
    assert_eq!(<u16 as Specifier>::bits(), 16);
    assert_eq!(<u32 as Specifier>::bits(), 32);
    assert_eq!(<u64 as Specifier>::bits(), 64);
    assert_eq!(<u64 as Specifier>::get(u64::MAX), u64::MAX);
}

#[test]
fn specifier_width_markers() {
    assert_eq!(<B<u8, 1> as Specifier>::bits(), 1);
    assert_eq!(<B<u32, 24> as Specifier>::bits(), 24);
    assert_eq!(<B<u64, 64> as Specifier>::bits(), 64);
    assert_eq!(<B<u32, 24> as Specifier>::set(14), 14);
    assert_eq!(<B<u32, 24> as Specifier>::get(14), 14);
}
