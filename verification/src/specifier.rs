//! The conversion layer between the raw bits of a field and typed
//! values.
//!
//! A [`Specifier`] ties a field's bit width to the value type its
//! accessors trade in: booleans for one-bit flags and the smallest
//! convenient unsigned register otherwise. The conversions only change
//! the value's type; packing to the exact bit width is the codec's job.

use vstd::prelude::*;

verus! {

/// A type that can stand in a bit field: it knows its width and how to
/// move its values into and out of the 64-bit register the codec
/// trades in.
pub trait Specifier {
    /// The typed value the accessors take and return.
    type Value;

    /// The field width, in bits.
    spec fn spec_bits() -> u32;

    /// What [`Specifier::get`] returns for a raw register.
    spec fn spec_get(u: u64) -> Self::Value;

    /// What [`Specifier::set`] returns for a typed value.
    spec fn spec_set(v: Self::Value) -> u64;

    /// The field width, in bits.
    fn bits() -> (r: u32)
        ensures
            r == Self::spec_bits(),
    ;

    /// Decodes a raw register read by the codec into a typed value.
    fn get(u: u64) -> (r: Self::Value)
        ensures
            r == Self::spec_get(u),
    ;

    /// Encodes a typed value into the raw register the codec stores.
    fn set(v: Self::Value) -> (r: u64)
        ensures
            r == Self::spec_set(v),
    ;
}

impl Specifier for bool {
    type Value = bool;

    open spec fn spec_bits() -> u32 {
        1
    }

    open spec fn spec_get(u: u64) -> bool {
        u == 1
    }

    open spec fn spec_set(v: bool) -> u64 {
        if v {
            1
        } else {
            0
        }
    }

    fn bits() -> u32 {
        1
    }

    fn get(u: u64) -> bool {
        u == 1
    }

    fn set(v: bool) -> u64 {
        if v {
            1
        } else {
            0
        }
    }
}

impl Specifier for u8 {
    type Value = u8;

    open spec fn spec_bits() -> u32 {
        8
    }

    open spec fn spec_get(u: u64) -> u8 {
        u as u8
    }

    open spec fn spec_set(v: u8) -> u64 {
        v as u64
    }

    fn bits() -> u32 {
        8
    }

    fn get(u: u64) -> u8 {
        u as u8
    }

    fn set(v: u8) -> u64 {
        v as u64
    }
}

impl Specifier for u16 {
    type Value = u16;

    open spec fn spec_bits() -> u32 {
        16
    }

    open spec fn spec_get(u: u64) -> u16 {
        u as u16
    }

    open spec fn spec_set(v: u16) -> u64 {
        v as u64
    }

    fn bits() -> u32 {
        16
    }

    fn get(u: u64) -> u16 {
        u as u16
    }

    fn set(v: u16) -> u64 {
        v as u64
    }
}

impl Specifier for u32 {
    type Value = u32;

    open spec fn spec_bits() -> u32 {
        32
    }

    open spec fn spec_get(u: u64) -> u32 {
        u as u32
    }

    open spec fn spec_set(v: u32) -> u64 {
        v as u64
    }

    fn bits() -> u32 {
        32
    }

    fn get(u: u64) -> u32 {
        u as u32
    }

    fn set(v: u32) -> u64 {
        v as u64
    }
}

impl Specifier for u64 {
    type Value = u64;

    open spec fn spec_bits() -> u32 {
        64
    }

    open spec fn spec_get(u: u64) -> u64 {
        u
    }

    open spec fn spec_set(v: u64) -> u64 {
        v
    }

    fn bits() -> u32 {
        64
    }

    fn get(u: u64) -> u64 {
        u
    }

    fn set(v: u64) -> u64 {
        v
    }
}

/// A width marker: a field of `N` bits whose accessors trade in the
/// unsigned register `U`.
pub struct B<U, const N: usize>(U);

impl<U, const N: usize> Specifier for B<U, N> {
    type Value = u64;

    open spec fn spec_bits() -> u32 {
        N as u32
    }

    open spec fn spec_get(u: u64) -> u64 {
        u
    }

    open spec fn spec_set(v: u64) -> u64 {
        v
    }

    fn bits() -> u32 {
        N as u32
    }

    fn get(u: u64) -> u64 {
        u
    }

    fn set(v: u64) -> u64 {
        v
    }
}

} // verus!
