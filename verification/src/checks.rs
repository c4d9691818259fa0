//! Type-level enforcement of the byte-alignment invariant.
//!
//! [`RecordLayout::build`](crate::layout::RecordLayout::build) validates
//! alignment at construction time and reports a structured error. A
//! caller whose total bit width is known at compile time can instead
//! enforce the invariant statically: map the residue `total_bits % 8`,
//! written as the array type `[u8; total_bits % 8]`, to its marker type
//! through [`CheckSizeMod8`], and demand
//! [`TotalSizeIsMultipleOfEightBits`] of the marker. Only the residue
//! zero implements it, so a misaligned total fails to compile. The
//! [`DiscriminantInRange`] family plays the same game for the
//! enum-ordinal range check.

use vstd::prelude::*;

verus! {

/// Implemented exactly by the marker of residue zero: demanding it of a
/// size's marker makes a misaligned total a compile error.
pub trait TotalSizeIsMultipleOfEightBits {
}

/// The residue markers of `total_bits % 8`; their names appear in the
/// compile error a misaligned layout provokes.
pub struct SevenMod8;

pub struct SixMod8;

pub struct FiveMod8;

pub struct FourMod8;

pub struct ThreeMod8;

pub struct TwoMod8;

pub struct OneMod8;

pub struct ZeroMod8;

impl TotalSizeIsMultipleOfEightBits for ZeroMod8 {
}

/// Maps a size residue, written as the array type `[u8; n]`, to its
/// marker type.
pub trait CheckSizeMod8 {
    type Target;
}

impl CheckSizeMod8 for [u8; 0] {
    type Target = ZeroMod8;
}

impl CheckSizeMod8 for [u8; 1] {
    type Target = OneMod8;
}

impl CheckSizeMod8 for [u8; 2] {
    type Target = TwoMod8;
}

impl CheckSizeMod8 for [u8; 3] {
    type Target = ThreeMod8;
}

impl CheckSizeMod8 for [u8; 4] {
    type Target = FourMod8;
}

impl CheckSizeMod8 for [u8; 5] {
    type Target = FiveMod8;
}

impl CheckSizeMod8 for [u8; 6] {
    type Target = SixMod8;
}

impl CheckSizeMod8 for [u8; 7] {
    type Target = SevenMod8;
}

/// The outcome markers of a compile-time boolean check.
pub struct True;

pub struct False;

/// Implemented exactly by [`True`]: demanding it of a condition's
/// marker makes a false condition a compile error.
pub trait DiscriminantInRange {
}

impl DiscriminantInRange for True {
}

/// A compile-time boolean, carried as a type.
pub struct StaticBool<const B: bool>;

/// Maps a compile-time boolean to its outcome marker.
pub trait BoolTarget {
    type Target;
}

impl BoolTarget for StaticBool<true> {
    type Target = True;
}

impl BoolTarget for StaticBool<false> {
    type Target = False;
}

} // verus!
