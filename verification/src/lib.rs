//! A bit-packed record storage engine.
//!
//! The crate packs arbitrarily sized unsigned integer fields (1 to 64 bits
//! each) into a fixed byte buffer with no gaps between fields, and proves
//! that the accessors are exact: reading a field returns precisely the bits
//! that were written, and writing a field never disturbs its neighbours.
//!
//! The layers, from the bottom up:
//! - [`bitbuf`]: the mathematical model of a byte buffer addressed bit by
//!   bit, and the arithmetic lemmas about bit spans.
//! - [`codec`]: executable primitives that read or overwrite an unsigned
//!   value of a given bit width at a given bit offset of a buffer.
//! - [`layout`]: record layouts, which assign each named field an offset by
//!   accumulating widths in declaration order, and the byte-alignment
//!   validation.
//! - [`record`]: packed records, zero-initialized buffers of exactly the
//!   layout's size with per-field get and set accessors.
//! - [`ordinal`]: the mapping between enum variants and the small unsigned
//!   ordinals stored in a field.
//! - [`specifier`]: the conversion layer between raw field bits and typed
//!   values.
//! - [`checks`]: type-level markers that let a caller with a compile-time
//!   known size enforce the byte-alignment invariant statically.

pub mod bitbuf;
pub mod codec;
pub mod layout;
pub mod ordinal;
pub mod record;
pub mod specifier;
pub mod checks;
pub mod push_back;
