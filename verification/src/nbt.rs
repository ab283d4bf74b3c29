//! The wire format: tag identifiers and limits.

use vstd::prelude::*;

pub mod document;
pub mod laws;
pub mod model;
pub mod parser;
pub mod roundtrip;
pub mod wire;

verus! {

/// Terminates a compound; carries neither a name nor a payload.
pub const TAG_END: u8 = 0;

/// One signed byte.
pub const TAG_I8: u8 = 1;

/// A signed 16-bit integer.
pub const TAG_I16: u8 = 2;

/// A signed 32-bit integer.
pub const TAG_I32: u8 = 3;

/// A signed 64-bit integer.
pub const TAG_I64: u8 = 4;

/// An IEEE-754 binary32 number.
pub const TAG_F32: u8 = 5;

/// An IEEE-754 binary64 number.
pub const TAG_F64: u8 = 6;

/// A length followed by that many signed bytes.
pub const TAG_I8_ARRAY: u8 = 7;

/// A 16-bit length followed by that many bytes of text.
pub const TAG_STRING: u8 = 8;

/// An element identifier, a length, and that many unnamed payloads.
pub const TAG_LIST: u8 = 9;

/// Named tags up to a closing `TAG_END`.
pub const TAG_COMPOUND: u8 = 10;

/// A length followed by that many signed 32-bit integers.
pub const TAG_I32_ARRAY: u8 = 11;

/// A length followed by that many signed 64-bit integers.
pub const TAG_I64_ARRAY: u8 = 12;

/// The largest number of elements that a list or an array may declare.
pub const LIST_MAX_LEN: usize = 2_147_483_639;

} // verus!
