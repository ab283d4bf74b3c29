//! Reading Minecraft's Named Binary Tag (NBT) format.
//!
//! The crate decodes the big-endian "Java Edition" wire format from bytes in
//! memory.  [`nbt::parser::Parser`] is a pull parser that walks a tag tree
//! one event at a time, and [`Deserializer`] drives it the way a data binding
//! does: scalar by scalar, sequence by sequence, mapping by mapping.  Both
//! take their input whole or in pieces: they say how many bytes the next
//! advance is missing, so a reader of a stream can feed them just that.  The
//! parser keeps the containers it is in on a stack of its own, which can be
//! given a limit, so deep input costs memory and never the call stack.
//!
//! Every function is verified against a mathematical model of the parser
//! ([`nbt::model`]).  What holds of every run is proved in [`nbt::laws`], and
//! [`nbt::roundtrip`] proves that reading the bytes of a document
//! ([`nbt::document`]) gives the document back.

pub mod de;
pub mod error;
pub mod nbt;
pub mod ser;

pub use crate::de::Deserializer;
pub use crate::error::Error;
pub use crate::ser::Serializer;
