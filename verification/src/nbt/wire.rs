//! Big-endian numbers and text as they lie on the wire.

use byteorder::{BigEndian, ByteOrder};
use vstd::prelude::*;
use vstd::utf8::*;

verus! {

/// The number that `bytes` spell when read most significant byte first.
pub open spec fn be_value(bytes: Seq<u8>) -> nat
    decreases bytes.len(),
{
    if bytes.len() == 0 {
        0
    } else {
        be_value(bytes.drop_last()) * 256 + bytes.last() as nat
    }
}

/// The two's-complement reading of `value` in a word with `modulus` values.
pub open spec fn signed(value: nat, modulus: nat) -> int {
    if 2 * value >= modulus {
        value - modulus
    } else {
        value as int
    }
}

/// The `width` bytes that spell `value`, most significant byte first.
pub open spec fn be_bytes(value: nat, width: nat) -> Seq<u8>
    decreases width,
{
    if width == 0 {
        Seq::empty()
    } else {
        be_bytes(value / 256, (width - 1) as nat).push((value % 256) as u8)
    }
}

/// The number that stands for `value` in a two's-complement word with
/// `modulus` values.
pub open spec fn unsigned(value: int, modulus: nat) -> nat {
    if value < 0 {
        (value + modulus) as nat
    } else {
        value as nat
    }
}

/// The number of values that `width` bytes can spell: `256^width`.
pub open spec fn capacity(width: nat) -> nat
    decreases width,
{
    if width == 0 {
        1
    } else {
        256 * capacity((width - 1) as nat)
    }
}

/// The capacities of the widths that the format uses.
pub proof fn lemma_capacity()
    ensures
        capacity(1) == 0x100,
        capacity(2) == 0x1_0000,
        capacity(4) == 0x1_0000_0000,
        capacity(8) == 0x1_0000_0000_0000_0000,
{
    reveal_with_fuel(capacity, 9);
}

/// Bytes spell a number below the capacity of their width, so the number
/// that one, two, four or eight bytes spell fits a word of that size.
pub proof fn lemma_be_value_bound(bytes: Seq<u8>)
    ensures
        be_value(bytes) < capacity(bytes.len()),
    decreases bytes.len(),
{
    if bytes.len() > 0 {
        lemma_be_value_bound(bytes.drop_last());
    }
}

/// Writing a number that fits in `width` bytes and reading the bytes again
/// gives the number back.
pub proof fn lemma_be_round_trip(value: nat, width: nat)
    requires
        value < capacity(width),
    ensures
        be_bytes(value, width).len() == width,
        be_value(be_bytes(value, width)) == value,
    decreases width,
{
    if width > 0 {
        let head = be_bytes(value / 256, (width - 1) as nat);
        lemma_be_round_trip(value / 256, (width - 1) as nat);
        assert(be_bytes(value, width).drop_last() =~= head);
    }
}

/// Writing a signed number in two's complement and reading it again gives
/// the number back.
pub proof fn lemma_signed_round_trip(value: int, modulus: nat)
    requires
        -(modulus as int) <= 2 * value < modulus,
    ensures
        unsigned(value, modulus) < modulus,
        signed(unsigned(value, modulus), modulus) == value,
{
}

/// `byteorder::BigEndian::read_u16`: the first two bytes of `buf`, read as
/// an unsigned big-endian number.  It panics on a shorter slice.
#[verifier::external_body]
pub(crate) fn be_u16(buf: &[u8]) -> (value: u16)
    requires
        buf@.len() >= 2,
    ensures
        value as nat == be_value(buf@.take(2)),
{
    BigEndian::read_u16(buf)
}

/// `byteorder::BigEndian::read_i16`: the first two bytes of `buf`, read as a
/// big-endian number in two's complement.  It panics on a shorter slice.
#[verifier::external_body]
pub(crate) fn be_i16(buf: &[u8]) -> (value: i16)
    requires
        buf@.len() >= 2,
    ensures
        value as int == signed(be_value(buf@.take(2)), 0x1_0000),
{
    BigEndian::read_i16(buf)
}

/// `byteorder::BigEndian::read_u32`: the first four bytes of `buf`, read as
/// an unsigned big-endian number.  It panics on a shorter slice.
#[verifier::external_body]
pub(crate) fn be_u32(buf: &[u8]) -> (value: u32)
    requires
        buf@.len() >= 4,
    ensures
        value as nat == be_value(buf@.take(4)),
{
    BigEndian::read_u32(buf)
}

/// `byteorder::BigEndian::read_i32`: the first four bytes of `buf`, read as a
/// big-endian number in two's complement.  It panics on a shorter slice.
#[verifier::external_body]
pub(crate) fn be_i32(buf: &[u8]) -> (value: i32)
    requires
        buf@.len() >= 4,
    ensures
        value as int == signed(be_value(buf@.take(4)), 0x1_0000_0000),
{
    BigEndian::read_i32(buf)
}

/// `byteorder::BigEndian::read_u64`: the first eight bytes of `buf`, read as
/// an unsigned big-endian number.  It panics on a shorter slice.
#[verifier::external_body]
pub(crate) fn be_u64(buf: &[u8]) -> (value: u64)
    requires
        buf@.len() >= 8,
    ensures
        value as nat == be_value(buf@.take(8)),
{
    BigEndian::read_u64(buf)
}

/// `byteorder::BigEndian::read_i64`: the first eight bytes of `buf`, read as
/// a big-endian number in two's complement.  It panics on a shorter slice.
#[verifier::external_body]
pub(crate) fn be_i64(buf: &[u8]) -> (value: i64)
    requires
        buf@.len() >= 8,
    ensures
        value as int == signed(be_value(buf@.take(8)), 0x1_0000_0000_0000_0000),
{
    BigEndian::read_i64(buf)
}

/// `String::from_utf8`: succeeds exactly on valid UTF-8, and the string it
/// returns holds the characters that the bytes encode.
pub assume_specification[ std::string::String::from_utf8 ](vec: Vec<u8>) -> (r: Result<
    std::string::String,
    std::string::FromUtf8Error,
>)
    ensures
        r is Ok <==> valid_utf8(vec@),
        r matches Ok(s) ==> s@ == decode_utf8(vec@),
;

} // verus!
