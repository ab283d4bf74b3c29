//! Driving the parser the way a data binding does.
//!
//! A binding asks for one shape after another: a scalar, a sequence, a
//! mapping, the next element, the next key.  Each request reads what the
//! parser stands on and moves it on.  What the binding then does with the
//! value is its own business.

use crate::error::Error;
use crate::nbt::model::{shortfall, step, ParserView, Scalar, StateView};
use crate::nbt::parser::{Parser, ValueType};
use vstd::prelude::*;

verus! {

/// What a request for a value of any shape found.
#[derive(Debug, PartialEq)]
pub enum Visit {
    I8(i8),
    I16(i16),
    I32(i32),
    I64(i64),
    /// The bit pattern of a binary32 number.
    F32(u32),
    /// The bit pattern of a binary64 number.
    F64(u64),
    String(String),
    /// A list or an array has been entered; its elements follow.
    Sequence,
    /// A compound has been entered; its keys and values follow.
    Mapping,
}

/// A [`Visit`] with text as a sequence of characters.
pub enum VisitView {
    Scalar(Scalar),
    Sequence,
    Mapping,
}

impl View for Visit {
    type V = VisitView;

    open spec fn view(&self) -> VisitView {
        match *self {
            Visit::I8(value) => VisitView::Scalar(Scalar::I8(value)),
            Visit::I16(value) => VisitView::Scalar(Scalar::I16(value)),
            Visit::I32(value) => VisitView::Scalar(Scalar::I32(value)),
            Visit::I64(value) => VisitView::Scalar(Scalar::I64(value)),
            Visit::F32(bits) => VisitView::Scalar(Scalar::F32(bits)),
            Visit::F64(bits) => VisitView::Scalar(Scalar::F64(bits)),
            Visit::String(text) => VisitView::Scalar(Scalar::Text(text@)),
            Visit::Sequence => VisitView::Sequence,
            Visit::Mapping => VisitView::Mapping,
        }
    }
}

/// What a request for a value of any shape finds on `state`: the scalar it
/// carries, or the container it enters.  The end of a container and a parser
/// that stands on nothing cannot be visited.
pub open spec fn visit_of(state: StateView) -> Result<VisitView, Error> {
    match state.scalar() {
        Some(scalar) => Ok(VisitView::Scalar(scalar)),
        None => match state.value_type() {
            ValueType::SeqBegin => Ok(VisitView::Sequence),
            ValueType::MapBegin => Ok(VisitView::Mapping),
            _ => Err(Error::InvalidParserStateError),
        },
    }
}

/// Hands over `value`, if there is one, and then advances the parser.  Without
/// a value the parser stays where it is.
pub open spec fn then_advance<T>(p: ParserView, value: Result<T, Error>) -> (
    ParserView,
    Result<T, Error>,
) {
    match value {
        Ok(v) => match step(p).1 {
            Ok(_) => (step(p).0, Ok(v)),
            Err(e) => (step(p).0, Err(e)),
        },
        Err(e) => (p, Err(e)),
    }
}

/// The scalar on `state`, if it is a signed byte.
pub open spec fn expect_i8(state: StateView) -> Result<i8, Error> {
    match state.scalar() {
        Some(Scalar::I8(value)) => Ok(value),
        _ => Err(Error::InvalidTagTypeError),
    }
}

/// The scalar on `state`, if it is a 16-bit integer.
pub open spec fn expect_i16(state: StateView) -> Result<i16, Error> {
    match state.scalar() {
        Some(Scalar::I16(value)) => Ok(value),
        _ => Err(Error::InvalidTagTypeError),
    }
}

/// The scalar on `state`, if it is a 32-bit integer.
pub open spec fn expect_i32(state: StateView) -> Result<i32, Error> {
    match state.scalar() {
        Some(Scalar::I32(value)) => Ok(value),
        _ => Err(Error::InvalidTagTypeError),
    }
}

/// The scalar on `state`, if it is a 64-bit integer.
pub open spec fn expect_i64(state: StateView) -> Result<i64, Error> {
    match state.scalar() {
        Some(Scalar::I64(value)) => Ok(value),
        _ => Err(Error::InvalidTagTypeError),
    }
}

/// The bits of the scalar on `state`, if it is a binary32 number.
pub open spec fn expect_f32(state: StateView) -> Result<u32, Error> {
    match state.scalar() {
        Some(Scalar::F32(bits)) => Ok(bits),
        _ => Err(Error::InvalidTagTypeError),
    }
}

/// The bits of the scalar on `state`, if it is a binary64 number.
pub open spec fn expect_f64(state: StateView) -> Result<u64, Error> {
    match state.scalar() {
        Some(Scalar::F64(bits)) => Ok(bits),
        _ => Err(Error::InvalidTagTypeError),
    }
}

/// The scalar on `state`, if it is text.
pub open spec fn expect_text(state: StateView) -> Result<Seq<char>, Error> {
    match state.scalar() {
        Some(Scalar::Text(text)) => Ok(text),
        _ => Err(Error::InvalidTagTypeError),
    }
}

/// The truth value of the scalar on `state`, if it is a signed byte: every
/// byte but zero is true.
pub open spec fn expect_bool(state: StateView) -> Result<bool, Error> {
    match state.scalar() {
        Some(Scalar::I8(value)) => Ok(value != 0),
        _ => Err(Error::InvalidTagTypeError),
    }
}

/// Two advances: past the name of the root tag and into the root.
pub open spec fn opening(p: ParserView) -> (ParserView, Result<(), Error>) {
    let first = step(p);
    match first.1 {
        Ok(_) => step(first.0),
        Err(e) => first,
    }
}

/// Decodes a document by driving a parser over it.
pub struct Deserializer {
    parser: Parser,
}

impl View for Deserializer {
    type V = ParserView;

    closed spec fn view(&self) -> ParserView {
        self.parser@
    }
}

impl Deserializer {
    /// A decoder over `input` that stands on the root compound: the name of
    /// the root tag is skipped and the root is entered.  Fails where the
    /// parser fails on either of the two steps.
    pub fn new(input: Vec<u8>) -> (r: Result<Self, Error>)
        ensures
            match r {
                Ok(decoder) => opening(ParserView::initial(input@)) == (
                    decoder@,
                    Ok::<(), Error>(()),
                ),
                Err(e) => opening(ParserView::initial(input@)).1 == Err::<(), Error>(e),
            },
    {
        let mut parser = Parser::new(input);
        // advance the parser into the initial TAG_COMPOUND tag
        match parser.next() {
            Ok(u) => {
                assert(u == ());
            },
            Err(e) => {
                return Err(e);
            },
        }
        // read before values are retrieved so that their types can be checked
        match parser.next() {
            Ok(u) => {
                assert(u == ());
            },
            Err(e) => {
                return Err(e);
            },
        }
        Ok(Deserializer { parser })
    }

    /// A decoder that drives `parser` on from where it stands.
    pub fn from_parser(parser: Parser) -> (decoder: Self)
        ensures
            decoder@ == parser@,
    {
        Deserializer { parser }
    }

    /// Adds `bytes` to the input, behind what has not been read yet.
    pub fn feed(&mut self, bytes: &[u8])
        ensures
            final(self)@ == old(self)@.append(bytes@),
    {
        self.parser.feed(bytes)
    }

    /// The number of bytes that are missing for the parser's next advance,
    /// as far as the input that is there tells.
    pub fn needs(&self) -> (n: usize)
        ensures
            n == shortfall(self@),
    {
        self.parser.needs()
    }

    /// The kind of the event that the decoder stands on.
    pub fn get_value_type(&self) -> (kind: ValueType)
        ensures
            kind == self@.state.value_type(),
    {
        self.parser.get_value_type()
    }

    /// Advances the parser and hands `value` over if that went well.
    fn advance_with<T>(&mut self, value: T) -> (r: Result<T, Error>)
        ensures
            (final(self)@, r) == then_advance(old(self)@, Ok(value)),
    {
        match self.parser.next() {
            Ok(_) => Ok(value),
            Err(e) => Err(e),
        }
    }

    /// Reads a value of whatever shape comes next: a scalar is read and
    /// passed, a sequence or a mapping is entered.
    pub fn deserialize_any(&mut self) -> (r: Result<Visit, Error>)
        ensures
            (final(self)@, match r {
                Ok(visit) => Ok(visit@),
                Err(e) => Err(e),
            }) == then_advance(old(self)@, visit_of(old(self)@.state)),
    {
        match self.parser.get_value_type() {
            ValueType::I8 => {
                let value = self.parser.get_i8_value()?;
                self.advance_with(Visit::I8(value))
            },
            ValueType::I16 => {
                let value = self.parser.get_i16_value()?;
                self.advance_with(Visit::I16(value))
            },
            ValueType::I32 => {
                let value = self.parser.get_i32_value()?;
                self.advance_with(Visit::I32(value))
            },
            ValueType::I64 => {
                let value = self.parser.get_i64_value()?;
                self.advance_with(Visit::I64(value))
            },
            ValueType::F32 => {
                let value = self.parser.get_f32_value()?;
                self.advance_with(Visit::F32(value))
            },
            ValueType::F64 => {
                let value = self.parser.get_f64_value()?;
                self.advance_with(Visit::F64(value))
            },
            ValueType::String => {
                let value = self.parser.get_string_value()?;
                self.advance_with(Visit::String(value))
            },
            ValueType::SeqBegin => self.advance_with(Visit::Sequence),
            ValueType::MapBegin => self.advance_with(Visit::Mapping),
            ValueType::Invalid => Err(Error::InvalidParserStateError),
            ValueType::SeqEnd => Err(Error::InvalidParserStateError),
            ValueType::MapEnd => Err(Error::InvalidParserStateError),
        }
    }

    /// Reads a truth value: a signed byte, true unless it is zero.
    pub fn deserialize_bool(&mut self) -> (r: Result<bool, Error>)
        ensures
            (final(self)@, r) == then_advance(old(self)@, expect_bool(old(self)@.state)),
    {
        let value = match self.parser.get_i8_value()? {
            0 => false,
            _ => true,
        };
        self.advance_with(value)
    }

    /// Reads a signed byte.
    pub fn deserialize_i8(&mut self) -> (r: Result<i8, Error>)
        ensures
            (final(self)@, r) == then_advance(old(self)@, expect_i8(old(self)@.state)),
    {
        let value = self.parser.get_i8_value()?;
        self.advance_with(value)
    }

    /// Reads a 16-bit integer.
    pub fn deserialize_i16(&mut self) -> (r: Result<i16, Error>)
        ensures
            (final(self)@, r) == then_advance(old(self)@, expect_i16(old(self)@.state)),
    {
        let value = self.parser.get_i16_value()?;
        self.advance_with(value)
    }

    /// Reads a 32-bit integer.
    pub fn deserialize_i32(&mut self) -> (r: Result<i32, Error>)
        ensures
            (final(self)@, r) == then_advance(old(self)@, expect_i32(old(self)@.state)),
    {
        let value = self.parser.get_i32_value()?;
        self.advance_with(value)
    }

    /// Reads a 64-bit integer.
    pub fn deserialize_i64(&mut self) -> (r: Result<i64, Error>)
        ensures
            (final(self)@, r) == then_advance(old(self)@, expect_i64(old(self)@.state)),
    {
        let value = self.parser.get_i64_value()?;
        self.advance_with(value)
    }

    /// Reads the bit pattern of a binary32 number.
    pub fn deserialize_f32(&mut self) -> (r: Result<u32, Error>)
        ensures
            (final(self)@, r) == then_advance(old(self)@, expect_f32(old(self)@.state)),
    {
        let value = self.parser.get_f32_value()?;
        self.advance_with(value)
    }

    /// Reads the bit pattern of a binary64 number.
    pub fn deserialize_f64(&mut self) -> (r: Result<u64, Error>)
        ensures
            (final(self)@, r) == then_advance(old(self)@, expect_f64(old(self)@.state)),
    {
        let value = self.parser.get_f64_value()?;
        self.advance_with(value)
    }

    /// Reads a string: a string value, or the name of a tag.
    pub fn deserialize_string(&mut self) -> (r: Result<String, Error>)
        ensures
            (final(self)@, match r {
                Ok(text) => Ok(text@),
                Err(e) => Err(e),
            }) == then_advance(old(self)@, expect_text(old(self)@.state)),
    {
        let value = self.parser.get_string_value()?;
        self.advance_with(value)
    }

    /// Enters a sequence: moves past the event that begins it.
    pub fn deserialize_seq(&mut self) -> (r: Result<(), Error>)
        ensures
            (final(self)@, r) == step(old(self)@),
    {
        // nothing checks that the parser stands on the begin of a sequence
        self.parser.next()
    }

    /// Enters a sequence of known length, as [`Self::deserialize_seq`] does.
    pub fn deserialize_tuple(&mut self, _len: usize) -> (r: Result<(), Error>)
        ensures
            (final(self)@, r) == step(old(self)@),
    {
        self.deserialize_seq()
    }

    /// Enters a mapping: moves past the event that begins it.
    pub fn deserialize_map(&mut self) -> (r: Result<(), Error>)
        ensures
            (final(self)@, r) == step(old(self)@),
    {
        // nothing checks that the parser stands on the begin of a mapping
        self.parser.next()
    }

    /// Enters a record, as [`Self::deserialize_map`] does.
    pub fn deserialize_struct(&mut self) -> (r: Result<(), Error>)
        ensures
            (final(self)@, r) == step(old(self)@),
    {
        self.deserialize_map()
    }

    /// Reads the name of a field, as [`Self::deserialize_string`] does.
    pub fn deserialize_identifier(&mut self) -> (r: Result<String, Error>)
        ensures
            (final(self)@, match r {
                Ok(text) => Ok(text@),
                Err(e) => Err(e),
            }) == then_advance(old(self)@, expect_text(old(self)@.state)),
    {
        self.deserialize_string()
    }

    /// Reads a value that nobody wants, as [`Self::deserialize_any`] does.
    pub fn deserialize_ignored_any(&mut self) -> (r: Result<Visit, Error>)
        ensures
            (final(self)@, match r {
                Ok(visit) => Ok(visit@),
                Err(e) => Err(e),
            }) == then_advance(old(self)@, visit_of(old(self)@.state)),
    {
        self.deserialize_any()
    }

    /// Says whether the sequence has another element.  At the end of the
    /// sequence the parser is moved past it; before an element it stays.
    pub fn next_element(&mut self) -> (r: Result<bool, Error>)
        ensures
            (final(self)@, r) == (if old(self)@.state.value_type() == ValueType::SeqEnd {
                then_advance(old(self)@, Ok(false))
            } else {
                (old(self)@, Ok(true))
            }),
    {
        if let ValueType::SeqEnd = self.parser.get_value_type() {
            return self.advance_with(false);
        }
        Ok(true)
    }

    /// Says whether the mapping has another key.  At the end of the mapping
    /// the parser is moved past it, and input that ends there, after the root
    /// compound, ends the mapping like any other; before a key it stays.
    pub fn next_key(&mut self) -> (r: Result<bool, Error>)
        ensures
            final(self)@ == (if old(self)@.state.value_type() == ValueType::MapEnd {
                step(old(self)@).0
            } else {
                old(self)@
            }),
            r == (if old(self)@.state.value_type() == ValueType::MapEnd {
                match step(old(self)@).1 {
                    Ok(_) => Ok::<bool, Error>(false),
                    Err(Error::Eof) => Ok(false),
                    Err(e) => Err(e),
                }
            } else {
                Ok(true)
            }),
    {
        if let ValueType::MapEnd = self.parser.get_value_type() {
            return match self.parser.next() {
                Ok(()) => Ok(false),
                Err(Error::Eof) => Ok(false),
                Err(e) => Err(e),
            };
        }
        Ok(true)
    }
}

} // verus!
