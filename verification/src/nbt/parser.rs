//! The streaming parser: a state machine that reads a document one event at
//! a time, with an explicit stack in place of recursion.

use crate::error::Error;
use crate::nbt::model::{
    array_element, array_header, array_wanted, delivers, element_wanted, follows, leave,
    leave_wanted, list_element, list_header, read_len, read_scalar, read_text, resume, shortfall,
    step, tag_header, tag_header_wanted, tag_value, text_wanted, transition, value_wanted, wanted,
    ParserView, Scalar, StateView,
};
use crate::nbt::wire::{be_i16, be_i32, be_i64, be_u16, be_u32, be_u64, be_value, signed};
use crate::nbt::{
    LIST_MAX_LEN, TAG_COMPOUND, TAG_END, TAG_F32, TAG_F64, TAG_I16, TAG_I32, TAG_I32_ARRAY, TAG_I64,
    TAG_I64_ARRAY, TAG_I8, TAG_I8_ARRAY, TAG_LIST, TAG_STRING,
};
use vstd::prelude::*;
use vstd::slice::*;
use vstd::utf8::*;

verus! {

/// The kind of the event that the parser stands on.
#[derive(Debug, Clone, Copy, PartialEq, Eq, Structural)]
pub enum ValueType {
    Invalid,
    I8,
    I16,
    I32,
    I64,
    F32,
    F64,
    String,
    SeqBegin,
    SeqEnd,
    MapBegin,
    MapEnd,
}

/// A state of the parser.  A state that stands for a scalar event carries
/// the scalar; floating-point numbers are carried as their bit patterns.
#[derive(Debug, PartialEq)]
#[allow(inconsistent_fields)]
pub enum ParserState {
    InvalidState,
    // tags
    ExpectingTag,
    TagHeader { value_type: u8, name: String },
    TagEnd,
    TagValueI8 { value: i8 },
    TagValueI16 { value: i16 },
    TagValueI32 { value: i32 },
    TagValueI64 { value: i64 },
    TagValueF32 { value: u32 },
    TagValueF64 { value: u64 },
    TagValueString { value: String },
    // a compound has been entered
    Compound,
    // arrays
    I8Array { len: usize },
    I8ArrayValue { remaining: usize, value: i8 },
    I8ArrayEnd,
    I32Array { len: usize },
    I32ArrayValue { remaining: usize, value: i32 },
    I32ArrayEnd,
    I64Array { len: usize },
    I64ArrayValue { remaining: usize, value: i64 },
    I64ArrayEnd,
    // lists and positions within lists
    List { len: usize, elem_type: u8 },
    ListValueI8 { remaining: usize, value: i8 },
    ListValueI16 { remaining: usize, value: i16 },
    ListValueI32 { remaining: usize, value: i32 },
    ListValueI64 { remaining: usize, value: i64 },
    ListValueF32 { remaining: usize, value: u32 },
    ListValueF64 { remaining: usize, value: u64 },
    ListValueI8Array { remaining: usize },
    ListValueString { remaining: usize, value: String },
    ListValueList { remaining: usize },
    ListValueCompound { remaining: usize },
    ListValueI32Array { remaining: usize },
    ListValueI64Array { remaining: usize },
    ListEnd,
}

impl View for ParserState {
    type V = StateView;

    open spec fn view(&self) -> StateView {
        match *self {
            ParserState::InvalidState => StateView::Invalid,
            ParserState::ExpectingTag => StateView::ExpectingTag,
            ParserState::TagHeader { value_type, name } => StateView::TagHeader {
                value_type,
                name: name@,
            },
            ParserState::TagEnd => StateView::TagEnd,
            ParserState::TagValueI8 { value } => StateView::TagValue { value: Scalar::I8(value) },
            ParserState::TagValueI16 { value } => StateView::TagValue {
                value: Scalar::I16(value),
            },
            ParserState::TagValueI32 { value } => StateView::TagValue {
                value: Scalar::I32(value),
            },
            ParserState::TagValueI64 { value } => StateView::TagValue {
                value: Scalar::I64(value),
            },
            ParserState::TagValueF32 { value } => StateView::TagValue {
                value: Scalar::F32(value),
            },
            ParserState::TagValueF64 { value } => StateView::TagValue {
                value: Scalar::F64(value),
            },
            ParserState::TagValueString { value } => StateView::TagValue {
                value: Scalar::Text(value@),
            },
            ParserState::Compound => StateView::Compound,
            ParserState::I8Array { len } => StateView::Array { kind: TAG_I8_ARRAY, len: len as nat },
            ParserState::I8ArrayValue { remaining, value } => StateView::ArrayValue {
                kind: TAG_I8_ARRAY,
                remaining: remaining as nat,
                value: Scalar::I8(value),
            },
            ParserState::I8ArrayEnd => StateView::ArrayEnd { kind: TAG_I8_ARRAY },
            ParserState::I32Array { len } => StateView::Array {
                kind: TAG_I32_ARRAY,
                len: len as nat,
            },
            ParserState::I32ArrayValue { remaining, value } => StateView::ArrayValue {
                kind: TAG_I32_ARRAY,
                remaining: remaining as nat,
                value: Scalar::I32(value),
            },
            ParserState::I32ArrayEnd => StateView::ArrayEnd { kind: TAG_I32_ARRAY },
            ParserState::I64Array { len } => StateView::Array {
                kind: TAG_I64_ARRAY,
                len: len as nat,
            },
            ParserState::I64ArrayValue { remaining, value } => StateView::ArrayValue {
                kind: TAG_I64_ARRAY,
                remaining: remaining as nat,
                value: Scalar::I64(value),
            },
            ParserState::I64ArrayEnd => StateView::ArrayEnd { kind: TAG_I64_ARRAY },
            ParserState::List { len, elem_type } => StateView::List { len: len as nat, elem_type },
            ParserState::ListValueI8 { remaining, value } => StateView::ListValue {
                remaining: remaining as nat,
                value: Scalar::I8(value),
            },
            ParserState::ListValueI16 { remaining, value } => StateView::ListValue {
                remaining: remaining as nat,
                value: Scalar::I16(value),
            },
            ParserState::ListValueI32 { remaining, value } => StateView::ListValue {
                remaining: remaining as nat,
                value: Scalar::I32(value),
            },
            ParserState::ListValueI64 { remaining, value } => StateView::ListValue {
                remaining: remaining as nat,
                value: Scalar::I64(value),
            },
            ParserState::ListValueF32 { remaining, value } => StateView::ListValue {
                remaining: remaining as nat,
                value: Scalar::F32(value),
            },
            ParserState::ListValueF64 { remaining, value } => StateView::ListValue {
                remaining: remaining as nat,
                value: Scalar::F64(value),
            },
            ParserState::ListValueI8Array { remaining } => StateView::ListFrame {
                kind: TAG_I8_ARRAY,
                remaining: remaining as nat,
            },
            ParserState::ListValueString { remaining, value } => StateView::ListValue {
                remaining: remaining as nat,
                value: Scalar::Text(value@),
            },
            ParserState::ListValueList { remaining } => StateView::ListFrame {
                kind: TAG_LIST,
                remaining: remaining as nat,
            },
            ParserState::ListValueCompound { remaining } => StateView::ListFrame {
                kind: TAG_COMPOUND,
                remaining: remaining as nat,
            },
            ParserState::ListValueI32Array { remaining } => StateView::ListFrame {
                kind: TAG_I32_ARRAY,
                remaining: remaining as nat,
            },
            ParserState::ListValueI64Array { remaining } => StateView::ListFrame {
                kind: TAG_I64_ARRAY,
                remaining: remaining as nat,
            },
            ParserState::ListEnd => StateView::ListEnd,
        }
    }
}

/// A pull parser over a document held in memory.
pub struct Parser {
    input: Vec<u8>,
    pos: usize,
    state: ParserState,
    stack: Vec<ParserState>,
    max_depth: Option<usize>,
}

impl View for Parser {
    type V = ParserView;

    closed spec fn view(&self) -> ParserView {
        self.abstraction()
    }
}

impl Parser {
    /// What the fields stand for.  Only the functions that touch the fields
    /// look inside; the state machine is written against the view.
    #[verifier::opaque]
    spec fn abstraction(&self) -> ParserView {
        ParserView {
            state: self.state@,
            stack: Seq::new(self.stack@.len(), |i: int| self.stack@[i]@),
            rest: if self.pos <= self.input@.len() {
                self.input@.skip(self.pos as int)
            } else {
                Seq::empty()
            },
            max_depth: match self.max_depth {
                Some(limit) => Some(limit as nat),
                None => None,
            },
        }
    }

    /// The state in the view is the view of the state.
    proof fn lemma_state_view(&self)
        ensures
            self@.state == self.state@,
            self@.stack.len() == self.stack@.len(),
    {
        reveal(Parser::abstraction);
    }

    /// A parser at the start of `input`.  Nothing is read yet.  Containers
    /// may nest as deep as memory allows.
    pub fn new(input: Vec<u8>) -> (parser: Self)
        ensures
            parser@ == ParserView::initial(input@),
    {
        let parser = Parser {
            input,
            pos: 0,
            state: ParserState::ExpectingTag,
            stack: Vec::new(),
            max_depth: None,
        };
        proof {
            reveal(Parser::abstraction);
            assert(parser@.stack =~= Seq::empty());
            assert(parser@.rest =~= input@);
        }
        parser
    }

    /// A parser at the start of `input` that lets containers nest no deeper
    /// than `max_depth`: entering one more is a framing error.
    pub fn with_max_depth(input: Vec<u8>, max_depth: usize) -> (parser: Self)
        ensures
            parser@ == ParserView::initial(input@).with_max_depth(max_depth as nat),
    {
        let parser = Parser {
            input,
            pos: 0,
            state: ParserState::ExpectingTag,
            stack: Vec::new(),
            max_depth: Some(max_depth),
        };
        proof {
            reveal(Parser::abstraction);
            assert(parser@.stack =~= Seq::empty());
            assert(parser@.rest =~= input@);
        }
        parser
    }

    /// The state that the parser is in.
    pub fn state(&self) -> (state: &ParserState)
        ensures
            state@ == self@.state,
    {
        proof {
            self.lemma_state_view();
        }
        &self.state
    }

    /// The kind of the event that the parser stands on.
    pub fn get_value_type(&self) -> (kind: ValueType)
        ensures
            kind == self@.state.value_type(),
    {
        proof {
            self.lemma_state_view();
        }
        match self.state {
            ParserState::InvalidState => ValueType::Invalid,
            ParserState::ExpectingTag => ValueType::Invalid,
            ParserState::TagHeader { value_type: _, name: _ } => ValueType::String,
            ParserState::TagEnd => ValueType::MapEnd,
            ParserState::TagValueI8 { value: _ } => ValueType::I8,
            ParserState::TagValueI16 { value: _ } => ValueType::I16,
            ParserState::TagValueI32 { value: _ } => ValueType::I32,
            ParserState::TagValueI64 { value: _ } => ValueType::I64,
            ParserState::TagValueF32 { value: _ } => ValueType::F32,
            ParserState::TagValueF64 { value: _ } => ValueType::F64,
            ParserState::TagValueString { value: _ } => ValueType::String,
            ParserState::Compound => ValueType::MapBegin,
            ParserState::I8Array { len: _ } => ValueType::SeqBegin,
            ParserState::I8ArrayValue { remaining: _, value: _ } => ValueType::I8,
            ParserState::I8ArrayEnd => ValueType::SeqEnd,
            ParserState::I32Array { len: _ } => ValueType::SeqBegin,
            ParserState::I32ArrayValue { remaining: _, value: _ } => ValueType::I32,
            ParserState::I32ArrayEnd => ValueType::SeqEnd,
            ParserState::I64Array { len: _ } => ValueType::SeqBegin,
            ParserState::I64ArrayValue { remaining: _, value: _ } => ValueType::I64,
            ParserState::I64ArrayEnd => ValueType::SeqEnd,
            ParserState::List { len: _, elem_type: _ } => ValueType::SeqBegin,
            ParserState::ListValueI8 { remaining: _, value: _ } => ValueType::I8,
            ParserState::ListValueI16 { remaining: _, value: _ } => ValueType::I16,
            ParserState::ListValueI32 { remaining: _, value: _ } => ValueType::I32,
            ParserState::ListValueI64 { remaining: _, value: _ } => ValueType::I64,
            ParserState::ListValueF32 { remaining: _, value: _ } => ValueType::F32,
            ParserState::ListValueF64 { remaining: _, value: _ } => ValueType::F64,
            ParserState::ListValueI8Array { remaining: _ } => ValueType::Invalid,
            ParserState::ListValueString { remaining: _, value: _ } => ValueType::String,
            ParserState::ListValueList { remaining: _ } => ValueType::Invalid,
            ParserState::ListValueCompound { remaining: _ } => ValueType::Invalid,
            ParserState::ListValueI32Array { remaining: _ } => ValueType::Invalid,
            ParserState::ListValueI64Array { remaining: _ } => ValueType::Invalid,
            ParserState::ListEnd => ValueType::SeqEnd,
        }
    }

    /// The signed byte that the parser stands on.
    pub fn get_i8_value(&self) -> (r: Result<i8, Error>)
        ensures
            r == (match self@.state.scalar() {
                Some(Scalar::I8(value)) => Ok::<i8, Error>(value),
                _ => Err(Error::InvalidTagTypeError),
            }),
            r is Ok <==> self@.state.value_type() == ValueType::I8,
    {
        proof {
            self.lemma_state_view();
        }
        match self.state {
            ParserState::TagValueI8 { value } => Ok(value),
            ParserState::I8ArrayValue { remaining: _, value } => Ok(value),
            ParserState::ListValueI8 { remaining: _, value } => Ok(value),
            _ => Err(Error::InvalidTagTypeError),
        }
    }

    /// The 16-bit integer that the parser stands on.
    pub fn get_i16_value(&self) -> (r: Result<i16, Error>)
        ensures
            r == (match self@.state.scalar() {
                Some(Scalar::I16(value)) => Ok::<i16, Error>(value),
                _ => Err(Error::InvalidTagTypeError),
            }),
            r is Ok <==> self@.state.value_type() == ValueType::I16,
    {
        proof {
            self.lemma_state_view();
        }
        match self.state {
            ParserState::TagValueI16 { value } => Ok(value),
            ParserState::ListValueI16 { remaining: _, value } => Ok(value),
            _ => Err(Error::InvalidTagTypeError),
        }
    }

    /// The 32-bit integer that the parser stands on.
    pub fn get_i32_value(&self) -> (r: Result<i32, Error>)
        ensures
            r == (match self@.state.scalar() {
                Some(Scalar::I32(value)) => Ok::<i32, Error>(value),
                _ => Err(Error::InvalidTagTypeError),
            }),
            r is Ok <==> self@.state.value_type() == ValueType::I32,
    {
        proof {
            self.lemma_state_view();
        }
        match self.state {
            ParserState::TagValueI32 { value } => Ok(value),
            ParserState::I32ArrayValue { remaining: _, value } => Ok(value),
            ParserState::ListValueI32 { remaining: _, value } => Ok(value),
            _ => Err(Error::InvalidTagTypeError),
        }
    }

    /// The 64-bit integer that the parser stands on.
    pub fn get_i64_value(&self) -> (r: Result<i64, Error>)
        ensures
            r == (match self@.state.scalar() {
                Some(Scalar::I64(value)) => Ok::<i64, Error>(value),
                _ => Err(Error::InvalidTagTypeError),
            }),
            r is Ok <==> self@.state.value_type() == ValueType::I64,
    {
        proof {
            self.lemma_state_view();
        }
        match self.state {
            ParserState::TagValueI64 { value } => Ok(value),
            ParserState::I64ArrayValue { remaining: _, value } => Ok(value),
            ParserState::ListValueI64 { remaining: _, value } => Ok(value),
            _ => Err(Error::InvalidTagTypeError),
        }
    }

    /// The bit pattern of the binary32 number that the parser stands on.
    pub fn get_f32_value(&self) -> (r: Result<u32, Error>)
        ensures
            r == (match self@.state.scalar() {
                Some(Scalar::F32(bits)) => Ok::<u32, Error>(bits),
                _ => Err(Error::InvalidTagTypeError),
            }),
            r is Ok <==> self@.state.value_type() == ValueType::F32,
    {
        proof {
            self.lemma_state_view();
        }
        match self.state {
            ParserState::TagValueF32 { value } => Ok(value),
            ParserState::ListValueF32 { remaining: _, value } => Ok(value),
            _ => Err(Error::InvalidTagTypeError),
        }
    }

    /// The bit pattern of the binary64 number that the parser stands on.
    pub fn get_f64_value(&self) -> (r: Result<u64, Error>)
        ensures
            r == (match self@.state.scalar() {
                Some(Scalar::F64(bits)) => Ok::<u64, Error>(bits),
                _ => Err(Error::InvalidTagTypeError),
            }),
            r is Ok <==> self@.state.value_type() == ValueType::F64,
    {
        proof {
            self.lemma_state_view();
        }
        match self.state {
            ParserState::TagValueF64 { value } => Ok(value),
            ParserState::ListValueF64 { remaining: _, value } => Ok(value),
            _ => Err(Error::InvalidTagTypeError),
        }
    }

    /// The string that the parser stands on: the name of a tag whose value
    /// is still to come, or a string value.
    pub fn get_string_value(&self) -> (r: Result<String, Error>)
        ensures
            match self@.state.scalar() {
                Some(Scalar::Text(text)) => r is Ok && r.unwrap()@ == text,
                _ => r == Err::<String, Error>(Error::InvalidTagTypeError),
            },
            r is Ok <==> self@.state.value_type() == ValueType::String,
    {
        proof {
            self.lemma_state_view();
        }
        match &self.state {
            ParserState::TagHeader { value_type: _, name } => Ok(name.clone()),
            ParserState::TagValueString { value } => Ok(value.clone()),
            ParserState::ListValueString { remaining: _, value } => Ok(value.clone()),
            _ => Err(Error::InvalidTagTypeError),
        }
    }

    /// Adds `bytes` to the input, behind what has not been read yet.
    pub fn feed(&mut self, bytes: &[u8])
        ensures
            final(self)@ == old(self)@.append(bytes@),
    {
        proof {
            reveal(Parser::abstraction);
        }
        if self.pos >= self.input.len() {
            // everything has been read: the space can be used again
            self.input.clear();
            self.pos = 0;
        }
        let ghost before = self.input@;
        let ghost pos = self.pos;
        assert(before.skip(pos as int) =~= old(self)@.rest);
        let mut i: usize = 0;
        while i < bytes.len()
            invariant
                i <= bytes.len(),
                self.input@ == before + bytes@.take(i as int),
                self.pos == pos,
                pos <= before.len(),
                self.state == old(self).state,
                self.stack == old(self).stack,
                self.max_depth == old(self).max_depth,
            decreases bytes.len() - i,
        {
            self.input.push(bytes[i]);
            i = i + 1;
            assert(self.input@ =~= before + bytes@.take(i as int));
        }
        proof {
            assert(bytes@.take(bytes.len() as int) =~= bytes@);
            assert((before + bytes@).skip(pos as int) =~= before.skip(pos as int) + bytes@);
        }
    }

    /// The number of bytes that are missing for the next advance, as far as
    /// the input that is there tells.  While it is not zero, the next advance
    /// would fail for want of input; a source that has more should be read
    /// and its bytes be fed first.
    pub fn needs(&self) -> (n: usize)
        ensures
            n == shortfall(self@),
    {
        let wanted = self.wanted();
        let available = self.available();
        if wanted > available {
            wanted - available
        } else {
            0
        }
    }

    /// The number of bytes that have not been read yet.
    fn available(&self) -> (n: usize)
        ensures
            n == self@.rest.len(),
    {
        proof {
            reveal(Parser::abstraction);
        }
        let len = self.input.len();
        if self.pos <= len {
            len - self.pos
        } else {
            0
        }
    }

    /// The number of bytes that the next advance asks for.
    #[verifier::rlimit(40)]
    fn wanted(&self) -> (n: usize)
        ensures
            n == wanted(self@),
            n <= 0x1_0002,
    {
        proof {
            self.lemma_state_view();
        }
        match self.state {
            ParserState::InvalidState => 0,
            ParserState::ExpectingTag => self.tag_header_wanted(),
            ParserState::TagHeader { value_type, name: _ } => self.value_wanted(value_type),
            ParserState::TagEnd => self.leave_wanted(),
            ParserState::TagValueI8 { value: _ } => self.tag_header_wanted(),
            ParserState::TagValueI16 { value: _ } => self.tag_header_wanted(),
            ParserState::TagValueI32 { value: _ } => self.tag_header_wanted(),
            ParserState::TagValueI64 { value: _ } => self.tag_header_wanted(),
            ParserState::TagValueF32 { value: _ } => self.tag_header_wanted(),
            ParserState::TagValueF64 { value: _ } => self.tag_header_wanted(),
            ParserState::TagValueString { value: _ } => self.tag_header_wanted(),
            ParserState::Compound => self.tag_header_wanted(),
            ParserState::I8Array { len } => array_width(TAG_I8_ARRAY, len),
            ParserState::I8ArrayValue { remaining, value: _ } => array_width(
                TAG_I8_ARRAY,
                remaining,
            ),
            ParserState::I8ArrayEnd => self.leave_wanted(),
            ParserState::I32Array { len } => array_width(TAG_I32_ARRAY, len),
            ParserState::I32ArrayValue { remaining, value: _ } => array_width(
                TAG_I32_ARRAY,
                remaining,
            ),
            ParserState::I32ArrayEnd => self.leave_wanted(),
            ParserState::I64Array { len } => array_width(TAG_I64_ARRAY, len),
            ParserState::I64ArrayValue { remaining, value: _ } => array_width(
                TAG_I64_ARRAY,
                remaining,
            ),
            ParserState::I64ArrayEnd => self.leave_wanted(),
            ParserState::List { len, elem_type } => self.element_wanted(elem_type, len),
            ParserState::ListValueI8 { remaining, value: _ } => self.element_wanted(
                TAG_I8,
                remaining,
            ),
            ParserState::ListValueI16 { remaining, value: _ } => self.element_wanted(
                TAG_I16,
                remaining,
            ),
            ParserState::ListValueI32 { remaining, value: _ } => self.element_wanted(
                TAG_I32,
                remaining,
            ),
            ParserState::ListValueI64 { remaining, value: _ } => self.element_wanted(
                TAG_I64,
                remaining,
            ),
            ParserState::ListValueF32 { remaining, value: _ } => self.element_wanted(
                TAG_F32,
                remaining,
            ),
            ParserState::ListValueF64 { remaining, value: _ } => self.element_wanted(
                TAG_F64,
                remaining,
            ),
            ParserState::ListValueI8Array { remaining } => self.element_wanted(
                TAG_I8_ARRAY,
                remaining,
            ),
            ParserState::ListValueString { remaining, value: _ } => self.element_wanted(
                TAG_STRING,
                remaining,
            ),
            ParserState::ListValueList { remaining } => self.element_wanted(TAG_LIST, remaining),
            ParserState::ListValueCompound { remaining } => self.element_wanted(
                TAG_COMPOUND,
                remaining,
            ),
            ParserState::ListValueI32Array { remaining } => self.element_wanted(
                TAG_I32_ARRAY,
                remaining,
            ),
            ParserState::ListValueI64Array { remaining } => self.element_wanted(
                TAG_I64_ARRAY,
                remaining,
            ),
            ParserState::ListEnd => self.leave_wanted(),
        }
    }

    /// The number of bytes that reading a string asks for, `offset` bytes
    /// from the current position.
    fn text_wanted(&self, offset: usize) -> (n: usize)
        requires
            offset <= 1,
            offset <= self@.rest.len(),
        ensures
            n == text_wanted(self@.rest.skip(offset as int)),
            n <= 0x1_0001,
    {
        match self.peek(offset + 2) {
            Some(bytes) => {
                let field = slice_subrange(bytes, offset, offset + 2);
                assert(field@.take(2) =~= self@.rest.skip(offset as int).take(2));
                2 + be_u16(field) as usize
            },
            None => 2,
        }
    }

    /// The number of bytes that reading a tag header asks for.
    fn tag_header_wanted(&self) -> (n: usize)
        ensures
            n == tag_header_wanted(self@.rest),
            n <= 0x1_0002,
    {
        match self.peek(1) {
            Some(bytes) => {
                if bytes[0] == TAG_END {
                    1
                } else {
                    1 + self.text_wanted(1)
                }
            },
            None => 1,
        }
    }

    /// The number of bytes that reading a value of kind `kind` asks for.
    fn value_wanted(&self, kind: u8) -> (n: usize)
        ensures
            n == value_wanted(kind, self@.rest),
            n <= 0x1_0001,
    {
        if kind == TAG_STRING {
            assert(self@.rest.skip(0) =~= self@.rest);
            self.text_wanted(0)
        } else if kind == TAG_I8 {
            1
        } else if kind == TAG_I16 {
            2
        } else if kind == TAG_I32 || kind == TAG_F32 {
            4
        } else if kind == TAG_I64 || kind == TAG_F64 {
            8
        } else if kind == TAG_LIST {
            5
        } else if kind == TAG_I8_ARRAY || kind == TAG_I32_ARRAY || kind == TAG_I64_ARRAY {
            4
        } else {
            0
        }
    }

    /// The number of bytes that reading in a list of elements of kind `kind`
    /// asks for.
    fn element_wanted(&self, kind: u8, remaining: usize) -> (n: usize)
        ensures
            n == element_wanted(kind, remaining as nat, self@.rest),
            n <= 0x1_0001,
    {
        if remaining == 0 {
            0
        } else {
            self.value_wanted(kind)
        }
    }

    /// The number of bytes that closing a container asks for.
    fn leave_wanted(&self) -> (n: usize)
        ensures
            n == leave_wanted(self@),
            n <= 0x1_0002,
    {
        let depth = self.depth();
        if depth == 0 {
            return 0;
        }
        proof {
            reveal(Parser::abstraction);
        }
        match self.stack[depth - 1] {
            ParserState::ExpectingTag => self.tag_header_wanted(),
            ParserState::ListValueI8Array { remaining } => self.element_wanted(
                TAG_I8_ARRAY,
                remaining,
            ),
            ParserState::ListValueList { remaining } => self.element_wanted(TAG_LIST, remaining),
            ParserState::ListValueCompound { remaining } => self.element_wanted(
                TAG_COMPOUND,
                remaining,
            ),
            ParserState::ListValueI32Array { remaining } => self.element_wanted(
                TAG_I32_ARRAY,
                remaining,
            ),
            ParserState::ListValueI64Array { remaining } => self.element_wanted(
                TAG_I64_ARRAY,
                remaining,
            ),
            _ => 0,
        }
    }

    /// Reads the next value from the input.
    ///
    /// On success the parser stands on the next event.  On failure the
    /// parser has failed for good: every later call fails too.
    pub fn next(&mut self) -> (r: Result<(), Error>)
        ensures
            (final(self)@, r) == step(old(self)@),
    {
        let r = self.dispatch();
        if r.is_err() {
            self.invalidate();
        }
        proof {
            reveal(step);
            assert(r is Ok ==> r->Ok_0 == ());
        }
        r
    }

    /// Does what the current state calls for.
    #[verifier::rlimit(40)]
    fn dispatch(&mut self) -> (r: Result<(), Error>)
        ensures
            follows(transition(old(self)@), r, final(self)@),
    {
        proof {
            self.lemma_state_view();
        }
        match self.state {
            ParserState::InvalidState => Err(Error::InvalidParserStateError),
            // states for tags
            ParserState::ExpectingTag => self.next_tag_header(),
            ParserState::TagHeader { value_type, name: _ } => self.next_tag_value(value_type),
            ParserState::TagEnd => self.next_state_from_stack(),
            ParserState::TagValueI8 { value: _ } => self.next_tag_header(),
            ParserState::TagValueI16 { value: _ } => self.next_tag_header(),
            ParserState::TagValueI32 { value: _ } => self.next_tag_header(),
            ParserState::TagValueI64 { value: _ } => self.next_tag_header(),
            ParserState::TagValueF32 { value: _ } => self.next_tag_header(),
            ParserState::TagValueF64 { value: _ } => self.next_tag_header(),
            ParserState::TagValueString { value: _ } => self.next_tag_header(),
            // states for compound types
            ParserState::Compound => self.next_compound(),
            // states for array types
            ParserState::I8Array { len } => self.next_i8_array_value(len),
            ParserState::I8ArrayValue { remaining, value: _ } => self.next_i8_array_value(
                remaining,
            ),
            ParserState::I8ArrayEnd => self.next_state_from_stack(),
            ParserState::I32Array { len } => self.next_i32_array_value(len),
            ParserState::I32ArrayValue { remaining, value: _ } => self.next_i32_array_value(
                remaining,
            ),
            ParserState::I32ArrayEnd => self.next_state_from_stack(),
            ParserState::I64Array { len } => self.next_i64_array_value(len),
            ParserState::I64ArrayValue { remaining, value: _ } => self.next_i64_array_value(
                remaining,
            ),
            ParserState::I64ArrayEnd => self.next_state_from_stack(),
            // states for lists and positions within lists
            ParserState::List { len, elem_type } => self.next_list(len, elem_type),
            ParserState::ListValueI8 { remaining, value: _ } => self.next_list_value_i8(remaining),
            ParserState::ListValueI16 { remaining, value: _ } => self.next_list_value_i16(
                remaining,
            ),
            ParserState::ListValueI32 { remaining, value: _ } => self.next_list_value_i32(
                remaining,
            ),
            ParserState::ListValueI64 { remaining, value: _ } => self.next_list_value_i64(
                remaining,
            ),
            ParserState::ListValueF32 { remaining, value: _ } => self.next_list_value_f32(
                remaining,
            ),
            ParserState::ListValueF64 { remaining, value: _ } => self.next_list_value_f64(
                remaining,
            ),
            ParserState::ListValueI8Array { remaining } => self.next_list_value_i8_array(remaining),
            ParserState::ListValueString { remaining, value: _ } => self.next_list_value_string(
                remaining,
            ),
            ParserState::ListValueList { remaining } => self.next_list_value_list(remaining),
            ParserState::ListValueCompound { remaining } => self.next_list_value_compound(
                remaining,
            ),
            ParserState::ListValueI32Array { remaining } => self.next_list_value_i32_array(
                remaining,
            ),
            ParserState::ListValueI64Array { remaining } => self.next_list_value_i64_array(
                remaining,
            ),
            ParserState::ListEnd => self.next_state_from_stack(),
        }
    }

    /// Reads the header of the next tag in a compound, or the end of the
    /// compound.
    fn next_tag_header(&mut self) -> (r: Result<(), Error>)
        ensures
            follows(tag_header(old(self)@), r, final(self)@),
    {
        let value_type = match self.read_u8() {
            Some(byte) => byte,
            None => {
                // a document may end here, but only outside every container
                if self.depth() == 0 {
                    return Err(Error::Eof);
                } else {
                    return Err(Error::InvalidParserStateError);
                }
            },
        };

        // `TAG_END` is a special case, indicates the end of a compound type
        if value_type == TAG_END {
            self.set_state(ParserState::TagEnd);
            return Ok(());
        }
        let name = self.read_nbt_string()?;
        proof {
            reveal(read_text);
            let rest = old(self)@.rest;
            let n = read_text(rest.skip(1))->Ok_0.1;
            assert(rest.skip(1).skip(n as int) =~= rest.skip(1 + n as int));
        }
        self.set_state(ParserState::TagHeader { value_type, name });
        Ok(())
    }

    /// Reads the value of a tag whose header said `value_type`.
    fn next_tag_value(&mut self, value_type: u8) -> (r: Result<(), Error>)
        ensures
            follows(tag_value(old(self)@, value_type), r, final(self)@),
    {
        if value_type == TAG_END {
            Err(Error::InvalidParserStateError)
        } else if value_type == TAG_I8 {
            self.next_tag_value_i8()
        } else if value_type == TAG_I16 {
            self.next_tag_value_i16()
        } else if value_type == TAG_I32 {
            self.next_tag_value_i32()
        } else if value_type == TAG_I64 {
            self.next_tag_value_i64()
        } else if value_type == TAG_F32 {
            self.next_tag_value_f32()
        } else if value_type == TAG_F64 {
            self.next_tag_value_f64()
        } else if value_type == TAG_I8_ARRAY {
            self.next_tag_value_i8_array()
        } else if value_type == TAG_STRING {
            self.next_tag_value_string()
        } else if value_type == TAG_LIST {
            self.next_tag_value_list()
        } else if value_type == TAG_COMPOUND {
            self.next_tag_value_compound()
        } else if value_type == TAG_I32_ARRAY {
            self.next_tag_value_i32_array()
        } else if value_type == TAG_I64_ARRAY {
            self.next_tag_value_i64_array()
        } else {
            Err(Error::InvalidTagTypeError)
        }
    }

    /// Reads a signed byte as the value of a tag.
    fn next_tag_value_i8(&mut self) -> (r: Result<(), Error>)
        ensures
            follows(tag_value(old(self)@, TAG_I8), r, final(self)@),
    {
        let value = self.read_i8()?;
        self.set_state(ParserState::TagValueI8 { value });
        Ok(())
    }

    /// Reads a 16-bit integer as the value of a tag.
    fn next_tag_value_i16(&mut self) -> (r: Result<(), Error>)
        ensures
            follows(tag_value(old(self)@, TAG_I16), r, final(self)@),
    {
        let value = self.read_i16()?;
        self.set_state(ParserState::TagValueI16 { value });
        Ok(())
    }

    /// Reads a 32-bit integer as the value of a tag.
    fn next_tag_value_i32(&mut self) -> (r: Result<(), Error>)
        ensures
            follows(tag_value(old(self)@, TAG_I32), r, final(self)@),
    {
        let value = self.read_i32()?;
        self.set_state(ParserState::TagValueI32 { value });
        Ok(())
    }

    /// Reads a 64-bit integer as the value of a tag.
    fn next_tag_value_i64(&mut self) -> (r: Result<(), Error>)
        ensures
            follows(tag_value(old(self)@, TAG_I64), r, final(self)@),
    {
        let value = self.read_i64()?;
        self.set_state(ParserState::TagValueI64 { value });
        Ok(())
    }

    /// Reads a binary32 number as the value of a tag.
    fn next_tag_value_f32(&mut self) -> (r: Result<(), Error>)
        ensures
            follows(tag_value(old(self)@, TAG_F32), r, final(self)@),
    {
        let value = self.read_f32()?;
        self.set_state(ParserState::TagValueF32 { value });
        Ok(())
    }

    /// Reads a binary64 number as the value of a tag.
    fn next_tag_value_f64(&mut self) -> (r: Result<(), Error>)
        ensures
            follows(tag_value(old(self)@, TAG_F64), r, final(self)@),
    {
        let value = self.read_f64()?;
        self.set_state(ParserState::TagValueF64 { value });
        Ok(())
    }

    /// Reads a string as the value of a tag.
    fn next_tag_value_string(&mut self) -> (r: Result<(), Error>)
        ensures
            follows(tag_value(old(self)@, TAG_STRING), r, final(self)@),
    {
        proof {
            reveal(read_scalar);
        }
        let value = self.read_nbt_string()?;
        self.set_state(ParserState::TagValueString { value });
        Ok(())
    }

    /// Enters a list that is the value of a tag.
    fn next_tag_value_list(&mut self) -> (r: Result<(), Error>)
        ensures
            follows(tag_value(old(self)@, TAG_LIST), r, final(self)@),
    {
        // return to parsing tags after parsing the list
        self.push_frame(ParserState::ExpectingTag)?;
        // parse the list value
        self.next_value_list()
    }

    /// Enters a compound that is the value of a tag.
    fn next_tag_value_compound(&mut self) -> (r: Result<(), Error>)
        ensures
            follows(tag_value(old(self)@, TAG_COMPOUND), r, final(self)@),
    {
        // the parser should expect another tag after this compound type
        self.push_frame(ParserState::ExpectingTag)?;
        // shows that the parser will read tags inside a compound value
        self.set_state(ParserState::Compound);
        Ok(())
    }

    /// Enters an array of `i8` that is the value of a tag.
    fn next_tag_value_i8_array(&mut self) -> (r: Result<(), Error>)
        ensures
            follows(tag_value(old(self)@, TAG_I8_ARRAY), r, final(self)@),
    {
        // parser should expect more tags after this array ends
        self.push_frame(ParserState::ExpectingTag)?;
        // start parsing the array
        self.next_value_i8_array()
    }

    /// Enters an array of `i32` that is the value of a tag.
    fn next_tag_value_i32_array(&mut self) -> (r: Result<(), Error>)
        ensures
            follows(tag_value(old(self)@, TAG_I32_ARRAY), r, final(self)@),
    {
        // parser should expect more tags after this array ends
        self.push_frame(ParserState::ExpectingTag)?;
        // start parsing the array
        self.next_value_i32_array()
    }

    /// Enters an array of `i64` that is the value of a tag.
    fn next_tag_value_i64_array(&mut self) -> (r: Result<(), Error>)
        ensures
            follows(tag_value(old(self)@, TAG_I64_ARRAY), r, final(self)@),
    {
        // parser should expect more tags after this array ends
        self.push_frame(ParserState::ExpectingTag)?;
        // start parsing the array
        self.next_value_i64_array()
    }

    /// Reads the first tag of a compound, or its end.
    fn next_compound(&mut self) -> (r: Result<(), Error>)
        ensures
            follows(tag_header(old(self)@), r, final(self)@),
    {
        // a compound is a bunch of tags, followed by a `TAG_END` tag
        self.next_tag_header()
    }

    /// Reads the header of an array of `i8`.
    fn next_value_i8_array(&mut self) -> (r: Result<(), Error>)
        ensures
            follows(array_header(old(self)@, TAG_I8_ARRAY), r, final(self)@),
    {
        let len = self.read_i32_list_len()?;
        self.set_state(ParserState::I8Array { len });
        Ok(())
    }

    /// Reads the next element of an array of `i8` of which `remaining`
    /// are left, or closes the array.
    fn next_i8_array_value(&mut self, remaining: usize) -> (r: Result<(), Error>)
        ensures
            follows(array_element(old(self)@, TAG_I8_ARRAY, remaining as nat), r, final(self)@),
    {
        if remaining == 0 {
            self.set_state(ParserState::I8ArrayEnd);
            return Ok(());
        }
        let remaining = remaining - 1;
        let value = self.read_i8()?;
        self.set_state(ParserState::I8ArrayValue { remaining, value });
        Ok(())
    }

    /// Reads the header of an array of `i32`.
    fn next_value_i32_array(&mut self) -> (r: Result<(), Error>)
        ensures
            follows(array_header(old(self)@, TAG_I32_ARRAY), r, final(self)@),
    {
        let len = self.read_i32_list_len()?;
        self.set_state(ParserState::I32Array { len });
        Ok(())
    }

    /// Reads the next element of an array of `i32` of which `remaining`
    /// are left, or closes the array.
    fn next_i32_array_value(&mut self, remaining: usize) -> (r: Result<(), Error>)
        ensures
            follows(array_element(old(self)@, TAG_I32_ARRAY, remaining as nat), r, final(self)@),
    {
        if remaining == 0 {
            self.set_state(ParserState::I32ArrayEnd);
            return Ok(());
        }
        let remaining = remaining - 1;
        let value = self.read_i32()?;
        self.set_state(ParserState::I32ArrayValue { remaining, value });
        Ok(())
    }

    /// Reads the header of an array of `i64`.
    fn next_value_i64_array(&mut self) -> (r: Result<(), Error>)
        ensures
            follows(array_header(old(self)@, TAG_I64_ARRAY), r, final(self)@),
    {
        let len = self.read_i32_list_len()?;
        self.set_state(ParserState::I64Array { len });
        Ok(())
    }

    /// Reads the next element of an array of `i64` of which `remaining`
    /// are left, or closes the array.
    fn next_i64_array_value(&mut self, remaining: usize) -> (r: Result<(), Error>)
        ensures
            follows(array_element(old(self)@, TAG_I64_ARRAY, remaining as nat), r, final(self)@),
    {
        if remaining == 0 {
            self.set_state(ParserState::I64ArrayEnd);
            return Ok(());
        }
        let remaining = remaining - 1;
        let value = self.read_i64()?;
        self.set_state(ParserState::I64ArrayValue { remaining, value });
        Ok(())
    }

    /// Reads the header of a list.
    fn next_value_list(&mut self) -> (r: Result<(), Error>)
        ensures
            follows(list_header(old(self)@), r, final(self)@),
    {
        let elem_type = match self.read_u8() {
            Some(byte) => byte,
            None => {
                return Err(Error::InvalidParserStateError);
            },
        };
        let len = self.read_i32_list_len()?;
        proof {
            reveal(read_len);
            let rest = old(self)@.rest;
            assert(rest.skip(1).skip(4) =~= rest.skip(5));
        }
        self.set_state(ParserState::List { len, elem_type });
        Ok(())
    }

    /// Reads the first element of a list of `len` elements of kind
    /// `elem_type`, or closes the list if it is empty.
    fn next_list(&mut self, len: usize, elem_type: u8) -> (r: Result<(), Error>)
        ensures
            follows(list_element(old(self)@, elem_type, len as nat), r, final(self)@),
    {
        if len == 0 {
            // an empty list may declare any kind of element
            self.set_state(ParserState::ListEnd);
            return Ok(());
        }
        if elem_type == TAG_I8 {
            self.next_list_value_i8(len)
        } else if elem_type == TAG_I16 {
            self.next_list_value_i16(len)
        } else if elem_type == TAG_I32 {
            self.next_list_value_i32(len)
        } else if elem_type == TAG_I64 {
            self.next_list_value_i64(len)
        } else if elem_type == TAG_F32 {
            self.next_list_value_f32(len)
        } else if elem_type == TAG_F64 {
            self.next_list_value_f64(len)
        } else if elem_type == TAG_I8_ARRAY {
            self.next_list_value_i8_array(len)
        } else if elem_type == TAG_STRING {
            self.next_list_value_string(len)
        } else if elem_type == TAG_LIST {
            self.next_list_value_list(len)
        } else if elem_type == TAG_COMPOUND {
            self.next_list_value_compound(len)
        } else if elem_type == TAG_I32_ARRAY {
            self.next_list_value_i32_array(len)
        } else if elem_type == TAG_I64_ARRAY {
            self.next_list_value_i64_array(len)
        } else {
            Err(Error::InvalidParserStateError)
        }
    }

    /// Reads the next element of a list of signed bytes of which `remaining`
    /// are left, or closes the list.
    fn next_list_value_i8(&mut self, remaining: usize) -> (r: Result<(), Error>)
        ensures
            follows(list_element(old(self)@, TAG_I8, remaining as nat), r, final(self)@),
    {
        if remaining == 0 {
            self.set_state(ParserState::ListEnd);
            return Ok(());
        }
        let remaining = remaining - 1;
        let value = self.read_i8()?;
        self.set_state(ParserState::ListValueI8 { remaining, value });
        Ok(())
    }

    /// Reads the next element of a list of 16-bit integers of which `remaining`
    /// are left, or closes the list.
    fn next_list_value_i16(&mut self, remaining: usize) -> (r: Result<(), Error>)
        ensures
            follows(list_element(old(self)@, TAG_I16, remaining as nat), r, final(self)@),
    {
        if remaining == 0 {
            self.set_state(ParserState::ListEnd);
            return Ok(());
        }
        let remaining = remaining - 1;
        let value = self.read_i16()?;
        self.set_state(ParserState::ListValueI16 { remaining, value });
        Ok(())
    }

    /// Reads the next element of a list of 32-bit integers of which `remaining`
    /// are left, or closes the list.
    fn next_list_value_i32(&mut self, remaining: usize) -> (r: Result<(), Error>)
        ensures
            follows(list_element(old(self)@, TAG_I32, remaining as nat), r, final(self)@),
    {
        if remaining == 0 {
            self.set_state(ParserState::ListEnd);
            return Ok(());
        }
        let remaining = remaining - 1;
        let value = self.read_i32()?;
        self.set_state(ParserState::ListValueI32 { remaining, value });
        Ok(())
    }

    /// Reads the next element of a list of 64-bit integers of which `remaining`
    /// are left, or closes the list.
    fn next_list_value_i64(&mut self, remaining: usize) -> (r: Result<(), Error>)
        ensures
            follows(list_element(old(self)@, TAG_I64, remaining as nat), r, final(self)@),
    {
        if remaining == 0 {
            self.set_state(ParserState::ListEnd);
            return Ok(());
        }
        let remaining = remaining - 1;
        let value = self.read_i64()?;
        self.set_state(ParserState::ListValueI64 { remaining, value });
        Ok(())
    }

    /// Reads the next element of a list of binary32 numbers of which `remaining`
    /// are left, or closes the list.
    fn next_list_value_f32(&mut self, remaining: usize) -> (r: Result<(), Error>)
        ensures
            follows(list_element(old(self)@, TAG_F32, remaining as nat), r, final(self)@),
    {
        if remaining == 0 {
            self.set_state(ParserState::ListEnd);
            return Ok(());
        }
        let remaining = remaining - 1;
        let value = self.read_f32()?;
        self.set_state(ParserState::ListValueF32 { remaining, value });
        Ok(())
    }

    /// Reads the next element of a list of binary64 numbers of which `remaining`
    /// are left, or closes the list.
    fn next_list_value_f64(&mut self, remaining: usize) -> (r: Result<(), Error>)
        ensures
            follows(list_element(old(self)@, TAG_F64, remaining as nat), r, final(self)@),
    {
        if remaining == 0 {
            self.set_state(ParserState::ListEnd);
            return Ok(());
        }
        let remaining = remaining - 1;
        let value = self.read_f64()?;
        self.set_state(ParserState::ListValueF64 { remaining, value });
        Ok(())
    }

    /// Enters the next element of a list of arrays of `i8` of which
    /// `remaining` are left, or closes the list.
    fn next_list_value_i8_array(&mut self, remaining: usize) -> (r: Result<(), Error>)
        ensures
            follows(list_element(old(self)@, TAG_I8_ARRAY, remaining as nat), r, final(self)@),
    {
        if remaining == 0 {
            self.set_state(ParserState::ListEnd);
            return Ok(());
        }
        // return to parsing this list after parsing the array
        let remaining = remaining - 1;
        self.push_frame(ParserState::ListValueI8Array { remaining })?;
        // parse the array
        self.next_value_i8_array()
    }

    /// Reads the next element of a list of strings of which `remaining`
    /// are left, or closes the list.
    fn next_list_value_string(&mut self, remaining: usize) -> (r: Result<(), Error>)
        ensures
            follows(list_element(old(self)@, TAG_STRING, remaining as nat), r, final(self)@),
    {
        proof {
            reveal(read_scalar);
        }
        if remaining == 0 {
            self.set_state(ParserState::ListEnd);
            return Ok(());
        }
        let remaining = remaining - 1;
        let value = self.read_nbt_string()?;
        self.set_state(ParserState::ListValueString { remaining, value });
        Ok(())
    }

    /// Enters the next element of a list of lists of which `remaining` are
    /// left, or closes the list.
    fn next_list_value_list(&mut self, remaining: usize) -> (r: Result<(), Error>)
        ensures
            follows(list_element(old(self)@, TAG_LIST, remaining as nat), r, final(self)@),
    {
        if remaining == 0 {
            self.set_state(ParserState::ListEnd);
            return Ok(());
        }
        // return to current list after parsing the contained list
        let remaining = remaining - 1;
        self.push_frame(ParserState::ListValueList { remaining })?;
        // parse the list (as the current list's value)
        self.next_value_list()
    }

    /// Enters the next element of a list of compounds of which `remaining`
    /// are left, or closes the list.
    fn next_list_value_compound(&mut self, remaining: usize) -> (r: Result<(), Error>)
        ensures
            follows(list_element(old(self)@, TAG_COMPOUND, remaining as nat), r, final(self)@),
    {
        if remaining == 0 {
            self.set_state(ParserState::ListEnd);
            return Ok(());
        }
        // return to parsing this list after parsing the compound value
        let remaining = remaining - 1;
        self.push_frame(ParserState::ListValueCompound { remaining })?;
        // parse the compound next
        self.set_state(ParserState::Compound);
        Ok(())
    }

    /// Enters the next element of a list of arrays of `i32` of which
    /// `remaining` are left, or closes the list.
    fn next_list_value_i32_array(&mut self, remaining: usize) -> (r: Result<(), Error>)
        ensures
            follows(list_element(old(self)@, TAG_I32_ARRAY, remaining as nat), r, final(self)@),
    {
        if remaining == 0 {
            self.set_state(ParserState::ListEnd);
            return Ok(());
        }
        // return to parsing this list after parsing the array
        let remaining = remaining - 1;
        self.push_frame(ParserState::ListValueI32Array { remaining })?;
        // parse the array
        self.next_value_i32_array()
    }

    /// Enters the next element of a list of arrays of `i64` of which
    /// `remaining` are left, or closes the list.
    fn next_list_value_i64_array(&mut self, remaining: usize) -> (r: Result<(), Error>)
        ensures
            follows(list_element(old(self)@, TAG_I64_ARRAY, remaining as nat), r, final(self)@),
    {
        if remaining == 0 {
            self.set_state(ParserState::ListEnd);
            return Ok(());
        }
        // return to parsing this list after parsing the array
        let remaining = remaining - 1;
        self.push_frame(ParserState::ListValueI64Array { remaining })?;
        // parse the array
        self.next_value_i64_array()
    }

    /// Closes a container: takes the innermost frame off the stack and
    /// continues from it.
    fn next_state_from_stack(&mut self) -> (r: Result<(), Error>)
        ensures
            follows(leave(old(self)@), r, final(self)@),
    {
        match self.pop_frame() {
            Some(frame) => self.resume(frame),
            None => Err(Error::InvalidParserStateError),
        }
    }

    /// Continues from `frame`, which has just been taken off the stack.
    fn resume(&mut self, frame: ParserState) -> (r: Result<(), Error>)
        ensures
            follows(resume(old(self)@, frame@), r, final(self)@),
    {
        match frame {
            ParserState::ExpectingTag => self.next_tag_header(),
            ParserState::ListValueI8Array { remaining } => self.next_list_value_i8_array(remaining),
            ParserState::ListValueList { remaining } => self.next_list_value_list(remaining),
            ParserState::ListValueCompound { remaining } => self.next_list_value_compound(
                remaining,
            ),
            ParserState::ListValueI32Array { remaining } => self.next_list_value_i32_array(
                remaining,
            ),
            ParserState::ListValueI64Array { remaining } => self.next_list_value_i64_array(
                remaining,
            ),
            _ => Err(Error::InvalidParserStateError),
        }
    }

    /// The bytes from the current position, if `n` of them are left.
    fn peek(&self, n: usize) -> (r: Option<&[u8]>)
        ensures
            match r {
                Some(bytes) => n <= self@.rest.len() && bytes@ == self@.rest.take(n as int),
                None => self@.rest.len() < n,
            },
    {
        proof {
            reveal(Parser::abstraction);
        }
        let len = self.input.len();
        let start = if self.pos <= len {
            self.pos
        } else {
            len
        };
        if n <= len - start {
            let bytes = slice_subrange(self.input.as_slice(), start, start + n);
            assert(bytes@ =~= self@.rest.take(n as int));
            Some(bytes)
        } else {
            None
        }
    }

    /// Moves the current position over `n` bytes.
    fn consume(&mut self, n: usize)
        requires
            n <= old(self)@.rest.len(),
        ensures
            final(self)@ == old(self)@.skip(n as nat),
    {
        proof {
            reveal(Parser::abstraction);
        }
        let len = self.input.len();
        assert(self.pos <= len ==> self@.rest.len() == len - self.pos);
        self.pos = self.pos + n;
        assert(self@.rest =~= old(self)@.rest.skip(n as int));
    }
    /// Puts the parser in state `state`.
    fn set_state(&mut self, state: ParserState)
        ensures
            final(self)@ == old(self)@.with_state(state@),
    {
        self.state = state;
        proof {
            reveal(Parser::abstraction);
        }
    }

    /// The number of frames to return to.
    fn depth(&self) -> (depth: usize)
        ensures
            depth == self@.stack.len(),
    {
        proof {
            self.lemma_state_view();
        }
        self.stack.len()
    }

    /// Adds `frame` to the frames to return to, unless the parser holds as
    /// many as it may.
    fn push_frame(&mut self, frame: ParserState) -> (r: Result<(), Error>)
        ensures
            match r {
                Ok(_) => !old(self)@.is_full() && final(self)@ == old(self)@.push(frame@),
                Err(e) => old(self)@.is_full() && e == Error::InvalidParserStateError,
            },
    {
        proof {
            reveal(Parser::abstraction);
        }
        if let Some(limit) = self.max_depth {
            if self.stack.len() >= limit {
                return Err(Error::InvalidParserStateError);
            }
        }
        self.stack.push(frame);
        proof {
            assert(self@.stack =~= old(self)@.stack.push(frame@));
        }
        Ok(())
    }

    /// Takes the innermost frame off the stack, if there is one.
    fn pop_frame(&mut self) -> (r: Option<ParserState>)
        ensures
            match r {
                Some(frame) => {
                    &&& old(self)@.stack.len() > 0
                    &&& frame@ == old(self)@.stack.last()
                    &&& final(self)@ == ParserView {
                        stack: old(self)@.stack.drop_last(),
                        ..old(self)@
                    }
                },
                None => old(self)@.stack.len() == 0 && final(self)@ == old(self)@,
            },
    {
        let r = self.stack.pop();
        proof {
            reveal(Parser::abstraction);
            if r is Some {
                assert(self@.stack =~= old(self)@.stack.drop_last());
            } else {
                assert(self@.stack =~= old(self)@.stack);
            }
        }
        r
    }

    /// Gives up: the parser holds nothing from now on.
    fn invalidate(&mut self)
        ensures
            final(self)@ == ParserView::failed(),
    {
        self.state = ParserState::InvalidState;
        self.stack = Vec::new();
        self.pos = self.input.len();
        self.max_depth = None;
        proof {
            reveal(Parser::abstraction);
            assert(self@.stack =~= Seq::empty());
            assert(self@.rest =~= Seq::empty());
        }
    }

    /// Reads one byte, if one is left.
    fn read_u8(&mut self) -> (r: Option<u8>)
        ensures
            match r {
                Some(byte) => {
                    &&& old(self)@.rest.len() > 0
                    &&& byte == old(self)@.rest[0]
                    &&& final(self)@ == old(self)@.skip(1)
                },
                None => old(self)@.rest.len() == 0 && final(self)@ == old(self)@,
            },
    {
        let byte = match self.peek(1) {
            Some(bytes) => bytes[0],
            None => {
                return None;
            },
        };
        self.consume(1);
        Some(byte)
    }

    /// Reads one signed byte.
    fn read_i8(&mut self) -> (r: Result<i8, Error>)
        ensures
            delivers(
                read_scalar(TAG_I8, old(self)@.rest),
                match r {
                    Ok(value) => Ok(Scalar::I8(value)),
                    Err(e) => Err(e),
                },
                old(self)@,
                final(self)@,
            ),
    {
        proof {
            reveal(read_scalar);
        }
        let byte = match self.peek(1) {
            Some(bytes) => bytes[0],
            None => {
                return Err(Error::InvalidParserStateError);
            },
        };
        self.consume(1);
        proof {
            reveal_with_fuel(be_value, 2);
            assert(old(self)@.rest.take(1).drop_last() =~= Seq::<u8>::empty());
        }
        if byte < 128 {
            Ok(byte as i8)
        } else {
            Ok((byte as i16 - 256) as i8)
        }
    }

    /// Reads a big-endian signed 16-bit integer.
    fn read_i16(&mut self) -> (r: Result<i16, Error>)
        ensures
            delivers(
                read_scalar(TAG_I16, old(self)@.rest),
                match r {
                    Ok(value) => Ok(Scalar::I16(value)),
                    Err(e) => Err(e),
                },
                old(self)@,
                final(self)@,
            ),
    {
        proof {
            reveal(read_scalar);
        }
        let value = match self.peek(2) {
            Some(bytes) => {
                assert(bytes@.take(2) =~= bytes@);
                be_i16(bytes)
            },
            None => {
                return Err(Error::InvalidParserStateError);
            },
        };
        self.consume(2);
        Ok(value)
    }

    /// Reads a big-endian signed 32-bit integer.
    fn read_i32(&mut self) -> (r: Result<i32, Error>)
        ensures
            delivers(
                read_scalar(TAG_I32, old(self)@.rest),
                match r {
                    Ok(value) => Ok(Scalar::I32(value)),
                    Err(e) => Err(e),
                },
                old(self)@,
                final(self)@,
            ),
    {
        proof {
            reveal(read_scalar);
        }
        let value = match self.peek(4) {
            Some(bytes) => {
                assert(bytes@.take(4) =~= bytes@);
                be_i32(bytes)
            },
            None => {
                return Err(Error::InvalidParserStateError);
            },
        };
        self.consume(4);
        Ok(value)
    }

    /// Reads a big-endian signed 64-bit integer.
    fn read_i64(&mut self) -> (r: Result<i64, Error>)
        ensures
            delivers(
                read_scalar(TAG_I64, old(self)@.rest),
                match r {
                    Ok(value) => Ok(Scalar::I64(value)),
                    Err(e) => Err(e),
                },
                old(self)@,
                final(self)@,
            ),
    {
        proof {
            reveal(read_scalar);
        }
        let value = match self.peek(8) {
            Some(bytes) => {
                assert(bytes@.take(8) =~= bytes@);
                be_i64(bytes)
            },
            None => {
                return Err(Error::InvalidParserStateError);
            },
        };
        self.consume(8);
        Ok(value)
    }

    /// Reads the bit pattern of a big-endian binary32 number.
    fn read_f32(&mut self) -> (r: Result<u32, Error>)
        ensures
            delivers(
                read_scalar(TAG_F32, old(self)@.rest),
                match r {
                    Ok(bits) => Ok(Scalar::F32(bits)),
                    Err(e) => Err(e),
                },
                old(self)@,
                final(self)@,
            ),
    {
        proof {
            reveal(read_scalar);
        }
        let bits = match self.peek(4) {
            Some(bytes) => {
                assert(bytes@.take(4) =~= bytes@);
                be_u32(bytes)
            },
            None => {
                return Err(Error::InvalidParserStateError);
            },
        };
        self.consume(4);
        Ok(bits)
    }

    /// Reads the bit pattern of a big-endian binary64 number.
    fn read_f64(&mut self) -> (r: Result<u64, Error>)
        ensures
            delivers(
                read_scalar(TAG_F64, old(self)@.rest),
                match r {
                    Ok(bits) => Ok(Scalar::F64(bits)),
                    Err(e) => Err(e),
                },
                old(self)@,
                final(self)@,
            ),
    {
        proof {
            reveal(read_scalar);
        }
        let bits = match self.peek(8) {
            Some(bytes) => {
                assert(bytes@.take(8) =~= bytes@);
                be_u64(bytes)
            },
            None => {
                return Err(Error::InvalidParserStateError);
            },
        };
        self.consume(8);
        Ok(bits)
    }

    /// Reads a string: a big-endian 16-bit length, then that many bytes of
    /// UTF-8.
    fn read_nbt_string(&mut self) -> (r: Result<String, Error>)
        ensures
            match read_text(old(self)@.rest) {
                Ok((text, n)) => r is Ok && r.unwrap()@ == text && final(self)@ == old(self)@.skip(
                    n,
                ),
                Err(e) => r == Err::<String, Error>(e),
            },
    {
        proof {
            reveal(read_text);
        }
        // u16 prefixed length
        let len = match self.peek(2) {
            Some(bytes) => {
                assert(bytes@.take(2) =~= bytes@);
                be_u16(bytes) as usize
            },
            None => {
                return Err(Error::InvalidParserStateError);
            },
        };
        self.consume(2);

        // the string's contents
        let value = match self.peek(len) {
            Some(bytes) => slice_to_vec(bytes),
            None => {
                return Err(Error::InvalidParserStateError);
            },
        };
        self.consume(len);
        proof {
            let rest = old(self)@.rest;
            assert(value@ =~= rest.subrange(2, 2 + len as int));
            assert(self@.rest =~= rest.skip(2 + len as int));
        }
        match String::from_utf8(value) {
            Ok(value) => Ok(value),
            Err(e) => Err(Error::from(e)),
        }
    }

    /// Reads the length of a list or an array.
    fn read_i32_list_len(&mut self) -> (r: Result<usize, Error>)
        ensures
            match read_len(old(self)@.rest) {
                Ok(len) => r is Ok && r.unwrap() == len && final(self)@ == old(self)@.skip(4),
                Err(e) => r == Err::<usize, Error>(e),
            },
    {
        proof {
            reveal(read_len);
        }
        let len = match self.peek(4) {
            Some(bytes) => {
                assert(bytes@.take(4) =~= bytes@);
                be_i32(bytes)
            },
            None => {
                return Err(Error::InvalidParserStateError);
            },
        };
        self.consume(4);
        check_list_len(len)
    }
}

/// The number of bytes of an element of an array of kind `kind`, or zero if
/// no element remains.
fn array_width(kind: u8, remaining: usize) -> (n: usize)
    ensures
        n == array_wanted(kind, remaining as nat),
        n <= 8,
{
    if remaining == 0 {
        0
    } else if kind == TAG_I8_ARRAY {
        1
    } else if kind == TAG_I32_ARRAY {
        4
    } else if kind == TAG_I64_ARRAY {
        8
    } else {
        0
    }
}

/// Accepts the value of a length field: a list or an array holds at least 0
/// and at most `LIST_MAX_LEN` elements.
pub fn check_list_len(len: i32) -> (r: Result<usize, Error>)
    ensures
        0 <= len <= LIST_MAX_LEN ==> r == Ok::<usize, Error>(len as usize),
        len < 0 || len > LIST_MAX_LEN ==> r == Err::<usize, Error>(Error::InvalidParserStateError),
{
    if len < 0 {
        Err(Error::InvalidParserStateError)
    } else if len as usize > LIST_MAX_LEN {
        Err(Error::InvalidParserStateError)
    } else {
        Ok(len as usize)
    }
}

} // verus!
