//! The parser as mathematics: its states, and the function that takes one
//! state and the unread input to the next.
//!
//! Everything here is specification.  The executable parser is proved to
//! follow [`step`]; the laws of the format are proved about it.

use crate::error::Error;
use crate::nbt::parser::ValueType;
use crate::nbt::wire::{be_value, signed};
use crate::nbt::{
    LIST_MAX_LEN, TAG_COMPOUND, TAG_END, TAG_F32, TAG_F64, TAG_I16, TAG_I32, TAG_I32_ARRAY, TAG_I64,
    TAG_I64_ARRAY, TAG_I8, TAG_I8_ARRAY, TAG_LIST, TAG_STRING,
};
use vstd::prelude::*;
use vstd::utf8::*;

verus! {

/// A value without structure.  Floating-point numbers are kept as the bit
/// patterns that the wire carries.
pub enum Scalar {
    I8(i8),
    I16(i16),
    I32(i32),
    I64(i64),
    F32(u32),
    F64(u64),
    Text(Seq<char>),
}

impl Scalar {
    /// The tag identifier under which the wire carries this scalar.
    pub open spec fn tag(self) -> u8 {
        match self {
            Scalar::I8(_) => TAG_I8,
            Scalar::I16(_) => TAG_I16,
            Scalar::I32(_) => TAG_I32,
            Scalar::I64(_) => TAG_I64,
            Scalar::F32(_) => TAG_F32,
            Scalar::F64(_) => TAG_F64,
            Scalar::Text(_) => TAG_STRING,
        }
    }

    /// The kind of event that announces this scalar.
    pub open spec fn value_type(self) -> ValueType {
        match self {
            Scalar::I8(_) => ValueType::I8,
            Scalar::I16(_) => ValueType::I16,
            Scalar::I32(_) => ValueType::I32,
            Scalar::I64(_) => ValueType::I64,
            Scalar::F32(_) => ValueType::F32,
            Scalar::F64(_) => ValueType::F64,
            Scalar::Text(_) => ValueType::String,
        }
    }
}

/// A state of the parser, with text as sequences of characters.
pub enum StateView {
    /// The parser has failed.
    Invalid,
    /// A tag is read next; also the frame that returns to a compound.
    ExpectingTag,
    /// The name of a tag has been read, its value has not.
    TagHeader { value_type: u8, name: Seq<char> },
    /// The `TAG_END` that closes a compound has been read.
    TagEnd,
    /// The scalar value of a tag.
    TagValue { value: Scalar },
    /// A compound has been entered.
    Compound,
    /// An array of kind `kind` has been entered; `len` elements follow.
    Array { kind: u8, len: nat },
    /// An element of an array; `remaining` more follow.
    ArrayValue { kind: u8, remaining: nat, value: Scalar },
    /// All elements of an array have been read.
    ArrayEnd { kind: u8 },
    /// A list has been entered; `len` elements of kind `elem_type` follow.
    List { len: nat, elem_type: u8 },
    /// A scalar element of a list; `remaining` more follow.
    ListValue { remaining: nat, value: Scalar },
    /// The frame that returns to a list of containers of kind `kind`, of
    /// which `remaining` are still to come.
    ListFrame { kind: u8, remaining: nat },
    /// All elements of a list have been read.
    ListEnd,
}

impl StateView {
    /// The scalar that this state carries, if it carries one.  The name in a
    /// tag header counts as text.
    pub open spec fn scalar(self) -> Option<Scalar> {
        match self {
            StateView::TagHeader { name, .. } => Some(Scalar::Text(name)),
            StateView::TagValue { value } => Some(value),
            StateView::ArrayValue { value, .. } => Some(value),
            StateView::ListValue { value, .. } => Some(value),
            _ => None,
        }
    }

    /// The kind of event that this state stands for.
    pub open spec fn value_type(self) -> ValueType {
        match self {
            StateView::Invalid => ValueType::Invalid,
            StateView::ExpectingTag => ValueType::Invalid,
            StateView::TagHeader { .. } => ValueType::String,
            StateView::TagEnd => ValueType::MapEnd,
            StateView::TagValue { value } => value.value_type(),
            StateView::Compound => ValueType::MapBegin,
            StateView::Array { .. } => ValueType::SeqBegin,
            StateView::ArrayValue { value, .. } => value.value_type(),
            StateView::ArrayEnd { .. } => ValueType::SeqEnd,
            StateView::List { .. } => ValueType::SeqBegin,
            StateView::ListValue { value, .. } => value.value_type(),
            StateView::ListFrame { .. } => ValueType::Invalid,
            StateView::ListEnd => ValueType::SeqEnd,
        }
    }

    /// The state closes a container: the next step resumes the enclosure.
    pub open spec fn is_end(self) -> bool {
        self is TagEnd || self is ArrayEnd || self is ListEnd
    }
}

/// The parser as a value: its state, the frames to return to (innermost
/// last), the input that it has not read yet, and the number of frames that
/// it will hold at most, if there is such a limit.
pub struct ParserView {
    pub state: StateView,
    pub stack: Seq<StateView>,
    pub rest: Seq<u8>,
    pub max_depth: Option<nat>,
}

impl ParserView {
    /// The parser before it has read anything of `input`.
    pub open spec fn initial(input: Seq<u8>) -> ParserView {
        ParserView {
            state: StateView::ExpectingTag,
            stack: Seq::empty(),
            rest: input,
            max_depth: None,
        }
    }

    /// The parser after a failure: it holds nothing and stays failed.
    pub open spec fn failed() -> ParserView {
        ParserView {
            state: StateView::Invalid,
            stack: Seq::empty(),
            rest: Seq::empty(),
            max_depth: None,
        }
    }

    /// The same parser, to hold no more than `max_depth` frames.
    pub open spec fn with_max_depth(self, max_depth: nat) -> ParserView {
        ParserView { max_depth: Some(max_depth), ..self }
    }

    /// The parser holds as many frames as it may: no container can be
    /// entered.
    pub open spec fn is_full(self) -> bool {
        self.max_depth matches Some(limit) && self.stack.len() >= limit
    }

    /// The same parser in state `state`.
    pub open spec fn with_state(self, state: StateView) -> ParserView {
        ParserView { state, ..self }
    }

    /// The same parser with `n` more bytes read.
    pub open spec fn skip(self, n: nat) -> ParserView {
        ParserView { rest: self.rest.skip(n as int), ..self }
    }

    /// The same parser with `more` input behind what it has.
    pub open spec fn append(self, more: Seq<u8>) -> ParserView {
        ParserView { rest: self.rest + more, ..self }
    }

    /// The same parser with `frame` added to the frames to return to.
    pub open spec fn push(self, frame: StateView) -> ParserView {
        ParserView { stack: self.stack.push(frame), ..self }
    }
}

/// `kind` identifies a scalar: a number or a string.
pub open spec fn is_scalar_kind(kind: u8) -> bool {
    TAG_I8 <= kind <= TAG_F64 || kind == TAG_STRING
}

/// `kind` identifies one of the three typed arrays.
pub open spec fn is_array_kind(kind: u8) -> bool {
    kind == TAG_I8_ARRAY || kind == TAG_I32_ARRAY || kind == TAG_I64_ARRAY
}

/// `kind` identifies a value with events between a begin and an end.
pub open spec fn is_container_kind(kind: u8) -> bool {
    is_array_kind(kind) || kind == TAG_LIST || kind == TAG_COMPOUND
}

/// The kind of the elements of an array of kind `kind`.
pub open spec fn array_elem_kind(kind: u8) -> u8 {
    if kind == TAG_I8_ARRAY {
        TAG_I8
    } else if kind == TAG_I32_ARRAY {
        TAG_I32
    } else {
        TAG_I64
    }
}

/// The number of bytes in the payload of a number of kind `kind`.
pub open spec fn fixed_width(kind: u8) -> nat {
    if kind == TAG_I8 {
        1
    } else if kind == TAG_I16 {
        2
    } else if kind == TAG_I32 || kind == TAG_F32 {
        4
    } else {
        8
    }
}

/// The number of kind `kind` that `bytes` spell.
pub open spec fn fixed_scalar(kind: u8, bytes: Seq<u8>) -> Scalar {
    let value = be_value(bytes);
    if kind == TAG_I8 {
        Scalar::I8(signed(value, 0x100) as i8)
    } else if kind == TAG_I16 {
        Scalar::I16(signed(value, 0x1_0000) as i16)
    } else if kind == TAG_I32 {
        Scalar::I32(signed(value, 0x1_0000_0000) as i32)
    } else if kind == TAG_I64 {
        Scalar::I64(signed(value, 0x1_0000_0000_0000_0000) as i64)
    } else if kind == TAG_F32 {
        Scalar::F32(value as u32)
    } else {
        Scalar::F64(value as u64)
    }
}

/// Reads a string at the head of `rest`: a 16-bit length, then that many
/// bytes of UTF-8.  Gives the text and the number of bytes read.
#[verifier::opaque]
pub open spec fn read_text(rest: Seq<u8>) -> Result<(Seq<char>, nat), Error> {
    if rest.len() < 2 {
        Err(Error::InvalidParserStateError)
    } else {
        let len = be_value(rest.take(2));
        if rest.len() < 2 + len {
            Err(Error::InvalidParserStateError)
        } else if !valid_utf8(rest.subrange(2, 2 + len as int)) {
            Err(Error::FromUtf8Error)
        } else {
            Ok((decode_utf8(rest.subrange(2, 2 + len as int)), 2 + len))
        }
    }
}

/// Reads a scalar of kind `kind` at the head of `rest`.  Gives the scalar and
/// the number of bytes read.
#[verifier::opaque]
pub open spec fn read_scalar(kind: u8, rest: Seq<u8>) -> Result<(Scalar, nat), Error>
    recommends
        is_scalar_kind(kind),
{
    if kind == TAG_STRING {
        match read_text(rest) {
            Ok((text, n)) => Ok((Scalar::Text(text), n)),
            Err(e) => Err(e),
        }
    } else if rest.len() < fixed_width(kind) {
        Err(Error::InvalidParserStateError)
    } else {
        Ok((fixed_scalar(kind, rest.take(fixed_width(kind) as int)), fixed_width(kind)))
    }
}

/// Reads the length of a list or an array at the head of `rest`: a signed
/// 32-bit number that must lie between 0 and `LIST_MAX_LEN`.
#[verifier::opaque]
pub open spec fn read_len(rest: Seq<u8>) -> Result<nat, Error> {
    if rest.len() < 4 {
        Err(Error::InvalidParserStateError)
    } else {
        let len = signed(be_value(rest.take(4)), 0x1_0000_0000);
        if len < 0 || len > LIST_MAX_LEN {
            Err(Error::InvalidParserStateError)
        } else {
            Ok(len as nat)
        }
    }
}

/// Reads the header of the next tag: the closing `TAG_END`, or an identifier
/// and a name.  Where the input has ended, a document may end only at the top
/// level.
pub open spec fn tag_header(p: ParserView) -> Result<ParserView, Error> {
    if p.rest.len() == 0 {
        if p.stack.len() == 0 {
            Err(Error::Eof)
        } else {
            Err(Error::InvalidParserStateError)
        }
    } else if p.rest[0] == TAG_END {
        Ok(p.with_state(StateView::TagEnd).skip(1))
    } else {
        match read_text(p.rest.skip(1)) {
            Ok((name, n)) => Ok(
                p.with_state(StateView::TagHeader { value_type: p.rest[0], name }).skip(1 + n),
            ),
            Err(e) => Err(e),
        }
    }
}

/// Reads the header of a list: the identifier of its elements and its
/// length.
pub open spec fn list_header(p: ParserView) -> Result<ParserView, Error> {
    if p.rest.len() == 0 {
        Err(Error::InvalidParserStateError)
    } else {
        match read_len(p.rest.skip(1)) {
            Ok(len) => Ok(p.with_state(StateView::List { len, elem_type: p.rest[0] }).skip(5)),
            Err(e) => Err(e),
        }
    }
}

/// Reads the header of an array of kind `kind`: its length.
pub open spec fn array_header(p: ParserView, kind: u8) -> Result<ParserView, Error> {
    match read_len(p.rest) {
        Ok(len) => Ok(p.with_state(StateView::Array { kind, len }).skip(4)),
        Err(e) => Err(e),
    }
}

/// Enters a container of kind `kind`, to return to `frame` when it closes.
/// A parser that holds as many frames as it may refuses.
pub open spec fn enter(p: ParserView, kind: u8, frame: StateView) -> Result<ParserView, Error>
    recommends
        is_container_kind(kind),
{
    if p.is_full() {
        Err(Error::InvalidParserStateError)
    } else if kind == TAG_COMPOUND {
        Ok(p.push(frame).with_state(StateView::Compound))
    } else if kind == TAG_LIST {
        list_header(p.push(frame))
    } else {
        array_header(p.push(frame), kind)
    }
}

/// Reads the value of a tag of kind `kind`.
pub open spec fn tag_value(p: ParserView, kind: u8) -> Result<ParserView, Error> {
    if is_scalar_kind(kind) {
        match read_scalar(kind, p.rest) {
            Ok((value, n)) => Ok(p.with_state(StateView::TagValue { value }).skip(n)),
            Err(e) => Err(e),
        }
    } else if is_container_kind(kind) {
        enter(p, kind, StateView::ExpectingTag)
    } else if kind == TAG_END {
        Err(Error::InvalidParserStateError)
    } else {
        Err(Error::InvalidTagTypeError)
    }
}

/// Reads the next element of an array of kind `kind`, or closes the array
/// when none remains.
pub open spec fn array_element(p: ParserView, kind: u8, remaining: nat) -> Result<
    ParserView,
    Error,
> {
    if remaining == 0 {
        Ok(p.with_state(StateView::ArrayEnd { kind }))
    } else if !is_array_kind(kind) {
        Err(Error::InvalidParserStateError)
    } else {
        match read_scalar(array_elem_kind(kind), p.rest) {
            Ok((value, n)) => Ok(
                p.with_state(
                    StateView::ArrayValue { kind, remaining: (remaining - 1) as nat, value },
                ).skip(n),
            ),
            Err(e) => Err(e),
        }
    }
}

/// Reads the next element of a list of elements of kind `kind`, or closes the
/// list when none remains.  An empty list may declare any kind.
pub open spec fn list_element(p: ParserView, kind: u8, remaining: nat) -> Result<
    ParserView,
    Error,
> {
    if remaining == 0 {
        Ok(p.with_state(StateView::ListEnd))
    } else if is_scalar_kind(kind) {
        match read_scalar(kind, p.rest) {
            Ok((value, n)) => Ok(
                p.with_state(StateView::ListValue { remaining: (remaining - 1) as nat, value }).skip(
                    n,
                ),
            ),
            Err(e) => Err(e),
        }
    } else if is_container_kind(kind) {
        enter(p, kind, StateView::ListFrame { kind, remaining: (remaining - 1) as nat })
    } else {
        Err(Error::InvalidParserStateError)
    }
}

/// Continues from `frame`, which has just been taken off the stack.
pub open spec fn resume(p: ParserView, frame: StateView) -> Result<ParserView, Error> {
    match frame {
        StateView::ExpectingTag => tag_header(p),
        StateView::ListFrame { kind, remaining } => list_element(p, kind, remaining),
        _ => Err(Error::InvalidParserStateError),
    }
}

/// Closes a container: takes the innermost frame off the stack and continues
/// from it.
pub open spec fn leave(p: ParserView) -> Result<ParserView, Error> {
    if p.stack.len() == 0 {
        Err(Error::InvalidParserStateError)
    } else {
        resume(ParserView { stack: p.stack.drop_last(), ..p }, p.stack.last())
    }
}

/// What one advance of the parser does when it succeeds, and the error with
/// which it fails otherwise.
pub open spec fn transition(p: ParserView) -> Result<ParserView, Error> {
    match p.state {
        StateView::Invalid => Err(Error::InvalidParserStateError),
        StateView::ExpectingTag => tag_header(p),
        StateView::TagHeader { value_type, .. } => tag_value(p, value_type),
        StateView::TagEnd => leave(p),
        StateView::TagValue { .. } => tag_header(p),
        StateView::Compound => tag_header(p),
        StateView::Array { kind, len } => array_element(p, kind, len),
        StateView::ArrayValue { kind, remaining, .. } => array_element(p, kind, remaining),
        StateView::ArrayEnd { .. } => leave(p),
        StateView::List { len, elem_type } => list_element(p, elem_type, len),
        StateView::ListValue { remaining, value } => list_element(p, value.tag(), remaining),
        StateView::ListFrame { kind, remaining } => list_element(p, kind, remaining),
        StateView::ListEnd => leave(p),
    }
}

/// One advance of the parser: the parser afterwards and what the call
/// returns.  A failure leaves the parser failed.
#[verifier::opaque]
pub open spec fn step(p: ParserView) -> (ParserView, Result<(), Error>) {
    match transition(p) {
        Ok(q) => (q, Ok(())),
        Err(e) => (ParserView::failed(), Err(e)),
    }
}

/// The number of bytes that reading a string at the head of `rest` asks
/// for: the length field, and what it announces once it can be read.
pub open spec fn text_wanted(rest: Seq<u8>) -> nat {
    if rest.len() < 2 {
        2
    } else {
        2 + be_value(rest.take(2))
    }
}

/// The number of bytes that reading a tag header at the head of `rest` asks
/// for: the identifier, and the name behind it unless the identifier closes
/// a compound.
pub open spec fn tag_header_wanted(rest: Seq<u8>) -> nat {
    if rest.len() == 0 || rest[0] == TAG_END {
        1
    } else {
        1 + text_wanted(rest.skip(1))
    }
}

/// The number of bytes that reading a value of kind `kind` at the head of
/// `rest` asks for: a scalar whole, of a container its header.
pub open spec fn value_wanted(kind: u8, rest: Seq<u8>) -> nat {
    if kind == TAG_STRING {
        text_wanted(rest)
    } else if is_scalar_kind(kind) {
        fixed_width(kind)
    } else if kind == TAG_LIST {
        5
    } else if is_array_kind(kind) {
        4
    } else {
        0
    }
}

/// The number of bytes that reading in an array of kind `kind` asks for.
pub open spec fn array_wanted(kind: u8, remaining: nat) -> nat {
    if remaining == 0 || !is_array_kind(kind) {
        0
    } else {
        fixed_width(array_elem_kind(kind))
    }
}

/// The number of bytes that reading in a list of elements of kind `kind`
/// asks for.
pub open spec fn element_wanted(kind: u8, remaining: nat, rest: Seq<u8>) -> nat {
    if remaining == 0 {
        0
    } else {
        value_wanted(kind, rest)
    }
}

/// The number of bytes that continuing from `frame` asks for.
pub open spec fn resume_wanted(frame: StateView, rest: Seq<u8>) -> nat {
    match frame {
        StateView::ExpectingTag => tag_header_wanted(rest),
        StateView::ListFrame { kind, remaining } => element_wanted(kind, remaining, rest),
        _ => 0,
    }
}

/// The number of bytes that the next advance asks for, as far as the input
/// that is there tells: the length of a string is known only when its length
/// field is there.
pub open spec fn wanted(p: ParserView) -> nat {
    match p.state {
        StateView::Invalid => 0,
        StateView::ExpectingTag => tag_header_wanted(p.rest),
        StateView::TagHeader { value_type, .. } => value_wanted(value_type, p.rest),
        StateView::TagEnd => leave_wanted(p),
        StateView::TagValue { .. } => tag_header_wanted(p.rest),
        StateView::Compound => tag_header_wanted(p.rest),
        StateView::Array { kind, len } => array_wanted(kind, len),
        StateView::ArrayValue { kind, remaining, .. } => array_wanted(kind, remaining),
        StateView::ArrayEnd { .. } => leave_wanted(p),
        StateView::List { len, elem_type } => element_wanted(elem_type, len, p.rest),
        StateView::ListValue { remaining, value } => element_wanted(value.tag(), remaining, p.rest),
        StateView::ListFrame { kind, remaining } => element_wanted(kind, remaining, p.rest),
        StateView::ListEnd => leave_wanted(p),
    }
}

/// The number of bytes that closing a container asks for: what the frame to
/// return to asks for.
pub open spec fn leave_wanted(p: ParserView) -> nat {
    if p.stack.len() == 0 {
        0
    } else {
        resume_wanted(p.stack.last(), p.rest)
    }
}

/// The number of bytes that are missing for the next advance.  While it is
/// not zero the advance would fail for want of input.
pub open spec fn shortfall(p: ParserView) -> nat {
    if wanted(p) > p.rest.len() {
        (wanted(p) - p.rest.len()) as nat
    } else {
        0
    }
}

/// An advance does what the transition says, and a failure leaves the parser
/// failed.
pub proof fn lemma_step(p: ParserView)
    ensures
        transition(p) matches Ok(q) ==> step(p) == (q, Ok::<(), Error>(())),
        transition(p) matches Err(e) ==> step(p) == (ParserView::failed(), Err::<(), Error>(e)),
{
    reveal(step);
}

/// A read that was to give `expected` returned `got` and left the parser as
/// `after`.  Nothing is said of a parser whose read failed.
pub open spec fn delivers(
    expected: Result<(Scalar, nat), Error>,
    got: Result<Scalar, Error>,
    before: ParserView,
    after: ParserView,
) -> bool {
    match expected {
        Ok((value, n)) => got == Ok::<Scalar, Error>(value) && after == before.skip(n),
        Err(e) => got == Err::<Scalar, Error>(e),
    }
}

/// A call that was to do what `expected` says returned `r` and left the
/// parser as `after`.  Nothing is said of a parser whose call failed.
pub open spec fn follows(
    expected: Result<ParserView, Error>,
    r: Result<(), Error>,
    after: ParserView,
) -> bool {
    match expected {
        Ok(q) => r is Ok && after == q,
        Err(e) => r == Err::<(), Error>(e),
    }
}

} // verus!
