//! Documents as trees, the bytes that encode them, and the events that
//! reading them gives.

use crate::nbt::model::{array_elem_kind, is_array_kind, Scalar, StateView};
use crate::nbt::parser::ValueType;
use crate::nbt::wire::{be_bytes, unsigned};
use crate::nbt::{LIST_MAX_LEN, TAG_COMPOUND, TAG_END, TAG_LIST};
use vstd::prelude::*;
use vstd::utf8::*;

verus! {

/// The value of a tag or of an element of a list.
#[allow(inconsistent_fields)]
pub enum Value {
    /// A number or a string.
    Scalar(Scalar),
    /// An array of kind `kind`.
    Array { kind: u8, items: Seq<Scalar> },
    /// A list that declares elements of kind `elem_type`.
    List { elem_type: u8, items: Seq<Value> },
    /// Named values, in the order in which they are written.
    Compound { members: Seq<Member> },
}

/// A member of a compound: a tag.
pub struct Member {
    pub name: Seq<char>,
    pub value: Value,
}

/// What the parser tells of one state: the unit of its output.
pub enum Event {
    /// The parser stands on nothing.
    Nothing,
    /// A scalar, or the name of a tag.
    Scalar(Scalar),
    SeqBegin,
    SeqEnd,
    MapBegin,
    MapEnd,
}

/// The event that `state` stands for.
pub open spec fn event_of(state: StateView) -> Event {
    match state.scalar() {
        Some(scalar) => Event::Scalar(scalar),
        None => match state.value_type() {
            ValueType::SeqBegin => Event::SeqBegin,
            ValueType::SeqEnd => Event::SeqEnd,
            ValueType::MapBegin => Event::MapBegin,
            ValueType::MapEnd => Event::MapEnd,
            _ => Event::Nothing,
        },
    }
}

/// The text fits a string of the format: its UTF-8 encoding has a length of
/// 16 bits.
pub open spec fn valid_text(text: Seq<char>) -> bool {
    encode_utf8(text).len() <= 0xffff
}

/// The scalar can be written: if it is text, the text fits.
pub open spec fn valid_scalar(scalar: Scalar) -> bool {
    scalar matches Scalar::Text(text) ==> valid_text(text)
}

/// Every one of `items` is a valid scalar of kind `kind`.
pub open spec fn valid_scalars(items: Seq<Scalar>, kind: u8) -> bool {
    forall|i: int| 0 <= i < items.len() ==> (#[trigger] items[i]).tag() == kind
}

/// Every one of `items` is a valid value of kind `kind`.
pub open spec fn valid_items(items: Seq<Value>, kind: u8) -> bool
    decreases items,
{
    items.len() == 0 || (items[0].tag() == kind && items[0].valid() && valid_items(
        items.drop_first(),
        kind,
    ))
}

/// Every one of `members` has a name that fits and a valid value.
pub open spec fn valid_members(members: Seq<Member>) -> bool
    decreases members,
{
    members.len() == 0 || (valid_text(members[0].name) && members[0].value.valid()
        && valid_members(members.drop_first()))
}

/// The bytes of a string: a big-endian 16-bit length and the UTF-8 encoding
/// of the text.
pub open spec fn encode_text(text: Seq<char>) -> Seq<u8> {
    be_bytes(encode_utf8(text).len(), 2) + encode_utf8(text)
}

/// The payload of a scalar.
pub open spec fn encode_scalar(scalar: Scalar) -> Seq<u8> {
    match scalar {
        Scalar::I8(value) => be_bytes(unsigned(value as int, 0x100), 1),
        Scalar::I16(value) => be_bytes(unsigned(value as int, 0x1_0000), 2),
        Scalar::I32(value) => be_bytes(unsigned(value as int, 0x1_0000_0000), 4),
        Scalar::I64(value) => be_bytes(unsigned(value as int, 0x1_0000_0000_0000_0000), 8),
        Scalar::F32(bits) => be_bytes(bits as nat, 4),
        Scalar::F64(bits) => be_bytes(bits as nat, 8),
        Scalar::Text(text) => encode_text(text),
    }
}

/// The payloads of `items`, one after the other.
pub open spec fn encode_scalars(items: Seq<Scalar>) -> Seq<u8>
    decreases items.len(),
{
    if items.len() == 0 {
        Seq::empty()
    } else {
        encode_scalar(items[0]) + encode_scalars(items.drop_first())
    }
}

/// The payloads of `items`, one after the other.
pub open spec fn encode_items(items: Seq<Value>) -> Seq<u8>
    decreases items,
{
    if items.len() == 0 {
        Seq::empty()
    } else {
        items[0].encode() + encode_items(items.drop_first())
    }
}

/// The bytes of the tags `members`, one after the other.
pub open spec fn encode_members(members: Seq<Member>) -> Seq<u8>
    decreases members,
{
    if members.len() == 0 {
        Seq::empty()
    } else {
        members[0].encode() + encode_members(members.drop_first())
    }
}

/// The events of `items`, one after the other.
pub open spec fn events_of_scalars(items: Seq<Scalar>) -> Seq<Event>
    decreases items.len(),
{
    if items.len() == 0 {
        Seq::empty()
    } else {
        seq![Event::Scalar(items[0])] + events_of_scalars(items.drop_first())
    }
}

/// The events of `items`, one after the other.
pub open spec fn events_of_items(items: Seq<Value>) -> Seq<Event>
    decreases items,
{
    if items.len() == 0 {
        Seq::empty()
    } else {
        items[0].events() + events_of_items(items.drop_first())
    }
}

/// The events of the tags `members`, one after the other.
pub open spec fn events_of_members(members: Seq<Member>) -> Seq<Event>
    decreases members,
{
    if members.len() == 0 {
        Seq::empty()
    } else {
        members[0].events() + events_of_members(members.drop_first())
    }
}

/// The deepest nesting among `items`.
pub open spec fn depth_of_items(items: Seq<Value>) -> nat
    decreases items,
{
    if items.len() == 0 {
        0
    } else {
        let first = items[0].depth();
        let others = depth_of_items(items.drop_first());
        if first >= others {
            first
        } else {
            others
        }
    }
}

/// The deepest nesting among the values of `members`.
pub open spec fn depth_of_members(members: Seq<Member>) -> nat
    decreases members,
{
    if members.len() == 0 {
        0
    } else {
        let first = members[0].depth();
        let others = depth_of_members(members.drop_first());
        if first >= others {
            first
        } else {
            others
        }
    }
}

impl Value {
    /// The identifier under which the format carries this value.
    pub open spec fn tag(self) -> u8 {
        match self {
            Value::Scalar(scalar) => scalar.tag(),
            Value::Array { kind, .. } => kind,
            Value::List { .. } => TAG_LIST,
            Value::Compound { .. } => TAG_COMPOUND,
        }
    }

    /// The value can be written: text and lengths fit their length fields,
    /// arrays hold what their kind says, and the elements of a list are all
    /// of the kind that the list declares.  An empty list may declare any
    /// kind.
    pub open spec fn valid(self) -> bool
        decreases self,
    {
        match self {
            Value::Scalar(scalar) => valid_scalar(scalar),
            Value::Array { kind, items } => is_array_kind(kind) && items.len() <= LIST_MAX_LEN
                && valid_scalars(items, array_elem_kind(kind)),
            Value::List { elem_type, items } => items.len() <= LIST_MAX_LEN && valid_items(
                items,
                elem_type,
            ),
            Value::Compound { members } => valid_members(members),
        }
    }

    /// The number of containers that are open at once while the value is
    /// read: none for a scalar, one for a container and what nests deepest
    /// in it.
    pub open spec fn depth(self) -> nat
        decreases self,
    {
        match self {
            Value::Scalar(_) => 0,
            Value::Array { .. } => 1,
            Value::List { items, .. } => 1 + depth_of_items(items),
            Value::Compound { members } => 1 + depth_of_members(members),
        }
    }

    /// The payload of the value as a conformant encoder writes it: numbers
    /// big-endian, text as UTF-8.
    pub open spec fn encode(self) -> Seq<u8>
        decreases self,
    {
        match self {
            Value::Scalar(scalar) => encode_scalar(scalar),
            Value::Array { kind, items } => be_bytes(items.len(), 4) + encode_scalars(items),
            Value::List { elem_type, items } => seq![elem_type] + be_bytes(items.len(), 4)
                + encode_items(items),
            Value::Compound { members } => encode_members(members) + seq![TAG_END],
        }
    }

    /// The events that reading the value gives: a scalar is one event, a
    /// container is a begin, what it holds, and an end.
    pub open spec fn events(self) -> Seq<Event>
        decreases self,
    {
        match self {
            Value::Scalar(scalar) => seq![Event::Scalar(scalar)],
            Value::Array { kind, items } => seq![Event::SeqBegin] + events_of_scalars(items)
                + seq![Event::SeqEnd],
            Value::List { elem_type, items } => seq![Event::SeqBegin] + events_of_items(items)
                + seq![Event::SeqEnd],
            Value::Compound { members } => seq![Event::MapBegin] + events_of_members(members)
                + seq![Event::MapEnd],
        }
    }
}

impl Member {
    /// The number of containers that are open at once while the value of the
    /// tag is read.
    pub open spec fn depth(self) -> nat
        decreases self,
    {
        self.value.depth()
    }

    /// The tag can be written.
    pub open spec fn valid(self) -> bool {
        valid_text(self.name) && self.value.valid()
    }

    /// The bytes of the tag: the identifier of its value, its name, and the
    /// payload.
    pub open spec fn encode(self) -> Seq<u8>
        decreases self,
    {
        seq![self.value.tag()] + encode_text(self.name) + self.value.encode()
    }

    /// The events that reading the tag gives: its name, then its value.
    pub open spec fn events(self) -> Seq<Event>
        decreases self,
    {
        seq![Event::Scalar(Scalar::Text(self.name))] + self.value.events()
    }
}

} // verus!
