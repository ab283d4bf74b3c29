//! Reading what a conformant encoder wrote gives the document back, event by
//! event.

use crate::error::Error;
use crate::nbt::document::{
    depth_of_items, depth_of_members, encode_items, encode_members, encode_scalar, encode_scalars,
    encode_text, event_of, events_of_items, events_of_members, events_of_scalars, valid_items,
    valid_members, valid_scalar, valid_scalars, valid_text, Event, Member, Value,
};
use crate::nbt::laws::run;
use crate::nbt::model::{
    array_elem_kind, array_element, enter, is_array_kind, is_container_kind, is_scalar_kind,
    lemma_step, list_element, read_len, read_scalar, read_text, resume, step, tag_header, tag_value,
    transition, ParserView, Scalar, StateView,
};
use crate::nbt::wire::{
    be_bytes, lemma_be_round_trip, lemma_capacity, lemma_signed_round_trip, unsigned,
};
use crate::nbt::{LIST_MAX_LEN, TAG_COMPOUND, TAG_END, TAG_LIST};
use vstd::prelude::*;
use vstd::utf8::*;

verus! {

/// A string that was written is read back, whatever follows it.
pub proof fn lemma_read_text_round_trip(text: Seq<char>, tail: Seq<u8>)
    requires
        valid_text(text),
    ensures
        read_text(encode_text(text) + tail) == Ok::<(Seq<char>, nat), Error>(
            (text, encode_text(text).len()),
        ),
        encode_text(text).len() == 2 + encode_utf8(text).len(),
{
    reveal(read_text);
    let body = encode_utf8(text);
    let rest = encode_text(text) + tail;
    lemma_capacity();
    lemma_be_round_trip(body.len(), 2);
    assert(rest.take(2) =~= be_bytes(body.len(), 2));
    assert(rest.subrange(2, 2 + body.len() as int) =~= body);
    encode_utf8_valid_utf8(text);
    encode_utf8_decode_utf8(text);
}

/// A scalar that was written is read back, whatever follows it.
pub proof fn lemma_read_scalar_round_trip(scalar: Scalar, tail: Seq<u8>)
    requires
        valid_scalar(scalar),
    ensures
        read_scalar(scalar.tag(), encode_scalar(scalar) + tail) == Ok::<(Scalar, nat), Error>(
            (scalar, encode_scalar(scalar).len()),
        ),
{
    reveal(read_scalar);
    lemma_capacity();
    let bytes = encode_scalar(scalar);
    let rest = bytes + tail;
    match scalar {
        Scalar::I8(value) => {
            lemma_signed_round_trip(value as int, 0x100);
            lemma_be_round_trip(unsigned(value as int, 0x100), 1);
            assert(rest.take(1) =~= bytes);
        },
        Scalar::I16(value) => {
            lemma_signed_round_trip(value as int, 0x1_0000);
            lemma_be_round_trip(unsigned(value as int, 0x1_0000), 2);
            assert(rest.take(2) =~= bytes);
        },
        Scalar::I32(value) => {
            lemma_signed_round_trip(value as int, 0x1_0000_0000);
            lemma_be_round_trip(unsigned(value as int, 0x1_0000_0000), 4);
            assert(rest.take(4) =~= bytes);
        },
        Scalar::I64(value) => {
            lemma_signed_round_trip(value as int, 0x1_0000_0000_0000_0000);
            lemma_be_round_trip(unsigned(value as int, 0x1_0000_0000_0000_0000), 8);
            assert(rest.take(8) =~= bytes);
        },
        Scalar::F32(bits) => {
            lemma_be_round_trip(bits as nat, 4);
            assert(rest.take(4) =~= bytes);
        },
        Scalar::F64(bits) => {
            lemma_be_round_trip(bits as nat, 8);
            assert(rest.take(8) =~= bytes);
        },
        Scalar::Text(text) => {
            lemma_read_text_round_trip(text, tail);
        },
    }
}

/// A length that was written is read back, whatever follows it.
pub proof fn lemma_read_len_round_trip(len: nat, tail: Seq<u8>)
    requires
        len <= LIST_MAX_LEN,
    ensures
        read_len(be_bytes(len, 4) + tail) == Ok::<nat, Error>(len),
        be_bytes(len, 4).len() == 4,
{
    reveal(read_len);
    lemma_capacity();
    lemma_be_round_trip(len, 4);
    assert((be_bytes(len, 4) + tail).take(4) =~= be_bytes(len, 4));
}

/// Advancing `i` times and then `j` times is advancing `i + j` times.
pub proof fn lemma_run_add(p: ParserView, i: nat, j: nat)
    ensures
        run(p, i + j) == run(run(p, i), j),
    decreases j,
{
    if j > 0 {
        lemma_run_add(p, i, (j - 1) as nat);
    }
}

/// Standing on `first`, the parser gives `events`: `first` stands for the
/// first of them, and each advance leads to the next.
pub open spec fn gives(first: ParserView, events: Seq<Event>) -> bool {
    &&& events.len() > 0
    &&& forall|i: nat| i < events.len() ==> event_of(#[trigger] run(first, i).state) == events[i as int]
}

/// The parser where it stands on the last of the `events` that it gives from
/// `first` on.
pub open spec fn last_of(first: ParserView, events: Seq<Event>) -> ParserView {
    run(first, (events.len() - 1) as nat)
}

/// A parser gives the event that it stands on.
proof fn lemma_gives_one(first: ParserView)
    ensures
        gives(first, seq![event_of(first.state)]),
        last_of(first, seq![event_of(first.state)]) == first,
{
}

/// Events that follow each other are given one run after the other.
proof fn lemma_gives_both(
    first: ParserView,
    events: Seq<Event>,
    second: ParserView,
    more: Seq<Event>,
)
    requires
        gives(first, events),
        step(last_of(first, events)).0 == second,
        gives(second, more),
    ensures
        gives(first, events + more),
        last_of(first, events + more) == last_of(second, more),
{
    let n = events.len();
    assert(run(first, n) == second);
    assert forall|i: nat| i < (events + more).len() implies event_of(
        #[trigger] run(first, i).state,
    ) == (events + more)[i as int] by {
        if i >= n {
            lemma_run_add(first, n, (i - n) as nat);
            assert(run(first, i) == run(second, (i - n) as nat));
        }
    }
    lemma_run_add(first, n, (more.len() - 1) as nat);
}

/// The event that a parser stands on comes before those that the next
/// advance leads to.
proof fn lemma_gives_first(first: ParserView, second: ParserView, more: Seq<Event>)
    requires
        step(first).0 == second,
        gives(second, more),
    ensures
        gives(first, seq![event_of(first.state)] + more),
        last_of(first, seq![event_of(first.state)] + more) == last_of(second, more),
{
    lemma_gives_one(first);
    lemma_gives_both(first, seq![event_of(first.state)], second, more);
}

/// A parser with the frames `stack` in front of the input `rest`, to hold
/// no more than `limit` frames if there is a limit.  The state does not
/// matter where the next thing is read from the input.
pub open spec fn cursor(stack: Seq<StateView>, rest: Seq<u8>, limit: Option<nat>) -> ParserView {
    ParserView { state: StateView::ExpectingTag, stack, rest, max_depth: limit }
}

/// A parser that may hold `limit` frames can hold `depth` of them.
pub open spec fn fits(limit: Option<nat>, depth: nat) -> bool {
    limit matches Some(most) ==> depth <= most
}

/// Where a value stands: behind the name of a tag, or in a list that has
/// `remaining` elements to give, this one included.
pub enum Place {
    Tag,
    Element { remaining: nat },
}

impl Place {
    /// The place exists: an element stands in a list that has one to give.
    pub open spec fn valid(self) -> bool {
        self matches Place::Element { remaining } ==> remaining > 0
    }

    /// Reading a value of kind `kind` at this place.
    pub open spec fn begin(self, c: ParserView, kind: u8) -> Result<ParserView, Error> {
        match self {
            Place::Tag => tag_value(c, kind),
            Place::Element { remaining } => list_element(c, kind, remaining),
        }
    }

    /// Reading what follows a value of kind `kind` at this place: the next
    /// tag, or the next element.
    pub open spec fn carry_on(self, c: ParserView, kind: u8) -> Result<ParserView, Error> {
        match self {
            Place::Tag => tag_header(c),
            Place::Element { remaining } => list_element(c, kind, (remaining - 1) as nat),
        }
    }

    /// The frame that a container of kind `kind` at this place returns to.
    pub open spec fn frame(self, kind: u8) -> StateView {
        match self {
            Place::Tag => StateView::ExpectingTag,
            Place::Element { remaining } => StateView::ListFrame {
                kind,
                remaining: (remaining - 1) as nat,
            },
        }
    }
}

/// What is read next depends on the frames and on the input, not on the
/// state that the parser was in.
proof fn lemma_state_is_forgotten(p: ParserView, q: ParserView, kind: u8, remaining: nat)
    requires
        p.stack == q.stack,
        p.rest == q.rest,
        p.max_depth == q.max_depth,
    ensures
        tag_header(p) == tag_header(q),
        tag_value(p, kind) == tag_value(q, kind),
        array_element(p, kind, remaining) == array_element(q, kind, remaining),
        list_element(p, kind, remaining) == list_element(q, kind, remaining),
{
    assert(forall|state: StateView| p.with_state(state) == q.with_state(state));
    assert(forall|frame: StateView| enter(p, kind, frame) == enter(q, kind, frame)) by {
        assert(forall|frame: StateView| p.push(frame).with_state(StateView::Compound) == q.push(
            frame,
        ).with_state(StateView::Compound));
    }
}

/// A valid value has the identifier of a value, not that of the end of a
/// compound.
proof fn lemma_valid_tag(value: Value)
    requires
        value.valid(),
    ensures
        is_scalar_kind(value.tag()) != is_container_kind(value.tag()),
        value is Scalar <==> is_scalar_kind(value.tag()),
        value.tag() != TAG_END,
{
}

/// At its place, a container is entered with the frame of that place.
proof fn lemma_begin_container(place: Place, c: ParserView, kind: u8)
    requires
        place.valid(),
        is_container_kind(kind),
    ensures
        place.begin(c, kind) == enter(c, kind, place.frame(kind)),
{
}

/// From the end of a container the parser carries on at the place of the
/// container.
proof fn lemma_leave_container(
    place: Place,
    kind: u8,
    stack: Seq<StateView>,
    tail: Seq<u8>,
    end: ParserView,
)
    requires
        place.valid(),
        end.state.is_end(),
        end.stack == stack.push(place.frame(kind)),
        end.rest == tail,
    ensures
        transition(end) == place.carry_on(cursor(stack, tail, end.max_depth), kind),
{
    let popped = ParserView { stack: end.stack.drop_last(), ..end };
    let c = cursor(stack, tail, end.max_depth);
    assert(popped.stack =~= stack);
    assert(transition(end) == resume(popped, place.frame(kind)));
    lemma_state_is_forgotten(popped, c, kind, 0);
    if let Place::Element { remaining } = place {
        lemma_state_is_forgotten(popped, c, kind, (remaining - 1) as nat);
    }
}

/// A scalar at its place is one event, and the parser carries on behind it.
proof fn lemma_scalar(
    place: Place,
    stack: Seq<StateView>,
    limit: Option<nat>,
    scalar: Scalar,
    tail: Seq<u8>,
)
    requires
        place.valid(),
        valid_scalar(scalar),
    ensures
        ({
            let first = place.begin(
                cursor(stack, encode_scalar(scalar) + tail, limit),
                scalar.tag(),
            );
            &&& first is Ok
            &&& first->Ok_0.stack == stack
            &&& first->Ok_0.rest == tail
            &&& event_of(first->Ok_0.state) == Event::Scalar(scalar)
            &&& transition(first->Ok_0) == place.carry_on(cursor(stack, tail, limit), scalar.tag())
        }),
{
    let bytes = encode_scalar(scalar);
    let c = cursor(stack, bytes + tail, limit);
    lemma_read_scalar_round_trip(scalar, tail);
    assert((bytes + tail).skip(bytes.len() as int) =~= tail);
    let first = place.begin(c, scalar.tag())->Ok_0;
    lemma_state_is_forgotten(first, cursor(stack, tail, limit), scalar.tag(), 0);
    if let Place::Element { remaining } = place {
        lemma_state_is_forgotten(
            first,
            cursor(stack, tail, limit),
            scalar.tag(),
            (remaining - 1) as nat,
        );
    }
}

/// The elements of an array are given one by one, and then its end.
#[verifier::rlimit(40)]
proof fn lemma_array_items(
    q: ParserView,
    stack: Seq<StateView>,
    limit: Option<nat>,
    kind: u8,
    items: Seq<Scalar>,
    tail: Seq<u8>,
)
    requires
        is_array_kind(kind),
        valid_scalars(items, array_elem_kind(kind)),
        transition(q) == array_element(
            cursor(stack, encode_scalars(items) + tail, limit),
            kind,
            items.len(),
        ),
    ensures
        ({
            let events = events_of_scalars(items) + seq![Event::SeqEnd];
            &&& transition(q) is Ok
            &&& gives(transition(q)->Ok_0, events)
            &&& last_of(transition(q)->Ok_0, events) == ParserView {
                state: StateView::ArrayEnd { kind },
                stack,
                rest: tail,
                max_depth: limit,
            }
        }),
    decreases items.len(),
{
    let first = transition(q)->Ok_0;
    if items.len() == 0 {
        assert(encode_scalars(items) + tail =~= tail);
        lemma_gives_one(first);
        assert(events_of_scalars(items) + seq![Event::SeqEnd] =~= seq![event_of(first.state)]);
    } else {
        let rest = items.drop_first();
        let after = encode_scalars(rest) + tail;
        assert(encode_scalars(items) + tail =~= encode_scalar(items[0]) + after);
        lemma_read_scalar_round_trip(items[0], after);
        assert((encode_scalar(items[0]) + after).skip(encode_scalar(items[0]).len() as int)
            =~= after);
        assert(first.state == StateView::ArrayValue {
            kind,
            remaining: rest.len(),
            value: items[0],
        });
        lemma_state_is_forgotten(first, cursor(stack, after, limit), kind, rest.len());
        assert(valid_scalars(rest, array_elem_kind(kind))) by {
            assert forall|i: int| 0 <= i < rest.len() implies (#[trigger] rest[i]).tag()
                == array_elem_kind(kind) by {
                assert(rest[i] == items[i + 1]);
            }
        }
        lemma_array_items(first, stack, limit, kind, rest, tail);
        lemma_step(first);
        let more = events_of_scalars(rest) + seq![Event::SeqEnd];
        lemma_gives_first(first, transition(first)->Ok_0, more);
        assert(events_of_scalars(items) + seq![Event::SeqEnd] =~= seq![event_of(first.state)]
            + more);
    }
}

/// An array at its place gives its begin, its elements and its end, and the
/// parser carries on behind it.
#[verifier::rlimit(40)]
proof fn lemma_array(
    place: Place,
    stack: Seq<StateView>,
    limit: Option<nat>,
    value: Value,
    tail: Seq<u8>,
)
    requires
        place.valid(),
        value.valid(),
        value is Array,
        fits(limit, stack.len() + 1),
    ensures
        ({
            let first = place.begin(cursor(stack, value.encode() + tail, limit), value.tag());
            &&& first is Ok
            &&& gives(first->Ok_0, value.events())
            &&& transition(last_of(first->Ok_0, value.events())) == place.carry_on(
                cursor(stack, tail, limit),
                value.tag(),
            )
        }),
{
    let kind = value->Array_kind;
    let items = value->Array_items;
    let c = cursor(stack, value.encode() + tail, limit);
    let inner = stack.push(place.frame(kind));
    let after = encode_scalars(items) + tail;
    lemma_begin_container(place, c, kind);
    lemma_read_len_round_trip(items.len(), after);
    assert(value.encode() + tail =~= be_bytes(items.len(), 4) + after);
    assert((be_bytes(items.len(), 4) + after).skip(4) =~= after);
    let first = place.begin(c, kind)->Ok_0;
    assert(first == ParserView {
        state: StateView::Array { kind, len: items.len() },
        stack: inner,
        rest: after,
        max_depth: limit,
    });
    lemma_state_is_forgotten(first, cursor(inner, after, limit), kind, items.len());
    lemma_array_items(first, inner, limit, kind, items, tail);
    lemma_step(first);
    let more = events_of_scalars(items) + seq![Event::SeqEnd];
    lemma_gives_first(first, transition(first)->Ok_0, more);
    assert(value.events() =~= seq![event_of(first.state)] + more);
    lemma_leave_container(place, kind, stack, tail, last_of(first, value.events()));
}

/// A value at its place gives its events, and the parser carries on behind
/// it.
#[verifier::rlimit(40)]
proof fn lemma_value(
    place: Place,
    stack: Seq<StateView>,
    limit: Option<nat>,
    value: Value,
    tail: Seq<u8>,
)
    requires
        place.valid(),
        value.valid(),
        fits(limit, stack.len() + value.depth()),
    ensures
        ({
            let first = place.begin(cursor(stack, value.encode() + tail, limit), value.tag());
            &&& first is Ok
            &&& gives(first->Ok_0, value.events())
            &&& transition(last_of(first->Ok_0, value.events())) == place.carry_on(
                cursor(stack, tail, limit),
                value.tag(),
            )
        }),
    decreases value,
{
    let c = cursor(stack, value.encode() + tail, limit);
    match value {
        Value::Scalar(scalar) => {
            lemma_scalar(place, stack, limit, scalar, tail);
            lemma_gives_one(place.begin(c, value.tag())->Ok_0);
        },
        Value::Array { .. } => {
            lemma_array(place, stack, limit, value, tail);
        },
        Value::List { elem_type, items } => {
            let inner = stack.push(place.frame(TAG_LIST));
            let after = encode_items(items) + tail;
            lemma_begin_container(place, c, TAG_LIST);
            lemma_read_len_round_trip(items.len(), after);
            assert(value.encode() + tail =~= seq![elem_type] + (be_bytes(items.len(), 4) + after));
            assert((value.encode() + tail).skip(1) =~= be_bytes(items.len(), 4) + after);
            assert((value.encode() + tail).skip(5) =~= after);
            let first = place.begin(c, TAG_LIST)->Ok_0;
            assert(first == ParserView {
                state: StateView::List { len: items.len(), elem_type },
                stack: inner,
                rest: after,
                max_depth: limit,
            });
            lemma_state_is_forgotten(first, cursor(inner, after, limit), elem_type, items.len());
            lemma_items(first, inner, limit, elem_type, items, tail);
            lemma_step(first);
            let more = events_of_items(items) + seq![Event::SeqEnd];
            lemma_gives_first(first, transition(first)->Ok_0, more);
            assert(value.events() =~= seq![event_of(first.state)] + more);
            lemma_leave_container(place, TAG_LIST, stack, tail, last_of(first, value.events()));
        },
        Value::Compound { members } => {
            let inner = stack.push(place.frame(TAG_COMPOUND));
            lemma_begin_container(place, c, TAG_COMPOUND);
            let first = place.begin(c, TAG_COMPOUND)->Ok_0;
            assert(first == ParserView {
                state: StateView::Compound,
                stack: inner,
                rest: value.encode() + tail,
                max_depth: limit,
            });
            assert(value.encode() + tail =~= encode_members(members) + seq![TAG_END] + tail);
            lemma_state_is_forgotten(first, cursor(inner, first.rest, limit), 0, 0);
            lemma_members(first, inner, limit, members, tail);
            lemma_step(first);
            let more = events_of_members(members) + seq![Event::MapEnd];
            lemma_gives_first(first, transition(first)->Ok_0, more);
            assert(value.events() =~= seq![event_of(first.state)] + more);
            lemma_leave_container(place, TAG_COMPOUND, stack, tail, last_of(first, value.events()));
        },
    }
}

/// The elements of a list are given one after the other, and then the end
/// of the list.
#[verifier::rlimit(40)]
proof fn lemma_items(
    q: ParserView,
    stack: Seq<StateView>,
    limit: Option<nat>,
    kind: u8,
    items: Seq<Value>,
    tail: Seq<u8>,
)
    requires
        valid_items(items, kind),
        fits(limit, stack.len() + depth_of_items(items)),
        transition(q) == list_element(
            cursor(stack, encode_items(items) + tail, limit),
            kind,
            items.len(),
        ),
    ensures
        ({
            let events = events_of_items(items) + seq![Event::SeqEnd];
            &&& transition(q) is Ok
            &&& gives(transition(q)->Ok_0, events)
            &&& last_of(transition(q)->Ok_0, events) == ParserView {
                state: StateView::ListEnd,
                stack,
                rest: tail,
                max_depth: limit,
            }
        }),
    decreases items,
{
    let first = transition(q)->Ok_0;
    if items.len() == 0 {
        assert(encode_items(items) + tail =~= tail);
        lemma_gives_one(first);
        assert(events_of_items(items) + seq![Event::SeqEnd] =~= seq![event_of(first.state)]);
    } else {
        let rest = items.drop_first();
        let after = encode_items(rest) + tail;
        let place = Place::Element { remaining: items.len() };
        assert(encode_items(items) + tail =~= items[0].encode() + after);
        lemma_value(place, stack, limit, items[0], after);
        let last = last_of(first, items[0].events());
        lemma_items(last, stack, limit, kind, rest, tail);
        lemma_step(last);
        let more = events_of_items(rest) + seq![Event::SeqEnd];
        lemma_gives_both(first, items[0].events(), transition(last)->Ok_0, more);
        assert(events_of_items(items) + seq![Event::SeqEnd] =~= items[0].events() + more);
    }
}

/// A tag gives its name and then its value, and the parser carries on with
/// the next tag.
#[verifier::rlimit(40)]
proof fn lemma_member(
    q: ParserView,
    stack: Seq<StateView>,
    limit: Option<nat>,
    member: Member,
    tail: Seq<u8>,
)
    requires
        member.valid(),
        fits(limit, stack.len() + member.depth()),
        transition(q) == tag_header(cursor(stack, member.encode() + tail, limit)),
    ensures
        transition(q) is Ok,
        gives(transition(q)->Ok_0, member.events()),
        transition(last_of(transition(q)->Ok_0, member.events())) == tag_header(
            cursor(stack, tail, limit),
        ),
    decreases member, 0nat,
{
    let name = member.name;
    let value = member.value;
    let after = value.encode() + tail;
    let bytes = member.encode() + tail;
    lemma_valid_tag(value);
    lemma_read_text_round_trip(name, after);
    assert(bytes =~= seq![value.tag()] + (encode_text(name) + after));
    assert(bytes.skip(1) =~= encode_text(name) + after);
    assert(bytes.skip(1 + encode_text(name).len() as int) =~= after);
    let header = transition(q)->Ok_0;
    assert(header == ParserView {
        state: StateView::TagHeader { value_type: value.tag(), name },
        stack,
        rest: after,
        max_depth: limit,
    });
    lemma_state_is_forgotten(header, cursor(stack, after, limit), value.tag(), 0);
    lemma_value(Place::Tag, stack, limit, value, tail);
    lemma_step(header);
    lemma_gives_first(header, transition(header)->Ok_0, value.events());
}

/// The members of a compound are given one after the other, and then the
/// end of the compound.
#[verifier::rlimit(40)]
proof fn lemma_members(
    q: ParserView,
    stack: Seq<StateView>,
    limit: Option<nat>,
    members: Seq<Member>,
    tail: Seq<u8>,
)
    requires
        valid_members(members),
        fits(limit, stack.len() + depth_of_members(members)),
        transition(q) == tag_header(
            cursor(stack, encode_members(members) + seq![TAG_END] + tail, limit),
        ),
    ensures
        ({
            let events = events_of_members(members) + seq![Event::MapEnd];
            &&& transition(q) is Ok
            &&& gives(transition(q)->Ok_0, events)
            &&& last_of(transition(q)->Ok_0, events) == ParserView {
                state: StateView::TagEnd,
                stack,
                rest: tail,
                max_depth: limit,
            }
        }),
    decreases members,
{
    let first = transition(q)->Ok_0;
    let bytes = encode_members(members) + seq![TAG_END] + tail;
    if members.len() == 0 {
        assert(bytes =~= seq![TAG_END] + tail);
        assert(bytes.skip(1) =~= tail);
        lemma_gives_one(first);
        assert(events_of_members(members) + seq![Event::MapEnd] =~= seq![event_of(first.state)]);
    } else {
        let rest = members.drop_first();
        let after = encode_members(rest) + seq![TAG_END] + tail;
        assert(bytes =~= members[0].encode() + after);
        lemma_member(q, stack, limit, members[0], after);
        let last = last_of(first, members[0].events());
        lemma_members(last, stack, limit, rest, tail);
        lemma_step(last);
        let more = events_of_members(rest) + seq![Event::MapEnd];
        lemma_gives_both(first, members[0].events(), transition(last)->Ok_0, more);
        assert(events_of_members(members) + seq![Event::MapEnd] =~= members[0].events() + more);
    }
}

/// The events of the first `n` advances from `p`.
pub open spec fn trace(p: ParserView, n: nat) -> Seq<Event> {
    Seq::new(n, |i: int| event_of(run(p, (i + 1) as nat).state))
}

/// Reading gives back what was written.  A parser over the bytes that a
/// conformant encoder writes for a document gives the events of the
/// document, the name of the root first: every scalar with its value, every
/// container between its begin and its end with what it holds in between, in
/// the order of the document.  The advance after the last event reports the
/// end of the input.  A parser with a limit on its depth does so for every
/// document that nests no deeper than the limit.
#[verifier::rlimit(40)]
pub proof fn lemma_round_trip(document: Member, max_depth: Option<nat>)
    requires
        document.valid(),
        fits(max_depth, document.depth()),
    ensures
        ({
            let p = ParserView { max_depth, ..ParserView::initial(document.encode()) };
            let n = document.events().len();
            &&& trace(p, n) == document.events()
            &&& step(run(p, n)) == (ParserView::failed(), Err::<(), Error>(Error::Eof))
        }),
{
    let p = ParserView { max_depth, ..ParserView::initial(document.encode()) };
    let events = document.events();
    let n = events.len();
    assert(document.encode() + Seq::<u8>::empty() =~= document.encode());
    assert(p == cursor(Seq::empty(), document.encode() + Seq::<u8>::empty(), max_depth));
    lemma_member(p, Seq::empty(), max_depth, document, Seq::empty());
    lemma_step(p);
    let first = transition(p)->Ok_0;
    assert(run(p, 0) == p);
    assert(run(p, 1) == first);
    assert forall|i: int| 0 <= i < n implies trace(p, n)[i] == events[i] by {
        lemma_run_add(p, 1, i as nat);
        assert(run(p, (i + 1) as nat) == run(first, i as nat));
    }
    assert(trace(p, n) =~= events);
    lemma_run_add(p, 1, (n - 1) as nat);
    assert(run(p, n) == last_of(first, events));
    lemma_step(run(p, n));
}

} // verus!
