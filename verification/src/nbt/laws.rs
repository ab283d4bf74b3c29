//! What holds of every run of the parser, whatever the input.

use crate::error::Error;
use crate::nbt::model::{
    array_elem_kind, array_element, array_wanted, element_wanted, enter, is_array_kind,
    is_container_kind, is_scalar_kind, lemma_step, list_element, read_len, read_scalar, read_text,
    resume, shortfall, step, tag_header, tag_header_wanted, tag_value, text_wanted, transition,
    value_wanted, ParserView, Scalar, StateView,
};
use crate::nbt::parser::ValueType;
use crate::nbt::wire::{be_value, signed};
use crate::nbt::{LIST_MAX_LEN, TAG_END, TAG_LIST, TAG_STRING};
use vstd::prelude::*;

verus! {

/// The parser after `n` advances from `p`.
pub open spec fn run(p: ParserView, n: nat) -> ParserView
    decreases n,
{
    if n == 0 {
        p
    } else {
        step(run(p, (n - 1) as nat)).0
    }
}

/// Each kind of event has its one accessor: a state carries a scalar of a
/// type exactly when it stands for an event of that type, where the name in a
/// tag header is a string; and it carries no scalar exactly when it stands for
/// the begin or the end of a container, or for nothing.
pub proof fn lemma_accessor_matches_kind(state: StateView)
    ensures
        state.scalar() matches Some(Scalar::I8(_)) <==> state.value_type() == ValueType::I8,
        state.scalar() matches Some(Scalar::I16(_)) <==> state.value_type() == ValueType::I16,
        state.scalar() matches Some(Scalar::I32(_)) <==> state.value_type() == ValueType::I32,
        state.scalar() matches Some(Scalar::I64(_)) <==> state.value_type() == ValueType::I64,
        state.scalar() matches Some(Scalar::F32(_)) <==> state.value_type() == ValueType::F32,
        state.scalar() matches Some(Scalar::F64(_)) <==> state.value_type() == ValueType::F64,
        state.scalar() matches Some(Scalar::Text(_)) <==> state.value_type() == ValueType::String,
        state.scalar() is None <==> {
            ||| state.value_type() == ValueType::Invalid
            ||| state.value_type() == ValueType::SeqBegin
            ||| state.value_type() == ValueType::SeqEnd
            ||| state.value_type() == ValueType::MapBegin
            ||| state.value_type() == ValueType::MapEnd
        },
{
}

/// The value of the length field at the head of `field` is out of range:
/// negative, or above `LIST_MAX_LEN`.
pub open spec fn length_out_of_range(field: Seq<u8>) -> bool {
    let len = signed(be_value(field), 0x1_0000_0000);
    len < 0 || len > LIST_MAX_LEN
}

/// The next advance from `p` reads the header of a container of kind
/// `kind`: an array or a list that is the value of the tag whose header `p`
/// stands on, or the next element of the list that `p` is in or returns to.
pub open spec fn enters_next(p: ParserView, kind: u8) -> bool {
    ||| p.state matches StateView::TagHeader { value_type, .. } && value_type == kind
    ||| p.state matches StateView::List { len, elem_type } && elem_type == kind && len > 0
    ||| p.state.is_end() && p.stack.len() > 0 && (p.stack.last() matches StateView::ListFrame {
        kind: elem_type,
        remaining,
    } && elem_type == kind && remaining > 0)
}

/// A length field out of range is a framing error wherever a length is read:
/// in the header of an array or of a list, whether the container is the value
/// of a tag or an element of a list.
pub proof fn lemma_length_out_of_range(p: ParserView, kind: u8, frame: StateView, remaining: nat)
    requires
        is_array_kind(kind) || kind == TAG_LIST,
        kind == TAG_LIST ==> p.rest.len() >= 5 && length_out_of_range(p.rest.subrange(1, 5)),
        kind != TAG_LIST ==> p.rest.len() >= 4 && length_out_of_range(p.rest.take(4)),
    ensures
        enter(p, kind, frame) == Err::<ParserView, Error>(Error::InvalidParserStateError),
        tag_value(p, kind) == Err::<ParserView, Error>(Error::InvalidParserStateError),
        remaining > 0 ==> list_element(p, kind, remaining) == Err::<ParserView, Error>(
            Error::InvalidParserStateError,
        ),
        enters_next(p, kind) ==> step(p) == (
            ParserView::failed(),
            Err::<(), Error>(Error::InvalidParserStateError),
        ),
{
    lemma_step(p);
    reveal(read_len);
    if kind == TAG_LIST {
        assert(p.rest.skip(1).take(4) =~= p.rest.subrange(1, 5));
    }
}

/// A parser that has failed stays failed: every further advance is a framing
/// error.
pub proof fn lemma_failure_is_final(p: ParserView, n: nat)
    requires
        p.state is Invalid,
    ensures
        step(p) == (ParserView::failed(), Err::<(), Error>(Error::InvalidParserStateError)),
        n > 0 ==> run(p, n) == ParserView::failed(),
    decreases n,
{
    lemma_step(p);
    lemma_step(ParserView::failed());
    if n > 1 {
        lemma_failure_is_final(p, (n - 1) as nat);
    } else if n == 1 {
        assert(run(p, 0) == p);
    }
}

/// An advance that fails leaves the parser failed; one that succeeds never
/// does.
pub proof fn lemma_step_fails_or_succeeds(p: ParserView)
    ensures
        step(p).1 is Err ==> step(p).0 == ParserView::failed(),
        step(p).1 is Ok ==> !(step(p).0.state is Invalid),
{
    lemma_step(p);
}

/// Only the reading of a tag header reports the end of the input, and only
/// where no input is left and no container is open.
proof fn lemma_eof_comes_from_tag_header(p: ParserView, kind: u8, remaining: nat)
    ensures
        tag_header(p) == Err::<ParserView, Error>(Error::Eof) <==> p.rest.len() == 0
            && p.stack.len() == 0,
        tag_value(p, kind) != Err::<ParserView, Error>(Error::Eof),
        array_element(p, kind, remaining) != Err::<ParserView, Error>(Error::Eof),
        list_element(p, kind, remaining) != Err::<ParserView, Error>(Error::Eof),
{
    reveal(read_len);
    reveal(read_scalar);
    reveal(read_text);
}

/// The input can end cleanly only at the top level: an advance reports the
/// end of the input only where no input is left, a tag is read next, and no
/// container is open once the advance has left the one that it stands at the
/// end of.
pub proof fn lemma_eof_only_at_top_level(p: ParserView)
    requires
        step(p).1 == Err::<(), Error>(Error::Eof),
    ensures
        p.rest.len() == 0,
        p.state.is_end() ==> p.stack.len() == 1 && p.stack[0] is ExpectingTag,
        !p.state.is_end() ==> p.stack.len() == 0 && (p.state is ExpectingTag || p.state is TagValue
            || p.state is Compound),
{
    lemma_step(p);
    assert(transition(p) == Err::<ParserView, Error>(Error::Eof));
    match p.state {
        StateView::TagHeader { value_type, .. } => {
            lemma_eof_comes_from_tag_header(p, value_type, 0);
        },
        StateView::Array { kind, len } => {
            lemma_eof_comes_from_tag_header(p, kind, len);
        },
        StateView::ArrayValue { kind, remaining, .. } => {
            lemma_eof_comes_from_tag_header(p, kind, remaining);
        },
        StateView::List { len, elem_type } => {
            lemma_eof_comes_from_tag_header(p, elem_type, len);
        },
        StateView::ListValue { remaining, value } => {
            lemma_eof_comes_from_tag_header(p, value.tag(), remaining);
        },
        StateView::ListFrame { kind, remaining } => {
            lemma_eof_comes_from_tag_header(p, kind, remaining);
        },
        _ => {
            if p.state.is_end() {
                if p.stack.len() > 0 {
                    let popped = ParserView { stack: p.stack.drop_last(), ..p };
                    if let StateView::ListFrame { kind, remaining } = p.stack.last() {
                        lemma_eof_comes_from_tag_header(popped, kind, remaining);
                    } else {
                        lemma_eof_comes_from_tag_header(popped, 0, 0);
                    }
                }
            } else {
                lemma_eof_comes_from_tag_header(p, 0, 0);
            }
        },
    }
}

/// A frame that the parser can return to: the tags of a compound, or a list
/// of containers.
pub open spec fn is_frame(state: StateView) -> bool {
    ||| state is ExpectingTag
    ||| state matches StateView::ListFrame { kind, .. } && is_container_kind(kind)
}

/// The stack holds nothing but frames.
pub open spec fn holds_frames(stack: Seq<StateView>) -> bool {
    forall|i: int| 0 <= i < stack.len() ==> is_frame(#[trigger] stack[i])
}

/// The stack only ever holds frames: a parser that starts with such a stack,
/// as every new parser does, keeps one through every run.
pub proof fn lemma_stack_holds_frames(p: ParserView, n: nat)
    requires
        holds_frames(p.stack),
    ensures
        holds_frames(run(p, n).stack),
        holds_frames(ParserView::initial(p.rest).stack),
    decreases n,
{
    if n > 0 {
        lemma_stack_holds_frames(p, (n - 1) as nat);
        let q = run(p, (n - 1) as nat);
        lemma_step(q);
        if transition(q) is Ok {
            let r = transition(q)->Ok_0;
            let popped = ParserView { stack: q.stack.drop_last(), ..q };
            lemma_tag_header_shape(q);
            lemma_tag_header_shape(popped);
            match q.state {
                StateView::TagHeader { value_type, .. } => {
                    lemma_tag_value_shape(q, value_type);
                },
                StateView::Array { kind, len } => {
                    lemma_array_element_shape(q, kind, len);
                },
                StateView::ArrayValue { kind, remaining, .. } => {
                    lemma_array_element_shape(q, kind, remaining);
                },
                StateView::List { len, elem_type } => {
                    lemma_list_element_shape(q, elem_type, len);
                },
                StateView::ListValue { remaining, value } => {
                    lemma_list_element_shape(q, value.tag(), remaining);
                },
                StateView::ListFrame { kind, remaining } => {
                    lemma_list_element_shape(q, kind, remaining);
                },
                _ => {
                    if q.state.is_end() {
                        if let StateView::ListFrame { kind, remaining } = q.stack.last() {
                            lemma_list_element_shape(popped, kind, remaining);
                        }
                    }
                },
            }
        }
    }
}

/// The parser holds no more frames than it may.
pub open spec fn within_depth(p: ParserView) -> bool {
    p.max_depth matches Some(limit) ==> p.stack.len() <= limit
}

/// The limit on the depth holds: a parser that starts within it, as every
/// new parser does, stays within it through every run.
pub proof fn lemma_depth_is_capped(p: ParserView, n: nat)
    requires
        within_depth(p),
    ensures
        within_depth(run(p, n)),
    decreases n,
{
    if n > 0 {
        lemma_depth_is_capped(p, (n - 1) as nat);
        let q = run(p, (n - 1) as nat);
        lemma_step(q);
        if transition(q) is Ok {
            let popped = ParserView { stack: q.stack.drop_last(), ..q };
            lemma_tag_header_shape(q);
            lemma_tag_header_shape(popped);
            match q.state {
                StateView::TagHeader { value_type, .. } => {
                    lemma_tag_value_shape(q, value_type);
                },
                StateView::Array { kind, len } => {
                    lemma_array_element_shape(q, kind, len);
                },
                StateView::ArrayValue { kind, remaining, .. } => {
                    lemma_array_element_shape(q, kind, remaining);
                },
                StateView::List { len, elem_type } => {
                    lemma_list_element_shape(q, elem_type, len);
                },
                StateView::ListValue { remaining, value } => {
                    lemma_list_element_shape(q, value.tag(), remaining);
                },
                StateView::ListFrame { kind, remaining } => {
                    lemma_list_element_shape(q, kind, remaining);
                },
                _ => {
                    if q.state.is_end() {
                        if let StateView::ListFrame { kind, remaining } = q.stack.last() {
                            lemma_list_element_shape(popped, kind, remaining);
                        }
                    }
                },
            }
        }
    }
}

/// The states in which the parser stands among the members of a compound.
pub open spec fn among_members(state: StateView) -> bool {
    state is Compound || state is TagHeader || state is TagValue
}

/// The states in which the parser stands among the elements of a list.
pub open spec fn among_elements(state: StateView) -> bool {
    state is List || state is ListValue
}

/// The states that begin a container.
pub open spec fn begins_container(state: StateView) -> bool {
    state is Compound || state is List || state is Array
}

/// Reading a tag header leaves the frames alone.
pub proof fn lemma_tag_header_shape(q: ParserView)
    ensures
        tag_header(q) matches Ok(r) ==> r.stack == q.stack && r.max_depth == q.max_depth && (
        r.state is TagEnd || r.state is TagHeader),
{
}

/// Entering a container adds the frame to return to, and nothing else; a
/// parser that holds as many frames as it may enters none.
pub proof fn lemma_enter_shape(q: ParserView, kind: u8, frame: StateView)
    ensures
        enter(q, kind, frame) matches Ok(r) ==> r.stack == q.stack.push(frame) && r.max_depth
            == q.max_depth && !q.is_full() && begins_container(r.state),
{
}

/// Reading the value of a tag leaves the frames alone, or enters a container
/// that returns to the tags.
pub proof fn lemma_tag_value_shape(q: ParserView, kind: u8)
    ensures
        tag_value(q, kind) matches Ok(r) ==> r.max_depth == q.max_depth && {
            ||| r.stack == q.stack && r.state is TagValue
            ||| r.stack == q.stack.push(StateView::ExpectingTag) && !q.is_full()
                && begins_container(r.state)
        },
{
    lemma_enter_shape(q, kind, StateView::ExpectingTag);
}

/// Reading in an array leaves the frames alone.
pub proof fn lemma_array_element_shape(q: ParserView, kind: u8, remaining: nat)
    ensures
        array_element(q, kind, remaining) matches Ok(r) ==> r.stack == q.stack && r.max_depth
            == q.max_depth && (r.state is ArrayEnd || r.state is ArrayValue),
{
}

/// Reading in a list closes the list when nothing remains; otherwise it reads
/// a scalar element, or enters a container that returns to the list with one
/// element fewer to come.
pub proof fn lemma_list_element_shape(q: ParserView, kind: u8, remaining: nat)
    ensures
        list_element(q, kind, remaining) matches Ok(r) ==> r.max_depth == q.max_depth && {
            ||| remaining == 0 && r.stack == q.stack && r.state is ListEnd
            ||| remaining > 0 && r.stack == q.stack && r.state is ListValue
                && r.state->ListValue_remaining == remaining - 1
            ||| remaining > 0 && r.stack == q.stack.push(
                StateView::ListFrame { kind, remaining: (remaining - 1) as nat },
            ) && !q.is_full() && begins_container(r.state)
        },
{
    lemma_enter_shape(q, kind, StateView::ListFrame { kind, remaining: (remaining - 1) as nat });
}

/// `q` is inside the compound that was entered with the frames `base`: the
/// frames are still there, and the parser either stands among the members of
/// the compound or is inside a container that is the value of a member.
pub open spec fn inside_compound(base: Seq<StateView>, q: ParserView) -> bool {
    &&& !(q.state is Invalid)
    &&& q.stack.len() >= base.len()
    &&& q.stack.take(base.len() as int) == base
    &&& q.stack.len() == base.len() ==> among_members(q.state)
    &&& q.stack.len() > base.len() ==> q.stack[base.len() as int] is ExpectingTag
}

/// `q` stands on the end of the compound that was entered with the frames
/// `base`.
pub open spec fn closes_compound(base: Seq<StateView>, q: ParserView) -> bool {
    q.state is TagEnd && q.stack == base
}

/// What one advance does to the frames when the parser is above level `k`:
/// the frames below `k` stay, and the frame at `k` either stays too or is the
/// one that the advance returns to.
proof fn lemma_step_above(q: ParserView, k: int)
    requires
        0 <= k < q.stack.len(),
        transition(q) is Ok,
    ensures
        ({
            let r = transition(q)->Ok_0;
            &&& r.stack.len() >= k
            &&& r.stack.take(k) == q.stack.take(k)
            &&& {
                ||| r.stack.len() > k && r.stack[k] == q.stack[k] && !(r.stack.len() == k + 1
                    && begins_container(r.state))
                ||| q.state.is_end() && q.stack.len() == k + 1 && resume(
                    ParserView { stack: q.stack.take(k), ..q },
                    q.stack[k],
                ) == Ok::<ParserView, Error>(r)
            }
        }),
{
    let r = transition(q)->Ok_0;
    if q.state.is_end() {
        let popped = ParserView { stack: q.stack.drop_last(), ..q };
        let frame = q.stack.last();
        assert(resume(popped, frame) == Ok::<ParserView, Error>(r));
        lemma_tag_header_shape(popped);
        if let StateView::ListFrame { kind, remaining } = frame {
            lemma_list_element_shape(popped, kind, remaining);
        }
        if q.stack.len() == k + 1 {
            assert(popped.stack =~= q.stack.take(k));
            assert(r.stack.take(k) =~= q.stack.take(k));
        } else {
            assert(popped.stack.take(k) =~= q.stack.take(k));
            assert(r.stack.take(k) =~= popped.stack.take(k));
        }
    } else {
        lemma_tag_header_shape(q);
        match q.state {
            StateView::TagHeader { value_type, .. } => {
                lemma_tag_value_shape(q, value_type);
            },
            StateView::Array { kind, len } => {
                lemma_array_element_shape(q, kind, len);
            },
            StateView::ArrayValue { kind, remaining, .. } => {
                lemma_array_element_shape(q, kind, remaining);
            },
            StateView::List { len, elem_type } => {
                lemma_list_element_shape(q, elem_type, len);
            },
            StateView::ListValue { remaining, value } => {
                lemma_list_element_shape(q, value.tag(), remaining);
            },
            StateView::ListFrame { kind, remaining } => {
                lemma_list_element_shape(q, kind, remaining);
            },
            _ => {},
        }
        assert(r.stack.take(k) =~= q.stack.take(k));
    }
}

/// One advance from inside a compound fails, reaches the end of the compound,
/// or stays inside.
proof fn lemma_step_inside_compound(base: Seq<StateView>, q: ParserView)
    requires
        inside_compound(base, q),
    ensures
        ({
            let r = step(q).0;
            r.state is Invalid || closes_compound(base, r) || inside_compound(base, r)
        }),
{
    lemma_step(q);
    let k = base.len() as int;
    if transition(q) is Ok {
        let r = transition(q)->Ok_0;
        lemma_step_fails_or_succeeds(q);
        if q.stack.len() > k {
            lemma_step_above(q, k);
            lemma_tag_header_shape(ParserView { stack: q.stack.take(k), ..q });
        } else {
            assert(q.stack =~= base);
            lemma_tag_header_shape(q);
            if let StateView::TagHeader { value_type, .. } = q.state {
                lemma_tag_value_shape(q, value_type);
            }
            assert(r.stack.take(k) =~= base);
        }
    }
}

/// From the moment a compound is entered until the parser stands on the end
/// of that compound, the parser stays inside it: the frames of the enclosure
/// are untouched, so nothing that comes after the compound is read before the
/// compound's own end has been an event.
pub proof fn lemma_compound_closes_with_map_end(p: ParserView, n: nat)
    requires
        p.state is Compound,
    ensures
        ({
            let q = run(p, n);
            ||| q.state is Invalid
            ||| exists|i: nat| i <= n && closes_compound(p.stack, #[trigger] run(p, i))
            ||| inside_compound(p.stack, q)
        }),
    decreases n,
{
    if n == 0 {
        assert(p.stack.take(p.stack.len() as int) =~= p.stack);
    } else {
        let m = (n - 1) as nat;
        lemma_compound_closes_with_map_end(p, m);
        let q = run(p, m);
        if q.state is Invalid {
            lemma_failure_is_final(q, 1);
        } else if exists|i: nat| i <= m && closes_compound(p.stack, #[trigger] run(p, i)) {
            let i = choose|i: nat| i <= m && closes_compound(p.stack, #[trigger] run(p, i));
            assert(i <= n && closes_compound(p.stack, run(p, i)));
        } else {
            lemma_step_inside_compound(p.stack, q);
            if closes_compound(p.stack, run(p, n)) {
                assert(n <= n && closes_compound(p.stack, run(p, n)));
            }
        }
    }
}

/// The number of elements that the list entered with `base_len` frames has
/// still to give, as `q` records it: in its state while it stands among the
/// elements, in the frame to return to while it is inside one.
pub open spec fn pending(base_len: int, q: ParserView) -> Option<nat> {
    if q.stack.len() == base_len {
        match q.state {
            StateView::List { len, .. } => Some(len),
            StateView::ListValue { remaining, .. } => Some(remaining),
            _ => None,
        }
    } else if q.stack.len() > base_len {
        match q.stack[base_len] {
            StateView::ListFrame { remaining, .. } => Some(remaining),
            _ => None,
        }
    } else {
        None
    }
}

/// `q` stands on the first event of an element of the list entered with
/// `base_len` frames: on a scalar element, or on the begin of a container
/// that is an element.
pub open spec fn begins_element(base_len: int, q: ParserView) -> bool {
    ||| q.stack.len() == base_len && q.state is ListValue
    ||| q.stack.len() == base_len + 1 && begins_container(q.state)
}

/// The number of elements of the list entered with `base_len` frames that
/// have begun during the first `n` advances from `p`.
pub open spec fn elements_begun(p: ParserView, base_len: int, n: nat) -> nat
    decreases n,
{
    if n == 0 {
        0
    } else {
        elements_begun(p, base_len, (n - 1) as nat) + if begins_element(base_len, run(p, n)) {
            1nat
        } else {
            0nat
        }
    }
}

/// `q` is inside the list of `total` elements that was entered with the
/// frames `base`, and `begun` of the elements have begun: the frames are
/// still there and the list has `total - begun` elements still to give.
pub open spec fn inside_list(base: Seq<StateView>, total: nat, begun: nat, q: ParserView) -> bool {
    &&& !(q.state is Invalid)
    &&& q.stack.len() >= base.len()
    &&& q.stack.take(base.len() as int) == base
    &&& pending(base.len() as int, q) is Some
    &&& pending(base.len() as int, q)->Some_0 + begun == total
}

/// `q` stands on the end of the list that was entered with the frames `base`.
pub open spec fn closes_list(base: Seq<StateView>, q: ParserView) -> bool {
    q.state is ListEnd && q.stack == base
}

/// One advance from inside a list fails, reaches the end of the list when
/// all its elements have begun, or stays inside, where it may begin the next
/// element.
proof fn lemma_step_inside_list(base: Seq<StateView>, total: nat, begun: nat, q: ParserView)
    requires
        inside_list(base, total, begun, q),
    ensures
        ({
            let r = step(q).0;
            let k = base.len() as int;
            ||| r.state is Invalid
            ||| closes_list(base, r) && begun == total && !begins_element(k, r)
            ||| inside_list(base, total, if begins_element(k, r) { begun + 1 } else { begun }, r)
        }),
{
    lemma_step(q);
    let k = base.len() as int;
    if transition(q) is Ok {
        let r = transition(q)->Ok_0;
        lemma_step_fails_or_succeeds(q);
        if q.stack.len() > k {
            lemma_step_above(q, k);
            if let StateView::ListFrame { kind, remaining } = q.stack[k] {
                let popped = ParserView { stack: q.stack.take(k), ..q };
                lemma_list_element_shape(popped, kind, remaining);
                if r.stack.len() == k {
                    assert(r.stack =~= base);
                }
            }
        } else {
            assert(q.stack =~= base);
            match q.state {
                StateView::List { len, elem_type } => {
                    lemma_list_element_shape(q, elem_type, len);
                },
                StateView::ListValue { remaining, value } => {
                    lemma_list_element_shape(q, value.tag(), remaining);
                },
                _ => {},
            }
            assert(r.stack.take(k) =~= base);
        }
    }
}

/// A list gives as many elements as its header declares.  From the moment a
/// list is entered until the parser stands on the end of that list, the
/// parser stays inside it and the elements that have begun and those still to
/// come add up to the declared length; so when the end of the list is reached
/// exactly that many elements, scalars or containers, have begun.
pub proof fn lemma_list_gives_its_length(p: ParserView, n: nat)
    requires
        p.state is List,
    ensures
        ({
            let q = run(p, n);
            let k = p.stack.len() as int;
            let total = p.state->List_len;
            ||| q.state is Invalid
            ||| exists|i: nat| i < n && closes_list(p.stack, #[trigger] run(p, i))
            ||| closes_list(p.stack, q) && elements_begun(p, k, n) == total
            ||| inside_list(p.stack, total, elements_begun(p, k, n), q)
        }),
    decreases n,
{
    let k = p.stack.len() as int;
    if n == 0 {
        assert(p.stack.take(k) =~= p.stack);
    } else {
        let m = (n - 1) as nat;
        lemma_list_gives_its_length(p, m);
        let q = run(p, m);
        if q.state is Invalid {
            lemma_failure_is_final(q, 1);
        } else if exists|i: nat| i < m && closes_list(p.stack, #[trigger] run(p, i)) {
            let i = choose|i: nat| i < m && closes_list(p.stack, #[trigger] run(p, i));
            assert(i < n && closes_list(p.stack, run(p, i)));
        } else if closes_list(p.stack, q) {
            assert(m < n && closes_list(p.stack, run(p, m)));
        } else {
            lemma_step_inside_list(p.stack, p.state->List_len, elements_begun(p, k, m), q);
        }
    }
}

/// An array gives as many elements as its header declares: from the begin
/// of an array of `len` elements, each of the next `len` advances fails or
/// gives an element, and the advance after the last element gives the end of
/// the array.  The frames are not touched on the way.
pub proof fn lemma_array_gives_its_length(p: ParserView, n: nat)
    requires
        p.state is Array,
        n <= p.state->Array_len + 1,
    ensures
        ({
            let q = run(p, n);
            let len = p.state->Array_len;
            let kind = p.state->Array_kind;
            ||| q.state is Invalid
            ||| {
                &&& q.stack == p.stack
                &&& n == 0 ==> q == p
                &&& 0 < n <= len ==> q.state is ArrayValue && q.state->ArrayValue_kind == kind
                    && q.state->ArrayValue_remaining == len - n
                &&& n == len + 1 ==> q.state == StateView::ArrayEnd { kind }
            }
        }),
    decreases n,
{
    if n > 0 {
        lemma_array_gives_its_length(p, (n - 1) as nat);
        let q = run(p, (n - 1) as nat);
        lemma_step(q);
        if q.state is Invalid {
            lemma_failure_is_final(q, 1);
        }
    }
}

/// What an advance gives when `more` input lies behind what it read: the
/// same, with `more` still unread.
pub open spec fn with_more(r: Result<ParserView, Error>, more: Seq<u8>) -> Result<
    ParserView,
    Error,
> {
    match r {
        Ok(q) => Ok(q.append(more)),
        Err(e) => Err(e),
    }
}

/// The error of an advance that found too little input.
pub open spec fn for_want_of_input(r: Result<ParserView, Error>) -> bool {
    r == Err::<ParserView, Error>(Error::Eof) || r == Err::<ParserView, Error>(
        Error::InvalidParserStateError,
    )
}

/// Reading a string: with less input than it asks for it fails, and with
/// that much it reads the same whatever follows.
proof fn lemma_text_input(rest: Seq<u8>, more: Seq<u8>)
    ensures
        rest.len() < text_wanted(rest) ==> read_text(rest) == Err::<(Seq<char>, nat), Error>(
            Error::InvalidParserStateError,
        ),
        rest.len() >= text_wanted(rest) ==> read_text(rest + more) == read_text(rest),
        read_text(rest) matches Ok((_, n)) ==> n <= rest.len(),
{
    reveal(read_text);
    if rest.len() >= text_wanted(rest) {
        let len = be_value(rest.take(2));
        assert((rest + more).take(2) =~= rest.take(2));
        assert((rest + more).subrange(2, 2 + len as int) =~= rest.subrange(2, 2 + len as int));
    }
}

/// Reading a scalar: with less input than it asks for it fails, and with
/// that much it reads the same whatever follows.
proof fn lemma_scalar_input(kind: u8, rest: Seq<u8>, more: Seq<u8>)
    requires
        is_scalar_kind(kind),
    ensures
        rest.len() < value_wanted(kind, rest) ==> read_scalar(kind, rest) == Err::<
            (Scalar, nat),
            Error,
        >(Error::InvalidParserStateError),
        rest.len() >= value_wanted(kind, rest) ==> read_scalar(kind, rest + more) == read_scalar(
            kind,
            rest,
        ),
        read_scalar(kind, rest) matches Ok((_, n)) ==> n <= rest.len(),
{
    reveal(read_scalar);
    lemma_text_input(rest, more);
    if rest.len() >= value_wanted(kind, rest) && kind != TAG_STRING {
        let width = value_wanted(kind, rest) as int;
        assert((rest + more).take(width) =~= rest.take(width));
    }
}

/// Reading a length: with less than four bytes it fails, and with four it
/// reads the same whatever follows.
proof fn lemma_len_input(rest: Seq<u8>, more: Seq<u8>)
    ensures
        rest.len() < 4 ==> read_len(rest) == Err::<nat, Error>(Error::InvalidParserStateError),
        rest.len() >= 4 ==> read_len(rest + more) == read_len(rest),
{
    reveal(read_len);
    if rest.len() >= 4 {
        assert((rest + more).take(4) =~= rest.take(4));
    }
}

/// Reading a tag header: with less input than it asks for it fails, and
/// with that much it reads the same whatever follows.
proof fn lemma_tag_header_input(p: ParserView, more: Seq<u8>)
    ensures
        p.rest.len() < tag_header_wanted(p.rest) ==> for_want_of_input(tag_header(p)),
        p.rest.len() >= tag_header_wanted(p.rest) ==> tag_header(p.append(more)) == with_more(
            tag_header(p),
            more,
        ),
{
    if p.rest.len() > 0 {
        let rest = p.rest;
        lemma_text_input(rest.skip(1), more);
        assert((rest + more).skip(1) =~= rest.skip(1) + more);
        if rest.len() >= tag_header_wanted(rest) {
            assert((rest + more).skip(1) =~= rest.skip(1) + more);
            if rest[0] != TAG_END {
                if let Ok((_, n)) = read_text(rest.skip(1)) {
                    assert((rest + more).skip(1 + n as int) =~= rest.skip(1 + n as int) + more);
                }
            }
        }
    }
}

/// Entering a container: with less input than its header it fails, and with
/// the header it does the same whatever follows.
proof fn lemma_enter_input(p: ParserView, kind: u8, frame: StateView, more: Seq<u8>)
    requires
        is_container_kind(kind),
    ensures
        p.rest.len() < value_wanted(kind, p.rest) ==> for_want_of_input(enter(p, kind, frame)),
        p.rest.len() >= value_wanted(kind, p.rest) ==> enter(p.append(more), kind, frame)
            == with_more(enter(p, kind, frame), more),
{
    let rest = p.rest;
    if kind == TAG_LIST {
        if rest.len() > 0 {
            lemma_len_input(rest.skip(1), more);
            assert((rest + more).skip(1) =~= rest.skip(1) + more);
            if rest.len() >= 5 {
                assert((rest + more).skip(5) =~= rest.skip(5) + more);
            }
        }
    } else if is_array_kind(kind) {
        lemma_len_input(rest, more);
        if rest.len() >= 4 {
            assert((rest + more).skip(4) =~= rest.skip(4) + more);
        }
    }
}

/// Reading a value at the head of the input, as the value of a tag or as an
/// element of a list: with less input than it asks for it fails, and with
/// that much it does the same whatever follows.
proof fn lemma_value_input(p: ParserView, kind: u8, remaining: nat, more: Seq<u8>)
    ensures
        p.rest.len() < value_wanted(kind, p.rest) ==> for_want_of_input(tag_value(p, kind)),
        p.rest.len() >= value_wanted(kind, p.rest) ==> tag_value(p.append(more), kind)
            == with_more(tag_value(p, kind), more),
        p.rest.len() < element_wanted(kind, remaining, p.rest) ==> for_want_of_input(
            list_element(p, kind, remaining),
        ),
        p.rest.len() >= element_wanted(kind, remaining, p.rest) ==> list_element(
            p.append(more),
            kind,
            remaining,
        ) == with_more(list_element(p, kind, remaining), more),
{
    let rest = p.rest;
    if is_scalar_kind(kind) {
        lemma_scalar_input(kind, rest, more);
        if let Ok((_, n)) = read_scalar(kind, rest) {
            assert((rest + more).skip(n as int) =~= rest.skip(n as int) + more);
        }
    } else if is_container_kind(kind) {
        lemma_enter_input(p, kind, StateView::ExpectingTag, more);
        lemma_enter_input(
            p,
            kind,
            StateView::ListFrame { kind, remaining: (remaining - 1) as nat },
            more,
        );
    }
}

/// Reading in an array: with less input than an element it fails, and with
/// an element it does the same whatever follows.
proof fn lemma_array_input(p: ParserView, kind: u8, remaining: nat, more: Seq<u8>)
    ensures
        p.rest.len() < array_wanted(kind, remaining) ==> for_want_of_input(
            array_element(p, kind, remaining),
        ),
        p.rest.len() >= array_wanted(kind, remaining) ==> array_element(
            p.append(more),
            kind,
            remaining,
        ) == with_more(array_element(p, kind, remaining), more),
{
    let rest = p.rest;
    if remaining > 0 && is_array_kind(kind) {
        let elem = array_elem_kind(kind);
        lemma_scalar_input(elem, rest, more);
        if let Ok((_, n)) = read_scalar(elem, rest) {
            assert((rest + more).skip(n as int) =~= rest.skip(n as int) + more);
        }
    }
}

/// An advance fails for want of input exactly while input is missing: with
/// less input than the advance asks for it fails, with the end of the input
/// or with a framing error.
pub proof fn lemma_missing_input_fails(p: ParserView)
    requires
        shortfall(p) > 0,
    ensures
        for_want_of_input(transition(p)),
        step(p).1 == Err::<(), Error>(Error::Eof) || step(p).1 == Err::<(), Error>(
            Error::InvalidParserStateError,
        ),
{
    lemma_step(p);
    let more = Seq::<u8>::empty();
    lemma_tag_header_input(p, more);
    match p.state {
        StateView::TagHeader { value_type, .. } => {
            lemma_value_input(p, value_type, 0, more);
        },
        StateView::Array { kind, len } => {
            lemma_array_input(p, kind, len, more);
        },
        StateView::ArrayValue { kind, remaining, .. } => {
            lemma_array_input(p, kind, remaining, more);
        },
        StateView::List { len, elem_type } => {
            lemma_value_input(p, elem_type, len, more);
        },
        StateView::ListValue { remaining, value } => {
            lemma_value_input(p, value.tag(), remaining, more);
        },
        StateView::ListFrame { kind, remaining } => {
            lemma_value_input(p, kind, remaining, more);
        },
        _ => {
            if p.state.is_end() && p.stack.len() > 0 {
                let popped = ParserView { stack: p.stack.drop_last(), ..p };
                lemma_tag_header_input(popped, more);
                if let StateView::ListFrame { kind, remaining } = p.stack.last() {
                    lemma_value_input(popped, kind, remaining, more);
                }
            }
        },
    }
}

/// Input that is fed when nothing is missing changes nothing: the next
/// advance does what it would have done, and leaves the new input unread.
pub proof fn lemma_enough_input_is_enough(p: ParserView, more: Seq<u8>)
    requires
        shortfall(p) == 0,
    ensures
        transition(p.append(more)) == with_more(transition(p), more),
{
    lemma_tag_header_input(p, more);
    match p.state {
        StateView::TagHeader { value_type, .. } => {
            lemma_value_input(p, value_type, 0, more);
        },
        StateView::Array { kind, len } => {
            lemma_array_input(p, kind, len, more);
        },
        StateView::ArrayValue { kind, remaining, .. } => {
            lemma_array_input(p, kind, remaining, more);
        },
        StateView::List { len, elem_type } => {
            lemma_value_input(p, elem_type, len, more);
        },
        StateView::ListValue { remaining, value } => {
            lemma_value_input(p, value.tag(), remaining, more);
        },
        StateView::ListFrame { kind, remaining } => {
            lemma_value_input(p, kind, remaining, more);
        },
        _ => {
            if p.state.is_end() && p.stack.len() > 0 {
                let popped = ParserView { stack: p.stack.drop_last(), ..p };
                assert(popped.append(more) == ParserView {
                    stack: p.append(more).stack.drop_last(),
                    ..p.append(more)
                });
                lemma_tag_header_input(popped, more);
                if let StateView::ListFrame { kind, remaining } = p.stack.last() {
                    lemma_value_input(popped, kind, remaining, more);
                }
            }
        },
    }
}

/// Before each of the first `n` advances from `p` nothing was missing.
pub open spec fn fed_in_time(p: ParserView, n: nat) -> bool {
    forall|i: nat| i < n ==> shortfall(#[trigger] run(p, i)) == 0
}

/// An advance that misses nothing returns the same with more input behind
/// it, and where it succeeds it leaves the parser the same, with the new
/// input unread.
proof fn lemma_step_with_more(p: ParserView, more: Seq<u8>)
    requires
        shortfall(p) == 0,
    ensures
        step(p.append(more)).1 == step(p).1,
        step(p).1 is Ok ==> step(p.append(more)).0 == step(p).0.append(more),
        step(p).1 is Err ==> step(p.append(more)).0 == step(p).0,
{
    lemma_step(p);
    lemma_step(p.append(more));
    lemma_enough_input_is_enough(p, more);
}

/// A parser that is fed in time reads what a parser with the whole input
/// reads.  If nothing was missing before any of the first `n` advances, then
/// with `more` input behind it from the start each of them returns the same,
/// and while they succeed the parser stands where it stood, with `more`
/// still unread.
pub proof fn lemma_fed_in_time(p: ParserView, more: Seq<u8>, n: nat)
    requires
        fed_in_time(p, n),
    ensures
        forall|i: nat| i < n ==> step(#[trigger] run(p.append(more), i)).1 == step(run(p, i)).1,
        run(p.append(more), n) == run(p, n).append(more) || (run(p, n) == ParserView::failed()
            && run(p.append(more), n) == ParserView::failed()),
    decreases n,
{
    if n > 0 {
        let m = (n - 1) as nat;
        assert(fed_in_time(p, m)) by {
            assert forall|i: nat| i < m implies shortfall(#[trigger] run(p, i)) == 0 by {
                assert(i < n);
            }
        }
        lemma_fed_in_time(p, more, m);
        let q = run(p, m);
        let fed = run(p.append(more), m);
        assert(shortfall(q) == 0);
        lemma_step_fails_or_succeeds(q);
        if fed == q.append(more) {
            lemma_step_with_more(q, more);
        } else {
            lemma_failure_is_final(q, 1);
        }
    }
}

} // verus!
