use serde_nbt::nbt;
use serde_nbt::nbt::parser::{check_list_len, Parser, ParserState, ValueType};
use serde_nbt::Error;

/// Advances `parser` until it fails and gives the kinds of the events on the
/// way, with the error that ended the walk.
fn walk(parser: &mut Parser) -> (Vec<ValueType>, Error) {
    let mut kinds = Vec::new();
    loop {
        match parser.next() {
            Ok(()) => kinds.push(parser.get_value_type()),
            Err(e) => return (kinds, e),
        }
    }
}

fn kinds_of(bytes: &[u8]) -> (Vec<ValueType>, Error) {
    let mut parser = Parser::new(bytes.to_vec());
    walk(&mut parser)
}

#[test]
fn tag_identifiers_and_limit() {
    assert_eq!(nbt::TAG_END, 0);
    assert_eq!(nbt::TAG_I8, 1);
    assert_eq!(nbt::TAG_I16, 2);
    assert_eq!(nbt::TAG_I32, 3);
    assert_eq!(nbt::TAG_I64, 4);
    assert_eq!(nbt::TAG_F32, 5);
    assert_eq!(nbt::TAG_F64, 6);
    assert_eq!(nbt::TAG_I8_ARRAY, 7);
    assert_eq!(nbt::TAG_STRING, 8);
    assert_eq!(nbt::TAG_LIST, 9);
    assert_eq!(nbt::TAG_COMPOUND, 10);
    assert_eq!(nbt::TAG_I32_ARRAY, 11);
    assert_eq!(nbt::TAG_I64_ARRAY, 12);
    assert_eq!(nbt::LIST_MAX_LEN, 2_147_483_639);
}

#[test]
fn new_parser_stands_on_nothing() {
    let parser = Parser::new(vec![1, 0, 0, 0x11]);
    assert_eq!(parser.get_value_type(), ValueType::Invalid);
    assert_eq!(*parser.state(), ParserState::ExpectingTag);
}

#[test]
fn scalar_i8_then_eof() {
    let mut parser = Parser::new(b"\x01\x00\x00\x11".to_vec());
    assert_eq!(parser.next(), Ok(()));
    assert_eq!(parser.get_value_type(), ValueType::String);
    assert_eq!(parser.get_string_value().unwrap(), "");
    assert_eq!(parser.next(), Ok(()));
    assert_eq!(parser.get_value_type(), ValueType::I8);
    assert_eq!(parser.get_i8_value(), Ok(17));
    assert_eq!(parser.next(), Err(Error::Eof));
}

#[test]
fn scalar_i64_events() {
    let mut parser = Parser::new(b"\x04\x00\x00\x11\x22\x33\x44\x55\x66\x77\x88".to_vec());
    assert_eq!(parser.next(), Ok(()));
    assert_eq!(parser.get_value_type(), ValueType::String);
    assert_eq!(parser.get_string_value().unwrap(), "");
    assert_eq!(parser.next(), Ok(()));
    assert_eq!(parser.get_value_type(), ValueType::I64);
    assert_eq!(parser.get_i64_value(), Ok(0x1122334455667788));
}

#[test]
fn string_tag_events() {
    let mut parser = Parser::new(b"\x08\x00\x08tag name\x00\x0dHello, World!".to_vec());
    assert_eq!(parser.next(), Ok(()));
    assert_eq!(parser.get_value_type(), ValueType::String);
    assert_eq!(parser.get_string_value().unwrap(), "tag name");
    assert_eq!(parser.next(), Ok(()));
    assert_eq!(parser.get_value_type(), ValueType::String);
    assert_eq!(parser.get_string_value().unwrap(), "Hello, World!");
    assert_eq!(parser.next(), Err(Error::Eof));
}

#[test]
fn empty_compound_events() {
    let (kinds, end) = kinds_of(b"\x0a\x00\x00\x00");
    assert_eq!(kinds, vec![ValueType::String, ValueType::MapBegin, ValueType::MapEnd]);
    assert_eq!(end, Error::Eof);
}

#[test]
fn triple_nested_compound_events() {
    let mut parser =
        Parser::new(b"\x0a\x00\x05outer\x0a\x00\x03mid\x0a\x00\x05inner\x00\x00\x00".to_vec());
    assert_eq!(parser.next(), Ok(()));
    assert_eq!(parser.get_string_value().unwrap(), "outer");
    assert_eq!(parser.next(), Ok(()));
    assert_eq!(parser.get_value_type(), ValueType::MapBegin);
    assert_eq!(parser.next(), Ok(()));
    assert_eq!(parser.get_string_value().unwrap(), "mid");
    assert_eq!(parser.next(), Ok(()));
    assert_eq!(parser.get_value_type(), ValueType::MapBegin);
    assert_eq!(parser.next(), Ok(()));
    assert_eq!(parser.get_string_value().unwrap(), "inner");
    assert_eq!(parser.next(), Ok(()));
    assert_eq!(parser.get_value_type(), ValueType::MapBegin);
    assert_eq!(parser.next(), Ok(()));
    assert_eq!(parser.get_value_type(), ValueType::MapEnd);
    assert_eq!(parser.next(), Ok(()));
    assert_eq!(parser.get_value_type(), ValueType::MapEnd);
    assert_eq!(parser.next(), Ok(()));
    assert_eq!(parser.get_value_type(), ValueType::MapEnd);
    assert_eq!(parser.next(), Err(Error::Eof));
}

#[test]
fn empty_i8_array_events() {
    let (kinds, end) = kinds_of(b"\x07\x00\x00\x00\x00\x00\x00");
    assert_eq!(kinds, vec![ValueType::String, ValueType::SeqBegin, ValueType::SeqEnd]);
    assert_eq!(end, Error::Eof);
}

#[test]
fn empty_i32_and_i64_array_events() {
    let (kinds, _) = kinds_of(b"\x0b\x00\x00\x00\x00\x00\x00");
    assert_eq!(kinds, vec![ValueType::String, ValueType::SeqBegin, ValueType::SeqEnd]);
    let (kinds, _) = kinds_of(b"\x0c\x00\x00\x00\x00\x00\x00");
    assert_eq!(kinds, vec![ValueType::String, ValueType::SeqBegin, ValueType::SeqEnd]);
}

#[test]
fn empty_list_ignores_element_kind() {
    // an empty list of `TAG_I8`
    let (kinds, end) = kinds_of(b"\x09\x00\x00\x01\x00\x00\x00\x00");
    assert_eq!(kinds, vec![ValueType::String, ValueType::SeqBegin, ValueType::SeqEnd]);
    assert_eq!(end, Error::Eof);
    // an empty list of `TAG_END`, and one of a kind that does not exist
    let (kinds, _) = kinds_of(b"\x09\x00\x00\x00\x00\x00\x00\x00");
    assert_eq!(kinds, vec![ValueType::String, ValueType::SeqBegin, ValueType::SeqEnd]);
    let (kinds, _) = kinds_of(b"\x09\x00\x00\x63\x00\x00\x00\x00");
    assert_eq!(kinds, vec![ValueType::String, ValueType::SeqBegin, ValueType::SeqEnd]);
}

#[test]
fn negative_numbers_are_twos_complement() {
    let mut parser = Parser::new(vec![1, 0, 0, 0xff]);
    parser.next().unwrap();
    parser.next().unwrap();
    assert_eq!(parser.get_i8_value(), Ok(-1));

    let mut parser = Parser::new(vec![1, 0, 0, 0x80]);
    parser.next().unwrap();
    parser.next().unwrap();
    assert_eq!(parser.get_i8_value(), Ok(-128));

    let mut parser = Parser::new(vec![2, 0, 0, 0xff, 0xfe]);
    parser.next().unwrap();
    parser.next().unwrap();
    assert_eq!(parser.get_i16_value(), Ok(-2));

    let mut parser = Parser::new(vec![3, 0, 0, 0x80, 0, 0, 0]);
    parser.next().unwrap();
    parser.next().unwrap();
    assert_eq!(parser.get_i32_value(), Ok(i32::MIN));

    let mut parser = Parser::new(vec![4, 0, 0, 0xff, 0xff, 0xff, 0xff, 0xff, 0xff, 0xff, 0xfd]);
    parser.next().unwrap();
    parser.next().unwrap();
    assert_eq!(parser.get_i64_value(), Ok(-3));
}

#[test]
fn numbers_are_big_endian() {
    let mut parser = Parser::new(vec![2, 0, 0, 0x01, 0x02]);
    parser.next().unwrap();
    parser.next().unwrap();
    assert_eq!(parser.get_i16_value(), Ok(258));

    let mut parser = Parser::new(vec![3, 0, 0, 0, 0, 0x01, 0x00]);
    parser.next().unwrap();
    parser.next().unwrap();
    assert_eq!(parser.get_i32_value(), Ok(256));
}

#[test]
fn floats_keep_their_bits() {
    // 1.5 as binary32 is 0x3fc00000
    let mut parser = Parser::new(vec![5, 0, 0, 0x3f, 0xc0, 0, 0]);
    parser.next().unwrap();
    parser.next().unwrap();
    assert_eq!(parser.get_value_type(), ValueType::F32);
    assert_eq!(parser.get_f32_value(), Ok(0x3fc0_0000));
    assert_eq!(f32::from_bits(parser.get_f32_value().unwrap()), 1.5f32);

    // -2.0 as binary64 is 0xc000000000000000
    let mut parser = Parser::new(vec![6, 0, 0, 0xc0, 0, 0, 0, 0, 0, 0, 0]);
    parser.next().unwrap();
    parser.next().unwrap();
    assert_eq!(parser.get_value_type(), ValueType::F64);
    assert_eq!(parser.get_f64_value(), Ok(0xc000_0000_0000_0000));
    assert_eq!(f64::from_bits(parser.get_f64_value().unwrap()), -2.0f64);
}

#[test]
fn string_length_is_sixteen_bits_big_endian() {
    // a name of 0x0101 = 257 bytes
    let mut bytes = vec![1u8, 0x01, 0x01];
    bytes.extend(std::iter::repeat(b'a').take(257));
    bytes.push(7);
    let mut parser = Parser::new(bytes);
    assert_eq!(parser.next(), Ok(()));
    assert_eq!(parser.get_string_value().unwrap().len(), 257);
    assert_eq!(parser.next(), Ok(()));
    assert_eq!(parser.get_i8_value(), Ok(7));
}

#[test]
fn text_is_decoded_as_utf8() {
    // "é" is c3 a9, "€" is e2 82 ac
    let mut parser = Parser::new(b"\x08\x00\x02\xc3\xa9\x00\x03\xe2\x82\xac".to_vec());
    assert_eq!(parser.next(), Ok(()));
    assert_eq!(parser.get_string_value().unwrap(), "\u{e9}");
    assert_eq!(parser.next(), Ok(()));
    assert_eq!(parser.get_string_value().unwrap(), "\u{20ac}");
}

#[test]
fn exactly_one_accessor_per_scalar() {
    let mut parser = Parser::new(b"\x02\x00\x01x\x00\x05".to_vec());
    parser.next().unwrap();
    // on the name only the string accessor succeeds
    assert_eq!(parser.get_string_value().unwrap(), "x");
    assert_eq!(parser.get_i8_value(), Err(Error::InvalidTagTypeError));
    assert_eq!(parser.get_i16_value(), Err(Error::InvalidTagTypeError));
    assert_eq!(parser.get_i32_value(), Err(Error::InvalidTagTypeError));
    assert_eq!(parser.get_i64_value(), Err(Error::InvalidTagTypeError));
    assert_eq!(parser.get_f32_value(), Err(Error::InvalidTagTypeError));
    assert_eq!(parser.get_f64_value(), Err(Error::InvalidTagTypeError));
    parser.next().unwrap();
    // on the value only the accessor of its type succeeds
    assert_eq!(parser.get_i16_value(), Ok(5));
    assert_eq!(parser.get_string_value(), Err(Error::InvalidTagTypeError));
    assert_eq!(parser.get_i8_value(), Err(Error::InvalidTagTypeError));
    assert_eq!(parser.get_i32_value(), Err(Error::InvalidTagTypeError));
    assert_eq!(parser.get_i64_value(), Err(Error::InvalidTagTypeError));
    assert_eq!(parser.get_f32_value(), Err(Error::InvalidTagTypeError));
    assert_eq!(parser.get_f64_value(), Err(Error::InvalidTagTypeError));
}

#[test]
fn no_accessor_on_container_events() {
    let mut parser = Parser::new(b"\x0a\x00\x00\x00".to_vec());
    parser.next().unwrap();
    parser.next().unwrap();
    assert_eq!(parser.get_value_type(), ValueType::MapBegin);
    assert_eq!(parser.get_string_value(), Err(Error::InvalidTagTypeError));
    assert_eq!(parser.get_i8_value(), Err(Error::InvalidTagTypeError));
    parser.next().unwrap();
    assert_eq!(parser.get_value_type(), ValueType::MapEnd);
    assert_eq!(parser.get_string_value(), Err(Error::InvalidTagTypeError));
    assert_eq!(parser.get_i64_value(), Err(Error::InvalidTagTypeError));
}

#[test]
fn accessors_do_not_move_the_parser() {
    let mut parser = Parser::new(b"\x01\x00\x00\x11".to_vec());
    parser.next().unwrap();
    parser.next().unwrap();
    assert_eq!(parser.get_i8_value(), Ok(0x11));
    assert_eq!(parser.get_i16_value(), Err(Error::InvalidTagTypeError));
    assert_eq!(parser.get_i8_value(), Ok(0x11));
    assert_eq!(*parser.state(), ParserState::TagValueI8 { value: 0x11 });
}

#[test]
fn i8_array_gives_its_elements() {
    // `"": [B; 1, -1, 127]`
    let mut parser = Parser::new(b"\x07\x00\x00\x00\x00\x00\x03\x01\xff\x7f".to_vec());
    parser.next().unwrap();
    parser.next().unwrap();
    assert_eq!(*parser.state(), ParserState::I8Array { len: 3 });
    assert_eq!(parser.get_value_type(), ValueType::SeqBegin);
    parser.next().unwrap();
    assert_eq!(*parser.state(), ParserState::I8ArrayValue { remaining: 2, value: 1 });
    assert_eq!(parser.get_i8_value(), Ok(1));
    parser.next().unwrap();
    assert_eq!(parser.get_i8_value(), Ok(-1));
    parser.next().unwrap();
    assert_eq!(*parser.state(), ParserState::I8ArrayValue { remaining: 0, value: 127 });
    parser.next().unwrap();
    assert_eq!(*parser.state(), ParserState::I8ArrayEnd);
    assert_eq!(parser.get_value_type(), ValueType::SeqEnd);
    assert_eq!(parser.next(), Err(Error::Eof));
}

#[test]
fn i32_and_i64_arrays_give_their_elements() {
    let mut parser =
        Parser::new(b"\x0b\x00\x00\x00\x00\x00\x02\x00\x00\x00\x07\xff\xff\xff\xff".to_vec());
    parser.next().unwrap();
    parser.next().unwrap();
    assert_eq!(*parser.state(), ParserState::I32Array { len: 2 });
    parser.next().unwrap();
    assert_eq!(parser.get_value_type(), ValueType::I32);
    assert_eq!(parser.get_i32_value(), Ok(7));
    parser.next().unwrap();
    assert_eq!(parser.get_i32_value(), Ok(-1));
    parser.next().unwrap();
    assert_eq!(*parser.state(), ParserState::I32ArrayEnd);

    let mut parser =
        Parser::new(b"\x0c\x00\x00\x00\x00\x00\x01\x00\x00\x00\x00\x00\x00\x01\x00".to_vec());
    parser.next().unwrap();
    parser.next().unwrap();
    assert_eq!(*parser.state(), ParserState::I64Array { len: 1 });
    parser.next().unwrap();
    assert_eq!(parser.get_value_type(), ValueType::I64);
    assert_eq!(parser.get_i64_value(), Ok(256));
    parser.next().unwrap();
    assert_eq!(*parser.state(), ParserState::I64ArrayEnd);
}

#[test]
fn list_of_three_gives_three_elements() {
    // `"": [1s, 2s, 3s]`
    let (kinds, end) = kinds_of(b"\x09\x00\x00\x02\x00\x00\x00\x03\x00\x01\x00\x02\x00\x03");
    assert_eq!(
        kinds,
        vec![
            ValueType::String,
            ValueType::SeqBegin,
            ValueType::I16,
            ValueType::I16,
            ValueType::I16,
            ValueType::SeqEnd,
        ]
    );
    assert_eq!(end, Error::Eof);
}

#[test]
fn list_of_scalars_of_each_kind() {
    let mut parser = Parser::new(b"\x09\x00\x00\x01\x00\x00\x00\x01\x05".to_vec());
    parser.next().unwrap();
    parser.next().unwrap();
    parser.next().unwrap();
    assert_eq!(*parser.state(), ParserState::ListValueI8 { remaining: 0, value: 5 });

    let mut parser = Parser::new(b"\x09\x00\x00\x03\x00\x00\x00\x01\x00\x00\x00\x05".to_vec());
    parser.next().unwrap();
    parser.next().unwrap();
    parser.next().unwrap();
    assert_eq!(*parser.state(), ParserState::ListValueI32 { remaining: 0, value: 5 });

    let mut parser =
        Parser::new(b"\x09\x00\x00\x04\x00\x00\x00\x01\x00\x00\x00\x00\x00\x00\x00\x05".to_vec());
    parser.next().unwrap();
    parser.next().unwrap();
    parser.next().unwrap();
    assert_eq!(*parser.state(), ParserState::ListValueI64 { remaining: 0, value: 5 });

    let mut parser = Parser::new(b"\x09\x00\x00\x05\x00\x00\x00\x01\x3f\x80\x00\x00".to_vec());
    parser.next().unwrap();
    parser.next().unwrap();
    parser.next().unwrap();
    assert_eq!(*parser.state(), ParserState::ListValueF32 { remaining: 0, value: 1.0f32.to_bits() });
    assert_eq!(parser.get_f32_value(), Ok(1.0f32.to_bits()));

    let mut parser =
        Parser::new(b"\x09\x00\x00\x06\x00\x00\x00\x01\x3f\xf0\x00\x00\x00\x00\x00\x00".to_vec());
    parser.next().unwrap();
    parser.next().unwrap();
    parser.next().unwrap();
    assert_eq!(*parser.state(), ParserState::ListValueF64 { remaining: 0, value: 1.0f64.to_bits() });
    assert_eq!(parser.get_f64_value(), Ok(1.0f64.to_bits()));

    let mut parser = Parser::new(b"\x09\x00\x00\x08\x00\x00\x00\x02\x00\x01a\x00\x02bc".to_vec());
    parser.next().unwrap();
    parser.next().unwrap();
    parser.next().unwrap();
    assert_eq!(
        *parser.state(),
        ParserState::ListValueString { remaining: 1, value: "a".to_string() }
    );
    parser.next().unwrap();
    assert_eq!(parser.get_string_value().unwrap(), "bc");
    parser.next().unwrap();
    assert_eq!(*parser.state(), ParserState::ListEnd);
}

#[test]
fn list_of_compounds_returns_to_the_list() {
    // `"": [{"a": 1b}, {}]`
    let (kinds, end) = kinds_of(b"\x09\x00\x00\x0a\x00\x00\x00\x02\x01\x00\x01a\x01\x00\x00");
    assert_eq!(
        kinds,
        vec![
            ValueType::String,
            ValueType::SeqBegin,
            ValueType::MapBegin,
            ValueType::String,
            ValueType::I8,
            ValueType::MapEnd,
            ValueType::MapBegin,
            ValueType::MapEnd,
            ValueType::SeqEnd,
        ]
    );
    assert_eq!(end, Error::Eof);
}

#[test]
fn list_of_lists_returns_to_the_list() {
    // `"": [[1b], []]`
    let (kinds, end) =
        kinds_of(b"\x09\x00\x00\x09\x00\x00\x00\x02\x01\x00\x00\x00\x01\x07\x00\x00\x00\x00\x00");
    assert_eq!(
        kinds,
        vec![
            ValueType::String,
            ValueType::SeqBegin,
            ValueType::SeqBegin,
            ValueType::I8,
            ValueType::SeqEnd,
            ValueType::SeqBegin,
            ValueType::SeqEnd,
            ValueType::SeqEnd,
        ]
    );
    assert_eq!(end, Error::Eof);
}

#[test]
fn list_of_arrays_returns_to_the_list() {
    // two arrays of bytes, then two of 32-bit and one of 64-bit integers
    let (kinds, end) =
        kinds_of(b"\x09\x00\x00\x07\x00\x00\x00\x02\x00\x00\x00\x01\x09\x00\x00\x00\x00");
    assert_eq!(
        kinds,
        vec![
            ValueType::String,
            ValueType::SeqBegin,
            ValueType::SeqBegin,
            ValueType::I8,
            ValueType::SeqEnd,
            ValueType::SeqBegin,
            ValueType::SeqEnd,
            ValueType::SeqEnd,
        ]
    );
    assert_eq!(end, Error::Eof);

    let (kinds, end) = kinds_of(
        b"\x09\x00\x00\x0b\x00\x00\x00\x02\x00\x00\x00\x01\x00\x00\x00\x09\x00\x00\x00\x00",
    );
    assert_eq!(
        kinds,
        vec![
            ValueType::String,
            ValueType::SeqBegin,
            ValueType::SeqBegin,
            ValueType::I32,
            ValueType::SeqEnd,
            ValueType::SeqBegin,
            ValueType::SeqEnd,
            ValueType::SeqEnd,
        ]
    );
    assert_eq!(end, Error::Eof);

    let (kinds, end) = kinds_of(
        b"\x09\x00\x00\x0c\x00\x00\x00\x01\x00\x00\x00\x01\x00\x00\x00\x00\x00\x00\x00\x09",
    );
    assert_eq!(
        kinds,
        vec![
            ValueType::String,
            ValueType::SeqBegin,
            ValueType::SeqBegin,
            ValueType::I64,
            ValueType::SeqEnd,
            ValueType::SeqEnd,
        ]
    );
    assert_eq!(end, Error::Eof);
}

#[test]
fn compound_with_members_of_many_kinds() {
    // `"r": {"b": 1b, "l": [I; 2], "c": {"s": "x"}, "n": [2s]}`
    let mut bytes = Vec::new();
    bytes.extend_from_slice(b"\x0a\x00\x01r");
    bytes.extend_from_slice(b"\x01\x00\x01b\x01");
    bytes.extend_from_slice(b"\x0b\x00\x01l\x00\x00\x00\x01\x00\x00\x00\x02");
    bytes.extend_from_slice(b"\x0a\x00\x01c\x08\x00\x01s\x00\x01x\x00");
    bytes.extend_from_slice(b"\x09\x00\x01n\x02\x00\x00\x00\x01\x00\x02");
    bytes.push(0);
    let (kinds, end) = kinds_of(&bytes);
    assert_eq!(
        kinds,
        vec![
            ValueType::String,
            ValueType::MapBegin,
            ValueType::String,
            ValueType::I8,
            ValueType::String,
            ValueType::SeqBegin,
            ValueType::I32,
            ValueType::SeqEnd,
            ValueType::String,
            ValueType::MapBegin,
            ValueType::String,
            ValueType::String,
            ValueType::MapEnd,
            ValueType::String,
            ValueType::SeqBegin,
            ValueType::I16,
            ValueType::SeqEnd,
            ValueType::MapEnd,
        ]
    );
    assert_eq!(end, Error::Eof);
}

#[test]
fn eof_only_at_the_top_level() {
    // nothing at all: the input ends where a document may end
    assert_eq!(kinds_of(b""), (vec![], Error::Eof));
    // a compound that is never closed
    let (kinds, end) = kinds_of(b"\x0a\x00\x00");
    assert_eq!(kinds, vec![ValueType::String, ValueType::MapBegin]);
    assert_eq!(end, Error::InvalidParserStateError);
}

#[test]
fn truncated_input_is_a_framing_error() {
    // the name is cut short
    assert_eq!(kinds_of(b"\x01\x00\x05ab"), (vec![], Error::InvalidParserStateError));
    // the length of the name is cut short
    assert_eq!(kinds_of(b"\x01\x00"), (vec![], Error::InvalidParserStateError));
    // the value is missing
    assert_eq!(
        kinds_of(b"\x03\x00\x00\x11\x22"),
        (vec![ValueType::String], Error::InvalidParserStateError)
    );
    // the list header is cut short
    assert_eq!(
        kinds_of(b"\x09\x00\x00\x01\x00\x00"),
        (vec![ValueType::String], Error::InvalidParserStateError)
    );
    // an element of an array is missing
    assert_eq!(
        kinds_of(b"\x07\x00\x00\x00\x00\x00\x02\x01"),
        (
            vec![ValueType::String, ValueType::SeqBegin, ValueType::I8],
            Error::InvalidParserStateError
        )
    );
}

#[test]
fn unknown_tag_identifier_is_rejected() {
    let mut parser = Parser::new(b"\x0d\x00\x00\x00".to_vec());
    assert_eq!(parser.next(), Ok(()));
    assert_eq!(*parser.state(), ParserState::TagHeader { value_type: 13, name: "".to_string() });
    assert_eq!(parser.next(), Err(Error::InvalidTagTypeError));
    assert_eq!(*parser.state(), ParserState::InvalidState);
}

#[test]
fn unknown_element_kind_is_a_framing_error() {
    // a list of one element with an identifier that is not defined, and one of `TAG_END`
    assert_eq!(
        kinds_of(b"\x09\x00\x00\x0d\x00\x00\x00\x01\x00"),
        (vec![ValueType::String, ValueType::SeqBegin], Error::InvalidParserStateError)
    );
    assert_eq!(
        kinds_of(b"\x09\x00\x00\x00\x00\x00\x00\x01\x00"),
        (vec![ValueType::String, ValueType::SeqBegin], Error::InvalidParserStateError)
    );
}

#[test]
fn invalid_utf8_is_reported() {
    // in a name
    assert_eq!(kinds_of(b"\x01\x00\x01\xff\x00"), (vec![], Error::FromUtf8Error));
    // in a value: a lone continuation byte
    assert_eq!(
        kinds_of(b"\x08\x00\x00\x00\x01\x80"),
        (vec![ValueType::String], Error::FromUtf8Error)
    );
    // the six-byte form of a supplementary character is not UTF-8
    assert_eq!(
        kinds_of(b"\x08\x00\x00\x00\x06\xed\xa0\xbd\xed\xb8\x80"),
        (vec![ValueType::String], Error::FromUtf8Error)
    );
}

#[test]
fn length_out_of_range_is_a_framing_error() {
    // -1 as the length of an array, of a list, of a list in a list
    assert_eq!(
        kinds_of(b"\x07\x00\x00\xff\xff\xff\xff"),
        (vec![ValueType::String], Error::InvalidParserStateError)
    );
    assert_eq!(
        kinds_of(b"\x09\x00\x00\x01\xff\xff\xff\xff"),
        (vec![ValueType::String], Error::InvalidParserStateError)
    );
    assert_eq!(
        kinds_of(b"\x09\x00\x00\x09\x00\x00\x00\x01\x01\x80\x00\x00\x00"),
        (vec![ValueType::String, ValueType::SeqBegin], Error::InvalidParserStateError)
    );
    // 2147483640 = 0x7ffffff8 is one too many
    assert_eq!(
        kinds_of(b"\x0b\x00\x00\x7f\xff\xff\xf8"),
        (vec![ValueType::String], Error::InvalidParserStateError)
    );
    assert_eq!(
        kinds_of(b"\x0c\x00\x00\x7f\xff\xff\xff"),
        (vec![ValueType::String], Error::InvalidParserStateError)
    );
}

#[test]
fn largest_length_is_accepted() {
    // 2147483639 = 0x7ffffff7
    let mut parser = Parser::new(b"\x07\x00\x00\x7f\xff\xff\xf7\x01".to_vec());
    parser.next().unwrap();
    assert_eq!(parser.next(), Ok(()));
    assert_eq!(*parser.state(), ParserState::I8Array { len: 2_147_483_639 });
    assert_eq!(parser.next(), Ok(()));
    assert_eq!(*parser.state(), ParserState::I8ArrayValue { remaining: 2_147_483_638, value: 1 });
}

#[test]
fn check_list_len_bounds() {
    assert_eq!(check_list_len(0), Ok(0));
    assert_eq!(check_list_len(1), Ok(1));
    assert_eq!(check_list_len(2_147_483_639), Ok(2_147_483_639));
    assert_eq!(check_list_len(2_147_483_640), Err(Error::InvalidParserStateError));
    assert_eq!(check_list_len(i32::MAX), Err(Error::InvalidParserStateError));
    assert_eq!(check_list_len(-1), Err(Error::InvalidParserStateError));
    assert_eq!(check_list_len(i32::MIN), Err(Error::InvalidParserStateError));
}

#[test]
fn end_tag_at_the_top_level() {
    // the end of a compound that was never entered
    let mut parser = Parser::new(b"\x00".to_vec());
    assert_eq!(parser.next(), Ok(()));
    assert_eq!(*parser.state(), ParserState::TagEnd);
    assert_eq!(parser.get_value_type(), ValueType::MapEnd);
    // there is no frame to return to
    assert_eq!(parser.next(), Err(Error::InvalidParserStateError));
    assert_eq!(*parser.state(), ParserState::InvalidState);
}

#[test]
fn failure_is_final() {
    let mut parser = Parser::new(b"\x01\x00\x00\x11\x01\x00\x00\x12".to_vec());
    parser.next().unwrap();
    parser.next().unwrap();
    parser.next().unwrap();
    parser.next().unwrap();
    assert_eq!(parser.get_i8_value(), Ok(0x12));
    assert_eq!(parser.next(), Err(Error::Eof));
    assert_eq!(parser.get_value_type(), ValueType::Invalid);
    assert_eq!(*parser.state(), ParserState::InvalidState);
    assert_eq!(parser.next(), Err(Error::InvalidParserStateError));
    assert_eq!(parser.next(), Err(Error::InvalidParserStateError));
    assert_eq!(parser.get_i8_value(), Err(Error::InvalidTagTypeError));
}

#[test]
fn failure_in_the_middle_is_final() {
    let mut parser = Parser::new(b"\x0a\x00\x00\x07\x00\x00\xff\xff\xff\xff\x00".to_vec());
    parser.next().unwrap();
    parser.next().unwrap();
    parser.next().unwrap();
    assert_eq!(parser.next(), Err(Error::InvalidParserStateError));
    assert_eq!(parser.get_value_type(), ValueType::Invalid);
    assert_eq!(parser.next(), Err(Error::InvalidParserStateError));
}

#[test]
fn tags_may_follow_each_other_at_the_top_level() {
    let (kinds, end) = kinds_of(b"\x0a\x00\x00\x00\x01\x00\x00\x05");
    assert_eq!(
        kinds,
        vec![
            ValueType::String,
            ValueType::MapBegin,
            ValueType::MapEnd,
            ValueType::String,
            ValueType::I8,
        ]
    );
    assert_eq!(end, Error::Eof);
}

#[test]
fn deep_nesting_needs_no_recursion() {
    // 20000 lists, each the only element of the one before
    let depth = 20_000;
    let mut bytes = vec![9u8, 0, 0];
    for _ in 0..depth - 1 {
        bytes.extend_from_slice(&[9, 0, 0, 0, 1]);
    }
    bytes.extend_from_slice(&[1, 0, 0, 0, 0]);
    let (kinds, end) = kinds_of(&bytes);
    assert_eq!(end, Error::Eof);
    assert_eq!(kinds.len(), 1 + 2 * depth);
    assert_eq!(kinds[1], ValueType::SeqBegin);
    assert_eq!(kinds[depth], ValueType::SeqBegin);
    assert_eq!(kinds[depth + 1], ValueType::SeqEnd);
    assert_eq!(kinds[2 * depth], ValueType::SeqEnd);
}

#[test]
fn depth_limit_of_zero_lets_only_scalars_in() {
    let mut parser = Parser::with_max_depth(b"\x01\x00\x00\x11".to_vec(), 0);
    assert_eq!(parser.next(), Ok(()));
    assert_eq!(parser.next(), Ok(()));
    assert_eq!(parser.get_i8_value(), Ok(0x11));
    assert_eq!(parser.next(), Err(Error::Eof));

    let mut parser = Parser::with_max_depth(b"\x0a\x00\x00\x00".to_vec(), 0);
    assert_eq!(parser.next(), Ok(()));
    assert_eq!(parser.next(), Err(Error::InvalidParserStateError));
    assert_eq!(*parser.state(), ParserState::InvalidState);
    assert_eq!(parser.next(), Err(Error::InvalidParserStateError));
}

#[test]
fn depth_limit_counts_open_containers() {
    // `"": {"a": {"b": [[1b]]}}` nests four deep
    let document = b"\x0a\x00\x00\x0a\x00\x01a\x09\x00\x01b\x09\x00\x00\x00\x01\x01\x00\x00\x00\x01\x01\x00\x00";
    let all = vec![
        ValueType::String,
        ValueType::MapBegin,
        ValueType::String,
        ValueType::MapBegin,
        ValueType::String,
        ValueType::SeqBegin,
        ValueType::SeqBegin,
        ValueType::I8,
        ValueType::SeqEnd,
        ValueType::SeqEnd,
        ValueType::MapEnd,
        ValueType::MapEnd,
    ];
    assert_eq!(kinds_of(document), (all.clone(), Error::Eof));
    for limit in [4usize, 5, 1000] {
        let mut parser = Parser::with_max_depth(document.to_vec(), limit);
        assert_eq!(walk(&mut parser), (all.clone(), Error::Eof));
    }
    // with room for three the inner list is refused, with room for one the
    // inner compound
    let mut parser = Parser::with_max_depth(document.to_vec(), 3);
    assert_eq!(walk(&mut parser), (all[..6].to_vec(), Error::InvalidParserStateError));
    let mut parser = Parser::with_max_depth(document.to_vec(), 2);
    assert_eq!(walk(&mut parser), (all[..5].to_vec(), Error::InvalidParserStateError));
    let mut parser = Parser::with_max_depth(document.to_vec(), 1);
    assert_eq!(walk(&mut parser), (all[..3].to_vec(), Error::InvalidParserStateError));
}

#[test]
fn depth_limit_is_free_again_when_a_container_is_left() {
    // `"": [[], [], []]` never has more than two containers open
    let document = b"\x09\x00\x00\x09\x00\x00\x00\x03\x01\x00\x00\x00\x00\x01\x00\x00\x00\x00\x01\x00\x00\x00\x00";
    let mut parser = Parser::with_max_depth(document.to_vec(), 2);
    let (kinds, end) = walk(&mut parser);
    assert_eq!(end, Error::Eof);
    assert_eq!(kinds.len(), 9);
    // `"": [{}, {"a": [B;]}]`: arrays and compounds count like lists
    let document = b"\x09\x00\x00\x0a\x00\x00\x00\x02\x00\x07\x00\x01a\x00\x00\x00\x00\x00";
    let mut parser = Parser::with_max_depth(document.to_vec(), 3);
    let (kinds, end) = walk(&mut parser);
    assert_eq!(end, Error::Eof);
    assert_eq!(kinds.len(), 10);
    let mut parser = Parser::with_max_depth(document.to_vec(), 2);
    let (kinds, end) = walk(&mut parser);
    assert_eq!(end, Error::InvalidParserStateError);
    assert_eq!(
        kinds,
        vec![
            ValueType::String,
            ValueType::SeqBegin,
            ValueType::MapBegin,
            ValueType::MapEnd,
            ValueType::MapBegin,
            ValueType::String,
        ]
    );
    let mut parser = Parser::with_max_depth(document.to_vec(), 1);
    let (kinds, end) = walk(&mut parser);
    assert_eq!(end, Error::InvalidParserStateError);
    assert_eq!(kinds, vec![ValueType::String, ValueType::SeqBegin]);
}
