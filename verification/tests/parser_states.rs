use serde_nbt::nbt;
use serde_nbt::nbt::parser::{Parser, ParserState};

#[test]
fn test_parser_new() {
    let buffer: Vec<u8> = Vec::new();
    let parser = Parser::new(buffer);

    assert_eq!(*parser.state(), ParserState::ExpectingTag);
}

#[test]
fn test_i8_tag() {
    const EXPECTED_VALUE: i8 = 0x11;

    // `"": 17B` (0x11)
    let buffer = b"\x01\x00\x00\x11";
    let mut parser = Parser::new(buffer.to_vec());

    // initial parser state
    assert_eq!(*parser.state(), ParserState::ExpectingTag);

    // read the tag's header
    assert!(parser.next().is_ok());
    assert_eq!(
        *parser.state(),
        ParserState::TagHeader { value_type: nbt::TAG_I8, name: "".to_string() }
    );
    assert_eq!(parser.get_string_value().unwrap(), "");

    // read the tag's value
    assert!(parser.next().is_ok());
    assert_eq!(*parser.state(), ParserState::TagValueI8 { value: EXPECTED_VALUE });
    assert_eq!(parser.get_i8_value().unwrap(), EXPECTED_VALUE);
}

#[test]
fn test_i16_tag() {
    const EXPECTED_VALUE: i16 = 0x1122;

    // `"": 4386S` (0x1122)
    let buffer = b"\x02\x00\x00\x11\x22";
    let mut parser = Parser::new(buffer.to_vec());

    // initial parser state
    assert_eq!(*parser.state(), ParserState::ExpectingTag);

    // read the tag's header
    assert!(parser.next().is_ok());
    assert_eq!(
        *parser.state(),
        ParserState::TagHeader { value_type: nbt::TAG_I16, name: "".to_string() }
    );
    assert_eq!(parser.get_string_value().unwrap(), "");

    // read the tag's value
    assert!(parser.next().is_ok());
    assert_eq!(*parser.state(), ParserState::TagValueI16 { value: EXPECTED_VALUE });
    assert_eq!(parser.get_i16_value().unwrap(), EXPECTED_VALUE);
}

#[test]
fn test_i32_tag() {
    const EXPECTED_VALUE: i32 = 0x11223344;

    // `"": 287454020` (0x11223344)
    let buffer = b"\x03\x00\x00\x11\x22\x33\x44";
    let mut parser = Parser::new(buffer.to_vec());

    // initial parser state
    assert_eq!(*parser.state(), ParserState::ExpectingTag);

    // read the tag's header
    assert!(parser.next().is_ok());
    assert_eq!(
        *parser.state(),
        ParserState::TagHeader { value_type: nbt::TAG_I32, name: "".to_string() }
    );
    assert_eq!(parser.get_string_value().unwrap(), "");

    // read the tag's value
    assert!(parser.next().is_ok());
    assert_eq!(*parser.state(), ParserState::TagValueI32 { value: EXPECTED_VALUE });
    assert_eq!(parser.get_i32_value().unwrap(), EXPECTED_VALUE);
}

#[test]
fn test_i64_tag() {
    const EXPECTED_VALUE: i64 = 0x1122334455667788;

    // `"": 1234605616436508552L` (0x1122334455667788)
    let buffer = b"\x04\x00\x00\x11\x22\x33\x44\x55\x66\x77\x88";
    let mut parser = Parser::new(buffer.to_vec());

    // initial parser state
    assert_eq!(*parser.state(), ParserState::ExpectingTag);

    // read the tag's header
    assert!(parser.next().is_ok());
    assert_eq!(
        *parser.state(),
        ParserState::TagHeader { value_type: nbt::TAG_I64, name: "".to_string() }
    );
    assert_eq!(parser.get_string_value().unwrap(), "");

    // read the tag's value
    assert!(parser.next().is_ok());
    assert_eq!(*parser.state(), ParserState::TagValueI64 { value: EXPECTED_VALUE });
    assert_eq!(parser.get_i64_value().unwrap(), EXPECTED_VALUE);
}

#[test]
fn test_f32_tag() {
    const EXPECTED_VALUE: f32 = 0.0;

    // `"": 0F`
    let buffer = b"\x05\x00\x00\x00\x00\x00\x00";
    let mut parser = Parser::new(buffer.to_vec());

    assert_eq!(*parser.state(), ParserState::ExpectingTag);

    // read the tag's header
    assert!(parser.next().is_ok());
    assert_eq!(
        *parser.state(),
        ParserState::TagHeader { value_type: nbt::TAG_F32, name: "".to_string() }
    );
    assert_eq!(parser.get_string_value().unwrap(), "");

    // read the tag's value
    assert!(parser.next().is_ok());
    assert_eq!(*parser.state(), ParserState::TagValueF32 { value: EXPECTED_VALUE.to_bits() });
    assert_eq!(f32::from_bits(parser.get_f32_value().unwrap()), EXPECTED_VALUE);
}

#[test]
fn test_f64_tag() {
    const EXPECTED_VALUE: f64 = 0.0;

    // `"": 0D`
    let buffer = b"\x06\x00\x00\x00\x00\x00\x00\x00\x00\x00\x00";
    let mut parser = Parser::new(buffer.to_vec());

    // initial parser state
    assert_eq!(*parser.state(), ParserState::ExpectingTag);

    // read the tag's header
    assert!(parser.next().is_ok());
    assert_eq!(
        *parser.state(),
        ParserState::TagHeader { value_type: nbt::TAG_F64, name: "".to_string() }
    );
    assert_eq!(parser.get_string_value().unwrap(), "");

    // read the tag's value
    assert!(parser.next().is_ok());
    assert_eq!(*parser.state(), ParserState::TagValueF64 { value: EXPECTED_VALUE.to_bits() });
    assert_eq!(f64::from_bits(parser.get_f64_value().unwrap()), EXPECTED_VALUE);
}

#[test]
fn test_string_tag() {
    let tag_name = "tag name".to_string();
    let expected_value = "Hello, World!".to_string();

    // `"tag name": "Hello, World!"`
    let buffer = b"\x08\x00\x08tag name\x00\x0dHello, World!";
    let mut parser = Parser::new(buffer.to_vec());

    // initial parser state
    assert_eq!(*parser.state(), ParserState::ExpectingTag);

    // read the tag's header
    assert!(parser.next().is_ok());
    assert_eq!(
        *parser.state(),
        ParserState::TagHeader { value_type: nbt::TAG_STRING, name: tag_name.clone() }
    );
    assert_eq!(parser.get_string_value().unwrap(), tag_name);

    // read the tag's value
    assert!(parser.next().is_ok());
    assert_eq!(*parser.state(), ParserState::TagValueString { value: expected_value.clone() });
    assert_eq!(parser.get_string_value().unwrap(), expected_value);
}

#[test]
fn test_empty_compound_tag() {
    // `"": {}`
    let buffer = b"\x0a\x00\x00\x00";
    let mut parser = Parser::new(buffer.to_vec());

    // initial parser state
    assert_eq!(*parser.state(), ParserState::ExpectingTag);

    // read the tag's header
    assert!(parser.next().is_ok());
    assert_eq!(
        *parser.state(),
        ParserState::TagHeader { value_type: nbt::TAG_COMPOUND, name: "".to_string() }
    );
    assert_eq!(parser.get_string_value().unwrap(), "");

    // enter into the `TAG_COMPOUND`
    assert!(parser.next().is_ok());
    assert_eq!(*parser.state(), ParserState::Compound);

    // read the end marker for the empty tag
    assert!(parser.next().is_ok());
    assert_eq!(*parser.state(), ParserState::TagEnd);
}

#[test]
fn test_nested_compound_tags() {
    let outer_name = "outer".to_string();
    let inner_name = "inner".to_string();

    // `"outer": {"inner": {}}`
    let buffer = b"\x0a\x00\x05outer\x0a\x00\x05inner\x00\x00";
    let mut parser = Parser::new(buffer.to_vec());

    // initial parser state
    assert_eq!(*parser.state(), ParserState::ExpectingTag);

    // read the outer tag's header
    assert!(parser.next().is_ok());
    assert_eq!(
        *parser.state(),
        ParserState::TagHeader { value_type: nbt::TAG_COMPOUND, name: outer_name.clone() }
    );
    assert_eq!(parser.get_string_value().unwrap(), outer_name);

    // enter into the outer `TAG_COMPOUND`
    assert!(parser.next().is_ok());

    // read the inner tag
    assert!(parser.next().is_ok());
    assert_eq!(
        *parser.state(),
        ParserState::TagHeader { value_type: nbt::TAG_COMPOUND, name: inner_name.clone() }
    );
    assert_eq!(parser.get_string_value().unwrap(), inner_name);

    // enter into the inner `TAG_COMPOUND`
    assert!(parser.next().is_ok());

    // read the inner tag's end marker
    assert!(parser.next().is_ok());
    assert_eq!(*parser.state(), ParserState::TagEnd);

    // read the outer tag's `TAG_END`
    assert!(parser.next().is_ok());
    assert_eq!(*parser.state(), ParserState::TagEnd);
}

#[test]
fn test_triple_nested_compound_tags() {
    let outer_name = "outer".to_string();
    let mid_name = "mid".to_string();
    let inner_name = "inner".to_string();

    // `"outer": {"mid": {"inner": {}}}`
    let buffer = b"\x0a\x00\x05outer\x0a\x00\x03mid\x0a\x00\x05inner\x00\x00\x00";
    let mut parser = Parser::new(buffer.to_vec());

    // initial parser state
    assert_eq!(*parser.state(), ParserState::ExpectingTag);

    // read the outer tag's header
    assert!(parser.next().is_ok());
    assert_eq!(
        *parser.state(),
        ParserState::TagHeader { value_type: nbt::TAG_COMPOUND, name: outer_name.clone() }
    );
    assert_eq!(parser.get_string_value().unwrap(), outer_name);

    // enter into the outer `TAG_COMPOUND`
    assert!(parser.next().is_ok());

    // read the middle tag
    assert!(parser.next().is_ok());
    assert_eq!(
        *parser.state(),
        ParserState::TagHeader { value_type: nbt::TAG_COMPOUND, name: mid_name.clone() }
    );
    assert_eq!(parser.get_string_value().unwrap(), mid_name);

    // enter into the middle TAG_COMPOUND
    assert!(parser.next().is_ok());

    // read the inner tag
    assert!(parser.next().is_ok());
    assert_eq!(
        *parser.state(),
        ParserState::TagHeader { value_type: nbt::TAG_COMPOUND, name: inner_name.clone() }
    );
    assert_eq!(parser.get_string_value().unwrap(), inner_name);

    // enter into the inner `TAG_COMPOUND`
    assert!(parser.next().is_ok());

    // read the inner tag's end marker
    assert!(parser.next().is_ok());
    assert_eq!(*parser.state(), ParserState::TagEnd);

    // read the middle tag's end marker
    assert!(parser.next().is_ok());
    assert_eq!(*parser.state(), ParserState::TagEnd);

    // read the outer tag's `TAG_END`
    assert!(parser.next().is_ok());
    assert_eq!(*parser.state(), ParserState::TagEnd);
}

#[test]
fn test_empty_i8_array() {
    // `"": [B;]`
    let buffer = b"\x07\x00\x00\x00\x00\x00\x00";
    let mut parser = Parser::new(buffer.to_vec());

    // initial parser state
    assert_eq!(*parser.state(), ParserState::ExpectingTag);

    // tag header
    assert!(parser.next().is_ok());
    assert_eq!(
        *parser.state(),
        ParserState::TagHeader { value_type: nbt::TAG_I8_ARRAY, name: "".to_string() }
    );

    // begining of the array
    assert!(parser.next().is_ok());
    assert_eq!(*parser.state(), ParserState::I8Array { len: 0 });

    // end of the array
    assert!(parser.next().is_ok());
    assert_eq!(*parser.state(), ParserState::I8ArrayEnd);
}

#[test]
fn test_empty_i32_array() {
    // `"": [I;]`
    let buffer = b"\x0b\x00\x00\x00\x00\x00\x00";
    let mut parser = Parser::new(buffer.to_vec());

    // initial parser state
    assert_eq!(*parser.state(), ParserState::ExpectingTag);

    // tag header
    assert!(parser.next().is_ok());
    assert_eq!(
        *parser.state(),
        ParserState::TagHeader { value_type: nbt::TAG_I32_ARRAY, name: "".to_string() }
    );

    // begining of the array
    assert!(parser.next().is_ok());
    assert_eq!(*parser.state(), ParserState::I32Array { len: 0 });

    // end of the array
    assert!(parser.next().is_ok());
    assert_eq!(*parser.state(), ParserState::I32ArrayEnd);
}

#[test]
fn test_empty_i64_array() {
    // `"": [L;]`
    let buffer = b"\x0c\x00\x00\x00\x00\x00\x00";
    let mut parser = Parser::new(buffer.to_vec());

    // initial parser state
    assert_eq!(*parser.state(), ParserState::ExpectingTag);

    // tag header
    assert!(parser.next().is_ok());
    assert_eq!(
        *parser.state(),
        ParserState::TagHeader { value_type: nbt::TAG_I64_ARRAY, name: "".to_string() }
    );

    // begining of the array
    assert!(parser.next().is_ok());
    assert_eq!(*parser.state(), ParserState::I64Array { len: 0 });

    // end of the array
    assert!(parser.next().is_ok());
    assert_eq!(*parser.state(), ParserState::I64ArrayEnd);
}

#[test]
fn test_empty_end_list() {
    // `"": []` (elements are of type `TAG_END`)
    let buffer = b"\x09\x00\x00\x00\x00\x00\x00\x00";
    let mut parser = Parser::new(buffer.to_vec());

    // initial parser state
    assert_eq!(*parser.state(), ParserState::ExpectingTag);

    // tag header
    assert!(parser.next().is_ok());
    assert_eq!(
        *parser.state(),
        ParserState::TagHeader { value_type: nbt::TAG_LIST, name: "".to_string() }
    );

    // list header
    assert!(parser.next().is_ok());
    assert_eq!(*parser.state(), ParserState::List { len: 0, elem_type: nbt::TAG_END });

    // list end
    assert!(parser.next().is_ok());
    assert_eq!(*parser.state(), ParserState::ListEnd);
}

#[test]
fn test_empty_i8_list() {
    // `"": []` (elements are of type `TAG_I8`)
    let buffer = b"\x09\x00\x00\x01\x00\x00\x00\x00";
    let mut parser = Parser::new(buffer.to_vec());

    // initial parser state
    assert_eq!(*parser.state(), ParserState::ExpectingTag);

    // tag header
    assert!(parser.next().is_ok());
    assert_eq!(
        *parser.state(),
        ParserState::TagHeader { value_type: nbt::TAG_LIST, name: "".to_string() }
    );

    // list header
    assert!(parser.next().is_ok());
    assert_eq!(*parser.state(), ParserState::List { len: 0, elem_type: nbt::TAG_I8 });

    // list end
    assert!(parser.next().is_ok());
    assert_eq!(*parser.state(), ParserState::ListEnd);
}
