use fress_guest::decode::decode;
use fress_guest::encode::encode;
use fress_guest::error::{ErrorCode, FressError};
use fress_guest::value::Value;

fn bytes_of(v: &Value) -> Vec<u8> {
    encode(v).expect("a value that can be written")
}

fn text(s: &str) -> Value {
    Value::Str(s.to_string())
}

#[test]
fn scalars_round_trip() {
    for v in [
        Value::Null,
        Value::Bool(true),
        Value::Bool(false),
        Value::Int(0),
        Value::Int(-1),
        Value::Int(63),
        Value::Int(64),
        Value::Int(-4096),
        Value::Int(4096),
        Value::Int(i64::MAX),
        Value::Int(i64::MIN),
        Value::Float(0x3FC0_0000),
        Value::Double(0),
        Value::Double(0x3FF0_0000_0000_0000),
        Value::Double(0x4009_21FB_5444_2D18),
    ] {
        assert_eq!(decode(&bytes_of(&v)), Ok(v));
    }
}

#[test]
fn strings_round_trip() {
    for s in ["", "a", "hello", "exciting?!", "é", "日本語", "😉 😎 🤔 😐 🙄"] {
        assert_eq!(decode(&bytes_of(&text(s))), Ok(text(s)));
    }
}

#[test]
fn byte_arrays_round_trip() {
    for b in [vec![], vec![1u8], vec![0u8; 7], vec![9u8; 8], vec![0xC3u8; 300]] {
        assert_eq!(decode(&bytes_of(&Value::Bytes(b.clone()))), Ok(Value::Bytes(b)));
    }
}

#[test]
fn nested_lists_and_mappings_round_trip() {
    let v = Value::List(vec![
        Value::List(vec![text("hello"), text("from"), text("wasm!")]),
        Value::Mapping(vec![(text("k"), Value::Int(1)), (Value::Int(2), Value::List(vec![]))]),
        Value::Ext { tag: "point".to_string(), fields: vec![(text("x"), Value::Int(3))] },
    ]);
    assert_eq!(decode(&bytes_of(&v)), Ok(v));
}

#[test]
fn empty_input_is_an_eof_error() {
    assert_eq!(decode(&[]), Err(FressError::Syntax { code: ErrorCode::Eof, position: 0 }));
}

#[test]
fn truncated_string_is_an_eof_error() {
    assert_eq!(
        decode(&[0xDF, b'h', b'e']),
        Err(FressError::Syntax { code: ErrorCode::Eof, position: 1 })
    );
}

#[test]
fn unknown_code_is_unmatched() {
    assert_eq!(decode(&[0xCB, 0xF7]), Err(FressError::UnmatchedCode { expected: 0xCB, found: 1 }));
}

#[test]
fn a_group_cut_short_is_invalid_text() {
    assert_eq!(
        decode(&[0xDB, 0xC3]),
        Err(FressError::Syntax { code: ErrorCode::InvalidUTF8, position: 2 })
    );
}

#[test]
fn a_negative_count_is_refused() {
    assert_eq!(
        decode(&[0xE3, 0xFF]),
        Err(FressError::Syntax { code: ErrorCode::AttemptToReadPastEnd, position: 2 })
    );
}

#[test]
fn map_without_list_is_refused() {
    assert_eq!(
        decode(&[0xC0, 0xF7]),
        Err(FressError::Syntax { code: ErrorCode::MapExpectedListCode, position: 2 })
    );
}

#[test]
fn a_key_without_value_is_refused() {
    assert_eq!(
        decode(&[0xC0, 0xE5, 0x01]),
        Err(FressError::Syntax { code: ErrorCode::UnexpectedEof, position: 3 })
    );
}
