use fress_guest::decode::decode;
use fress_guest::encode::encode;
use fress_guest::error::{ErrorCode, FressError};
use fress_guest::exports::{greeting, produce, reply, CustomError};
use fress_guest::frame::unframe;
use fress_guest::value::Value;
use fress_guest::{big_string, echo, get_custom_error, get_errors, hello};

fn bytes_of(v: &Value) -> Vec<u8> {
    encode(v).expect("a value that can be written")
}

const WIDE: &str = "😉 😎 🤔 😐 🙄😉 😎 🤔 😐 🙄😉 😎 🤔 😐 🙄😉 😎 🤔 😐 🙄😉 😎 🤔 😐 🙄😉 😎 🤔 😐 🙄";

fn text(s: &str) -> Value {
    Value::Str(s.to_string())
}

fn payload_of(buffer: Option<Vec<u8>>) -> Vec<u8> {
    unframe(&buffer.expect("a buffer")).expect("a whole frame")
}

#[test]
fn hello_is_what_the_serializer_writes() {
    let data = vec![["hello", "from", "wasm!"], ["isn't", "this", "exciting?!"]];
    let theirs = serde_fressian::ser::to_vec(&data).unwrap();
    assert_eq!(payload_of(hello()), theirs);
}

#[test]
fn hello_decodes_to_the_greeting() {
    let expected = Value::List(vec![
        Value::List(vec![text("hello"), text("from"), text("wasm!")]),
        Value::List(vec![text("isn't"), text("this"), text("exciting?!")]),
    ]);
    assert_eq!(greeting(), expected);
    assert_eq!(decode(&payload_of(hello())), Ok(expected));
}

#[test]
fn hello_header_counts_the_payload() {
    let buffer = hello().unwrap();
    let n = u32::from_le_bytes([buffer[0], buffer[1], buffer[2], buffer[3]]) as usize;
    assert_eq!(n, buffer.len() - 4);
}

#[test]
fn big_string_is_what_the_serializer_writes() {
    let theirs = serde_fressian::ser::to_vec(&vec![WIDE]).unwrap();
    assert_eq!(payload_of(big_string()), theirs);
}

#[test]
fn big_string_keeps_every_character() {
    let decoded = decode(&payload_of(big_string())).unwrap();
    assert_eq!(decoded, Value::List(vec![text(WIDE)]));
    match decoded {
        Value::List(items) => match &items[0] {
            Value::Str(s) => {
                assert_eq!(s.chars().count(), WIDE.chars().count());
                assert_eq!(s.chars().filter(|c| c.len_utf8() == 4).count(), 30);
            }
            other => panic!("not a string: {:?}", other),
        },
        other => panic!("not a list: {:?}", other),
    }
}

#[test]
fn get_errors_is_what_the_serializer_writes() {
    let errors = vec![
        serde_fressian::error::Error::msg("some message".to_string()),
        serde_fressian::error::Error::unmatched_code(42, 43),
        serde_fressian::error::Error::syntax(serde_fressian::error::ErrorCode::UnsupportedCacheType, 99),
    ];
    let theirs = serde_fressian::ser::to_vec(&errors).unwrap();
    assert_eq!(payload_of(get_errors()), theirs);
}

#[test]
fn get_errors_decodes_to_one_error_of_each_shape() {
    let decoded = decode(&payload_of(get_errors())).unwrap();
    let items = match decoded {
        Value::List(items) => items,
        other => panic!("not a list: {:?}", other),
    };
    assert_eq!(items.len(), 3);
    assert_eq!(
        FressError::from_value(&items[0]),
        Some(FressError::Msg { text: "some message".to_string() })
    );
    assert_eq!(
        FressError::from_value(&items[1]),
        Some(FressError::UnmatchedCode { expected: 42, found: 43 })
    );
    assert_eq!(
        FressError::from_value(&items[2]),
        Some(FressError::Syntax { code: ErrorCode::UnsupportedCacheType, position: 99 })
    );
}

#[test]
fn get_custom_error_is_the_error_code_and_the_record() {
    let payload = payload_of(get_custom_error());
    assert_eq!(payload[0], 0xCB);
    let record = CustomError { field_0: "some message".to_string() }.to_value();
    assert_eq!(payload[1..].to_vec(), bytes_of(&record));
    assert_eq!(
        decode(&payload[1..]),
        Ok(Value::Ext {
            tag: "test_lib_error".to_string(),
            fields: vec![(text("field_0"), text("some message"))],
        })
    );
}

#[test]
fn custom_error_describes_itself() {
    let err = CustomError { field_0: "x".to_string() };
    assert_eq!(err.description(), "A custom Error");
}

#[test]
fn echo_of_hello_is_hello() {
    let payload = payload_of(hello());
    let back = payload_of(echo(&payload));
    assert_eq!(back, payload);
    assert_eq!(decode(&back), Ok(greeting()));
}

#[test]
fn echo_of_wide_text_is_wide_text() {
    let payload = payload_of(big_string());
    assert_eq!(payload_of(echo(&payload)), payload);
}

#[test]
fn echo_of_malformed_input_is_an_error_value() {
    let back = payload_of(echo(&[0xE3]));
    assert_eq!(back[0], 0xCB);
    let record = decode(&back[1..]).unwrap();
    assert_eq!(
        FressError::from_value(&record),
        Some(FressError::Syntax { code: ErrorCode::Eof, position: 1 })
    );
}

#[test]
fn echo_of_an_unknown_code_is_an_unmatched_code() {
    let back = payload_of(echo(&[0xB5]));
    assert_eq!(back[0], 0xCB);
    let record = decode(&back[1..]).unwrap();
    assert_eq!(
        FressError::from_value(&record),
        Some(FressError::UnmatchedCode { expected: 0xB5, found: 1 })
    );
}

#[test]
fn reply_of_a_value_is_its_encoding() {
    let v = Value::Mapping(vec![(text("a"), Value::Int(1))]);
    assert_eq!(reply(&Ok(Value::Mapping(vec![(text("a"), Value::Int(1))]))), Some(bytes_of(&v)));
}

#[test]
fn reply_of_an_error_is_what_the_serializer_writes() {
    let ours = reply(&Err(FressError::Syntax { code: ErrorCode::Eof, position: 7 })).unwrap();
    let theirs: Result<(), serde_fressian::error::Error> =
        Err(serde_fressian::error::Error::syntax(serde_fressian::error::ErrorCode::Eof, 7));
    assert_eq!(ours, serde_fressian::ser::to_vec(&theirs).unwrap());
}

#[test]
fn produce_frames_the_encoding() {
    let v = Value::List(vec![Value::Int(1), Value::Null]);
    let buffer = produce(&v).unwrap();
    assert_eq!(buffer[..4], [3, 0, 0, 0]);
    assert_eq!(buffer[4..].to_vec(), bytes_of(&v));
}
