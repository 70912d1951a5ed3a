use fress_guest::decode::decode;
use fress_guest::encode::encode;
use fress_guest::error::{ErrorCode, FressError};
use fress_guest::exports::echo;
use fress_guest::frame::unframe;
use fress_guest::value::{ArrayKind, Component, Value};

fn text(s: &str) -> Value {
    Value::Str(s.to_string())
}

fn bytes_of(v: &Value) -> Vec<u8> {
    encode(v).expect("a value that can be written")
}

fn echoed(input: &[u8]) -> Vec<u8> {
    unframe(&echo(input).expect("a buffer")).expect("a whole frame")
}

#[test]
fn a_string_in_utf8_is_read() {
    assert_eq!(decode(&[0xBF, 0x01, 0x61]), Ok(text("a")));
    assert_eq!(decode(&[0xBF, 0x00]), Ok(text("")));
    assert_eq!(decode(&[0xBF, 0x04, 0xF0, 0x9F, 0x98, 0x89]), Ok(text("😉")));
    let theirs: serde_fressian::value::Value =
        serde_fressian::de::from_bytes(&[0xBF, 0x01, 0x61]).unwrap();
    assert_eq!(theirs, serde_fressian::value::Value::STRING("a".to_string()));
}

#[test]
fn bytes_that_are_no_utf8_are_refused() {
    assert_eq!(
        decode(&[0xBF, 0x02, 0xC3, 0x28]),
        Err(FressError::Syntax { code: ErrorCode::InvalidUTF8, position: 4 })
    );
    assert_eq!(
        decode(&[0xBF, 0x02, 0x61]),
        Err(FressError::Syntax { code: ErrorCode::Eof, position: 2 })
    );
}

#[test]
fn a_set_is_read_and_written_as_a_set() {
    assert_eq!(decode(&[0xC1, 0xE4]), Ok(Value::SetOf(vec![])));
    let v = Value::SetOf(vec![Value::Int(1), text("x")]);
    let bytes = bytes_of(&v);
    assert_eq!(bytes, vec![0xC1, 0xE6, 0x01, 0xDB, b'x']);
    assert_eq!(decode(&bytes), Ok(v));
    assert_eq!(echoed(&[0xC1, 0xE4]), vec![0xC1, 0xE4]);
    let mut set = std::collections::BTreeSet::new();
    set.insert(1i64);
    set.insert(2i64);
    let theirs = serde_fressian::ser::to_vec(&serde_fressian::set::SET::from(set)).unwrap();
    assert_eq!(bytes_of(&Value::SetOf(vec![Value::Int(1), Value::Int(2)])), theirs);
}

#[test]
fn the_other_tagged_kinds_are_read_and_written() {
    for v in [
        Value::Inst(1_500_000_000_000),
        Value::Inst(-1),
        Value::Uuid(vec![7u8; 16]),
        Value::Regex("a+b".to_string()),
        Value::Uri("https://example.org/x".to_string()),
    ] {
        let bytes = bytes_of(&v);
        assert_eq!(decode(&bytes), Ok(v));
        assert_eq!(echoed(&bytes), bytes);
    }
    assert_eq!(bytes_of(&Value::Inst(5)), vec![0xC8, 0x05]);
    assert_eq!(bytes_of(&Value::Regex("a".to_string())), vec![0xC4, 0xDB, b'a']);
    assert_eq!(bytes_of(&Value::Uri("a".to_string())), vec![0xC5, 0xDB, b'a']);
    assert_eq!(bytes_of(&Value::Uuid(vec![9])), vec![0xC3, 0xD1, 9]);
}

#[test]
fn a_tagged_kind_wants_the_payload_of_its_kind() {
    assert_eq!(
        decode(&[0xC1, 0x01]),
        Err(FressError::Syntax { code: ErrorCode::ExpectedListCode, position: 2 })
    );
    assert_eq!(
        decode(&[0xC8, 0xDB, b'a']),
        Err(FressError::Syntax { code: ErrorCode::Expectedi64, position: 2 })
    );
    assert_eq!(
        decode(&[0xC3, 0x01]),
        Err(FressError::Syntax { code: ErrorCode::ExpectedBytesCode, position: 2 })
    );
    assert_eq!(
        decode(&[0xC5, 0x01]),
        Err(FressError::Syntax { code: ErrorCode::ExpectedStringCode, position: 2 })
    );
    assert_eq!(decode(&[0xC4]), Err(FressError::Syntax { code: ErrorCode::Eof, position: 1 }));
}

#[test]
fn an_open_list_runs_to_its_end_code_or_to_the_end_of_the_input() {
    let items = Value::List(vec![Value::Int(1), Value::Null]);
    assert_eq!(decode(&[0xEE, 0x01, 0xF7, 0xFD]), Ok(Value::List(vec![Value::Int(1), Value::Null])));
    assert_eq!(decode(&[0xEE, 0x01, 0xF7]), Ok(items));
    assert_eq!(decode(&[0xEE]), Ok(Value::List(vec![])));
    assert_eq!(decode(&[0xC1, 0xEE, 0x02]), Ok(Value::SetOf(vec![Value::Int(2)])));
}

#[test]
fn the_tagged_kinds_differ_from_their_payloads() {
    assert!(!Value::SetOf(vec![]).same(&Value::List(vec![])));
    assert!(!Value::Inst(1).same(&Value::Int(1)));
    assert!(!Value::Regex("a".to_string()).same(&Value::Uri("a".to_string())));
    assert!(Value::Uuid(vec![1]).same(&Value::Uuid(vec![1])));
    assert!(Value::SetOf(vec![Value::Null]).is_wf());
}

#[test]
fn typed_arrays_are_read_and_written() {
    let ints = Value::Array {
        kind: ArrayKind::Int,
        items: vec![Value::Int(1), Value::Int(-70000), Value::Int(i32::MAX as i64)],
    };
    let theirs = serde_fressian::ser::to_vec(&serde_fressian::typed_arrays::IntArray::from(vec![
        1,
        -70000,
        i32::MAX,
    ]))
    .unwrap();
    assert_eq!(bytes_of(&ints), theirs);
    assert_eq!(theirs[0], 0xB3);
    assert_eq!(decode(&theirs), Ok(ints));
    assert_eq!(echoed(&theirs), theirs);
    for v in [
        Value::Array { kind: ArrayKind::Long, items: vec![Value::Int(i64::MIN), Value::Int(0)] },
        Value::Array {
            kind: ArrayKind::Double,
            items: vec![Value::Double(0), Value::Double(0x3FF0_0000_0000_0000), Value::Double(7)],
        },
        Value::Array { kind: ArrayKind::Float, items: vec![Value::Float(0x3FC0_0000)] },
        Value::Array { kind: ArrayKind::Boolean, items: vec![Value::Bool(true), Value::Bool(false)] },
        Value::Array { kind: ArrayKind::Boolean, items: vec![] },
        Value::Array { kind: ArrayKind::Long, items: (0..300).map(Value::Int).collect() },
    ] {
        assert!(v.is_wf());
        let bytes = bytes_of(&v);
        assert_eq!(decode(&bytes), Ok(v));
    }
}

#[test]
fn an_item_of_another_kind_is_refused_in_a_typed_array() {
    assert_eq!(
        decode(&[0xB3, 0x01, 0xF7]),
        Err(FressError::Syntax { code: ErrorCode::UnsupportedTAType, position: 3 })
    );
    assert_eq!(
        decode(&[0xB3, 0x01, 0xF8, 0, 0, 0, 1, 0, 0, 0, 0]),
        Err(FressError::Syntax { code: ErrorCode::UnsupportedTAType, position: 11 })
    );
    assert!(!Value::Array { kind: ArrayKind::Float, items: vec![Value::Int(1)] }.is_wf());
}

#[test]
fn a_long_byte_array_is_written_in_chunks_which_are_not_read() {
    let long = Value::Bytes(vec![3u8; 70000]);
    let bytes = bytes_of(&long);
    assert_eq!(bytes[0], 0xD8);
    assert_eq!(bytes, serde_fressian::ser::to_vec(&serde_fressian::value::Value::from(&[3u8; 70000][..])).unwrap());
    assert_eq!(
        decode(&bytes),
        Err(FressError::Syntax { code: ErrorCode::UnsupportedType, position: 1 })
    );
    let chunk = Value::Bytes(vec![3u8; 65535]);
    assert_eq!(bytes_of(&chunk)[0], 0xD9);
    assert_eq!(decode(&bytes_of(&chunk)), Ok(chunk));
}

#[test]
fn a_keyword_is_read_and_written_as_the_serializer_writes_it() {
    let theirs = serde_fressian::ser::to_vec(&serde_fressian::key::KEY::namespaced(
        "ns".to_string(),
        "name".to_string(),
    ))
    .unwrap();
    let ours = Value::Key {
        namespace: Component::Put("ns".to_string()),
        name: Component::Put("name".to_string()),
    };
    assert_eq!(bytes_of(&ours), theirs);
    assert_eq!(theirs[0], 0xCA);
    assert_eq!(theirs[1], 0xCD);
    assert_eq!(decode(&theirs), Ok(ours));
    assert_eq!(echoed(&theirs), theirs);
}

#[test]
fn a_symbol_without_a_namespace_is_read_and_written() {
    let theirs =
        serde_fressian::ser::to_vec(&serde_fressian::sym::SYM::simple("inc".to_string())).unwrap();
    let ours = Value::Sym { namespace: Component::Null, name: Component::Put("inc".to_string()) };
    assert_eq!(bytes_of(&ours), theirs);
    assert_eq!(theirs[..2], [0xC9, 0xF7]);
    assert_eq!(decode(&theirs), Ok(ours));
}

#[test]
fn a_string_that_comes_again_is_a_place_in_the_cache() {
    let theirs = serde_fressian::ser::to_vec(&vec![
        serde_fressian::key::KEY::namespaced("ns".to_string(), "a".to_string()),
        serde_fressian::key::KEY::namespaced("ns".to_string(), "b".to_string()),
    ])
    .unwrap();
    let ours = Value::List(vec![
        Value::Key {
            namespace: Component::Put("ns".to_string()),
            name: Component::Put("a".to_string()),
        },
        Value::Key { namespace: Component::Ref(0), name: Component::Put("b".to_string()) },
    ]);
    assert_eq!(decode(&theirs), Ok(Value::List(vec![
        Value::Key {
            namespace: Component::Put("ns".to_string()),
            name: Component::Put("a".to_string()),
        },
        Value::Key { namespace: Component::Ref(0), name: Component::Put("b".to_string()) },
    ])));
    assert_eq!(bytes_of(&ours), theirs);
    assert_eq!(echoed(&theirs), theirs);
    let back: Vec<serde_fressian::key::KEY> = serde_fressian::de::from_bytes(&bytes_of(&ours)).unwrap();
    assert_eq!(back[1], serde_fressian::key::KEY::namespaced("ns".to_string(), "b".to_string()));
}

#[test]
fn a_keyword_wants_a_name() {
    assert_eq!(
        decode(&[0xCA, 0xF7, 0xF7]),
        Err(FressError::Syntax { code: ErrorCode::ExpectedStringCode, position: 3 })
    );
    assert_eq!(
        decode(&[0xCA, 0xF7, 0x01]),
        Err(FressError::Syntax { code: ErrorCode::ExpectedStringCode, position: 3 })
    );
    assert_eq!(
        decode(&[0xCA, 0xCD, 0x01]),
        Err(FressError::Syntax { code: ErrorCode::ExpectedStringCode, position: 3 })
    );
    assert_eq!(decode(&[0xCA, 0xF7]), Err(FressError::Syntax { code: ErrorCode::Eof, position: 2 }));
    assert_eq!(decode(&[0xCA, 0xF7, 0xDA]).map(|v| v.is_wf()), Ok(true));
    assert!(!Value::Key { namespace: Component::Ref(32), name: Component::Ref(0) }.is_wf());
    assert!(!Value::Sym { namespace: Component::Null, name: Component::Null }.is_wf());
}

#[test]
fn cache_codes_outside_a_keyword_are_not_read() {
    for code in [0xCDu8, 0x80, 0xCC, 0xB5] {
        assert_eq!(
            decode(&[code, 0x00]),
            Err(FressError::UnmatchedCode { expected: code, found: 1 })
        );
    }
}
