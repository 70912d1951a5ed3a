use fress_guest::decode::decode;
use fress_guest::encode::encode;
use fress_guest::value::Value;

fn bytes_of(v: &Value) -> Vec<u8> {
    encode(v).expect("a value that can be written")
}

fn text(s: &str) -> Value {
    Value::Str(s.to_string())
}

fn sample() -> Vec<Value> {
    vec![
        Value::Null,
        Value::Bool(true),
        Value::Int(-129),
        Value::Int(1 << 40),
        Value::Float(0x7FC0_0000),
        Value::Double(0x7FF8_0000_0000_0000),
        text(""),
        text("some message"),
        text("😉 😎 🤔 😐 🙄"),
        Value::Bytes(vec![0xFD; 9]),
        Value::List(vec![]),
        Value::List((0..7).map(Value::Int).collect()),
        Value::List((0..8).map(Value::Int).collect()),
        Value::List((0..255).map(Value::Int).collect()),
        Value::Mapping(vec![]),
        Value::Mapping((0..5).map(|i| (Value::Int(i), text("v"))).collect()),
        Value::Mapping(vec![(text("type"), text("not a record"))]),
        Value::Ext { tag: "".to_string(), fields: vec![] },
        Value::Ext {
            tag: "serde-fressian".to_string(),
            fields: vec![(text("k"), Value::List(vec![Value::Mapping(vec![])]))],
        },
    ]
}

#[test]
fn values_come_back_from_their_bytes() {
    for v in sample() {
        let bytes = bytes_of(&v);
        assert_eq!(decode(&bytes), Ok(v), "bytes {:?}", bytes);
    }
}

#[test]
fn values_come_back_wherever_trailing_bytes_follow() {
    for v in sample() {
        let mut bytes = bytes_of(&v);
        bytes.extend_from_slice(&[0xFD, 0x00, 0xCB]);
        assert_eq!(decode(&bytes), Ok(v));
    }
}

#[test]
fn encoding_is_the_same_every_time() {
    for v in sample() {
        assert_eq!(bytes_of(&v), bytes_of(&v));
    }
}

#[test]
fn what_we_write_is_what_the_reader_of_the_serializer_reads() {
    let v = Value::List(vec![text("hello"), Value::Int(77), Value::Bool(false)]);
    let theirs: serde_fressian::value::Value = serde_fressian::de::from_bytes(&bytes_of(&v)).unwrap();
    assert_eq!(
        theirs,
        serde_fressian::value::Value::LIST(vec![
            serde_fressian::value::Value::STRING("hello".to_string()),
            serde_fressian::value::Value::INT(77),
            serde_fressian::value::Value::BOOL(false),
        ])
    );
}

#[test]
fn negative_zero_comes_back_as_zero() {
    let bytes = bytes_of(&Value::Double(0x8000_0000_0000_0000));
    assert_eq!(bytes, vec![0xFB]);
    assert_eq!(decode(&bytes), Ok(Value::Double(0)));
}

#[test]
fn a_list_of_256_items_gets_the_header_of_an_empty_list() {
    let bytes = bytes_of(&Value::List((0..256).map(|_| Value::Null).collect()));
    assert_eq!(bytes[0], 0xE4);
    assert_eq!(bytes.len(), 257);
    assert_eq!(decode(&bytes), Ok(Value::List(vec![])));
}

#[test]
fn a_list_of_264_items_comes_back() {
    let v = Value::List((0..264).map(Value::Int).collect());
    assert_eq!(decode(&bytes_of(&v)), Ok(v));
}
