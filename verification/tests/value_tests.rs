use fress_guest::decode::decode;
use fress_guest::encode::encode;
use fress_guest::value::{lookup, put, Value};

fn bytes_of(v: &Value) -> Vec<u8> {
    encode(v).expect("a value that can be written")
}

fn text(s: &str) -> Value {
    Value::Str(s.to_string())
}

#[test]
fn same_compares_by_structure() {
    let a = Value::List(vec![Value::Int(1), text("x"), Value::Bytes(vec![1, 2])]);
    let b = Value::List(vec![Value::Int(1), text("x"), Value::Bytes(vec![1, 2])]);
    let c = Value::List(vec![Value::Int(1), text("x"), Value::Bytes(vec![1, 3])]);
    assert!(a.same(&b));
    assert!(!a.same(&c));
    assert!(!Value::Int(0).same(&Value::Double(0)));
    assert!(!Value::Float(0).same(&Value::Null));
    assert!(!Value::List(vec![]).same(&Value::List(vec![Value::Null])));
    assert!(Value::Mapping(vec![(text("k"), Value::Null)])
        .same(&Value::Mapping(vec![(text("k"), Value::Null)])));
    assert!(!Value::Mapping(vec![(text("k"), Value::Null)])
        .same(&Value::Ext { tag: "k".to_string(), fields: vec![] }));
    assert!(!Value::Ext { tag: "a".to_string(), fields: vec![] }
        .same(&Value::Ext { tag: "b".to_string(), fields: vec![] }));
}

#[test]
fn put_replaces_in_place_or_appends() {
    let mut entries = vec![(text("a"), Value::Int(1)), (text("b"), Value::Int(2))];
    put(&mut entries, text("a"), Value::Int(3));
    assert_eq!(entries, vec![(text("a"), Value::Int(3)), (text("b"), Value::Int(2))]);
    put(&mut entries, text("c"), Value::Null);
    assert_eq!(
        entries,
        vec![(text("a"), Value::Int(3)), (text("b"), Value::Int(2)), (text("c"), Value::Null)]
    );
}

#[test]
fn lookup_and_get_find_the_value_of_a_key() {
    let entries = vec![(text("a"), Value::Int(1)), (Value::Int(7), text("seven"))];
    assert_eq!(lookup(&entries, &text("a")), Some(&Value::Int(1)));
    assert_eq!(lookup(&entries, &Value::Int(7)), Some(&text("seven")));
    assert_eq!(lookup(&entries, &text("b")), None);
    let record = Value::Ext { tag: "t".to_string(), fields: vec![(text("x"), Value::Int(3))] };
    assert_eq!(record.get(&text("x")), Some(&Value::Int(3)));
    assert_eq!(record.get(&text("y")), None);
    assert_eq!(Value::Mapping(entries).get(&Value::Int(7)), Some(&text("seven")));
    assert_eq!(Value::Null.get(&text("x")), None);
}

#[test]
fn the_invariant_asks_for_unique_keys_at_every_depth() {
    assert!(Value::Null.is_wf());
    assert!(Value::Mapping(vec![(text("a"), Value::Null), (text("b"), Value::Null)]).is_wf());
    let twice = Value::Mapping(vec![(text("a"), Value::Null), (text("a"), Value::Int(1))]);
    assert!(!twice.is_wf());
    assert!(!Value::List(vec![Value::Null, twice]).is_wf());
    assert!(!Value::Ext { tag: "t".to_string(), fields: vec![(text("type"), Value::Null)] }.is_wf());
    assert!(Value::Ext { tag: "t".to_string(), fields: vec![(text("kind"), Value::Null)] }.is_wf());
    let inner = Value::Mapping(vec![(Value::Int(1), Value::Null), (Value::Int(1), Value::Null)]);
    assert!(!Value::Mapping(vec![(text("k"), inner)]).is_wf());
}

#[test]
fn a_key_that_comes_twice_keeps_its_place_and_takes_the_last_value() {
    let twice = Value::Mapping(vec![
        (text("a"), Value::Int(1)),
        (text("b"), Value::Int(2)),
        (text("a"), Value::Int(3)),
    ]);
    let decoded = decode(&bytes_of(&twice)).unwrap();
    assert_eq!(
        decoded,
        Value::Mapping(vec![(text("a"), Value::Int(3)), (text("b"), Value::Int(2))])
    );
    assert!(decoded.is_wf());
}

#[test]
fn a_closed_map_with_a_type_is_a_record() {
    let bytes = [0xC0, 0xED, 0xDE, b't', b'y', b'p', b'e', 0xDB, b'p', 0xDB, b'x', 0x01, 0xFD];
    assert_eq!(
        decode(&bytes),
        Ok(Value::Ext { tag: "p".to_string(), fields: vec![(text("x"), Value::Int(1))] })
    );
    let plain = [0xC0, 0xED, 0xDB, b'x', 0x01, 0xFD];
    assert_eq!(decode(&plain), Ok(Value::Mapping(vec![(text("x"), Value::Int(1))])));
}

#[test]
fn a_map_is_written_as_the_serializer_writes_a_sorted_map() {
    let mut theirs = std::collections::BTreeMap::new();
    theirs.insert("a", 1i64);
    theirs.insert("b", 300i64);
    let ours = Value::Mapping(vec![(text("a"), Value::Int(1)), (text("b"), Value::Int(300))]);
    assert_eq!(bytes_of(&ours), serde_fressian::ser::to_vec(&theirs).unwrap());
}

#[test]
fn deep_nesting_is_read() {
    let mut deep = vec![0xE5u8; 300];
    deep.push(0xF7);
    let mut expected = Value::Null;
    for _ in 0..300 {
        expected = Value::List(vec![expected]);
    }
    assert_eq!(decode(&deep), Ok(expected));
    assert_eq!(decode(&deep).map(|v| bytes_of(&v)), Ok(deep));
}
