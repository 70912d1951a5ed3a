use fress_guest::encode::encode;
use fress_guest::value::Value;

fn bytes_of(v: &Value) -> Vec<u8> {
    encode(v).expect("a value that can be written")
}

fn text(s: &str) -> Value {
    Value::Str(s.to_string())
}

#[test]
fn list_of_strings_matches_the_serializer() {
    let ours = bytes_of(&Value::List(vec![text("hello"), text("from"), text("wasm!")]));
    let theirs = serde_fressian::ser::to_vec(&vec!["hello", "from", "wasm!"]).unwrap();
    assert_eq!(ours, theirs);
    assert_eq!(ours[0], 0xE7);
    assert_eq!(ours[1], 0xDF);
}

#[test]
fn small_integers_are_one_byte() {
    assert_eq!(bytes_of(&Value::Int(5)), vec![5u8]);
    assert_eq!(bytes_of(&Value::Int(-1)), vec![0xFFu8]);
}
