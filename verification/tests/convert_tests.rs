use fress_guest::convert::ToValue;
use fress_guest::error::{ErrorCode, FressError};
use fress_guest::exports::CustomError;
use fress_guest::value::Value;

fn text(s: &str) -> Value {
    Value::Str(s.to_string())
}

#[test]
fn primitives_stand_for_themselves() {
    assert_eq!(ToValue::to_value(&true), Value::Bool(true));
    assert_eq!(ToValue::to_value(&-7i64), Value::Int(-7));
    assert_eq!(ToValue::to_value(&"wasm!".to_string()), text("wasm!"));
}

#[test]
fn sequences_stand_as_lists_in_order() {
    let data = vec![
        vec!["hello".to_string(), "from".to_string(), "wasm!".to_string()],
        vec!["isn't".to_string(), "this".to_string(), "exciting?!".to_string()],
    ];
    assert_eq!(ToValue::to_value(&data), fress_guest::exports::greeting());
    let none: Vec<bool> = vec![];
    assert_eq!(ToValue::to_value(&none), Value::List(vec![]));
}

#[test]
fn errors_stand_as_records() {
    let e = FressError::Syntax { code: ErrorCode::Eof, position: 3 };
    assert_eq!(ToValue::to_value(&e), e.to_value());
    let batch = vec![
        FressError::Msg { text: "m".to_string() },
        FressError::UnmatchedCode { expected: 1, found: 2 },
    ];
    match ToValue::to_value(&batch) {
        Value::List(items) => {
            assert_eq!(FressError::from_value(&items[0]), Some(FressError::Msg { text: "m".to_string() }));
            assert_eq!(
                FressError::from_value(&items[1]),
                Some(FressError::UnmatchedCode { expected: 1, found: 2 })
            );
        }
        other => panic!("not a list: {:?}", other),
    }
    let custom = CustomError { field_0: "f".to_string() };
    assert_eq!(
        ToValue::to_value(&custom),
        Value::Ext { tag: "test_lib_error".to_string(), fields: vec![(text("field_0"), text("f"))] }
    );
}
