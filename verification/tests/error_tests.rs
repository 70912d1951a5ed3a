use fress_guest::encode::encode;
use fress_guest::error::{Category, ErrorCode, FressError};
use fress_guest::value::Value;
use serde_fressian::error::Error;
use serde_fressian::error::ErrorCode as Theirs;

fn bytes_of(v: &Value) -> Vec<u8> {
    encode(v).expect("a value that can be written")
}

const CODES: [ErrorCode; 19] = [
    ErrorCode::Eof,
    ErrorCode::Io,
    ErrorCode::UnsupportedType,
    ErrorCode::UnsupportedTAType,
    ErrorCode::UnsupportedCacheType,
    ErrorCode::IntTooLargeFori64,
    ErrorCode::Expectedi64,
    ErrorCode::ExpectedNonZeroReadLength,
    ErrorCode::ExpectedDoubleCode,
    ErrorCode::ExpectedFloatCode,
    ErrorCode::ExpectedBooleanCode,
    ErrorCode::ExpectedChunkBytesConclusion,
    ErrorCode::ExpectedBytesCode,
    ErrorCode::ExpectedStringCode,
    ErrorCode::MapExpectedListCode,
    ErrorCode::ExpectedListCode,
    ErrorCode::InvalidUTF8,
    ErrorCode::UnexpectedEof,
    ErrorCode::AttemptToReadPastEnd,
];

fn text(s: &str) -> Value {
    Value::Str(s.to_string())
}

#[test]
fn every_code_is_told_back_from_its_name() {
    for code in CODES {
        assert_eq!(ErrorCode::from_name(&code.name()), Some(code));
    }
    assert_eq!(ErrorCode::from_name(&"Message".to_string()), None);
    assert_eq!(ErrorCode::from_name(&"".to_string()), None);
}

#[test]
fn categories_follow_the_codes() {
    assert_eq!(ErrorCode::Eof.category(), Category::Eof);
    assert_eq!(ErrorCode::Io.category(), Category::Io);
    assert_eq!(ErrorCode::UnsupportedType.category(), Category::Misc);
    assert_eq!(ErrorCode::UnsupportedCacheType.category(), Category::Ser);
    assert_eq!(ErrorCode::InvalidUTF8.category(), Category::De);
    assert_eq!(FressError::Msg { text: String::new() }.category(), Category::Misc);
    assert_eq!(FressError::UnmatchedCode { expected: 1, found: 2 }.category(), Category::De);
}

#[test]
fn a_message_record_has_four_fields() {
    let v = FressError::Msg { text: "some message".to_string() }.to_value();
    assert_eq!(
        v,
        Value::Ext {
            tag: "serde-fressian".to_string(),
            fields: vec![
                (text("category"), text("Misc")),
                (text("position"), Value::Int(0)),
                (text("ErrorCode"), text("Message")),
                (text("value"), text("some message")),
            ],
        }
    );
}

#[test]
fn a_syntax_record_has_three_fields() {
    let v = FressError::Syntax { code: ErrorCode::UnsupportedCacheType, position: 99 }.to_value();
    assert_eq!(
        v,
        Value::Ext {
            tag: "serde-fressian".to_string(),
            fields: vec![
                (text("category"), text("Ser")),
                (text("position"), Value::Int(99)),
                (text("ErrorCode"), text("UnsupportedCacheType")),
            ],
        }
    );
}

#[test]
fn every_error_is_told_back_from_its_record() {
    let mut errors = vec![
        FressError::Msg { text: "".to_string() },
        FressError::Msg { text: "😉".to_string() },
        FressError::UnmatchedCode { expected: 0, found: 0 },
        FressError::UnmatchedCode { expected: 255, found: 1 << 20 },
    ];
    for code in CODES {
        errors.push(FressError::Syntax { code, position: 7 });
    }
    for e in errors {
        assert_eq!(FressError::from_value(&e.to_value()), Some(e));
    }
}

#[test]
fn records_are_what_the_serializer_writes() {
    let pairs = vec![
        (FressError::Msg { text: "m".to_string() }, Error::msg("m".to_string())),
        (FressError::UnmatchedCode { expected: 42, found: 43 }, Error::unmatched_code(42, 43)),
        (FressError::Syntax { code: ErrorCode::Eof, position: 5 }, Error::eof(5)),
        (
            FressError::Syntax { code: ErrorCode::UnsupportedType, position: 1 },
            Error::syntax(Theirs::UnsupportedType, 1),
        ),
        (
            FressError::Syntax { code: ErrorCode::IntTooLargeFori64, position: 70000 },
            Error::syntax(Theirs::IntTooLargeFori64, 70000),
        ),
        (
            FressError::Syntax { code: ErrorCode::ExpectedChunkBytesConclusion, position: 0 },
            Error::syntax(Theirs::ExpectedChunkBytesConclusion, 0),
        ),
    ];
    for (ours, theirs) in pairs {
        assert_eq!(bytes_of(&ours.to_value()), serde_fressian::ser::to_vec(&theirs).unwrap());
    }
}

#[test]
fn a_value_that_is_no_error_record_is_none() {
    assert_eq!(FressError::from_value(&Value::Null), None);
    assert_eq!(
        FressError::from_value(&Value::Ext { tag: "serde-fressian".to_string(), fields: vec![] }),
        None
    );
    assert_eq!(
        FressError::from_value(&Value::Ext {
            tag: "other".to_string(),
            fields: vec![
                (text("category"), text("Ser")),
                (text("position"), Value::Int(99)),
                (text("ErrorCode"), text("UnsupportedCacheType")),
            ],
        }),
        None
    );
    assert_eq!(
        FressError::from_value(&Value::Ext {
            tag: "serde-fressian".to_string(),
            fields: vec![
                (text("category"), text("Ser")),
                (text("position"), Value::Int(-1)),
                (text("ErrorCode"), text("UnsupportedCacheType")),
            ],
        }),
        None
    );
    assert_eq!(
        FressError::from_value(&Value::Ext {
            tag: "serde-fressian".to_string(),
            fields: vec![
                (text("category"), text("De")),
                (text("position"), Value::Int(1)),
                (text("ErrorCode"), text("UnmatchedCode")),
                (text("value"), Value::Int(256)),
            ],
        }),
        None
    );
}

#[test]
fn an_error_shows_as_the_serializer_shows_it() {
    let ours = FressError::Syntax { code: ErrorCode::Eof, position: 5 };
    assert_eq!(ours.description(), Error::eof(5).to_string());
    assert_eq!(FressError::Msg { text: "m".to_string() }.description(), "fressian error!");
}
