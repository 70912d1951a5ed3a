//! The error taxonomy: structured errors that travel as ordinary values.

use vstd::prelude::*;
use crate::value::{entries_view, Value, ValueModel};

verus! {

/// The structural error kinds.
#[derive(Debug, Clone, Copy, PartialEq, Eq, Structural)]
pub enum ErrorCode {
    Eof,
    Io,
    UnsupportedType,
    UnsupportedTAType,
    UnsupportedCacheType,
    IntTooLargeFori64,
    Expectedi64,
    ExpectedNonZeroReadLength,
    ExpectedDoubleCode,
    ExpectedFloatCode,
    ExpectedBooleanCode,
    ExpectedChunkBytesConclusion,
    ExpectedBytesCode,
    ExpectedStringCode,
    MapExpectedListCode,
    ExpectedListCode,
    InvalidUTF8,
    UnexpectedEof,
    AttemptToReadPastEnd,
}

/// The broad class of an error, as the host sorts them.
#[derive(Debug, Clone, Copy, PartialEq, Eq, Structural)]
pub enum Category {
    Io,
    Eof,
    De,
    Ser,
    Misc,
}

/// Mathematical model of a [`FressError`].
pub enum FressErrorModel {
    Msg { text: Seq<char> },
    UnmatchedCode { expected: u8, found: usize },
    Syntax { code: ErrorCode, position: usize },
}

/// A structured error. It is built once and never changes.
#[derive(Debug, PartialEq, Eq)]
pub enum FressError {
    /// A free-form diagnostic.
    Msg { text: String },
    /// A code byte that matches no opcode the reader knows: the byte, and the
    /// count of bytes read when it was met.
    UnmatchedCode { expected: u8, found: usize },
    /// A structural violation and where in the input it was detected.
    Syntax { code: ErrorCode, position: usize },
}

impl View for FressError {
    type V = FressErrorModel;

    open spec fn view(&self) -> FressErrorModel {
        match self {
            FressError::Msg { text } => FressErrorModel::Msg { text: text@ },
            FressError::UnmatchedCode { expected, found } => FressErrorModel::UnmatchedCode {
                expected: *expected,
                found: *found,
            },
            FressError::Syntax { code, position } => FressErrorModel::Syntax {
                code: *code,
                position: *position,
            },
        }
    }
}

impl ErrorCode {
    /// The class that a structural error of this kind falls in.
    pub open spec fn category_spec(self) -> Category {
        match self {
            ErrorCode::Eof => Category::Eof,
            ErrorCode::Io => Category::Io,
            ErrorCode::UnsupportedType => Category::Misc,
            ErrorCode::UnsupportedTAType => Category::Ser,
            ErrorCode::UnsupportedCacheType => Category::Ser,
            ErrorCode::IntTooLargeFori64 => Category::Ser,
            _ => Category::De,
        }
    }

    /// The class that a structural error of this kind falls in.
    pub fn category(self) -> (c: Category)
        ensures
            c == self.category_spec(),
    {
        match self {
            ErrorCode::Eof => Category::Eof,
            ErrorCode::Io => Category::Io,
            ErrorCode::UnsupportedType => Category::Misc,
            ErrorCode::UnsupportedTAType => Category::Ser,
            ErrorCode::UnsupportedCacheType => Category::Ser,
            ErrorCode::IntTooLargeFori64 => Category::Ser,
            _ => Category::De,
        }
    }
}

/// Whether a string is the given text.
fn same_text(s: &String, text: &str) -> (r: bool)
    ensures
        r == (s@ == text@),
{
    let owned = text.to_owned();
    *s == owned
}

impl ErrorCode {
    /// The name under which this kind is written in an error record.
    pub open spec fn name_spec(self) -> Seq<char> {
        match self {
            ErrorCode::Eof => "Eof"@,
            ErrorCode::Io => "IO::Error"@,
            ErrorCode::UnsupportedType => "UnsupportedType"@,
            ErrorCode::UnsupportedTAType => "UnsupportedTAType"@,
            ErrorCode::UnsupportedCacheType => "UnsupportedCacheType"@,
            ErrorCode::IntTooLargeFori64 => "IntTooLargeFori64"@,
            ErrorCode::Expectedi64 => "Expectedi64"@,
            ErrorCode::ExpectedNonZeroReadLength => "ExpectedNonZeroReadLength"@,
            ErrorCode::ExpectedDoubleCode => "ExpectedDoubleCode"@,
            ErrorCode::ExpectedFloatCode => "ExpectedFloatCode"@,
            ErrorCode::ExpectedBooleanCode => "ExpectedBooleanCode"@,
            ErrorCode::ExpectedChunkBytesConclusion => "ExpectedChunkBytesConclusion"@,
            ErrorCode::ExpectedBytesCode => "ExpectedBytesCode"@,
            ErrorCode::ExpectedStringCode => "ExpectedStringCode"@,
            ErrorCode::MapExpectedListCode => "MapExpectedListCode"@,
            ErrorCode::ExpectedListCode => "ExpectedListCode"@,
            ErrorCode::InvalidUTF8 => "InvalidUTF8"@,
            ErrorCode::UnexpectedEof => "UnexpectedEof"@,
            ErrorCode::AttemptToReadPastEnd => "AttemptToReadPastEnd"@,
        }
    }

    /// The name under which this kind is written in an error record.
    pub fn name(self) -> (s: String)
        ensures
            s@ == self.name_spec(),
    {
        match self {
            ErrorCode::Eof => "Eof".to_owned(),
            ErrorCode::Io => "IO::Error".to_owned(),
            ErrorCode::UnsupportedType => "UnsupportedType".to_owned(),
            ErrorCode::UnsupportedTAType => "UnsupportedTAType".to_owned(),
            ErrorCode::UnsupportedCacheType => "UnsupportedCacheType".to_owned(),
            ErrorCode::IntTooLargeFori64 => "IntTooLargeFori64".to_owned(),
            ErrorCode::Expectedi64 => "Expectedi64".to_owned(),
            ErrorCode::ExpectedNonZeroReadLength => "ExpectedNonZeroReadLength".to_owned(),
            ErrorCode::ExpectedDoubleCode => "ExpectedDoubleCode".to_owned(),
            ErrorCode::ExpectedFloatCode => "ExpectedFloatCode".to_owned(),
            ErrorCode::ExpectedBooleanCode => "ExpectedBooleanCode".to_owned(),
            ErrorCode::ExpectedChunkBytesConclusion => "ExpectedChunkBytesConclusion".to_owned(),
            ErrorCode::ExpectedBytesCode => "ExpectedBytesCode".to_owned(),
            ErrorCode::ExpectedStringCode => "ExpectedStringCode".to_owned(),
            ErrorCode::MapExpectedListCode => "MapExpectedListCode".to_owned(),
            ErrorCode::ExpectedListCode => "ExpectedListCode".to_owned(),
            ErrorCode::InvalidUTF8 => "InvalidUTF8".to_owned(),
            ErrorCode::UnexpectedEof => "UnexpectedEof".to_owned(),
            ErrorCode::AttemptToReadPastEnd => "AttemptToReadPastEnd".to_owned(),
        }
    }

    /// The kind that is written under `name`, if there is one.
    pub open spec fn from_name_spec(name: Seq<char>) -> Option<ErrorCode> {
        if name == "Eof"@ {
            Some(ErrorCode::Eof)
        } else if name == "IO::Error"@ {
            Some(ErrorCode::Io)
        } else if name == "UnsupportedType"@ {
            Some(ErrorCode::UnsupportedType)
        } else if name == "UnsupportedTAType"@ {
            Some(ErrorCode::UnsupportedTAType)
        } else if name == "UnsupportedCacheType"@ {
            Some(ErrorCode::UnsupportedCacheType)
        } else if name == "IntTooLargeFori64"@ {
            Some(ErrorCode::IntTooLargeFori64)
        } else if name == "Expectedi64"@ {
            Some(ErrorCode::Expectedi64)
        } else if name == "ExpectedNonZeroReadLength"@ {
            Some(ErrorCode::ExpectedNonZeroReadLength)
        } else if name == "ExpectedDoubleCode"@ {
            Some(ErrorCode::ExpectedDoubleCode)
        } else if name == "ExpectedFloatCode"@ {
            Some(ErrorCode::ExpectedFloatCode)
        } else if name == "ExpectedBooleanCode"@ {
            Some(ErrorCode::ExpectedBooleanCode)
        } else if name == "ExpectedChunkBytesConclusion"@ {
            Some(ErrorCode::ExpectedChunkBytesConclusion)
        } else if name == "ExpectedBytesCode"@ {
            Some(ErrorCode::ExpectedBytesCode)
        } else if name == "ExpectedStringCode"@ {
            Some(ErrorCode::ExpectedStringCode)
        } else if name == "MapExpectedListCode"@ {
            Some(ErrorCode::MapExpectedListCode)
        } else if name == "ExpectedListCode"@ {
            Some(ErrorCode::ExpectedListCode)
        } else if name == "InvalidUTF8"@ {
            Some(ErrorCode::InvalidUTF8)
        } else if name == "UnexpectedEof"@ {
            Some(ErrorCode::UnexpectedEof)
        } else if name == "AttemptToReadPastEnd"@ {
            Some(ErrorCode::AttemptToReadPastEnd)
        } else {
            None
        }
    }

    /// The kind that is written under `name`, if there is one.
    pub fn from_name(name: &String) -> (r: Option<ErrorCode>)
        ensures
            r == Self::from_name_spec(name@),
    {
        if same_text(name, "Eof") {
            Some(ErrorCode::Eof)
        } else if same_text(name, "IO::Error") {
            Some(ErrorCode::Io)
        } else if same_text(name, "UnsupportedType") {
            Some(ErrorCode::UnsupportedType)
        } else if same_text(name, "UnsupportedTAType") {
            Some(ErrorCode::UnsupportedTAType)
        } else if same_text(name, "UnsupportedCacheType") {
            Some(ErrorCode::UnsupportedCacheType)
        } else if same_text(name, "IntTooLargeFori64") {
            Some(ErrorCode::IntTooLargeFori64)
        } else if same_text(name, "Expectedi64") {
            Some(ErrorCode::Expectedi64)
        } else if same_text(name, "ExpectedNonZeroReadLength") {
            Some(ErrorCode::ExpectedNonZeroReadLength)
        } else if same_text(name, "ExpectedDoubleCode") {
            Some(ErrorCode::ExpectedDoubleCode)
        } else if same_text(name, "ExpectedFloatCode") {
            Some(ErrorCode::ExpectedFloatCode)
        } else if same_text(name, "ExpectedBooleanCode") {
            Some(ErrorCode::ExpectedBooleanCode)
        } else if same_text(name, "ExpectedChunkBytesConclusion") {
            Some(ErrorCode::ExpectedChunkBytesConclusion)
        } else if same_text(name, "ExpectedBytesCode") {
            Some(ErrorCode::ExpectedBytesCode)
        } else if same_text(name, "ExpectedStringCode") {
            Some(ErrorCode::ExpectedStringCode)
        } else if same_text(name, "MapExpectedListCode") {
            Some(ErrorCode::MapExpectedListCode)
        } else if same_text(name, "ExpectedListCode") {
            Some(ErrorCode::ExpectedListCode)
        } else if same_text(name, "InvalidUTF8") {
            Some(ErrorCode::InvalidUTF8)
        } else if same_text(name, "UnexpectedEof") {
            Some(ErrorCode::UnexpectedEof)
        } else if same_text(name, "AttemptToReadPastEnd") {
            Some(ErrorCode::AttemptToReadPastEnd)
        } else {
            None
        }
    }
}

/// The names of the error kinds are distinct, and none of them is the name
/// of a message or of an unmatched code: a kind is told back from its name.
pub proof fn lemma_name_distinct_all()
    ensures
        forall|code: ErrorCode| #![auto] ErrorCode::from_name_spec(code.name_spec()) == Some(code),
        forall|code: ErrorCode|
            #![auto]
            code.name_spec() != "Message"@ && code.name_spec() != "UnmatchedCode"@,
{
    assert forall|code: ErrorCode| #![auto] ErrorCode::from_name_spec(code.name_spec()) == Some(
        code,
    ) && code.name_spec() != "Message"@ && code.name_spec() != "UnmatchedCode"@ by {
        lemma_name_distinct(code);
    }
}

proof fn lemma_name_distinct(code: ErrorCode)
    ensures
        ErrorCode::from_name_spec(code.name_spec()) == Some(code),
        code.name_spec() != "Message"@,
        code.name_spec() != "UnmatchedCode"@,
{
    reveal_strlit("Eof");
    reveal_strlit("IO::Error");
    reveal_strlit("UnsupportedType");
    reveal_strlit("UnsupportedTAType");
    reveal_strlit("UnsupportedCacheType");
    reveal_strlit("IntTooLargeFori64");
    reveal_strlit("Expectedi64");
    reveal_strlit("ExpectedNonZeroReadLength");
    reveal_strlit("ExpectedDoubleCode");
    reveal_strlit("ExpectedFloatCode");
    reveal_strlit("ExpectedBooleanCode");
    reveal_strlit("ExpectedChunkBytesConclusion");
    reveal_strlit("ExpectedBytesCode");
    reveal_strlit("ExpectedStringCode");
    reveal_strlit("MapExpectedListCode");
    reveal_strlit("ExpectedListCode");
    reveal_strlit("InvalidUTF8");
    reveal_strlit("UnexpectedEof");
    reveal_strlit("AttemptToReadPastEnd");
    reveal_strlit("Message");
    reveal_strlit("UnmatchedCode");
    assert("Eof"@.len() == 3);
    assert("IO::Error"@.len() == 9);
    assert("UnsupportedType"@.len() == 15);
    assert("UnsupportedTAType"@.len() == 17);
    assert("UnsupportedTAType"@[8] == 't');
    assert("UnsupportedCacheType"@.len() == 20);
    assert("UnsupportedCacheType"@[0] == 'U');
    assert("IntTooLargeFori64"@.len() == 17);
    assert("IntTooLargeFori64"@[8] == 'r');
    assert("Expectedi64"@.len() == 11);
    assert("Expectedi64"@[0] == 'E');
    assert("ExpectedNonZeroReadLength"@.len() == 25);
    assert("ExpectedDoubleCode"@.len() == 18);
    assert("ExpectedDoubleCode"@[8] == 'D');
    assert("ExpectedFloatCode"@.len() == 17);
    assert("ExpectedFloatCode"@[8] == 'F');
    assert("ExpectedBooleanCode"@.len() == 19);
    assert("ExpectedBooleanCode"@[0] == 'E');
    assert("ExpectedChunkBytesConclusion"@.len() == 28);
    assert("ExpectedBytesCode"@.len() == 17);
    assert("ExpectedBytesCode"@[8] == 'B');
    assert("ExpectedStringCode"@.len() == 18);
    assert("ExpectedStringCode"@[8] == 'S');
    assert("MapExpectedListCode"@.len() == 19);
    assert("MapExpectedListCode"@[0] == 'M');
    assert("ExpectedListCode"@.len() == 16);
    assert("InvalidUTF8"@.len() == 11);
    assert("InvalidUTF8"@[0] == 'I');
    assert("UnexpectedEof"@.len() == 13);
    assert("UnexpectedEof"@[2] == 'e');
    assert("AttemptToReadPastEnd"@.len() == 20);
    assert("AttemptToReadPastEnd"@[0] == 'A');
    assert("Message"@.len() == 7);
    assert("UnmatchedCode"@.len() == 13);
    assert("UnmatchedCode"@[2] == 'm');
}

impl Category {
    /// The name under which this class is written in an error record.
    pub open spec fn name_spec(self) -> Seq<char> {
        match self {
            Category::Io => "Io"@,
            Category::Eof => "Eof"@,
            Category::De => "De"@,
            Category::Ser => "Ser"@,
            Category::Misc => "Misc"@,
        }
    }

    /// The name under which this class is written in an error record.
    pub fn name(self) -> (s: String)
        ensures
            s@ == self.name_spec(),
    {
        match self {
            Category::Io => "Io".to_owned(),
            Category::Eof => "Eof".to_owned(),
            Category::De => "De".to_owned(),
            Category::Ser => "Ser".to_owned(),
            Category::Misc => "Misc".to_owned(),
        }
    }
}

/// The tag of an error record.
pub open spec fn error_tag() -> Seq<char> {
    "serde-fressian"@
}

/// A position as it is written in an error record: the position itself, or
/// the largest integer where it is beyond the integers.
pub open spec fn position_entry(position: usize) -> i64 {
    if position <= i64::MAX {
        position as i64
    } else {
        i64::MAX
    }
}

/// One field of a record: a key, which is a string, and a value.
pub open spec fn field(key: Seq<char>, value: ValueModel) -> (ValueModel, ValueModel) {
    (ValueModel::Str(key), value)
}

impl FressErrorModel {
    /// The class of this error.
    pub open spec fn category(self) -> Category {
        match self {
            FressErrorModel::Msg { .. } => Category::Misc,
            FressErrorModel::UnmatchedCode { .. } => Category::De,
            FressErrorModel::Syntax { code, .. } => code.category_spec(),
        }
    }

    /// The position that this error reports; a message reports none.
    pub open spec fn position(self) -> usize {
        match self {
            FressErrorModel::Msg { .. } => 0,
            FressErrorModel::UnmatchedCode { found, .. } => found,
            FressErrorModel::Syntax { position, .. } => position,
        }
    }

    /// The name that tells the shape of this error in its record.
    pub open spec fn shape_name(self) -> Seq<char> {
        match self {
            FressErrorModel::Msg { .. } => "Message"@,
            FressErrorModel::UnmatchedCode { .. } => "UnmatchedCode"@,
            FressErrorModel::Syntax { code, .. } => code.name_spec(),
        }
    }

    /// This error as a value: a record tagged [`error_tag`] with the fields
    /// `category`, `position` and `ErrorCode`, and for a message or an
    /// unmatched code a fourth field, `value`.
    pub open spec fn record(self) -> ValueModel {
        let head = seq![
            field("category"@, ValueModel::Str(self.category().name_spec())),
            field("position"@, ValueModel::Int(position_entry(self.position()))),
            field("ErrorCode"@, ValueModel::Str(self.shape_name())),
        ];
        match self {
            FressErrorModel::Msg { text } => ValueModel::Ext {
                tag: error_tag(),
                fields: head.push(field("value"@, ValueModel::Str(text))),
            },
            FressErrorModel::UnmatchedCode { expected, .. } => ValueModel::Ext {
                tag: error_tag(),
                fields: head.push(field("value"@, ValueModel::Int(expected as i64))),
            },
            FressErrorModel::Syntax { .. } => ValueModel::Ext { tag: error_tag(), fields: head },
        }
    }
}

/// Whether the first three fields of a record are those of an error record.
pub open spec fn has_error_head(fields: Seq<(ValueModel, ValueModel)>) -> bool {
    &&& fields.len() == 3 || fields.len() == 4
    &&& fields[0].0 == ValueModel::Str("category"@)
    &&& fields[0].1 is Str
    &&& fields[1].0 == ValueModel::Str("position"@)
    &&& fields[1].1 is Int
    &&& 0 <= fields[1].1->Int_0 <= usize::MAX
    &&& fields[2].0 == ValueModel::Str("ErrorCode"@)
    &&& fields[2].1 is Str
}

/// The error that a value stands for, if it is an error record.
///
/// The shape is told by the `ErrorCode` field; the `category` field is
/// not looked into.
pub open spec fn error_of(v: ValueModel) -> Option<FressErrorModel> {
    if v is Ext && v->tag == error_tag() && has_error_head(v->fields) {
        let fields = v->fields;
        let position = fields[1].1->Int_0 as usize;
        let name = fields[2].1->Str_0;
        if name == "Message"@ {
            if fields.len() == 4 && fields[3].0 == ValueModel::Str("value"@) && fields[3].1 is Str {
                Some(FressErrorModel::Msg { text: fields[3].1->Str_0 })
            } else {
                None
            }
        } else if name == "UnmatchedCode"@ {
            if fields.len() == 4 && fields[3].0 == ValueModel::Str("value"@) && fields[3].1 is Int
                && 0 <= fields[3].1->Int_0 <= u8::MAX {
                Some(
                    FressErrorModel::UnmatchedCode {
                        expected: fields[3].1->Int_0 as u8,
                        found: position,
                    },
                )
            } else {
                None
            }
        } else if fields.len() == 3 {
            match ErrorCode::from_name_spec(name) {
                Some(code) => Some(FressErrorModel::Syntax { code, position }),
                None => None,
            }
        } else {
            None
        }
    } else {
        None
    }
}

/// A string value with the given text.
fn text_value(text: &str) -> (v: Value)
    ensures
        v@ == ValueModel::Str(text@),
{
    Value::Str(text.to_owned())
}

/// Whether `v` is a string with the given text.
fn is_text(v: &Value, text: &str) -> (r: bool)
    ensures
        r == (v@ == ValueModel::Str(text@)),
{
    match v {
        Value::Str(s) => same_text(s, text),
        _ => false,
    }
}

impl FressError {
    /// The class of this error.
    pub fn category(&self) -> (c: Category)
        ensures
            c == self@.category(),
    {
        match self {
            FressError::Msg { .. } => Category::Misc,
            FressError::UnmatchedCode { .. } => Category::De,
            FressError::Syntax { code, .. } => code.category(),
        }
    }

    /// What every error says of itself when it is shown; the particulars
    /// are in its record.
    pub fn description(&self) -> (s: String)
        ensures
            s@ == "fressian error!"@,
    {
        "fressian error!".to_owned()
    }

    /// This error as a value. The conversion cannot fail.
    pub fn to_value(&self) -> (v: Value)
        ensures
            v@ == self@.record(),
    {
        let (position, shape): (usize, String) = match self {
            FressError::Msg { .. } => (0, "Message".to_owned()),
            FressError::UnmatchedCode { found, .. } => (*found, "UnmatchedCode".to_owned()),
            FressError::Syntax { code, position } => (*position, code.name()),
        };
        let wide: u64 = position as u64;
        let written: i64 = if wide <= 0x7FFF_FFFF_FFFF_FFFF {
            wide as i64
        } else {
            0x7FFF_FFFF_FFFF_FFFF
        };
        let mut fields: Vec<(Value, Value)> = Vec::new();
        fields.push((text_value("category"), Value::Str(self.category().name())));
        fields.push((text_value("position"), Value::Int(written)));
        fields.push((text_value("ErrorCode"), Value::Str(shape)));
        match self {
            FressError::Msg { text } => {
                fields.push((text_value("value"), Value::Str(text.clone())));
            },
            FressError::UnmatchedCode { expected, .. } => {
                fields.push((text_value("value"), Value::Int(*expected as i64)));
            },
            FressError::Syntax { .. } => {},
        }
        proof {
            let all = entries_view(fields@);
            assert(all.len() == fields@.len());
            assert(all[0] == (fields@[0].0@, fields@[0].1@));
            assert(all[1] == (fields@[1].0@, fields@[1].1@));
            assert(all[2] == (fields@[2].0@, fields@[2].1@));
            if fields@.len() == 4 {
                assert(all[3] == (fields@[3].0@, fields@[3].1@));
            }
            assert(all =~= self@.record()->fields);
        }
        Value::Ext { tag: "serde-fressian".to_owned(), fields }
    }

    /// The error that a value stands for, if it is an error record.
    pub fn from_value(v: &Value) -> (r: Option<FressError>)
        ensures
            match r {
                Some(e) => error_of(v@) == Some(e@),
                None => error_of(v@) is None,
            },
    {
        match v {
            Value::Ext { tag, fields } => {
                proof {
                    assert(entries_view(fields@).len() == fields@.len());
                }
                if !same_text(tag, "serde-fressian") {
                    return None;
                }
                if fields.len() != 3 && fields.len() != 4 {
                    return None;
                }
                proof {
                    let all = entries_view(fields@);
                    assert(all[0] == (fields@[0].0@, fields@[0].1@));
                    assert(all[1] == (fields@[1].0@, fields@[1].1@));
                    assert(all[2] == (fields@[2].0@, fields@[2].1@));
                    if fields.len() == 4 {
                        assert(all[3] == (fields@[3].0@, fields@[3].1@));
                    }
                }
                if !is_text(&fields[0].0, "category") || !is_text(&fields[1].0, "position")
                    || !is_text(&fields[2].0, "ErrorCode") {
                    return None;
                }
                match (&fields[0].1, &fields[1].1, &fields[2].1) {
                    (Value::Str(_), Value::Int(at), Value::Str(name)) => {
                        if *at < 0 || *at as u64 > usize::MAX as u64 {
                            return None;
                        }
                        let position: usize = *at as usize;
                        if same_text(name, "Message") {
                            if fields.len() == 4 && is_text(&fields[3].0, "value") {
                                match &fields[3].1 {
                                    Value::Str(text) => Some(FressError::Msg { text: text.clone() }),
                                    _ => None,
                                }
                            } else {
                                None
                            }
                        } else if same_text(name, "UnmatchedCode") {
                            if fields.len() == 4 && is_text(&fields[3].0, "value") {
                                match &fields[3].1 {
                                    Value::Int(code) => {
                                        if 0 <= *code && *code <= 255 {
                                            Some(
                                                FressError::UnmatchedCode {
                                                    expected: *code as u8,
                                                    found: position,
                                                },
                                            )
                                        } else {
                                            None
                                        }
                                    },
                                    _ => None,
                                }
                            } else {
                                None
                            }
                        } else if fields.len() == 3 {
                            match ErrorCode::from_name(name) {
                                Some(code) => Some(FressError::Syntax { code, position }),
                                None => None,
                            }
                        } else {
                            None
                        }
                    },
                    _ => None,
                }
            },
            _ => None,
        }
    }
}

/// Whether two errors have the same shape: both messages, both unmatched
/// codes, or both structural errors.
pub open spec fn same_shape(a: FressErrorModel, b: FressErrorModel) -> bool {
    ||| a is Msg && b is Msg
    ||| a is UnmatchedCode && b is UnmatchedCode
    ||| a is Syntax && b is Syntax
}

/// An error is told back from its record: the record of an error stands for
/// that error and for no other. This holds of every error whose position is
/// within the integers that a record can carry.
pub proof fn law_error_told_from_record(e: FressErrorModel)
    requires
        e.position() <= i64::MAX,
    ensures
        error_of(e.record()) == Some(e),
{
    lemma_name_distinct_all();
    reveal_strlit("Message");
    reveal_strlit("UnmatchedCode");
    assert("Message"@.len() == 7);
    assert("UnmatchedCode"@.len() == 13);
    let fields = e.record()->fields;
    assert(has_error_head(fields));
    match e {
        FressErrorModel::Msg { text } => {},
        FressErrorModel::UnmatchedCode { expected, found } => {},
        FressErrorModel::Syntax { code, position } => {},
    }
}

/// Errors of different shapes carry different names in their records, so
/// that the shape can be told from the name alone.
pub proof fn law_shapes_told_apart(a: FressErrorModel, b: FressErrorModel)
    requires
        !same_shape(a, b),
    ensures
        a.shape_name() != b.shape_name(),
        a.record() != b.record(),
{
    lemma_name_distinct_all();
    reveal_strlit("Message");
    reveal_strlit("UnmatchedCode");
    assert("Message"@.len() == 7);
    assert("UnmatchedCode"@.len() == 13);
    assert(a.record()->fields[2] == field("ErrorCode"@, ValueModel::Str(a.shape_name())));
    assert(b.record()->fields[2] == field("ErrorCode"@, ValueModel::Str(b.shape_name())));
}

} // verus!
