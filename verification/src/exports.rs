//! What the guest offers the host: each export as the bytes of the buffer
//! that it fills.
//!
//! An export here computes the whole buffer, header and payload. Placing the
//! buffer in guest memory and returning its address is left to the caller,
//! which enters the buffer on the [`crate::boundary::Boundary`] ledger.

use vstd::prelude::*;
use crate::codes;
use crate::decode::decode;
use crate::encode::{encode, encode_into, wire, writable};
use crate::error::{field, ErrorCode, FressError, FressErrorModel};
use crate::frame::{framed, try_frame, MAX_PAYLOAD};
use crate::grammar::decoding;
use crate::value::{entries_view, list_view, Value, ValueModel};

verus! {

/// The buffer that carries `payload`, or nothing where the payload is longer
/// than a header can count.
pub open spec fn buffer_of(payload: Seq<u8>) -> Option<Seq<u8>> {
    if payload.len() <= MAX_PAYLOAD {
        Some(framed(payload))
    } else {
        None
    }
}

/// The buffer that carries a payload, where there is a payload.
pub open spec fn buffer_for(payload: Option<Seq<u8>>) -> Option<Seq<u8>> {
    match payload {
        Some(bytes) => buffer_of(bytes),
        None => None,
    }
}

/// The payload of a value: its bytes, where it can be written.
pub open spec fn payload_of(v: ValueModel) -> Option<Seq<u8>> {
    if writable(v) {
        Some(wire(v))
    } else {
        None
    }
}

/// The payload of a failure: the error code and then the bytes of the
/// error's record, where the record can be written.
pub open spec fn failure_payload(record: ValueModel) -> Option<Seq<u8>> {
    if writable(record) {
        Some(seq![codes::ERROR] + wire(record))
    } else {
        None
    }
}

/// Whether `r` holds the bytes `expected`, or nothing where there are none.
pub open spec fn gives(r: Option<Vec<u8>>, expected: Option<Seq<u8>>) -> bool {
    match r {
        Some(bytes) => expected == Some(bytes@),
        None => expected is None,
    }
}

/// Encodes `v` and frames the bytes: the buffer that an export hands over.
/// There is none where `v` cannot be written or its bytes are more than a
/// header can count.
pub fn produce(v: &Value) -> (r: Option<Vec<u8>>)
    ensures
        gives(r, buffer_for(payload_of(v@))),
{
    match encode(v) {
        Some(payload) => try_frame(payload.as_slice()),
        None => None,
    }
}

/// A string value.
fn text(s: &str) -> (v: Value)
    ensures
        v@ == ValueModel::Str(s@),
{
    Value::Str(s.to_owned())
}

/// A list of three strings.
fn triple(a: &str, b: &str, c: &str) -> (v: Value)
    ensures
        v@ == ValueModel::List(seq![ValueModel::Str(a@), ValueModel::Str(b@), ValueModel::Str(c@)]),
{
    let mut items: Vec<Value> = Vec::new();
    items.push(text(a));
    items.push(text(b));
    items.push(text(c));
    proof {
        assert(list_view(items@) =~= seq![
            ValueModel::Str(a@),
            ValueModel::Str(b@),
            ValueModel::Str(c@),
        ]);
    }
    Value::List(items)
}

/// The greeting: two lists of three strings each.
pub open spec fn greeting_model() -> ValueModel {
    ValueModel::List(
        seq![
            ValueModel::List(
                seq![
                    ValueModel::Str("hello"@),
                    ValueModel::Str("from"@),
                    ValueModel::Str("wasm!"@),
                ],
            ),
            ValueModel::List(
                seq![
                    ValueModel::Str("isn't"@),
                    ValueModel::Str("this"@),
                    ValueModel::Str("exciting?!"@),
                ],
            ),
        ],
    )
}

/// The greeting as a value.
pub fn greeting() -> (v: Value)
    ensures
        v@ == greeting_model(),
{
    let mut lists: Vec<Value> = Vec::new();
    lists.push(triple("hello", "from", "wasm!"));
    lists.push(triple("isn't", "this", "exciting?!"));
    proof {
        assert(list_view(lists@) =~= seq![lists@[0]@, lists@[1]@]);
    }
    Value::List(lists)
}

/// The buffer of the greeting.
pub fn hello() -> (r: Option<Vec<u8>>)
    ensures
        gives(r, buffer_for(payload_of(greeting_model()))),
{
    produce(&greeting())
}

/// The wide text: a run of characters that each take four bytes in UTF-8,
/// with spaces between them.
pub open spec fn wide_text() -> Seq<char> {
    "😉 😎 🤔 😐 🙄😉 😎 🤔 😐 🙄😉 😎 🤔 😐 🙄😉 😎 🤔 😐 🙄😉 😎 🤔 😐 🙄😉 😎 🤔 😐 🙄"@
}

/// The wide text in a list of one string.
pub open spec fn wide_text_model() -> ValueModel {
    ValueModel::List(seq![ValueModel::Str(wide_text())])
}

/// The buffer of the wide text.
pub fn big_string() -> (r: Option<Vec<u8>>)
    ensures
        gives(r, buffer_for(payload_of(wide_text_model()))),
{
    let mut items: Vec<Value> = Vec::new();
    items.push(text("😉 😎 🤔 😐 🙄😉 😎 🤔 😐 🙄😉 😎 🤔 😐 🙄😉 😎 🤔 😐 🙄😉 😎 🤔 😐 🙄😉 😎 🤔 😐 🙄"));
    proof {
        assert(list_view(items@) =~= seq![ValueModel::Str(wide_text())]);
    }
    produce(&Value::List(items))
}

/// What is sent back for the outcome of a decoding: the value as it is, or
/// the error code and then the error as a record.
pub open spec fn reply_payload(outcome: Result<ValueModel, FressErrorModel>) -> Option<Seq<u8>> {
    match outcome {
        Ok(v) => payload_of(v),
        Err(e) => failure_payload(e.record()),
    }
}

/// The model of an outcome.
pub open spec fn outcome_view(outcome: Result<Value, FressError>) -> Result<
    ValueModel,
    FressErrorModel,
> {
    match outcome {
        Ok(v) => Ok(v@),
        Err(e) => Err(e@),
    }
}

/// The payload of a failure that carries `record`.
fn failure(record: &Value) -> (r: Option<Vec<u8>>)
    ensures
        gives(r, failure_payload(record@)),
{
    let mut payload: Vec<u8> = Vec::new();
    payload.push(codes::ERROR);
    if encode_into(record, &mut payload) {
        Some(payload)
    } else {
        None
    }
}

/// Encodes the outcome of a decoding. A failure is sent as a value like any
/// other, behind the error code.
pub fn reply(outcome: &Result<Value, FressError>) -> (r: Option<Vec<u8>>)
    ensures
        gives(r, reply_payload(outcome_view(*outcome))),
{
    match outcome {
        Ok(v) => encode(v),
        Err(e) => failure(&e.to_value()),
    }
}

/// Decodes `input` and gives the buffer of what it decoded to: of the value,
/// or of the error where the input was malformed.
///
/// The input is only read, so the caller may release it as soon as this
/// returns.
pub fn echo(input: &[u8]) -> (r: Option<Vec<u8>>)
    ensures
        gives(r, buffer_for(reply_payload(decoding(input@)))),
{
    let outcome = decode(input);
    match reply(&outcome) {
        Some(payload) => try_frame(payload.as_slice()),
        None => None,
    }
}

/// The error batch: one error of each shape.
pub open spec fn error_batch() -> Seq<FressErrorModel> {
    seq![
        FressErrorModel::Msg { text: "some message"@ },
        FressErrorModel::UnmatchedCode { expected: 42, found: 43 },
        FressErrorModel::Syntax { code: ErrorCode::UnsupportedCacheType, position: 99 },
    ]
}

/// The error batch as a value: the list of the errors' records.
pub open spec fn error_batch_model() -> ValueModel {
    ValueModel::List(
        seq![error_batch()[0].record(), error_batch()[1].record(), error_batch()[2].record()],
    )
}

/// The buffer of the error batch.
pub fn get_errors() -> (r: Option<Vec<u8>>)
    ensures
        gives(r, buffer_for(payload_of(error_batch_model()))),
{
    let msg = FressError::Msg { text: "some message".to_owned() };
    let unmatched_code = FressError::UnmatchedCode { expected: 42, found: 43 };
    let unsupported = FressError::Syntax { code: ErrorCode::UnsupportedCacheType, position: 99 };
    let mut errors: Vec<Value> = Vec::new();
    errors.push(msg.to_value());
    errors.push(unmatched_code.to_value());
    errors.push(unsupported.to_value());
    proof {
        assert(list_view(errors@) =~= seq![errors@[0]@, errors@[1]@, errors@[2]@]);
    }
    produce(&Value::List(errors))
}

/// An error of the guest's own making, with one field.
#[derive(Debug, PartialEq, Eq)]
pub struct CustomError {
    pub field_0: String,
}

impl CustomError {
    /// This error as a value: a record tagged `test_lib_error` with the one
    /// field.
    pub open spec fn record(self) -> ValueModel {
        ValueModel::Ext {
            tag: "test_lib_error"@,
            fields: seq![field("field_0"@, ValueModel::Str(self.field_0@))],
        }
    }

    /// This error as a value. The conversion cannot fail.
    pub fn to_value(&self) -> (v: Value)
        ensures
            v@ == self.record(),
    {
        let mut fields: Vec<(Value, Value)> = Vec::new();
        fields.push((text("field_0"), Value::Str(self.field_0.clone())));
        proof {
            assert(entries_view(fields@) =~= seq![
                field("field_0"@, ValueModel::Str(self.field_0@)),
            ]);
        }
        Value::Ext { tag: "test_lib_error".to_owned(), fields }
    }

    /// What this error says of itself.
    pub fn description(&self) -> (s: String)
        ensures
            s@ == "A custom Error"@,
    {
        "A custom Error".to_owned()
    }
}

/// The record of the custom error that [`get_custom_error`] reports.
pub open spec fn custom_error_record() -> ValueModel {
    ValueModel::Ext {
        tag: "test_lib_error"@,
        fields: seq![field("field_0"@, ValueModel::Str("some message"@))],
    }
}

/// The buffer of a failure that carries a custom error.
pub fn get_custom_error() -> (r: Option<Vec<u8>>)
    ensures
        gives(r, buffer_for(failure_payload(custom_error_record()))),
{
    let err = CustomError { field_0: "some message".to_owned() };
    match failure(&err.to_value()) {
        Some(payload) => try_frame(payload.as_slice()),
        None => None,
    }
}

/// Meets a fatal fault. The guest stops in this call: it asks that two and
/// two make five, which no caller can show, so the call is never entered
/// and never returns; no buffer is produced and none is asked back. What the
/// ledger records of a fault is [`crate::boundary::Boundary::fault`].
pub fn induce_panic()
    requires
        2 + 2 == 5,
{
}

} // verus!
