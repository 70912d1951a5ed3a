//! The decoder: from bytes in the wire format back to a value.
//!
//! The decoder only reads its input. Malformed input is reported as a
//! [`FressError`]; no input makes it fail in any other way.

use vstd::prelude::*;
use crate::codes;
use crate::encode::DOUBLE_ONE_BITS;
use crate::error::{ErrorCode, FressError, FressErrorModel};
use crate::grammar::{be32_value, be64_value, parse_count, parse_str, syntax};
use crate::grammar::{decoding, parse_closed_entries, parse_closed_items, parse_entries};
use crate::grammar::{is_scalar_code, is_text_code, parse_map, parse_scalar, parse_text};
use crate::grammar::{mismatch_error, parse_open_items, parse_tagged, parse_utf8};
use crate::grammar::{array_kind, parse_array};
use crate::grammar::{is_string_code, parse_component, parse_named, parse_string};
use crate::grammar::{parse_items, parse_list_body, parse_value, record_or_mapping};
use crate::leaf::{group_len, groups_complete, int_item_len, is_int_code};
use crate::leaf::{is_str_shape, read_int, read_str, str_body_offset, utf8_text};
use crate::value::{entries_view, entries_wf, items_wf, keys_unique, list_view, merged, put};
use crate::value::{items_fit, tag, tag_key, ArrayKind, Value, ValueModel};
use crate::value::{Component, ComponentModel};

verus! {

/// A structural error at a position of the input.
fn syntax_error(code: ErrorCode, position: usize) -> (e: FressError)
    ensures
        e@ == syntax(code, position as int),
{
    FressError::Syntax { code, position }
}

/// Whether `c` opens an integer.
fn opens_int(c: u8) -> (r: bool)
    ensures
        r == is_int_code(c),
{
    c <= 0x7F || c == codes::INT || c == codes::INT_MINUS_ONE
}

/// The length of an integer that opens with `c`.
fn int_len(c: u8) -> (w: usize)
    ensures
        w == int_item_len(c),
        1 <= w <= 9,
{
    if c <= 0x3F {
        1
    } else if c <= 0x5F {
        2
    } else if c <= 0x6F {
        3
    } else if c <= 0x73 {
        4
    } else if c <= 0x77 {
        5
    } else if c <= 0x7B {
        6
    } else if c <= 0x7F {
        7
    } else if c == codes::INT {
        9
    } else {
        1
    }
}

/// Whether every group of string bytes in `region` is whole.
fn check_groups(region: &[u8]) -> (ok: bool)
    ensures
        ok == groups_complete(region@, 0),
{
    let mut at: usize = 0;
    while at < region.len()
        invariant
            at <= region.len(),
            groups_complete(region@, 0) == groups_complete(region@, at as int),
        decreases region.len() - at,
    {
        let b = region[at];
        let g: usize = if b < 0x80 {
            1
        } else if 0xC0 <= b && b < 0xE0 {
            2
        } else if 0xE0 <= b && b < 0xF0 {
            3
        } else {
            0
        };
        assert(g == group_len(b));
        if g == 0 {
            return true;
        }
        if g > region.len() - at {
            return false;
        }
        at = at + g;
    }
    true
}

/// Reads a count at `pos`.
fn read_count(bytes: &[u8], pos: usize) -> (r: Result<(usize, usize), FressError>)
    requires
        pos <= bytes.len(),
    ensures
        match r {
            Ok((n, next)) => parse_count(bytes@, pos as int) == Ok::<(int, int), FressErrorModel>(
                (n as int, next as int),
            ) && pos < next <= bytes.len() && n <= i32::MAX,
            Err(e) => parse_count(bytes@, pos as int) == Err::<(int, int), FressErrorModel>(e@),
        },
{
    if pos >= bytes.len() {
        return Err(syntax_error(ErrorCode::Eof, pos));
    }
    let c = bytes[pos];
    if !opens_int(c) {
        return Err(syntax_error(ErrorCode::Expectedi64, pos + 1));
    }
    let w = int_len(c);
    if w > bytes.len() - pos {
        return Err(syntax_error(ErrorCode::Eof, bytes.len()));
    }
    let next = pos + w;
    let n = read_int(&bytes[pos..next]);
    if n < 0 || n > 0x7FFF_FFFF {
        return Err(syntax_error(ErrorCode::AttemptToReadPastEnd, next));
    }
    Ok((n as usize, next))
}

/// Reads the string whose item runs from `start` to `end` and whose bytes
/// begin at `body`.
fn read_string(bytes: &[u8], start: usize, body: usize, end: usize) -> (r: Result<
    (Value, usize),
    FressError,
>)
    requires
        start < body <= end <= bytes.len(),
        is_str_shape(bytes@.subrange(start as int, end as int)),
        str_body_offset(bytes@.subrange(start as int, end as int)) == body - start,
    ensures
        match r {
            Ok((v, next)) => parse_str(bytes@, start as int, body as int, end as int) == Ok::<
                (ValueModel, int),
                FressErrorModel,
            >((v@, next as int)) && next == end,
            Err(e) => parse_str(bytes@, start as int, body as int, end as int) == Err::<
                (ValueModel, int),
                FressErrorModel,
            >(e@),
        },
{
    if !check_groups(&bytes[body..end]) {
        return Err(syntax_error(ErrorCode::InvalidUTF8, end));
    }
    proof {
        let item = bytes@.subrange(start as int, end as int);
        assert(item.subrange(body - start, item.len() as int) =~= bytes@.subrange(
            body as int,
            end as int,
        ));
    }
    match read_str(&bytes[start..end]) {
        Some(s) => Ok((Value::Str(s), end)),
        None => Err(syntax_error(ErrorCode::InvalidUTF8, end)),
    }
}

/// The value of the four bytes at `at`, most significant first.
fn read_be32(bytes: &[u8], at: usize) -> (bits: u32)
    requires
        at + 4 <= bytes.len(),
    ensures
        bits == be32_value(bytes@.subrange(at as int, at + 4)),
{
    (bytes[at] as u32) << 24 | (bytes[at + 1] as u32) << 16 | (bytes[at + 2] as u32) << 8 | (
    bytes[at + 3] as u32)
}

/// The value of the eight bytes at `at`, most significant first.
fn read_be64(bytes: &[u8], at: usize) -> (bits: u64)
    requires
        at + 8 <= bytes.len(),
    ensures
        bits == be64_value(bytes@.subrange(at as int, at + 8)),
{
    (bytes[at] as u64) << 56 | (bytes[at + 1] as u64) << 48 | (bytes[at + 2] as u64) << 40 | (
    bytes[at + 3] as u64) << 32 | (bytes[at + 4] as u64) << 24 | (bytes[at + 5] as u64) << 16 | (
    bytes[at + 6] as u64) << 8 | (bytes[at + 7] as u64)
}

/// What a run reads as, when `acc` was read so far and reading on gives
/// `rest`.
pub open spec fn carried<T>(acc: Seq<T>, rest: Result<(Seq<T>, int), FressErrorModel>) -> Result<
    (Seq<T>, int),
    FressErrorModel,
> {
    match rest {
        Ok((tail, end)) => Ok((acc + tail, end)),
        Err(e) => Err(e),
    }
}

proof fn lemma_carried_empty<T>(rest: Result<(Seq<T>, int), FressErrorModel>)
    ensures
        carried(Seq::<T>::empty(), rest) == rest,
{
    match rest {
        Ok((tail, end)) => {
            assert(Seq::<T>::empty() + tail =~= tail);
        },
        Err(e) => {},
    }
}

proof fn lemma_carried_twice<T>(
    acc: Seq<T>,
    one: Seq<T>,
    rest: Result<(Seq<T>, int), FressErrorModel>,
)
    ensures
        carried(acc, carried(one, rest)) == carried(acc + one, rest),
{
    match rest {
        Ok((tail, end)) => {
            assert(acc + (one + tail) =~= (acc + one) + tail);
        },
        Err(e) => {},
    }
}

proof fn lemma_carried_done<T>(acc: Seq<T>, end: int)
    ensures
        carried(acc, Ok::<(Seq<T>, int), FressErrorModel>((Seq::<T>::empty(), end))) == Ok::<
            (Seq<T>, int),
            FressErrorModel,
        >((acc, end)),
{
    assert(acc + Seq::<T>::empty() =~= acc);
}

/// Whether what was read is what the grammar gives.
pub open spec fn agrees(
    r: Result<(Value, usize), FressError>,
    expected: Result<(ValueModel, int), FressErrorModel>,
) -> bool {
    match r {
        Ok((v, next)) => expected == Ok::<(ValueModel, int), FressErrorModel>((v@, next as int)),
        Err(e) => expected == Err::<(ValueModel, int), FressErrorModel>(e@),
    }
}

/// Whether the items that were read are what the grammar gives.
pub open spec fn agrees_items(
    r: Result<(Vec<Value>, usize), FressError>,
    expected: Result<(Seq<ValueModel>, int), FressErrorModel>,
) -> bool {
    match r {
        Ok((items, next)) => expected == Ok::<(Seq<ValueModel>, int), FressErrorModel>(
            (list_view(items@), next as int),
        ),
        Err(e) => expected == Err::<(Seq<ValueModel>, int), FressErrorModel>(e@),
    }
}

/// Whether the entries that were read are what the grammar gives, entered
/// one after the other.
pub open spec fn agrees_entries(
    r: Result<(Vec<(Value, Value)>, usize), FressError>,
    expected: Result<(Seq<(ValueModel, ValueModel)>, int), FressErrorModel>,
) -> bool {
    match r {
        Ok((entries, next)) => {
            &&& expected is Ok
            &&& expected->Ok_0.1 == next
            &&& entries_view(entries@) == merged(expected->Ok_0.0)
            &&& keys_unique(entries_view(entries@))
            &&& entries_wf(entries_view(entries@))
        },
        Err(e) => expected == Err::<(Seq<(ValueModel, ValueModel)>, int), FressErrorModel>(e@),
    }
}

/// Reads the scalar whose code stands at `pos`.
fn read_scalar(bytes: &[u8], pos: usize) -> (r: Result<(Value, usize), FressError>)
    requires
        pos < bytes.len(),
        is_scalar_code(bytes@[pos as int]),
    ensures
        agrees(r, parse_scalar(bytes@, pos as int)),
        r matches Ok((v, next)) ==> pos < next <= bytes.len() && v@.wf(),
{
    let c = bytes[pos];
    let left = bytes.len() - pos;
    if c == codes::NULL {
        Ok((Value::Null, pos + 1))
    } else if c == codes::TRUE {
        Ok((Value::Bool(true), pos + 1))
    } else if c == codes::FALSE {
        Ok((Value::Bool(false), pos + 1))
    } else if opens_int(c) {
        let w = int_len(c);
        if w > left {
            Err(syntax_error(ErrorCode::Eof, bytes.len()))
        } else {
            Ok((Value::Int(read_int(&bytes[pos..pos + w])), pos + w))
        }
    } else if c == codes::FLOAT {
        if left < 5 {
            Err(syntax_error(ErrorCode::Eof, pos + 1))
        } else {
            Ok((Value::Float(read_be32(bytes, pos + 1)), pos + 5))
        }
    } else if c == codes::DOUBLE {
        if left < 9 {
            Err(syntax_error(ErrorCode::Eof, pos + 1))
        } else {
            Ok((Value::Double(read_be64(bytes, pos + 1)), pos + 9))
        }
    } else if c == codes::DOUBLE_0 {
        Ok((Value::Double(0), pos + 1))
    } else {
        Ok((Value::Double(DOUBLE_ONE_BITS), pos + 1))
    }
}

/// Reads the string or byte array whose code stands at `pos`.
fn read_text(bytes: &[u8], pos: usize) -> (r: Result<(Value, usize), FressError>)
    requires
        pos < bytes.len(),
        is_text_code(bytes@[pos as int]),
    ensures
        agrees(r, parse_text(bytes@, pos as int)),
        r matches Ok((v, next)) ==> pos < next <= bytes.len() && v@.wf(),
{
    let c = bytes[pos];
    let left = bytes.len() - pos;
    if c == codes::STRING_CHUNK || c == codes::BYTES_CHUNK {
        Err(syntax_error(ErrorCode::UnsupportedType, pos + 1))
    } else if c == codes::STRING {
        match read_count(bytes, pos + 1) {
            Err(e) => Err(e),
            Ok((n, body)) => {
                if n > bytes.len() - body {
                    Err(syntax_error(ErrorCode::Eof, body))
                } else {
                    proof {
                        let item = bytes@.subrange(pos as int, body + n);
                        assert(item.subrange(1, body - pos) =~= bytes@.subrange(
                            pos + 1,
                            body as int,
                        ));
                    }
                    read_string(bytes, pos, body, body + n)
                }
            },
        }
    } else if c == codes::BYTES {
        match read_count(bytes, pos + 1) {
            Err(e) => Err(e),
            Ok((n, body)) => {
                if n > bytes.len() - body {
                    Err(syntax_error(ErrorCode::Eof, body))
                } else {
                    Ok((Value::Bytes(copy_of(bytes, body, body + n)), body + n))
                }
            },
        }
    } else if c >= codes::STRING_PACKED {
        let n: usize = (c - codes::STRING_PACKED) as usize;
        if n > left - 1 {
            Err(syntax_error(ErrorCode::Eof, pos + 1))
        } else {
            read_string(bytes, pos, pos + 1, pos + 1 + n)
        }
    } else {
        let n: usize = (c - codes::BYTES_PACKED) as usize;
        if n > left - 1 {
            Err(syntax_error(ErrorCode::Eof, pos + 1))
        } else {
            Ok((Value::Bytes(copy_of(bytes, pos + 1, pos + 1 + n)), pos + 1 + n))
        }
    }
}

/// Reads the string at `pos`, in either form.
fn read_string_at(bytes: &[u8], pos: usize) -> (r: Result<(String, usize), FressError>)
    requires
        pos <= bytes.len(),
    ensures
        match r {
            Ok((s, next)) => parse_string(bytes@, pos as int) == Ok::<
                (Seq<char>, int),
                FressErrorModel,
            >((s@, next as int)) && pos < next <= bytes.len(),
            Err(e) => parse_string(bytes@, pos as int) == Err::<(Seq<char>, int), FressErrorModel>(
                e@,
            ),
        },
{
    if pos >= bytes.len() {
        return Err(syntax_error(ErrorCode::Eof, pos));
    }
    let c = bytes[pos];
    if !((codes::STRING_PACKED <= c && c <= codes::STRING) || c == codes::UTF8) {
        return Err(syntax_error(ErrorCode::ExpectedStringCode, pos + 1));
    }
    let read = if c == codes::UTF8 {
        read_utf8(bytes, pos)
    } else {
        read_text(bytes, pos)
    };
    match read {
        Err(e) => Err(e),
        Ok((v, end)) => match v {
            Value::Str(s) => Ok((s, end)),
            _ => Err(syntax_error(ErrorCode::ExpectedStringCode, pos + 1)),
        },
    }
}

/// Reads a component of a keyword or of a symbol at `pos`.
fn read_component(bytes: &[u8], pos: usize) -> (r: Result<(Component, usize), FressError>)
    requires
        pos <= bytes.len(),
    ensures
        match r {
            Ok((c, next)) => parse_component(bytes@, pos as int) == Ok::<
                (ComponentModel, int),
                FressErrorModel,
            >((c@, next as int)) && pos < next <= bytes.len() && c@.wf(),
            Err(e) => parse_component(bytes@, pos as int) == Err::<
                (ComponentModel, int),
                FressErrorModel,
            >(e@),
        },
{
    if pos >= bytes.len() {
        return Err(syntax_error(ErrorCode::Eof, pos));
    }
    let c = bytes[pos];
    if c == codes::NULL {
        Ok((Component::Null, pos + 1))
    } else if codes::CACHED <= c && c < codes::CACHED + 32 {
        Ok((Component::Ref(c - codes::CACHED), pos + 1))
    } else if c == codes::PUT_CACHE {
        match read_string_at(bytes, pos + 1) {
            Err(e) => Err(e),
            Ok((s, end)) => Ok((Component::Put(s), end)),
        }
    } else {
        match read_string_at(bytes, pos) {
            Err(e) => Err(e),
            Ok((s, end)) => Ok((Component::Plain(s), end)),
        }
    }
}

/// Reads the keyword or the symbol whose code stands at `pos`.
fn read_named(bytes: &[u8], pos: usize) -> (r: Result<(Value, usize), FressError>)
    requires
        pos < bytes.len(),
    ensures
        agrees(r, parse_named(bytes@, pos as int)),
        r matches Ok((v, next)) ==> pos < next <= bytes.len() && v@.wf(),
{
    match read_component(bytes, pos + 1) {
        Err(e) => Err(e),
        Ok((namespace, mid)) => match read_component(bytes, mid) {
            Err(e) => Err(e),
            Ok((name, end)) => {
                if matches!(name, Component::Null) {
                    Err(syntax_error(ErrorCode::ExpectedStringCode, end))
                } else if bytes[pos] == codes::KEY {
                    Ok((Value::Key { namespace, name }, end))
                } else {
                    Ok((Value::Sym { namespace, name }, end))
                }
            },
        },
    }
}

/// Whether `c` opens a value without parts.
fn opens_scalar(c: u8) -> (r: bool)
    ensures
        r == is_scalar_code(c),
{
    c == codes::NULL || c == codes::TRUE || c == codes::FALSE || opens_int(c) || c
        == codes::FLOAT || c == codes::DOUBLE || c == codes::DOUBLE_0 || c == codes::DOUBLE_1
}

/// Reads the value at `pos`, and gives it with the position after it.
pub fn read_value(bytes: &[u8], pos: usize) -> (r: Result<(Value, usize), FressError>)
    requires
        pos <= bytes.len(),
    ensures
        agrees(r, parse_value(bytes@, pos as int)),
        r matches Ok((v, next)) ==> pos < next <= bytes.len() && v@.wf(),
    decreases bytes.len() - pos, 1nat,
{
    if pos >= bytes.len() {
        return Err(syntax_error(ErrorCode::Eof, pos));
    }
    let c = bytes[pos];
    if opens_scalar(c) {
        read_scalar(bytes, pos)
    } else if codes::BYTES_PACKED <= c && c <= codes::STRING {
        read_text(bytes, pos)
    } else if codes::LIST_PACKED <= c && c <= codes::BEGIN_OPEN_LIST {
        match read_list_body(bytes, pos) {
            Err(e) => Err(e),
            Ok((items, end)) => Ok((Value::List(items), end)),
        }
    } else if c == codes::MAP {
        read_map(bytes, pos)
    } else if c == codes::UTF8 {
        read_utf8(bytes, pos)
    } else if c == codes::SET || c == codes::UUID || c == codes::REGEX || c == codes::URI || c
        == codes::INST {
        read_tagged(bytes, pos)
    } else if codes::LONG_ARRAY <= c && c <= codes::FLOAT_ARRAY {
        read_array(bytes, pos)
    } else if c == codes::KEY || c == codes::SYM {
        read_named(bytes, pos)
    } else {
        Err(FressError::UnmatchedCode { expected: c, found: pos + 1 })
    }
}

/// The error for a payload that is not of the kind that the code `c`
/// announces.
fn mismatch(c: u8) -> (code: ErrorCode)
    ensures
        code == mismatch_error(c),
{
    if c == codes::SET {
        ErrorCode::ExpectedListCode
    } else if c == codes::UUID {
        ErrorCode::ExpectedBytesCode
    } else if c == codes::INST {
        ErrorCode::Expectedi64
    } else {
        ErrorCode::ExpectedStringCode
    }
}

/// Reads the string in UTF-8 whose code stands at `pos`.
fn read_utf8(bytes: &[u8], pos: usize) -> (r: Result<(Value, usize), FressError>)
    requires
        pos < bytes.len(),
    ensures
        agrees(r, parse_utf8(bytes@, pos as int)),
        r matches Ok((v, next)) ==> pos < next <= bytes.len() && v@.wf(),
{
    match read_count(bytes, pos + 1) {
        Err(e) => Err(e),
        Ok((n, body)) => {
            if n > bytes.len() - body {
                Err(syntax_error(ErrorCode::Eof, body))
            } else {
                match utf8_text(&bytes[body..body + n]) {
                    Some(s) => Ok((Value::Str(s), body + n)),
                    None => Err(syntax_error(ErrorCode::InvalidUTF8, body + n)),
                }
            }
        },
    }
}

/// Reads the value of a tagged kind whose code stands at `pos`.
fn read_tagged(bytes: &[u8], pos: usize) -> (r: Result<(Value, usize), FressError>)
    requires
        pos < bytes.len(),
    ensures
        agrees(r, parse_tagged(bytes@, pos as int)),
        r matches Ok((v, next)) ==> pos < next <= bytes.len() && v@.wf(),
    decreases bytes.len() - pos, 0nat,
{
    if bytes.len() - pos < 2 {
        return Err(syntax_error(ErrorCode::Eof, pos + 1));
    }
    let code = bytes[pos];
    match read_value(bytes, pos + 1) {
        Err(e) => Err(e),
        Ok((v, end)) => match tag(code, v) {
            Some(tagged) => Ok((tagged, end)),
            None => Err(syntax_error(mismatch(code), pos + 2)),
        },
    }
}

/// The kind of the typed array that the code `c` opens.
fn kind_of_array(c: u8) -> (kind: ArrayKind)
    ensures
        kind == array_kind(c),
{
    if c == codes::LONG_ARRAY {
        ArrayKind::Long
    } else if c == codes::DOUBLE_ARRAY {
        ArrayKind::Double
    } else if c == codes::BOOLEAN_ARRAY {
        ArrayKind::Boolean
    } else if c == codes::INT_ARRAY {
        ArrayKind::Int
    } else {
        ArrayKind::Float
    }
}

/// Reads the typed array whose code stands at `pos`.
fn read_array(bytes: &[u8], pos: usize) -> (r: Result<(Value, usize), FressError>)
    requires
        pos < bytes.len(),
    ensures
        agrees(r, parse_array(bytes@, pos as int)),
        r matches Ok((v, next)) ==> pos < next <= bytes.len() && v@.wf(),
    decreases bytes.len() - pos, 0nat,
{
    let kind = kind_of_array(bytes[pos]);
    match read_count(bytes, pos + 1) {
        Err(e) => Err(e),
        Ok((n, body)) => match read_items(bytes, body, n) {
            Err(e) => Err(e),
            Ok((items, end)) => {
                if items_fit(kind, &items) {
                    Ok((Value::Array { kind, items }, end))
                } else {
                    Err(syntax_error(ErrorCode::UnsupportedTAType, end))
                }
            },
        },
    }
}

/// Reads the mapping whose code stands at `pos`.
fn read_map(bytes: &[u8], pos: usize) -> (r: Result<(Value, usize), FressError>)
    requires
        pos < bytes.len(),
    ensures
        agrees(r, parse_map(bytes@, pos as int)),
        r matches Ok((v, next)) ==> pos < next <= bytes.len() && v@.wf(),
    decreases bytes.len() - pos, 0nat,
{
    if bytes.len() - pos < 2 {
        return Err(syntax_error(ErrorCode::Eof, pos + 1));
    }
    let l = bytes[pos + 1];
    if l == codes::BEGIN_CLOSED_LIST {
        match read_closed_entries(bytes, pos + 2) {
            Err(e) => Err(e),
            Ok((entries, end)) => Ok((record_or_plain(entries), end)),
        }
    } else if codes::LIST_PACKED <= l && l < codes::LIST {
        let n: usize = (l - codes::LIST_PACKED) as usize;
        match read_entries(bytes, pos + 2, n) {
            Err(e) => Err(e),
            Ok((entries, end)) => Ok((Value::Mapping(entries), end)),
        }
    } else if l == codes::LIST {
        match read_count(bytes, pos + 2) {
            Err(e) => Err(e),
            Ok((n, body)) => match read_entries(bytes, body, n) {
                Err(e) => Err(e),
                Ok((entries, end)) => Ok((Value::Mapping(entries), end)),
            },
        }
    } else {
        Err(syntax_error(ErrorCode::MapExpectedListCode, pos + 2))
    }
}

/// A copy of the bytes from `from` up to `to`.
fn copy_of(bytes: &[u8], from: usize, to: usize) -> (out: Vec<u8>)
    requires
        from <= to <= bytes.len(),
    ensures
        out@ == bytes@.subrange(from as int, to as int),
{
    let mut out: Vec<u8> = Vec::new();
    out.extend_from_slice(&bytes[from..to]);
    assert(out@ =~= bytes@.subrange(from as int, to as int));
    out
}

/// Whether an entry maps the key `"type"` to a string.
fn is_tag_entry(entry: &(Value, Value)) -> (r: bool)
    ensures
        r == (entry.0@ == ValueModel::Str(crate::value::type_key()) && entry.1@ is Str),
{
    match entry {
        (Value::Str(key), Value::Str(_)) => {
            let wanted = "type".to_owned();
            *key == wanted
        },
        _ => false,
    }
}

/// Turns the entries of a mapping that was written as a closed list into a
/// tagged record or a plain mapping.
fn record_or_plain(entries: Vec<(Value, Value)>) -> (v: Value)
    requires
        keys_unique(entries_view(entries@)),
        entries_wf(entries_view(entries@)),
    ensures
        v@ == record_or_mapping(entries_view(entries@)),
        v@.wf(),
{
    let mut entries = entries;
    if entries.len() >= 1 && is_tag_entry(&entries[0]) {
        let ghost before = entries_view(entries@);
        let first = entries.remove(0);
        proof {
            let after = entries_view(entries@);
            assert(after =~= before.skip(1));
            assert(before[0] == (first.0@, first.1@));
            assert(before[0].0 == tag_key());
            assert forall|i: int| 0 <= i < after.len() implies (#[trigger] after[i]).0 != tag_key()
                && after[i].0.wf() && after[i].1.wf() by {
                assert(after[i] == before[i + 1]);
                assert(before[0].0 != before[i + 1].0);
            }
            assert forall|i: int, j: int| 0 <= i < j < after.len() implies (#[trigger] after[i]).0
                != (#[trigger] after[j]).0 by {
                assert(after[i] == before[i + 1]);
                assert(after[j] == before[j + 1]);
                assert(before[i + 1].0 != before[j + 1].0);
            }
        }
        match first {
            (_, Value::Str(tag)) => Value::Ext { tag, fields: entries },
            _ => Value::Mapping(entries),
        }
    } else {
        Value::Mapping(entries)
    }
}

/// Reads the items of the list whose code stands at `pos`.
fn read_list_body(bytes: &[u8], pos: usize) -> (r: Result<
    (Vec<Value>, usize),
    FressError,
>)
    requires
        pos < bytes.len(),
        codes::LIST_PACKED <= bytes@[pos as int] <= codes::BEGIN_OPEN_LIST,
    ensures
        agrees_items(r, parse_list_body(bytes@, pos as int)),
        r matches Ok((items, next)) ==> pos < next <= bytes.len() && items_wf(list_view(items@)),
    decreases bytes.len() - pos, 0nat,
{
    let c = bytes[pos];
    if c == codes::BEGIN_CLOSED_LIST {
        read_closed_items(bytes, pos + 1)
    } else if c == codes::BEGIN_OPEN_LIST {
        read_open_items(bytes, pos + 1)
    } else if c == codes::LIST {
        match read_count(bytes, pos + 1) {
            Err(e) => Err(e),
            Ok((n, body)) => read_items(bytes, body, n),
        }
    } else {
        read_items(bytes, pos + 1, (c - codes::LIST_PACKED) as usize)
    }
}

/// Reads `n` values from `pos` on.
fn read_items(bytes: &[u8], pos: usize, n: usize) -> (r: Result<
    (Vec<Value>, usize),
    FressError,
>)
    requires
        pos <= bytes.len(),
    ensures
        agrees_items(r, parse_items(bytes@, pos as int, n as int)),
        r matches Ok((items, next)) ==> pos <= next <= bytes.len() && items_wf(list_view(items@)),
    decreases bytes.len() - pos, 2nat,
{
    let mut items: Vec<Value> = Vec::new();
    let mut cur: usize = pos;
    let mut i: usize = 0;
    proof {
        lemma_carried_empty(parse_items(bytes@, pos as int, n as int));
        assert(list_view(items@) =~= Seq::<ValueModel>::empty());
    }
    while i < n
        invariant
            pos <= cur <= bytes.len(),
            i <= n,
            parse_items(bytes@, pos as int, n as int) == carried(
                list_view(items@),
                parse_items(bytes@, cur as int, n - i),
            ),
            items_wf(list_view(items@)),
        decreases n - i,
    {
        match read_value(bytes, cur) {
            Err(e) => {
                return Err(e);
            },
            Ok((v, next)) => {
                proof {
                    let rest = parse_items(bytes@, next as int, n - i - 1);
                    assert(parse_items(bytes@, cur as int, n - i) == carried(
                        seq![v@],
                        rest,
                    ));
                    lemma_carried_twice(list_view(items@), seq![v@], rest);
                    assert(list_view(items@.push(v)) =~= list_view(items@) + seq![v@]);
                }
                items.push(v);
                cur = next;
                i += 1;
            },
        }
    }
    proof {
        lemma_carried_done(list_view(items@), cur as int);
    }
    Ok((items, cur))
}

/// Reads values from `pos` up to the code that ends a closed list.
fn read_closed_items(bytes: &[u8], pos: usize) -> (r: Result<
    (Vec<Value>, usize),
    FressError,
>)
    requires
        pos <= bytes.len(),
    ensures
        agrees_items(r, parse_closed_items(bytes@, pos as int)),
        r matches Ok((items, next)) ==> pos < next <= bytes.len() && items_wf(list_view(items@)),
    decreases bytes.len() - pos, 2nat,
{
    let mut items: Vec<Value> = Vec::new();
    let mut cur: usize = pos;
    proof {
        lemma_carried_empty(parse_closed_items(bytes@, pos as int));
        assert(list_view(items@) =~= Seq::<ValueModel>::empty());
    }
    loop
        invariant
            pos <= cur <= bytes.len(),
            parse_closed_items(bytes@, pos as int) == carried(
                list_view(items@),
                parse_closed_items(bytes@, cur as int),
            ),
            items_wf(list_view(items@)),
        decreases bytes.len() - cur,
    {
        if cur >= bytes.len() {
            return Err(syntax_error(ErrorCode::Eof, cur));
        }
        if bytes[cur] == codes::END_COLLECTION {
            proof {
                lemma_carried_done(list_view(items@), cur + 1);
            }
            return Ok((items, cur + 1));
        }
        match read_value(bytes, cur) {
            Err(e) => {
                return Err(e);
            },
            Ok((v, next)) => {
                proof {
                    let rest = parse_closed_items(bytes@, next as int);
                    assert(parse_closed_items(bytes@, cur as int) == carried(
                        seq![v@],
                        rest,
                    ));
                    lemma_carried_twice(list_view(items@), seq![v@], rest);
                    assert(list_view(items@.push(v)) =~= list_view(items@) + seq![v@]);
                }
                items.push(v);
                cur = next;
            },
        }
    }
}

/// Reads values from `pos` up to the code that ends a list, or to the end
/// of the input.
fn read_open_items(bytes: &[u8], pos: usize) -> (r: Result<(Vec<Value>, usize), FressError>)
    requires
        pos <= bytes.len(),
    ensures
        agrees_items(r, parse_open_items(bytes@, pos as int)),
        r matches Ok((items, next)) ==> pos <= next <= bytes.len() && items_wf(list_view(items@)),
    decreases bytes.len() - pos, 2nat,
{
    let mut items: Vec<Value> = Vec::new();
    let mut cur: usize = pos;
    proof {
        lemma_carried_empty(parse_open_items(bytes@, pos as int));
        assert(list_view(items@) =~= Seq::<ValueModel>::empty());
    }
    loop
        invariant
            pos <= cur <= bytes.len(),
            parse_open_items(bytes@, pos as int) == carried(
                list_view(items@),
                parse_open_items(bytes@, cur as int),
            ),
            items_wf(list_view(items@)),
        decreases bytes.len() - cur,
    {
        if cur >= bytes.len() {
            proof {
                lemma_carried_done(list_view(items@), cur as int);
            }
            return Ok((items, cur));
        }
        if bytes[cur] == codes::END_COLLECTION {
            proof {
                lemma_carried_done(list_view(items@), cur + 1);
            }
            return Ok((items, cur + 1));
        }
        match read_value(bytes, cur) {
            Err(e) => {
                return Err(e);
            },
            Ok((v, next)) => {
                proof {
                    let rest = parse_open_items(bytes@, next as int);
                    assert(parse_open_items(bytes@, cur as int) == carried(seq![v@], rest));
                    lemma_carried_twice(list_view(items@), seq![v@], rest);
                    assert(list_view(items@.push(v)) =~= list_view(items@) + seq![v@]);
                }
                items.push(v);
                cur = next;
            },
        }
    }
}

/// Reads `n` values from `pos` on as alternating keys and values, and
/// enters each pair into the mapping.
fn read_entries(bytes: &[u8], pos: usize, n: usize) -> (r: Result<
    (Vec<(Value, Value)>, usize),
    FressError,
>)
    requires
        pos <= bytes.len(),
    ensures
        agrees_entries(r, parse_entries(bytes@, pos as int, n as int)),
        r matches Ok((_, next)) ==> pos <= next <= bytes.len(),
    decreases bytes.len() - pos, 2nat,
{
    let mut entries: Vec<(Value, Value)> = Vec::new();
    let mut cur: usize = pos;
    let mut left: usize = n;
    let ghost mut raw: Seq<(ValueModel, ValueModel)> = Seq::empty();
    proof {
        lemma_carried_empty(parse_entries(bytes@, pos as int, n as int));
        assert(entries_view(entries@) =~= Seq::<(ValueModel, ValueModel)>::empty());
    }
    while left > 0
        invariant
            pos <= cur <= bytes.len(),
            parse_entries(bytes@, pos as int, n as int) == carried(
                raw,
                parse_entries(bytes@, cur as int, left as int),
            ),
            entries_view(entries@) == merged(raw),
            keys_unique(entries_view(entries@)),
            entries_wf(entries_view(entries@)),
        decreases left,
    {
        match read_value(bytes, cur) {
            Err(e) => {
                return Err(e);
            },
            Ok((k, mid)) => {
                if left == 1 {
                    return Err(syntax_error(ErrorCode::UnexpectedEof, mid));
                }
                match read_value(bytes, mid) {
                    Err(e) => {
                        return Err(e);
                    },
                    Ok((v, next)) => {
                        proof {
                            let rest = parse_entries(bytes@, next as int, left - 2);
                            assert(parse_entries(bytes@, cur as int, left as int)
                                == carried(seq![(k@, v@)], rest));
                            lemma_carried_twice(raw, seq![(k@, v@)], rest);
                            assert(raw + seq![(k@, v@)] =~= raw.push((k@, v@)));
                            assert(raw.push((k@, v@)).drop_last() =~= raw);
                            raw = raw.push((k@, v@));
                        }
                        put(&mut entries, k, v);
                        cur = next;
                        left = left - 2;
                    },
                }
            },
        }
    }
    proof {
        lemma_carried_done(raw, cur as int);
    }
    Ok((entries, cur))
}

/// Reads keys and values from `pos` up to the code that ends a closed list,
/// and enters each pair into the mapping.
fn read_closed_entries(bytes: &[u8], pos: usize) -> (r: Result<
    (Vec<(Value, Value)>, usize),
    FressError,
>)
    requires
        pos <= bytes.len(),
    ensures
        agrees_entries(r, parse_closed_entries(bytes@, pos as int)),
        r matches Ok((_, next)) ==> pos < next <= bytes.len(),
    decreases bytes.len() - pos, 2nat,
{
    let mut entries: Vec<(Value, Value)> = Vec::new();
    let mut cur: usize = pos;
    let ghost mut raw: Seq<(ValueModel, ValueModel)> = Seq::empty();
    proof {
        lemma_carried_empty(parse_closed_entries(bytes@, pos as int));
        assert(entries_view(entries@) =~= Seq::<(ValueModel, ValueModel)>::empty());
    }
    loop
        invariant
            pos <= cur <= bytes.len(),
            parse_closed_entries(bytes@, pos as int) == carried(
                raw,
                parse_closed_entries(bytes@, cur as int),
            ),
            entries_view(entries@) == merged(raw),
            keys_unique(entries_view(entries@)),
            entries_wf(entries_view(entries@)),
        decreases bytes.len() - cur,
    {
        if cur >= bytes.len() {
            return Err(syntax_error(ErrorCode::Eof, cur));
        }
        if bytes[cur] == codes::END_COLLECTION {
            proof {
                lemma_carried_done(raw, cur + 1);
            }
            return Ok((entries, cur + 1));
        }
        match read_value(bytes, cur) {
            Err(e) => {
                return Err(e);
            },
            Ok((k, mid)) => {
                if mid >= bytes.len() {
                    return Err(syntax_error(ErrorCode::Eof, mid));
                }
                if bytes[mid] == codes::END_COLLECTION {
                    return Err(syntax_error(ErrorCode::UnexpectedEof, mid + 1));
                }
                match read_value(bytes, mid) {
                    Err(e) => {
                        return Err(e);
                    },
                    Ok((v, next)) => {
                        proof {
                            let rest = parse_closed_entries(bytes@, next as int);
                            assert(parse_closed_entries(bytes@, cur as int)
                                == carried(seq![(k@, v@)], rest));
                            lemma_carried_twice(raw, seq![(k@, v@)], rest);
                            assert(raw + seq![(k@, v@)] =~= raw.push((k@, v@)));
                            assert(raw.push((k@, v@)).drop_last() =~= raw);
                            raw = raw.push((k@, v@));
                        }
                        put(&mut entries, k, v);
                        cur = next;
                    },
                }
            },
        }
    }
}

/// Decodes the value at the start of `bytes`.
///
/// The result is the value that the grammar gives for these bytes, or the
/// error that it gives. Bytes after the value are not looked at.
pub fn decode(bytes: &[u8]) -> (r: Result<Value, FressError>)
    ensures
        match r {
            Ok(v) => decoding(bytes@) == Ok::<ValueModel, FressErrorModel>(v@) && v@.wf(),
            Err(e) => decoding(bytes@) == Err::<ValueModel, FressErrorModel>(e@),
        },
{
    match read_value(bytes, 0) {
        Ok((v, _)) => Ok(v),
        Err(e) => Err(e),
    }
}

} // verus!
