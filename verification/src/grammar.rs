//! What a run of bytes means: the reading of the wire format, as a function
//! on byte sequences.
//!
//! Every function here takes the whole input and a position in it, and gives
//! either what stands at that position together with the position after it,
//! or the error that a reader reports there.

use vstd::prelude::*;
use crate::codes;
use crate::encode::DOUBLE_ONE_BITS;
use crate::error::{ErrorCode, FressErrorModel};
use crate::leaf::{groups_complete, int_decoding, int_item_len, is_int_code, str_decoding};
use crate::value::{elements_fit, merged, tagged_of, type_key, ArrayKind, ComponentModel};
use crate::value::ValueModel;

verus! {

/// A structural error at a position of the input.
pub open spec fn syntax(code: ErrorCode, position: int) -> FressErrorModel {
    FressErrorModel::Syntax { code, position: position as usize }
}

/// The value of four bytes, most significant first.
pub open spec fn be32_value(b: Seq<u8>) -> u32 {
    (b[0] as u32) << 24 | (b[1] as u32) << 16 | (b[2] as u32) << 8 | (b[3] as u32)
}

/// The value of eight bytes, most significant first.
pub open spec fn be64_value(b: Seq<u8>) -> u64 {
    (b[0] as u64) << 56 | (b[1] as u64) << 48 | (b[2] as u64) << 40 | (b[3] as u64) << 32 | (
    b[4] as u64) << 24 | (b[5] as u64) << 16 | (b[6] as u64) << 8 | (b[7] as u64)
}

/// Reads a count at `pos`: an integer from zero to `i32::MAX`.
pub open spec fn parse_count(bytes: Seq<u8>, pos: int) -> Result<(int, int), FressErrorModel> {
    if pos >= bytes.len() {
        Err(syntax(ErrorCode::Eof, pos))
    } else if !is_int_code(bytes[pos]) {
        Err(syntax(ErrorCode::Expectedi64, pos + 1))
    } else if pos + int_item_len(bytes[pos]) > bytes.len() {
        Err(syntax(ErrorCode::Eof, bytes.len() as int))
    } else {
        let next = pos + int_item_len(bytes[pos]);
        let n = int_decoding(bytes.subrange(pos, next));
        if n < 0 || n > i32::MAX {
            Err(syntax(ErrorCode::AttemptToReadPastEnd, next))
        } else {
            Ok((n as int, next))
        }
    }
}

/// Reads the string whose item runs from `start` to `end` and whose bytes
/// begin at `body`.
pub open spec fn parse_str(bytes: Seq<u8>, start: int, body: int, end: int) -> Result<
    (ValueModel, int),
    FressErrorModel,
> {
    if !groups_complete(bytes.subrange(body, end), 0) {
        Err(syntax(ErrorCode::InvalidUTF8, end))
    } else {
        match str_decoding(bytes.subrange(start, end)) {
            Some(s) => Ok((ValueModel::Str(s), end)),
            None => Err(syntax(ErrorCode::InvalidUTF8, end)),
        }
    }
}

/// A mapping that was written as a closed list is a tagged record where its
/// first entry maps `"type"` to a string, and a plain mapping otherwise.
pub open spec fn record_or_mapping(entries: Seq<(ValueModel, ValueModel)>) -> ValueModel {
    if entries.len() >= 1 && entries[0].0 == ValueModel::Str(type_key()) && entries[0].1 is Str {
        ValueModel::Ext { tag: entries[0].1->Str_0, fields: entries.skip(1) }
    } else {
        ValueModel::Mapping(entries)
    }
}

/// Whether `c` opens a value without parts: null, a boolean or a number.
pub open spec fn is_scalar_code(c: u8) -> bool {
    ||| c == codes::NULL
    ||| c == codes::TRUE
    ||| c == codes::FALSE
    ||| is_int_code(c)
    ||| c == codes::FLOAT
    ||| c == codes::DOUBLE
    ||| c == codes::DOUBLE_0
    ||| c == codes::DOUBLE_1
}

/// Reads the scalar whose code stands at `pos`.
pub open spec fn parse_scalar(bytes: Seq<u8>, pos: int) -> Result<
    (ValueModel, int),
    FressErrorModel,
> {
    let c = bytes[pos];
    if c == codes::NULL {
        Ok((ValueModel::Null, pos + 1))
    } else if c == codes::TRUE {
        Ok((ValueModel::Bool(true), pos + 1))
    } else if c == codes::FALSE {
        Ok((ValueModel::Bool(false), pos + 1))
    } else if is_int_code(c) {
        if pos + int_item_len(c) > bytes.len() {
            Err(syntax(ErrorCode::Eof, bytes.len() as int))
        } else {
            Ok(
                (
                    ValueModel::Int(int_decoding(bytes.subrange(pos, pos + int_item_len(c)))),
                    pos + int_item_len(c),
                ),
            )
        }
    } else if c == codes::FLOAT {
        if pos + 5 > bytes.len() {
            Err(syntax(ErrorCode::Eof, pos + 1))
        } else {
            Ok((ValueModel::Float(be32_value(bytes.subrange(pos + 1, pos + 5))), pos + 5))
        }
    } else if c == codes::DOUBLE {
        if pos + 9 > bytes.len() {
            Err(syntax(ErrorCode::Eof, pos + 1))
        } else {
            Ok((ValueModel::Double(be64_value(bytes.subrange(pos + 1, pos + 9))), pos + 9))
        }
    } else if c == codes::DOUBLE_0 {
        Ok((ValueModel::Double(0), pos + 1))
    } else {
        Ok((ValueModel::Double(DOUBLE_ONE_BITS), pos + 1))
    }
}

/// Whether `c` opens a string or a byte array.
pub open spec fn is_text_code(c: u8) -> bool {
    codes::BYTES_PACKED <= c && c <= codes::STRING
}

/// Reads the string or byte array whose code stands at `pos`. Chunked
/// strings and byte arrays are not read.
pub open spec fn parse_text(bytes: Seq<u8>, pos: int) -> Result<
    (ValueModel, int),
    FressErrorModel,
> {
    let c = bytes[pos];
    if c == codes::STRING_CHUNK || c == codes::BYTES_CHUNK {
        Err(syntax(ErrorCode::UnsupportedType, pos + 1))
    } else if c == codes::STRING {
        match parse_count(bytes, pos + 1) {
            Err(e) => Err(e),
            Ok((n, body)) => if body + n > bytes.len() {
                Err(syntax(ErrorCode::Eof, body))
            } else {
                parse_str(bytes, pos, body, body + n)
            },
        }
    } else if c == codes::BYTES {
        match parse_count(bytes, pos + 1) {
            Err(e) => Err(e),
            Ok((n, body)) => if body + n > bytes.len() {
                Err(syntax(ErrorCode::Eof, body))
            } else {
                Ok((ValueModel::Bytes(bytes.subrange(body, body + n)), body + n))
            },
        }
    } else if c >= codes::STRING_PACKED {
        let end = pos + 1 + (c - codes::STRING_PACKED);
        if end > bytes.len() {
            Err(syntax(ErrorCode::Eof, pos + 1))
        } else {
            parse_str(bytes, pos, pos + 1, end)
        }
    } else {
        let end = pos + 1 + (c - codes::BYTES_PACKED);
        if end > bytes.len() {
            Err(syntax(ErrorCode::Eof, pos + 1))
        } else {
            Ok((ValueModel::Bytes(bytes.subrange(pos + 1, end)), end))
        }
    }
}

/// Whether `c` opens a list.
pub open spec fn is_list_code(c: u8) -> bool {
    codes::LIST_PACKED <= c && c <= codes::BEGIN_OPEN_LIST
}

/// Whether `c` is the code of a tagged kind.
pub open spec fn is_tag_code(c: u8) -> bool {
    ||| c == codes::SET
    ||| c == codes::UUID
    ||| c == codes::REGEX
    ||| c == codes::URI
    ||| c == codes::INST
}

/// The error for a payload that is not of the kind that the code `c`
/// announces.
pub open spec fn mismatch_error(c: u8) -> ErrorCode {
    if c == codes::SET {
        ErrorCode::ExpectedListCode
    } else if c == codes::UUID {
        ErrorCode::ExpectedBytesCode
    } else if c == codes::INST {
        ErrorCode::Expectedi64
    } else {
        ErrorCode::ExpectedStringCode
    }
}

/// Whether `c` opens a typed array.
pub open spec fn is_array_code(c: u8) -> bool {
    codes::LONG_ARRAY <= c && c <= codes::FLOAT_ARRAY
}

/// The kind of the typed array that the code `c` opens.
pub open spec fn array_kind(c: u8) -> ArrayKind {
    if c == codes::LONG_ARRAY {
        ArrayKind::Long
    } else if c == codes::DOUBLE_ARRAY {
        ArrayKind::Double
    } else if c == codes::BOOLEAN_ARRAY {
        ArrayKind::Boolean
    } else if c == codes::INT_ARRAY {
        ArrayKind::Int
    } else {
        ArrayKind::Float
    }
}

/// Reads the string in UTF-8 whose code stands at `pos`.
pub open spec fn parse_utf8(bytes: Seq<u8>, pos: int) -> Result<
    (ValueModel, int),
    FressErrorModel,
> {
    match parse_count(bytes, pos + 1) {
        Err(e) => Err(e),
        Ok((n, body)) => if body + n > bytes.len() {
            Err(syntax(ErrorCode::Eof, body))
        } else if vstd::utf8::valid_utf8(bytes.subrange(body, body + n)) {
            Ok((ValueModel::Str(vstd::utf8::decode_utf8(bytes.subrange(body, body + n))), body + n))
        } else {
            Err(syntax(ErrorCode::InvalidUTF8, body + n))
        },
    }
}

/// Whether `c` opens a string, in either form.
pub open spec fn is_string_code(c: u8) -> bool {
    (codes::STRING_PACKED <= c && c <= codes::STRING) || c == codes::UTF8
}

/// Reads the string at `pos`, in either form.
pub open spec fn parse_string(bytes: Seq<u8>, pos: int) -> Result<(Seq<char>, int), FressErrorModel> {
    if pos < 0 || pos >= bytes.len() {
        Err(syntax(ErrorCode::Eof, pos))
    } else if !is_string_code(bytes[pos]) {
        Err(syntax(ErrorCode::ExpectedStringCode, pos + 1))
    } else {
        let read = if bytes[pos] == codes::UTF8 {
            parse_utf8(bytes, pos)
        } else {
            parse_text(bytes, pos)
        };
        match read {
            Err(e) => Err(e),
            Ok((v, end)) => match v {
                ValueModel::Str(s) => Ok((s, end)),
                _ => Err(syntax(ErrorCode::ExpectedStringCode, pos + 1)),
            },
        }
    }
}

/// Reads a component of a keyword or of a symbol at `pos`: null, a place in
/// the cache, a string that is put into the cache, or a string.
pub open spec fn parse_component(bytes: Seq<u8>, pos: int) -> Result<
    (ComponentModel, int),
    FressErrorModel,
> {
    if pos < 0 || pos >= bytes.len() {
        Err(syntax(ErrorCode::Eof, pos))
    } else {
        let c = bytes[pos];
        if c == codes::NULL {
            Ok((ComponentModel::Null, pos + 1))
        } else if codes::CACHED <= c && c < codes::CACHED + 32 {
            Ok((ComponentModel::Ref((c - codes::CACHED) as u8), pos + 1))
        } else if c == codes::PUT_CACHE {
            match parse_string(bytes, pos + 1) {
                Err(e) => Err(e),
                Ok((s, end)) => Ok((ComponentModel::Put(s), end)),
            }
        } else {
            match parse_string(bytes, pos) {
                Err(e) => Err(e),
                Ok((s, end)) => Ok((ComponentModel::Plain(s), end)),
            }
        }
    }
}

/// Reads the keyword or the symbol whose code stands at `pos`: a namespace,
/// which may be null, and a name, which may not.
pub open spec fn parse_named(bytes: Seq<u8>, pos: int) -> Result<
    (ValueModel, int),
    FressErrorModel,
> {
    match parse_component(bytes, pos + 1) {
        Err(e) => Err(e),
        Ok((namespace, mid)) => match parse_component(bytes, mid) {
            Err(e) => Err(e),
            Ok((name, end)) => if name is Null {
                Err(syntax(ErrorCode::ExpectedStringCode, end))
            } else if bytes[pos] == codes::KEY {
                Ok((ValueModel::Key { namespace, name }, end))
            } else {
                Ok((ValueModel::Sym { namespace, name }, end))
            },
        },
    }
}

/// Reads the value at `pos`.
pub open spec fn parse_value(bytes: Seq<u8>, pos: int) -> Result<
    (ValueModel, int),
    FressErrorModel,
>
    decreases bytes.len() - pos, 1nat,
{
    if pos < 0 || pos >= bytes.len() {
        Err(syntax(ErrorCode::Eof, pos))
    } else {
        let c = bytes[pos];
        if is_scalar_code(c) {
            parse_scalar(bytes, pos)
        } else if is_text_code(c) {
            parse_text(bytes, pos)
        } else if is_list_code(c) {
            match parse_list_body(bytes, pos) {
                Err(e) => Err(e),
                Ok((items, end)) => Ok((ValueModel::List(items), end)),
            }
        } else if c == codes::MAP {
            parse_map(bytes, pos)
        } else if c == codes::UTF8 {
            parse_utf8(bytes, pos)
        } else if is_tag_code(c) {
            parse_tagged(bytes, pos)
        } else if is_array_code(c) {
            parse_array(bytes, pos)
        } else if c == codes::KEY || c == codes::SYM {
            parse_named(bytes, pos)
        } else {
            Err(FressErrorModel::UnmatchedCode { expected: c, found: (pos + 1) as usize })
        }
    }
}

/// Reads the value of a tagged kind whose code stands at `pos`: the payload
/// that follows the code, which has to be of the kind that the code
/// announces.
pub open spec fn parse_tagged(bytes: Seq<u8>, pos: int) -> Result<
    (ValueModel, int),
    FressErrorModel,
>
    decreases bytes.len() - pos, 0nat,
{
    if pos < 0 || pos + 1 >= bytes.len() {
        Err(syntax(ErrorCode::Eof, pos + 1))
    } else {
        match parse_value(bytes, pos + 1) {
            Err(e) => Err(e),
            Ok((v, end)) => match tagged_of(bytes[pos], v) {
                Some(tagged) => Ok((tagged, end)),
                None => Err(syntax(mismatch_error(bytes[pos]), pos + 2)),
            },
        }
    }
}

/// Reads the typed array whose code stands at `pos`: a count and that many
/// items, each of which has to be of the array's kind.
pub open spec fn parse_array(bytes: Seq<u8>, pos: int) -> Result<
    (ValueModel, int),
    FressErrorModel,
>
    decreases bytes.len() - pos, 0nat,
{
    if pos < 0 || pos >= bytes.len() {
        Err(syntax(ErrorCode::Eof, pos))
    } else {
        match parse_count(bytes, pos + 1) {
            Err(e) => Err(e),
            Ok((n, body)) => if body <= pos || body > bytes.len() {
                Err(syntax(ErrorCode::Eof, body))
            } else {
                match parse_items(bytes, body, n) {
                    Err(e) => Err(e),
                    Ok((items, end)) => if elements_fit(array_kind(bytes[pos]), items) {
                        Ok((ValueModel::Array { kind: array_kind(bytes[pos]), items }, end))
                    } else {
                        Err(syntax(ErrorCode::UnsupportedTAType, end))
                    },
                }
            },
        }
    }
}

/// Reads the mapping whose code stands at `pos`. Where a key comes more than
/// once, it keeps its first place and takes its last value.
pub open spec fn parse_map(bytes: Seq<u8>, pos: int) -> Result<
    (ValueModel, int),
    FressErrorModel,
>
    decreases bytes.len() - pos, 0nat,
{
    if pos < 0 || pos + 1 >= bytes.len() {
        Err(syntax(ErrorCode::Eof, pos + 1))
    } else {
        let l = bytes[pos + 1];
        if l == codes::BEGIN_CLOSED_LIST {
            match parse_closed_entries(bytes, pos + 2) {
                Err(e) => Err(e),
                Ok((entries, end)) => Ok((record_or_mapping(merged(entries)), end)),
            }
        } else if codes::LIST_PACKED <= l && l < codes::LIST {
            match parse_entries(bytes, pos + 2, (l - codes::LIST_PACKED) as int) {
                Err(e) => Err(e),
                Ok((entries, end)) => Ok((ValueModel::Mapping(merged(entries)), end)),
            }
        } else if l == codes::LIST {
            match parse_count(bytes, pos + 2) {
                Err(e) => Err(e),
                Ok((n, body)) => if body <= pos || body > bytes.len() {
                    Err(syntax(ErrorCode::Eof, body))
                } else {
                    match parse_entries(bytes, body, n) {
                        Err(e) => Err(e),
                        Ok((entries, end)) => Ok((ValueModel::Mapping(merged(entries)), end)),
                    }
                },
            }
        } else {
            Err(syntax(ErrorCode::MapExpectedListCode, pos + 2))
        }
    }
}

/// Reads the items of the list whose code stands at `pos`.
pub open spec fn parse_list_body(bytes: Seq<u8>, pos: int) -> Result<
    (Seq<ValueModel>, int),
    FressErrorModel,
>
    decreases bytes.len() - pos, 0nat,
{
    if pos < 0 || pos >= bytes.len() {
        Err(syntax(ErrorCode::Eof, pos))
    } else {
        let c = bytes[pos];
        if c == codes::BEGIN_CLOSED_LIST {
            parse_closed_items(bytes, pos + 1)
        } else if c == codes::BEGIN_OPEN_LIST {
            parse_open_items(bytes, pos + 1)
        } else if c == codes::LIST {
            match parse_count(bytes, pos + 1) {
                Err(e) => Err(e),
                Ok((n, body)) => if body <= pos || body > bytes.len() {
                    Err(syntax(ErrorCode::Eof, body))
                } else {
                    parse_items(bytes, body, n)
                },
            }
        } else {
            parse_items(bytes, pos + 1, (c - codes::LIST_PACKED) as int)
        }
    }
}

/// Reads `n` values from `pos` on.
pub open spec fn parse_items(bytes: Seq<u8>, pos: int, n: int) -> Result<
    (Seq<ValueModel>, int),
    FressErrorModel,
>
    decreases bytes.len() - pos, 2nat,
{
    if n <= 0 {
        Ok((Seq::empty(), pos))
    } else {
        match parse_value(bytes, pos) {
            Err(e) => Err(e),
            Ok((v, next)) => if next <= pos || next > bytes.len() {
                Err(syntax(ErrorCode::Eof, pos))
            } else {
                match parse_items(bytes, next, n - 1) {
                    Err(e) => Err(e),
                    Ok((rest, end)) => Ok((seq![v] + rest, end)),
                }
            },
        }
    }
}

/// Reads values from `pos` up to the code that ends a closed list.
pub open spec fn parse_closed_items(bytes: Seq<u8>, pos: int) -> Result<
    (Seq<ValueModel>, int),
    FressErrorModel,
>
    decreases bytes.len() - pos, 2nat,
{
    if pos < 0 || pos >= bytes.len() {
        Err(syntax(ErrorCode::Eof, pos))
    } else if bytes[pos] == codes::END_COLLECTION {
        Ok((Seq::empty(), pos + 1))
    } else {
        match parse_value(bytes, pos) {
            Err(e) => Err(e),
            Ok((v, next)) => if next <= pos || next > bytes.len() {
                Err(syntax(ErrorCode::Eof, pos))
            } else {
                match parse_closed_items(bytes, next) {
                    Err(e) => Err(e),
                    Ok((rest, end)) => Ok((seq![v] + rest, end)),
                }
            },
        }
    }
}

/// Reads values from `pos` up to the code that ends a list, or to the end
/// of the input.
pub open spec fn parse_open_items(bytes: Seq<u8>, pos: int) -> Result<
    (Seq<ValueModel>, int),
    FressErrorModel,
>
    decreases bytes.len() - pos, 2nat,
{
    if pos < 0 || pos >= bytes.len() {
        Ok((Seq::empty(), pos))
    } else if bytes[pos] == codes::END_COLLECTION {
        Ok((Seq::empty(), pos + 1))
    } else {
        match parse_value(bytes, pos) {
            Err(e) => Err(e),
            Ok((v, next)) => if next <= pos || next > bytes.len() {
                Err(syntax(ErrorCode::Eof, pos))
            } else {
                match parse_open_items(bytes, next) {
                    Err(e) => Err(e),
                    Ok((rest, end)) => Ok((seq![v] + rest, end)),
                }
            },
        }
    }
}

/// Reads `n` values from `pos` on as alternating keys and values. An odd
/// `n` leaves the last key without a value.
pub open spec fn parse_entries(bytes: Seq<u8>, pos: int, n: int) -> Result<
    (Seq<(ValueModel, ValueModel)>, int),
    FressErrorModel,
>
    decreases bytes.len() - pos, 2nat,
{
    if n <= 0 {
        Ok((Seq::empty(), pos))
    } else {
        match parse_value(bytes, pos) {
            Err(e) => Err(e),
            Ok((k, mid)) => if mid <= pos || mid > bytes.len() {
                Err(syntax(ErrorCode::Eof, pos))
            } else if n == 1 {
                Err(syntax(ErrorCode::UnexpectedEof, mid))
            } else {
                match parse_value(bytes, mid) {
                    Err(e) => Err(e),
                    Ok((v, next)) => if next <= mid || next > bytes.len() {
                        Err(syntax(ErrorCode::Eof, mid))
                    } else {
                        match parse_entries(bytes, next, n - 2) {
                            Err(e) => Err(e),
                            Ok((rest, end)) => Ok((seq![(k, v)] + rest, end)),
                        }
                    },
                }
            },
        }
    }
}

/// Reads keys and values from `pos` up to the code that ends a closed list.
pub open spec fn parse_closed_entries(bytes: Seq<u8>, pos: int) -> Result<
    (Seq<(ValueModel, ValueModel)>, int),
    FressErrorModel,
>
    decreases bytes.len() - pos, 2nat,
{
    if pos < 0 || pos >= bytes.len() {
        Err(syntax(ErrorCode::Eof, pos))
    } else if bytes[pos] == codes::END_COLLECTION {
        Ok((Seq::empty(), pos + 1))
    } else {
        match parse_value(bytes, pos) {
            Err(e) => Err(e),
            Ok((k, mid)) => if mid <= pos || mid > bytes.len() {
                Err(syntax(ErrorCode::Eof, pos))
            } else if mid == bytes.len() {
                Err(syntax(ErrorCode::Eof, mid))
            } else if bytes[mid] == codes::END_COLLECTION {
                Err(syntax(ErrorCode::UnexpectedEof, mid + 1))
            } else {
                match parse_value(bytes, mid) {
                    Err(e) => Err(e),
                    Ok((v, next)) => if next <= mid || next > bytes.len() {
                        Err(syntax(ErrorCode::Eof, mid))
                    } else {
                        match parse_closed_entries(bytes, next) {
                            Err(e) => Err(e),
                            Ok((rest, end)) => Ok((seq![(k, v)] + rest, end)),
                        }
                    },
                }
            },
        }
    }
}

/// What a whole input decodes to: the value at its start. Bytes after that
/// value are not looked at.
pub open spec fn decoding(bytes: Seq<u8>) -> Result<ValueModel, FressErrorModel> {
    match parse_value(bytes, 0) {
        Ok((v, _)) => Ok(v),
        Err(e) => Err(e),
    }
}

} // verus!
