//! The leaves of the wire format, as the `serde_fressian` crate writes and
//! reads them.
//!
//! Integers and strings have packed encodings that this library does not
//! restate. Each function here makes one call into `serde_fressian`, or into
//! the standard library for UTF-8; Verus takes its contract on trust. The
//! encodings of integers and strings are named by uninterpreted functions,
//! so that the contracts of the encoder and of the decoder can speak of them
//! exactly.

use vstd::prelude::*;

verus! {

/// The bytes that `serde_fressian` writes for the integer `i`.
pub uninterp spec fn int_encoding(i: i64) -> Seq<u8>;

/// The bytes that `serde_fressian` writes for the string `s`.
pub uninterp spec fn str_encoding(s: Seq<char>) -> Seq<u8>;

/// How many bytes go into one chunk of a long byte array.
pub const BYTE_CHUNK: usize = 65535;

/// A byte array of eight bytes or more as `serde_fressian` writes it: as
/// long as more than a chunk is left, the chunk code, the chunk's length and
/// the chunk; then the bytes code, the length of what is left, and that.
pub open spec fn bytes_in_chunks(b: Seq<u8>) -> Seq<u8>
    decreases b.len(),
{
    if b.len() > BYTE_CHUNK {
        seq![0xD8u8] + int_encoding(BYTE_CHUNK as i64) + b.subrange(0, BYTE_CHUNK as int)
            + bytes_in_chunks(b.subrange(BYTE_CHUNK as int, b.len() as int))
    } else {
        seq![0xD9u8] + int_encoding(b.len() as i64) + b
    }
}

/// The bytes that `serde_fressian` writes for the byte array `b`: under
/// eight bytes, one packed code and the bytes; else the bytes in chunks.
pub open spec fn bytes_encoding(b: Seq<u8>) -> Seq<u8> {
    if b.len() < 8 {
        seq![(0xD0 + b.len()) as u8] + b
    } else {
        bytes_in_chunks(b)
    }
}

/// Calls `serde_fressian::ser::to_vec` on an `i64`. The serializer hands the
/// integer to its packed-integer writer, which cannot fail on 64 bits; the
/// result is what that writer put out.
#[verifier::external_body]
pub(crate) fn write_int(i: i64) -> (out: Vec<u8>)
    ensures
        out@ == int_encoding(i),
{
    serde_fressian::ser::to_vec(&i).unwrap_or_default()
}

/// Whether a string is short enough for the string writer, which sizes its
/// buffer at three times the string's length in bytes.
pub open spec fn str_writable(s: Seq<char>) -> bool {
    (vstd::utf8::encode_utf8(s).len() as usize) <= usize::MAX / 3
}

/// Calls `serde_fressian::ser::to_vec` on a string slice. The serializer
/// writes a length-prefixed run of modified UTF-8; on a string whose tripled
/// length fits the machine it reports no error.
#[verifier::external_body]
pub(crate) fn write_str(s: &str) -> (out: Vec<u8>)
    requires
        str_writable(s@),
    ensures
        out@ == str_encoding(s@),
{
    serde_fressian::ser::to_vec(&s).unwrap_or_default()
}

/// Calls `serde_fressian::ser::to_vec` on the crate's byte-array value. The
/// serializer writes a packed code and the bytes where they are under
/// eight, and else chunks of 65535 bytes and the rest, each behind its code
/// and its length, which goes through the packed-integer writer; it reports
/// no error.
#[verifier::external_body]
pub(crate) fn write_bytes(b: &[u8]) -> (out: Vec<u8>)
    ensures
        out@ == bytes_encoding(b@),
{
    serde_fressian::ser::to_vec(&serde_fressian::value::Value::from(b)).unwrap_or_default()
}

/// The header that `serde_fressian` writes before the items of a list of `n`
/// items: one packed code where the low byte of `n` is under eight, else the
/// list code and `n` as an integer.
pub open spec fn list_header(n: usize) -> Seq<u8> {
    if (n as u8) < 8 {
        seq![(0xE4 + (n as u8)) as u8]
    } else {
        seq![0xECu8] + int_encoding(n as i64)
    }
}

/// Calls `Serializer::write_list_header` of `serde_fressian` on a fresh
/// serializer and takes what it wrote. The method decides by the length cast
/// to a byte, and writes a longer length through the packed-integer writer.
#[verifier::external_body]
pub(crate) fn write_list_header(n: usize) -> (out: Vec<u8>)
    ensures
        out@ == list_header(n),
{
    let mut ser = serde_fressian::ser::Serializer::from_vec(Vec::new());
    let _ = ser.write_list_header(n);
    ser.into_inner()
}

/// Whether `c` opens an integer.
pub open spec fn is_int_code(c: u8) -> bool {
    c <= 0x7F || c == 0xF8 || c == 0xFF
}

/// The length in bytes of an integer that opens with the code `c`, the code
/// included.
pub open spec fn int_item_len(c: u8) -> int {
    if c <= 0x3F {
        1
    } else if c <= 0x5F {
        2
    } else if c <= 0x6F {
        3
    } else if c <= 0x73 {
        4
    } else if c <= 0x77 {
        5
    } else if c <= 0x7B {
        6
    } else if c <= 0x7F {
        7
    } else if c == 0xF8 {
        9
    } else {
        1
    }
}

/// Whether `item` is one whole integer: an integer code and exactly the bytes
/// that the code announces.
pub open spec fn is_int_item(item: Seq<u8>) -> bool {
    &&& item.len() >= 1
    &&& is_int_code(item[0])
    &&& item.len() == int_item_len(item[0])
}

/// The integer that `serde_fressian` reads from the integer item `item`.
pub uninterp spec fn int_decoding(item: Seq<u8>) -> i64;

/// Calls `serde_fressian::de::from_bytes` for an `i64`. On a whole integer
/// item the reader finds every byte it asks for, so it returns the integer.
#[verifier::external_body]
pub(crate) fn read_int(item: &[u8]) -> (i: i64)
    requires
        is_int_item(item@),
    ensures
        i == int_decoding(item@),
{
    serde_fressian::de::from_bytes::<i64>(item).unwrap_or_default()
}

/// The length of the group of string bytes that `b` opens: one, two or three
/// bytes, or zero where `b` opens no group.
pub open spec fn group_len(b: u8) -> int {
    if b < 0x80 {
        1
    } else if 0xC0 <= b && b < 0xE0 {
        2
    } else if 0xE0 <= b && b < 0xF0 {
        3
    } else {
        0
    }
}

/// Whether the groups of `region` from `at` on are whole, up to the end or
/// to the first byte that opens no group.
pub open spec fn groups_complete(region: Seq<u8>, at: int) -> bool
    decreases region.len() - at,
{
    if at < 0 || at >= region.len() {
        true
    } else {
        let g = group_len(region[at]);
        if g == 0 {
            true
        } else if at + g > region.len() {
            false
        } else {
            groups_complete(region, at + g)
        }
    }
}

/// Where the bytes of the string begin in the string item `item`: after the
/// packed code, or after the string code and the count.
pub open spec fn str_body_offset(item: Seq<u8>) -> int {
    if 0xDA <= item[0] && item[0] <= 0xE1 {
        1
    } else {
        1 + int_item_len(item[1])
    }
}

/// Whether `item` has the outline of one whole string: a packed string code
/// and as many bytes as it announces, or the string code, a count and as many
/// bytes as the count says.
pub open spec fn is_str_shape(item: Seq<u8>) -> bool {
    &&& item.len() >= 1
    &&& if 0xDA <= item[0] && item[0] <= 0xE1 {
        item.len() == 1 + (item[0] - 0xDA)
    } else {
        &&& item[0] == 0xE3
        &&& item.len() >= 2
        &&& is_int_code(item[1])
        &&& item.len() >= 1 + int_item_len(item[1])
        &&& 0 <= int_decoding(item.subrange(1, 1 + int_item_len(item[1]))) <= i32::MAX
        &&& item.len() == 1 + int_item_len(item[1]) + int_decoding(
            item.subrange(1, 1 + int_item_len(item[1])),
        )
    }
}

/// Whether `item` is one whole string whose every group of bytes is whole.
pub open spec fn is_str_item(item: Seq<u8>) -> bool {
    &&& is_str_shape(item)
    &&& groups_complete(item.subrange(str_body_offset(item), item.len() as int), 0)
}

/// The string that `serde_fressian` reads from the string item `item`, or
/// `None` where it reports that the bytes are no string.
pub uninterp spec fn str_decoding(item: Seq<u8>) -> Option<Seq<char>>;

/// Calls `serde_fressian::de::from_bytes` for a `String`. On a whole string
/// item with whole groups the reader stays inside the item; it returns the
/// string, or an error where a byte opens no group or the groups are not
/// valid UTF-16.
#[verifier::external_body]
pub(crate) fn read_str(item: &[u8]) -> (s: Option<String>)
    requires
        is_str_item(item@),
    ensures
        s is Some == str_decoding(item@) is Some,
        s is Some ==> s->0@ == str_decoding(item@)->0,
{
    serde_fressian::de::from_bytes::<String>(item).ok()
}

/// Calls `std::str::from_utf8` and owns the result. The standard library
/// accepts the bytes exactly when they are valid UTF-8, and the string then
/// holds the characters that they spell.
#[verifier::external_body]
pub(crate) fn utf8_text(region: &[u8]) -> (s: Option<String>)
    ensures
        s is Some == vstd::utf8::valid_utf8(region@),
        s is Some ==> s->0@ == vstd::utf8::decode_utf8(region@),
{
    std::str::from_utf8(region).ok().map(|text| text.to_owned())
}

} // verus!
