//! The opcodes of the wire format that this library reads and writes itself.

use vstd::prelude::*;

verus! {

/// A string that was put into the cache of strings: the place under which
/// it is there is added to this code, for the first thirty-two places.
pub const CACHED: u8 = 0x80;

/// An array of 64-bit integers follows: a count and the integers.
pub const LONG_ARRAY: u8 = 0xB0;

/// An array of doubles follows: a count and the doubles.
pub const DOUBLE_ARRAY: u8 = 0xB1;

/// An array of booleans follows: a count and the booleans.
pub const BOOLEAN_ARRAY: u8 = 0xB2;

/// An array of 32-bit integers follows: a count and the integers.
pub const INT_ARRAY: u8 = 0xB3;

/// An array of floats follows: a count and the floats.
pub const FLOAT_ARRAY: u8 = 0xB4;

/// A string follows as a count and that many bytes of UTF-8.
pub const UTF8: u8 = 0xBF;

/// A mapping follows, as a list of alternating keys and values.
pub const MAP: u8 = 0xC0;

/// A set follows, as a list of its members.
pub const SET: u8 = 0xC1;

/// A UUID follows, as a byte array.
pub const UUID: u8 = 0xC3;

/// A regular expression follows, as a string.
pub const REGEX: u8 = 0xC4;

/// A URI follows, as a string.
pub const URI: u8 = 0xC5;

/// An instant follows, as an integer of milliseconds.
pub const INST: u8 = 0xC8;

/// A symbol follows: its namespace and its name.
pub const SYM: u8 = 0xC9;

/// A keyword follows: its namespace and its name.
pub const KEY: u8 = 0xCA;

/// The value that follows is an error.
pub const ERROR: u8 = 0xCB;

/// The string that follows is put into the cache of strings.
pub const PUT_CACHE: u8 = 0xCD;

/// A byte array of zero to seven bytes: the length is added to this code.
pub const BYTES_PACKED: u8 = 0xD0;

/// One chunk of a chunked byte array.
pub const BYTES_CHUNK: u8 = 0xD8;

/// A byte array with its length written as an integer.
pub const BYTES: u8 = 0xD9;

/// A string of zero to seven bytes: the length is added to this code.
pub const STRING_PACKED: u8 = 0xDA;

/// One chunk of a chunked string.
pub const STRING_CHUNK: u8 = 0xE2;

/// A string with its length in bytes written as an integer.
pub const STRING: u8 = 0xE3;

/// A list of zero to seven items: the length is added to this code.
pub const LIST_PACKED: u8 = 0xE4;

/// A list with its length written as an integer.
pub const LIST: u8 = 0xEC;

/// A list that runs up to the next [`END_COLLECTION`].
pub const BEGIN_CLOSED_LIST: u8 = 0xED;

/// A list that runs up to the next [`END_COLLECTION`] or to the end of the
/// input.
pub const BEGIN_OPEN_LIST: u8 = 0xEE;

pub const TRUE: u8 = 0xF5;

pub const FALSE: u8 = 0xF6;

pub const NULL: u8 = 0xF7;

/// An integer in eight bytes.
pub const INT: u8 = 0xF8;

/// A single-precision float in four bytes.
pub const FLOAT: u8 = 0xF9;

/// A double-precision float in eight bytes.
pub const DOUBLE: u8 = 0xFA;

/// The double 0.0.
pub const DOUBLE_0: u8 = 0xFB;

/// The double 1.0.
pub const DOUBLE_1: u8 = 0xFC;

/// Ends a closed list.
pub const END_COLLECTION: u8 = 0xFD;

/// The integer -1.
pub const INT_MINUS_ONE: u8 = 0xFF;

} // verus!
