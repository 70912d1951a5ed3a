//! Value marshaling across the boundary between a sandboxed guest and its
//! host.
//!
//! The guest builds a [`value::Value`], writes it in the Fressian wire format
//! ([`encode`]), puts the bytes behind a length header ([`frame`]) and hands
//! the buffer to the host; the host gives every buffer back for release
//! ([`boundary`]). In the other direction the guest reads a buffer of the host
//! ([`decode`]) and answers with the buffer of what it read ([`exports`]).
//! Errors travel as values like any other ([`error`]).
//!
//! Integers, strings and byte arrays are written and read by the
//! `serde_fressian` crate ([`leaf`]); the structure around them is written and
//! read here, against the grammar in [`grammar`]. What that grammar reads is
//! read back from what the encoder writes ([`roundtrip`]).

pub mod boundary;
pub mod codes;
pub mod convert;
pub mod decode;
pub mod encode;
pub mod error;
pub mod exports;
pub mod frame;
pub mod grammar;
pub mod leaf;
pub mod roundtrip;
pub mod value;

pub use exports::{big_string, echo, get_custom_error, get_errors, hello, induce_panic};
