//! The length header: how the host learns how many bytes a buffer holds.
//!
//! A buffer that the guest hands over is four bytes of header, the length of
//! the payload as a little-endian number, and then the payload.

use vstd::prelude::*;

verus! {

/// The length of the header in bytes.
pub const HEADER_LEN: usize = 4;

/// The longest payload that a buffer can carry: header and payload together
/// stay within what the header can count.
pub const MAX_PAYLOAD: usize = 0xFFFF_FFFB;

/// The four bytes of `n`, least significant first.
pub open spec fn le32(n: u32) -> Seq<u8> {
    seq![n as u8, (n >> 8) as u8, (n >> 16) as u8, (n >> 24) as u8]
}

/// The value of four bytes, least significant first.
pub open spec fn le32_value(b: Seq<u8>) -> u32 {
    (b[0] as u32) | (b[1] as u32) << 8 | (b[2] as u32) << 16 | (b[3] as u32) << 24
}

/// A payload behind its header.
pub open spec fn framed(payload: Seq<u8>) -> Seq<u8> {
    le32(payload.len() as u32) + payload
}

/// The payload of a buffer: what follows the header, where the header counts
/// exactly the bytes that follow it.
pub open spec fn unframed(buffer: Seq<u8>) -> Option<Seq<u8>> {
    if buffer.len() >= HEADER_LEN && le32_value(buffer.subrange(0, HEADER_LEN as int))
        == buffer.len() - HEADER_LEN {
        Some(buffer.subrange(HEADER_LEN as int, buffer.len() as int))
    } else {
        None
    }
}

proof fn lemma_le32_round_trip(n: u32)
    ensures
        le32_value(le32(n)) == n,
{
    let b = le32(n);
    assert(b[0] == n as u8 && b[1] == (n >> 8) as u8 && b[2] == (n >> 16) as u8 && b[3] == (n
        >> 24) as u8);
    assert(((n as u8) as u32) | (((n >> 8) as u8) as u32) << 8 | (((n >> 16) as u8) as u32) << 16
        | (((n >> 24) as u8) as u32) << 24 == n) by (bit_vector);
}

/// Taking the frame off a framed payload gives the payload back.
pub proof fn law_unframe_framed(payload: Seq<u8>)
    requires
        payload.len() <= MAX_PAYLOAD,
    ensures
        unframed(framed(payload)) == Some(payload),
{
    let n = payload.len() as u32;
    let buffer = framed(payload);
    lemma_le32_round_trip(n);
    assert(buffer.subrange(0, HEADER_LEN as int) =~= le32(n));
    assert(buffer.subrange(HEADER_LEN as int, buffer.len() as int) =~= payload);
}

/// Puts `payload` behind its length header.
pub fn frame(payload: &[u8]) -> (buffer: Vec<u8>)
    requires
        payload.len() <= MAX_PAYLOAD,
    ensures
        buffer@ == framed(payload@),
        buffer@.len() == payload@.len() + HEADER_LEN,
{
    let n: u32 = payload.len() as u32;
    let mut buffer: Vec<u8> = Vec::new();
    buffer.push(n as u8);
    buffer.push((n >> 8) as u8);
    buffer.push((n >> 16) as u8);
    buffer.push((n >> 24) as u8);
    buffer.extend_from_slice(payload);
    assert(buffer@ =~= framed(payload@));
    buffer
}

/// Puts `payload` behind its length header, if the header can count it.
pub fn try_frame(payload: &[u8]) -> (r: Option<Vec<u8>>)
    ensures
        match r {
            Some(buffer) => payload@.len() <= MAX_PAYLOAD && buffer@ == framed(payload@),
            None => payload@.len() > MAX_PAYLOAD,
        },
{
    if payload.len() as u64 <= 0xFFFF_FFFB {
        Some(frame(payload))
    } else {
        None
    }
}

/// The number of payload bytes that a header announces.
pub fn announced(header: &[u8]) -> (n: u32)
    requires
        header.len() >= HEADER_LEN,
    ensures
        n == le32_value(header@.subrange(0, HEADER_LEN as int)),
{
    (header[0] as u32) | (header[1] as u32) << 8 | (header[2] as u32) << 16 | (header[3] as u32)
        << 24
}

/// Takes the frame off a buffer: the payload, or `None` where the buffer is
/// shorter than a header or its header counts other than what follows.
pub fn unframe(buffer: &[u8]) -> (r: Option<Vec<u8>>)
    ensures
        match r {
            Some(payload) => unframed(buffer@) == Some(payload@),
            None => unframed(buffer@) is None,
        },
{
    if buffer.len() < HEADER_LEN {
        return None;
    }
    let n = announced(buffer);
    if n as u64 != (buffer.len() - HEADER_LEN) as u64 {
        return None;
    }
    let mut payload: Vec<u8> = Vec::new();
    payload.extend_from_slice(&buffer[HEADER_LEN..buffer.len()]);
    assert(payload@ =~= buffer@.subrange(HEADER_LEN as int, buffer@.len() as int));
    Some(payload)
}

} // verus!
