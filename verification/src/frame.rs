//! Frames: one message on the wire, behind a header that declares its length.
//!
//! The header is four bytes, a little-endian number, and the body that
//! follows has exactly that many bytes. The protocol allows no body above
//! [`MAX_FRAME_LEN`], which is less than the header could declare: a receiver
//! checks the header alone and turns a longer frame away before it reads, or
//! makes room for, any of the body.

use crate::error::DecodeError;
use crate::wire::{get_u32, put_bytes, put_u32, u32_from_le, u32_le};
use vstd::prelude::*;
use vstd::slice::slice_subrange;

verus! {

/// The number of bytes in a frame's header.
pub const HEADER_LEN: usize = 4;

/// The most bytes that a frame's body may have: 2^24 - 1.
pub const MAX_FRAME_LEN: usize = 0xFF_FFFF;

/// The frame that carries `body`: the header, then the body.
pub open spec fn framed(body: Seq<u8>) -> Seq<u8>
    recommends
        body.len() <= MAX_FRAME_LEN,
{
    u32_le(body.len() as u32) + body
}

/// The length that the first four bytes of `input` declare.
pub open spec fn declared_len(input: Seq<u8>) -> u32
    recommends
        input.len() >= HEADER_LEN,
{
    u32_from_le(input.subrange(0, HEADER_LEN as int))
}

/// What a header says of the body that follows it: its length, or the fault.
/// Bytes beyond the fourth play no part.
pub open spec fn header_reading(header: Seq<u8>) -> Result<int, DecodeError> {
    if header.len() < HEADER_LEN {
        Err(DecodeError::Truncated)
    } else if declared_len(header) > MAX_FRAME_LEN {
        Err(DecodeError::FrameTooLong(declared_len(header)))
    } else {
        Ok(declared_len(header) as int)
    }
}

/// The body of the frame at the front of `input`. No bytes at all are no
/// frame yet, which is no fault; a header that is cut short, one that
/// declares too much, and a body that is cut short are faults, looked for in
/// that order. What follows the frame is left alone.
pub open spec fn unframed(input: Seq<u8>) -> Result<Option<Seq<u8>>, DecodeError> {
    if input.len() == 0 {
        Ok(None)
    } else {
        match header_reading(input) {
            Err(e) => Err(e),
            Ok(len) => if input.len() < HEADER_LEN + len {
                Err(DecodeError::Truncated)
            } else {
                Ok(Some(input.subrange(HEADER_LEN as int, HEADER_LEN + len)))
            },
        }
    }
}

/// A frame gives its body back, whatever follows it.
pub proof fn lemma_frame_roundtrip(body: Seq<u8>, rest: Seq<u8>)
    requires
        body.len() <= MAX_FRAME_LEN,
    ensures
        unframed(framed(body) + rest) == Ok::<_, DecodeError>(Some(body)),
{
    let input = framed(body) + rest;
    crate::wire::lemma_u32_value_roundtrip(body.len() as u32);
    assert(input.subrange(0, HEADER_LEN as int) =~= u32_le(body.len() as u32));
    assert(input.subrange(HEADER_LEN as int, HEADER_LEN + body.len()) =~= body);
}

/// What is read as a frame starts with the frame of the body read.
pub proof fn lemma_frame_read(input: Seq<u8>)
    requires
        unframed(input) is Ok,
        unframed(input).unwrap() is Some,
    ensures
        ({
            let body = unframed(input).unwrap().unwrap();
            &&& body.len() <= MAX_FRAME_LEN
            &&& HEADER_LEN + body.len() <= input.len()
            &&& input.subrange(0, HEADER_LEN + body.len()) == framed(body)
        }),
{
    let body = unframed(input).unwrap().unwrap();
    crate::wire::lemma_u32_bytes_roundtrip(input.subrange(0, HEADER_LEN as int));
    assert(input.subrange(0, HEADER_LEN + body.len()) =~= framed(body));
}

/// A frame that is cut short anywhere yields no body, only a fault: nothing
/// is ever made of a part of a frame.
pub proof fn lemma_partial_frame_is_a_fault(body: Seq<u8>, cut: int)
    requires
        body.len() <= MAX_FRAME_LEN,
        0 < cut < HEADER_LEN + body.len(),
    ensures
        unframed(framed(body).subrange(0, cut)) == Err::<Option<Seq<u8>>, _>(
            DecodeError::Truncated,
        ),
{
    let input = framed(body).subrange(0, cut);
    if cut >= HEADER_LEN {
        crate::wire::lemma_u32_value_roundtrip(body.len() as u32);
        assert(input.subrange(0, HEADER_LEN as int) =~= u32_le(body.len() as u32));
    }
}

/// A header that declares more than the protocol allows fails the frame by
/// itself: whatever bytes follow it, and whether any follow at all, the
/// outcome is the same fault.
pub proof fn lemma_overlong_header_rejected(header: Seq<u8>, payload: Seq<u8>)
    requires
        header.len() == HEADER_LEN,
        u32_from_le(header) > MAX_FRAME_LEN,
    ensures
        header_reading(header) == Err::<int, _>(DecodeError::FrameTooLong(u32_from_le(header))),
        unframed(header + payload) == Err::<Option<Seq<u8>>, _>(
            DecodeError::FrameTooLong(u32_from_le(header)),
        ),
{
    assert(header.subrange(0, HEADER_LEN as int) =~= header);
    assert((header + payload).subrange(0, HEADER_LEN as int) =~= header);
}

/// Builds the frame that carries `body`, unless the body is too long for
/// one.
pub fn frame(body: &[u8]) -> (r: Option<Vec<u8>>)
    ensures
        body@.len() <= MAX_FRAME_LEN ==> (r matches Some(bytes) && bytes@ == framed(body@)),
        body@.len() > MAX_FRAME_LEN ==> r is None,
{
    if body.len() > MAX_FRAME_LEN {
        return None;
    }
    let mut out: Vec<u8> = Vec::new();
    put_u32(&mut out, body.len() as u32);
    put_bytes(&mut out, body);
    Some(out)
}

/// Reads a header: the length of the body that must follow. Only the first
/// four bytes are looked at, so this can be asked before any of the body has
/// been received.
pub fn declared_length(header: &[u8]) -> (r: Result<usize, DecodeError>)
    ensures
        match r {
            Ok(len) => header_reading(header@) == Ok::<_, DecodeError>(len as int) && len
                <= MAX_FRAME_LEN,
            Err(e) => header_reading(header@) == Err::<int, _>(e),
        },
{
    match get_u32(header) {
        None => Err(DecodeError::Truncated),
        Some(declared) => {
            if declared > MAX_FRAME_LEN as u32 {
                Err(DecodeError::FrameTooLong(declared))
            } else {
                Ok(declared as usize)
            }
        },
    }
}

/// Takes the body of the frame at the front of `input`.
pub fn unframe(input: &[u8]) -> (r: Result<Option<&[u8]>, DecodeError>)
    ensures
        match r {
            Ok(Some(body)) => unframed(input@) == Ok::<_, DecodeError>(Some(body@)),
            Ok(None) => unframed(input@) == Ok::<Option<Seq<u8>>, DecodeError>(None),
            Err(e) => unframed(input@) == Err::<Option<Seq<u8>>, _>(e),
        },
{
    if input.len() == 0 {
        return Ok(None);
    }
    match declared_length(input) {
        Err(e) => Err(e),
        Ok(len) => {
            if input.len() - HEADER_LEN < len {
                Err(DecodeError::Truncated)
            } else {
                Ok(Some(slice_subrange(input, HEADER_LEN, HEADER_LEN + len)))
            }
        },
    }
}

} // verus!
