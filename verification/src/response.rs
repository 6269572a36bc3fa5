//! What the daemon sends: the response catalogue and its encoding.
//!
//! A response is one tag byte and the payload that the tag calls for. Tags
//! are part of the wire contract: a variant keeps its tag for good, and new
//! variants take tags that were never used. Responses use the lower half of
//! the tag space, requests the upper half.

use crate::error::DecodeError;
use crate::frame::{frame, framed, unframe, unframed, MAX_FRAME_LEN};
use crate::payload::{
    failure_decoding, failure_encoding, small_bytes_decoding, small_bytes_encoding, text_fits,
    txid_decoding, Blob, Failure, FailureView, Txid, MAX_SMALL_LEN, TXID_LEN,
};
use crate::status::{status_reply_decoding, status_reply_encoding, StatusReply};
use crate::wire::skip;
use vstd::prelude::*;

verus! {

/// The tag of `Response::Failure`.
pub const RESPONSE_TAG_FAILURE: u8 = 0x00;

/// The tag of `Response::Pong`.
pub const RESPONSE_TAG_PONG: u8 = 0x01;

/// The tag of `Response::Status`.
pub const RESPONSE_TAG_STATUS: u8 = 0x02;

/// The tag of `Response::Mined`.
pub const RESPONSE_TAG_MINED: u8 = 0x10;

/// A message from the daemon to a client.
#[derive(PartialEq, Eq, Debug)]
pub enum Response {
    /// The request was rejected or has failed.
    Failure(Failure),
    /// The reply to a ping, with the bytes that the ping brought.
    Pong(Blob),
    /// The answer to a status query.
    Status(StatusReply),
    /// A watched transaction has been confirmed.
    Mined(Txid),
}

/// A response as a plain value.
pub enum ResponseView {
    Failure(FailureView),
    Pong(Seq<u8>),
    Status(StatusReply),
    Mined(Seq<u8>),
}

impl View for Response {
    type V = ResponseView;

    open spec fn view(&self) -> ResponseView {
        match self {
            Response::Failure(failure) => ResponseView::Failure(failure@),
            Response::Pong(blob) => ResponseView::Pong(blob@),
            Response::Status(reply) => ResponseView::Status(*reply),
            Response::Mined(txid) => ResponseView::Mined(txid@),
        }
    }
}

/// Whether a plain value is a response that can be sent: its text, blob or
/// identifier has a length that the encoding can hold.
pub open spec fn response_fits(response: ResponseView) -> bool {
    match response {
        ResponseView::Failure(failure) => text_fits(failure.message),
        ResponseView::Pong(bytes) => bytes.len() <= MAX_SMALL_LEN,
        ResponseView::Status(_) => true,
        ResponseView::Mined(bytes) => bytes.len() == TXID_LEN,
    }
}

/// The tag that a response is sent under.
pub open spec fn response_tag(response: ResponseView) -> u8 {
    match response {
        ResponseView::Failure(_) => RESPONSE_TAG_FAILURE,
        ResponseView::Pong(_) => RESPONSE_TAG_PONG,
        ResponseView::Status(_) => RESPONSE_TAG_STATUS,
        ResponseView::Mined(_) => RESPONSE_TAG_MINED,
    }
}

/// The payload that follows a response's tag.
pub open spec fn response_payload(response: ResponseView) -> Seq<u8>
    recommends
        response_fits(response),
{
    match response {
        ResponseView::Failure(failure) => failure_encoding(failure),
        ResponseView::Pong(bytes) => small_bytes_encoding(bytes),
        ResponseView::Status(reply) => status_reply_encoding(reply),
        ResponseView::Mined(bytes) => bytes,
    }
}

/// The encoding of a response: the body of its frame.
pub open spec fn response_encoding(response: ResponseView) -> Seq<u8>
    recommends
        response_fits(response),
{
    seq![response_tag(response)] + response_payload(response)
}

/// The response that a tag and the bytes behind it stand for, and the number
/// of those bytes that it takes.
pub open spec fn response_payload_decoding(tag: u8, payload: Seq<u8>) -> Result<
    (ResponseView, int),
    DecodeError,
> {
    if tag == RESPONSE_TAG_FAILURE {
        match failure_decoding(payload) {
            Ok((failure, taken)) => Ok((ResponseView::Failure(failure), taken)),
            Err(e) => Err(e),
        }
    } else if tag == RESPONSE_TAG_PONG {
        match small_bytes_decoding(payload) {
            Ok((bytes, taken)) => Ok((ResponseView::Pong(bytes), taken)),
            Err(e) => Err(e),
        }
    } else if tag == RESPONSE_TAG_STATUS {
        match status_reply_decoding(payload) {
            Ok((reply, taken)) => Ok((ResponseView::Status(reply), taken)),
            Err(e) => Err(e),
        }
    } else if tag == RESPONSE_TAG_MINED {
        match txid_decoding(payload) {
            Ok((bytes, taken)) => Ok((ResponseView::Mined(bytes), taken)),
            Err(e) => Err(e),
        }
    } else {
        Err(DecodeError::UnknownTag(tag))
    }
}

/// The response that the body of a frame stands for. The body must hold the
/// tag, the whole payload, and nothing more.
pub open spec fn response_decoding(body: Seq<u8>) -> Result<ResponseView, DecodeError> {
    if body.len() < 1 {
        Err(DecodeError::Truncated)
    } else {
        match response_payload_decoding(body[0], body.skip(1)) {
            Err(e) => Err(e),
            Ok((response, taken)) => if 1 + taken < body.len() {
                Err(DecodeError::TrailingBytes)
            } else {
                Ok(response)
            },
        }
    }
}

/// A response on the wire: the frame around its encoding.
pub open spec fn response_marshalling(response: ResponseView) -> Seq<u8>
    recommends
        response_fits(response),
{
    framed(response_encoding(response))
}

/// What the bytes received so far hold at their front: no frame yet, a
/// response, or a fault.
pub open spec fn response_unmarshalling(input: Seq<u8>) -> Result<
    Option<ResponseView>,
    DecodeError,
> {
    match unframed(input) {
        Err(e) => Err(e),
        Ok(None) => Ok(None),
        Ok(Some(body)) => match response_decoding(body) {
            Err(e) => Err(e),
            Ok(response) => Ok(Some(response)),
        },
    }
}

/// The encoding of any response is short: far below what a frame may carry.
pub proof fn lemma_response_encoding_is_short(response: ResponseView)
    requires
        response_fits(response),
    ensures
        0 < response_encoding(response).len() <= 4 + MAX_SMALL_LEN,
        response_encoding(response).len() <= MAX_FRAME_LEN,
        response_encoding(response)[0] == response_tag(response),
{
}

/// Every response of the catalogue decodes from its encoding to itself.
pub proof fn lemma_response_roundtrip(response: ResponseView)
    requires
        response_fits(response),
    ensures
        response_decoding(response_encoding(response)) == Ok::<_, DecodeError>(response),
{
    let body = response_encoding(response);
    let payload = response_payload(response);
    let none = Seq::<u8>::empty();
    assert(body.skip(1) =~= payload);
    assert(payload + none =~= payload);
    match response {
        ResponseView::Failure(failure) => {
            crate::payload::lemma_failure_roundtrip(failure, none);
        },
        ResponseView::Pong(bytes) => {
            crate::payload::lemma_small_bytes_roundtrip(bytes, none);
        },
        ResponseView::Status(reply) => {
            crate::status::lemma_status_reply_roundtrip(reply, none);
        },
        ResponseView::Mined(bytes) => {
            crate::payload::lemma_txid_roundtrip(bytes, none);
        },
    }
}

/// Bytes that decode as a response are the encoding of that response, and of
/// one that can be sent: no response has two encodings.
pub proof fn lemma_response_decoded(body: Seq<u8>)
    requires
        response_decoding(body) is Ok,
    ensures
        response_fits(response_decoding(body).unwrap()),
        response_encoding(response_decoding(body).unwrap()) == body,
{
    let response = response_decoding(body).unwrap();
    let payload = body.skip(1);
    let tag = body[0];
    if tag == RESPONSE_TAG_FAILURE {
        crate::payload::lemma_failure_decoded(payload);
    } else if tag == RESPONSE_TAG_PONG {
        crate::payload::lemma_small_bytes_decoded(payload);
    } else if tag == RESPONSE_TAG_STATUS {
        crate::status::lemma_status_reply_decoded(payload);
    } else {
    }
    assert(payload.subrange(0, payload.len() as int) =~= payload);
    assert(response_encoding(response) =~= body);
}

/// Every response of the catalogue comes back from the wire as it was sent,
/// whatever follows its frame.
pub proof fn lemma_response_wire_roundtrip(response: ResponseView, rest: Seq<u8>)
    requires
        response_fits(response),
    ensures
        response_unmarshalling(response_marshalling(response) + rest) == Ok::<_, DecodeError>(
            Some(response),
        ),
{
    lemma_response_encoding_is_short(response);
    crate::frame::lemma_frame_roundtrip(response_encoding(response), rest);
    lemma_response_roundtrip(response);
}

impl Clone for Response {
    fn clone(&self) -> (copy: Self)
        ensures
            copy@ == self@,
    {
        match self {
            Response::Failure(failure) => Response::Failure(failure.clone()),
            Response::Pong(blob) => Response::Pong(blob.clone()),
            Response::Status(reply) => Response::Status(*reply),
            Response::Mined(txid) => Response::Mined(*txid),
        }
    }
}

impl Response {
    /// The tag that the response is sent under.
    pub fn tag(&self) -> (tag: u8)
        ensures
            tag == response_tag(self@),
    {
        match self {
            Response::Failure(_) => RESPONSE_TAG_FAILURE,
            Response::Pong(_) => RESPONSE_TAG_PONG,
            Response::Status(_) => RESPONSE_TAG_STATUS,
            Response::Mined(_) => RESPONSE_TAG_MINED,
        }
    }

    /// The response's encoding: the body of its frame.
    pub fn encode(&self) -> (body: Vec<u8>)
        ensures
            response_fits(self@),
            body@ == response_encoding(self@),
            response_decoding(body@) == Ok::<_, DecodeError>(self@),
    {
        let mut out: Vec<u8> = Vec::new();
        out.push(self.tag());
        match self {
            Response::Failure(failure) => {
                failure.encode_into(&mut out);
            },
            Response::Pong(blob) => {
                blob.encode_into(&mut out);
            },
            Response::Status(reply) => {
                reply.encode_into(&mut out);
            },
            Response::Mined(txid) => {
                txid.encode_into(&mut out);
            },
        }
        assert(out@ =~= response_encoding(self@));
        proof {
            lemma_response_roundtrip(self@);
        }
        out
    }

    /// Decodes the body of a frame.
    pub fn decode(body: &[u8]) -> (r: Result<Response, DecodeError>)
        ensures
            match r {
                Ok(response) => response_decoding(body@) == Ok::<_, DecodeError>(response@),
                Err(e) => response_decoding(body@) == Err::<ResponseView, _>(e),
            },
    {
        if body.len() < 1 {
            return Err(DecodeError::Truncated);
        }
        let tag = body[0];
        let payload = skip(body, 1);
        let decoded = if tag == RESPONSE_TAG_FAILURE {
            match Failure::decode_from(payload) {
                Ok((failure, taken)) => Ok((Response::Failure(failure), taken)),
                Err(e) => Err(e),
            }
        } else if tag == RESPONSE_TAG_PONG {
            match Blob::decode_from(payload) {
                Ok((blob, taken)) => Ok((Response::Pong(blob), taken)),
                Err(e) => Err(e),
            }
        } else if tag == RESPONSE_TAG_STATUS {
            match StatusReply::decode_from(payload) {
                Ok((reply, taken)) => Ok((Response::Status(reply), taken)),
                Err(e) => Err(e),
            }
        } else if tag == RESPONSE_TAG_MINED {
            match Txid::decode_from(payload) {
                Ok((txid, taken)) => Ok((Response::Mined(txid), taken)),
                Err(e) => Err(e),
            }
        } else {
            Err(DecodeError::UnknownTag(tag))
        };
        match decoded {
            Err(e) => Err(e),
            Ok((response, taken)) => {
                if taken < payload.len() {
                    Err(DecodeError::TrailingBytes)
                } else {
                    Ok(response)
                }
            },
        }
    }

    /// The response as it goes on the wire: one whole frame.
    pub fn marshall(&self) -> (bytes: Vec<u8>)
        ensures
            response_fits(self@),
            bytes@ == response_marshalling(self@),
            response_unmarshalling(bytes@) == Ok::<_, DecodeError>(Some(self@)),
    {
        let body = self.encode();
        proof {
            lemma_response_encoding_is_short(self@);
            lemma_response_wire_roundtrip(self@, Seq::empty());
            assert(response_marshalling(self@) + Seq::<u8>::empty() =~= response_marshalling(
                self@,
            ));
        }
        frame(body.as_slice()).unwrap()
    }

    /// Reads one response from the front of the bytes received. No bytes at
    /// all are no message yet; a frame that is cut short, declares too much
    /// or does not hold exactly one response of the catalogue is a fault.
    pub fn unmarshall(input: &[u8]) -> (r: Result<Option<Response>, DecodeError>)
        ensures
            match r {
                Ok(Some(response)) => response_unmarshalling(input@) == Ok::<_, DecodeError>(
                    Some(response@),
                ),
                Ok(None) => response_unmarshalling(input@) == Ok::<
                    Option<ResponseView>,
                    DecodeError,
                >(None),
                Err(e) => response_unmarshalling(input@) == Err::<Option<ResponseView>, _>(e),
            },
    {
        match unframe(input) {
            Err(e) => Err(e),
            Ok(None) => Ok(None),
            Ok(Some(body)) => match Response::decode(body) {
                Err(e) => Err(e),
                Ok(response) => Ok(Some(response)),
            },
        }
    }
}

} // verus!
