//! What a client sends: the request catalogue and its encoding.
//!
//! Requests mirror the responses that answer them, on the upper half of the
//! tag space: a request's tag is the tag of its answer with the top bit set.
//! No byte is the tag of both a request and a response.

use crate::error::DecodeError;
use crate::frame::{frame, framed, unframe, unframed, MAX_FRAME_LEN};
use crate::payload::{small_bytes_decoding, small_bytes_encoding, Blob, MAX_SMALL_LEN};
use crate::response::{response_decoding, response_encoding, response_fits, ResponseView};
use crate::wire::{get_u64, put_u64, skip, u64_from_le, u64_le};
use vstd::prelude::*;

verus! {

/// The first tag of the request band. Every tag below it belongs to the
/// responses.
pub const REQUEST_BAND: u8 = 0x80;

/// The tag of `Request::Ping`.
pub const REQUEST_TAG_PING: u8 = 0x81;

/// The tag of `Request::StatusQuery`.
pub const REQUEST_TAG_STATUS_QUERY: u8 = 0x82;

/// A message from a client to the daemon.
#[derive(PartialEq, Eq, Debug)]
pub enum Request {
    /// Asks for a sign of life; the bytes come back in the pong.
    Ping(Blob),
    /// Asks how far the job under this key has come.
    StatusQuery(u64),
}

/// A request as a plain value.
pub enum RequestView {
    Ping(Seq<u8>),
    StatusQuery(u64),
}

impl View for Request {
    type V = RequestView;

    open spec fn view(&self) -> RequestView {
        match self {
            Request::Ping(blob) => RequestView::Ping(blob@),
            Request::StatusQuery(key) => RequestView::StatusQuery(*key),
        }
    }
}

/// Whether a plain value is a request that can be sent.
pub open spec fn request_fits(request: RequestView) -> bool {
    match request {
        RequestView::Ping(bytes) => bytes.len() <= MAX_SMALL_LEN,
        RequestView::StatusQuery(_) => true,
    }
}

/// The tag that a request is sent under.
pub open spec fn request_tag(request: RequestView) -> u8 {
    match request {
        RequestView::Ping(_) => REQUEST_TAG_PING,
        RequestView::StatusQuery(_) => REQUEST_TAG_STATUS_QUERY,
    }
}

/// The payload that follows a request's tag.
pub open spec fn request_payload(request: RequestView) -> Seq<u8>
    recommends
        request_fits(request),
{
    match request {
        RequestView::Ping(bytes) => small_bytes_encoding(bytes),
        RequestView::StatusQuery(key) => u64_le(key),
    }
}

/// The encoding of a request: the body of its frame.
pub open spec fn request_encoding(request: RequestView) -> Seq<u8>
    recommends
        request_fits(request),
{
    seq![request_tag(request)] + request_payload(request)
}

/// The request that a tag and the bytes behind it stand for, and the number
/// of those bytes that it takes.
pub open spec fn request_payload_decoding(tag: u8, payload: Seq<u8>) -> Result<
    (RequestView, int),
    DecodeError,
> {
    if tag == REQUEST_TAG_PING {
        match small_bytes_decoding(payload) {
            Ok((bytes, taken)) => Ok((RequestView::Ping(bytes), taken)),
            Err(e) => Err(e),
        }
    } else if tag == REQUEST_TAG_STATUS_QUERY {
        if payload.len() < 8 {
            Err(DecodeError::Truncated)
        } else {
            Ok((RequestView::StatusQuery(u64_from_le(payload.subrange(0, 8))), 8))
        }
    } else {
        Err(DecodeError::UnknownTag(tag))
    }
}

/// The request that the body of a frame stands for. The body must hold the
/// tag, the whole payload, and nothing more.
pub open spec fn request_decoding(body: Seq<u8>) -> Result<RequestView, DecodeError> {
    if body.len() < 1 {
        Err(DecodeError::Truncated)
    } else {
        match request_payload_decoding(body[0], body.skip(1)) {
            Err(e) => Err(e),
            Ok((request, taken)) => if 1 + taken < body.len() {
                Err(DecodeError::TrailingBytes)
            } else {
                Ok(request)
            },
        }
    }
}

/// A request on the wire: the frame around its encoding.
pub open spec fn request_marshalling(request: RequestView) -> Seq<u8>
    recommends
        request_fits(request),
{
    framed(request_encoding(request))
}

/// What the bytes received so far hold at their front: no frame yet, a
/// request, or a fault.
pub open spec fn request_unmarshalling(input: Seq<u8>) -> Result<Option<RequestView>, DecodeError> {
    match unframed(input) {
        Err(e) => Err(e),
        Ok(None) => Ok(None),
        Ok(Some(body)) => match request_decoding(body) {
            Err(e) => Err(e),
            Ok(request) => Ok(Some(request)),
        },
    }
}

/// The encoding of any request is short: far below what a frame may carry.
pub proof fn lemma_request_encoding_is_short(request: RequestView)
    requires
        request_fits(request),
    ensures
        0 < request_encoding(request).len() <= 2 + MAX_SMALL_LEN,
        request_encoding(request).len() <= MAX_FRAME_LEN,
        request_encoding(request)[0] == request_tag(request),
{
}

/// Every request of the catalogue decodes from its encoding to itself.
pub proof fn lemma_request_roundtrip(request: RequestView)
    requires
        request_fits(request),
    ensures
        request_decoding(request_encoding(request)) == Ok::<_, DecodeError>(request),
{
    let body = request_encoding(request);
    let payload = request_payload(request);
    assert(body.skip(1) =~= payload);
    match request {
        RequestView::Ping(bytes) => {
            assert(payload + Seq::<u8>::empty() =~= payload);
            crate::payload::lemma_small_bytes_roundtrip(bytes, Seq::<u8>::empty());
        },
        RequestView::StatusQuery(key) => {
            crate::wire::lemma_u64_value_roundtrip(key);
            assert(payload.subrange(0, 8) =~= u64_le(key));
        },
    }
}

/// Bytes that decode as a request are the encoding of that request, and of
/// one that can be sent: no request has two encodings.
pub proof fn lemma_request_decoded(body: Seq<u8>)
    requires
        request_decoding(body) is Ok,
    ensures
        request_fits(request_decoding(body).unwrap()),
        request_encoding(request_decoding(body).unwrap()) == body,
{
    let request = request_decoding(body).unwrap();
    let payload = body.skip(1);
    if body[0] == REQUEST_TAG_PING {
        crate::payload::lemma_small_bytes_decoded(payload);
    } else {
        crate::wire::lemma_u64_bytes_roundtrip(payload.subrange(0, 8));
    }
    assert(payload.subrange(0, payload.len() as int) =~= payload);
    assert(request_encoding(request) =~= body);
}

/// Every request of the catalogue comes back from the wire as it was sent,
/// whatever follows its frame.
pub proof fn lemma_request_wire_roundtrip(request: RequestView, rest: Seq<u8>)
    requires
        request_fits(request),
    ensures
        request_unmarshalling(request_marshalling(request) + rest) == Ok::<_, DecodeError>(
            Some(request),
        ),
{
    lemma_request_encoding_is_short(request);
    crate::frame::lemma_frame_roundtrip(request_encoding(request), rest);
    lemma_request_roundtrip(request);
}

/// The two catalogues never collide: a request's tag lies in the request
/// band and a response's tag below it, so the encoding of one is refused,
/// for its tag, where the other is expected.
pub proof fn lemma_tag_bands_disjoint(request: RequestView, response: ResponseView)
    requires
        request_fits(request),
        response_fits(response),
    ensures
        request_tag(request) >= REQUEST_BAND,
        crate::response::response_tag(response) < REQUEST_BAND,
        request_decoding(response_encoding(response)) == Err::<RequestView, _>(
            DecodeError::UnknownTag(crate::response::response_tag(response)),
        ),
        response_decoding(request_encoding(request)) == Err::<ResponseView, _>(
            DecodeError::UnknownTag(request_tag(request)),
        ),
{
}

impl Clone for Request {
    fn clone(&self) -> (copy: Self)
        ensures
            copy@ == self@,
    {
        match self {
            Request::Ping(blob) => Request::Ping(blob.clone()),
            Request::StatusQuery(key) => Request::StatusQuery(*key),
        }
    }
}

impl Request {
    /// The tag that the request is sent under.
    pub fn tag(&self) -> (tag: u8)
        ensures
            tag == request_tag(self@),
    {
        match self {
            Request::Ping(_) => REQUEST_TAG_PING,
            Request::StatusQuery(_) => REQUEST_TAG_STATUS_QUERY,
        }
    }

    /// The request's encoding: the body of its frame.
    pub fn encode(&self) -> (body: Vec<u8>)
        ensures
            request_fits(self@),
            body@ == request_encoding(self@),
            request_decoding(body@) == Ok::<_, DecodeError>(self@),
    {
        let mut out: Vec<u8> = Vec::new();
        out.push(self.tag());
        match self {
            Request::Ping(blob) => {
                blob.encode_into(&mut out);
            },
            Request::StatusQuery(key) => {
                put_u64(&mut out, *key);
            },
        }
        assert(out@ =~= request_encoding(self@));
        proof {
            lemma_request_roundtrip(self@);
        }
        out
    }

    /// Decodes the body of a frame.
    pub fn decode(body: &[u8]) -> (r: Result<Request, DecodeError>)
        ensures
            match r {
                Ok(request) => request_decoding(body@) == Ok::<_, DecodeError>(request@),
                Err(e) => request_decoding(body@) == Err::<RequestView, _>(e),
            },
    {
        if body.len() < 1 {
            return Err(DecodeError::Truncated);
        }
        let tag = body[0];
        let payload = skip(body, 1);
        let decoded = if tag == REQUEST_TAG_PING {
            match Blob::decode_from(payload) {
                Ok((blob, taken)) => Ok((Request::Ping(blob), taken)),
                Err(e) => Err(e),
            }
        } else if tag == REQUEST_TAG_STATUS_QUERY {
            match get_u64(payload) {
                Some(key) => Ok((Request::StatusQuery(key), 8)),
                None => Err(DecodeError::Truncated),
            }
        } else {
            Err(DecodeError::UnknownTag(tag))
        };
        match decoded {
            Err(e) => Err(e),
            Ok((request, taken)) => {
                if taken < payload.len() {
                    Err(DecodeError::TrailingBytes)
                } else {
                    Ok(request)
                }
            },
        }
    }

    /// The request as it goes on the wire: one whole frame.
    pub fn marshall(&self) -> (bytes: Vec<u8>)
        ensures
            request_fits(self@),
            bytes@ == request_marshalling(self@),
            request_unmarshalling(bytes@) == Ok::<_, DecodeError>(Some(self@)),
    {
        let body = self.encode();
        proof {
            lemma_request_encoding_is_short(self@);
            lemma_request_wire_roundtrip(self@, Seq::empty());
            assert(request_marshalling(self@) + Seq::<u8>::empty() =~= request_marshalling(self@));
        }
        frame(body.as_slice()).unwrap()
    }

    /// Reads one request from the front of the bytes received. No bytes at
    /// all are no message yet; a frame that is cut short, declares too much
    /// or does not hold exactly one request of the catalogue is a fault.
    pub fn unmarshall(input: &[u8]) -> (r: Result<Option<Request>, DecodeError>)
        ensures
            match r {
                Ok(Some(request)) => request_unmarshalling(input@) == Ok::<_, DecodeError>(
                    Some(request@),
                ),
                Ok(None) => request_unmarshalling(input@) == Ok::<
                    Option<RequestView>,
                    DecodeError,
                >(None),
                Err(e) => request_unmarshalling(input@) == Err::<Option<RequestView>, _>(e),
            },
    {
        match unframe(input) {
            Err(e) => Err(e),
            Ok(None) => Ok(None),
            Ok(Some(body)) => match Request::decode(body) {
                Err(e) => Err(e),
                Ok(request) => Ok(Some(request)),
            },
        }
    }
}

} // verus!
