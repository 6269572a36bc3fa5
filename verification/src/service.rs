//! The daemon's side of a session: what to answer, and when to hang up.
//!
//! The program around this library owns the socket. It hands over what it
//! has read and carries out what comes back: it sends the reply, or closes
//! the session. Answering only reads the feed channel.

use crate::channel::{ChannelView, FeedChannel};
use crate::error::DecodeError;
use crate::frame::unframed;
use crate::request::{
    lemma_request_decoded, lemma_request_wire_roundtrip, request_fits, request_marshalling,
    request_unmarshalling, Request, RequestView,
};
use crate::response::{
    lemma_response_wire_roundtrip, response_fits, response_marshalling, response_unmarshalling,
    Response, ResponseView,
};
use crate::status::StatusReply;
use vstd::prelude::*;

verus! {

/// The response that a request gets from a channel: a ping gets its bytes
/// back in a pong, and a status query gets the job's reply.
pub open spec fn answer(channel: ChannelView, request: RequestView) -> ResponseView {
    match request {
        RequestView::Ping(bytes) => ResponseView::Pong(bytes),
        RequestView::StatusQuery(key) => ResponseView::Status(channel.reply(key)),
    }
}

/// Answers a request. The channel is read and not changed.
pub fn handle(channel: &FeedChannel, request: Request) -> (response: Response)
    ensures
        response@ == answer(channel@, request@),
        response_fits(response@),
{
    match request {
        Request::Ping(blob) => {
            proof {
                use_type_invariant(&blob);
            }
            Response::Pong(blob)
        },
        Request::StatusQuery(key) => Response::Status(channel.query(key)),
    }
}

/// What the daemon does next on a session.
#[derive(PartialEq, Eq, Debug)]
pub enum Action {
    /// Nothing was received: there is no request to answer.
    Idle,
    /// Send these bytes, one whole frame, and go on.
    Reply(Vec<u8>),
    /// Close the session: what was received is no request, and the stream
    /// cannot be trusted from here on.
    Close(DecodeError),
}

/// What the daemon does next, as a plain value.
pub enum ActionView {
    Idle,
    Reply(Seq<u8>),
    Close(DecodeError),
}

impl View for Action {
    type V = ActionView;

    open spec fn view(&self) -> ActionView {
        match self {
            Action::Idle => ActionView::Idle,
            Action::Reply(bytes) => ActionView::Reply(bytes@),
            Action::Close(e) => ActionView::Close(*e),
        }
    }
}

/// What the daemon does with the bytes received on a session: a request is
/// answered with the frame of its response, a decoding fault closes the
/// session, and no bytes at all leave nothing to do.
pub open spec fn reaction(channel: ChannelView, input: Seq<u8>) -> ActionView {
    match request_unmarshalling(input) {
        Err(e) => ActionView::Close(e),
        Ok(None) => ActionView::Idle,
        Ok(Some(request)) => ActionView::Reply(response_marshalling(answer(channel, request))),
    }
}

/// Decides what to do with the bytes received on a session. The channel is
/// read and not changed, whatever was received.
pub fn serve(channel: &FeedChannel, input: &[u8]) -> (action: Action)
    ensures
        action@ == reaction(channel@, input@),
{
    match Request::unmarshall(input) {
        Err(e) => Action::Close(e),
        Ok(None) => Action::Idle,
        Ok(Some(request)) => Action::Reply(handle(channel, request).marshall()),
    }
}

/// A request that arrives whole is answered, whatever follows its frame, and
/// the client reads the answer back as it was meant.
pub proof fn lemma_request_is_answered(channel: ChannelView, request: RequestView, rest: Seq<u8>)
    requires
        request_fits(request),
    ensures
        reaction(channel, request_marshalling(request) + rest) == ActionView::Reply(
            response_marshalling(answer(channel, request)),
        ),
        response_unmarshalling(response_marshalling(answer(channel, request))) == Ok::<
            _,
            DecodeError,
        >(Some(answer(channel, request))),
{
    lemma_request_wire_roundtrip(request, rest);
    let reply = response_marshalling(answer(channel, request));
    lemma_response_wire_roundtrip(answer(channel, request), Seq::empty());
    assert(reply + Seq::<u8>::empty() =~= reply);
}

/// Whatever bytes arrive, the client gets a well-formed response or the
/// session is closed: a reply is always one whole frame that holds exactly
/// one response of the catalogue.
pub proof fn lemma_reply_is_a_response(channel: ChannelView, input: Seq<u8>)
    ensures
        reaction(channel, input) matches ActionView::Reply(bytes) ==> {
            &&& response_unmarshalling(bytes) matches Ok(Some(response))
            &&& response_fits(response)
            &&& bytes == response_marshalling(response)
        },
        reaction(channel, input) is Idle <==> input.len() == 0,
{
    if let Ok(Some(request)) = request_unmarshalling(input) {
        let body = unframed(input).unwrap().unwrap();
        lemma_request_decoded(body);
        let reply = response_marshalling(answer(channel, request));
        lemma_response_wire_roundtrip(answer(channel, request), Seq::empty());
        assert(reply + Seq::<u8>::empty() =~= reply);
    }
}

/// A status query never fails the session and never yields a failure: the
/// answer to one is always a status reply, and for a key that is not tracked
/// it says so.
pub proof fn lemma_status_query_answered(channel: ChannelView, key: u64)
    ensures
        answer(channel, RequestView::StatusQuery(key)) == ResponseView::Status(channel.reply(key)),
        !channel.tracks(key) ==> answer(channel, RequestView::StatusQuery(key))
            == ResponseView::Status(StatusReply::NotFound),
{
}

} // verus!
