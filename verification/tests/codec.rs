use bp_node::error::DecodeError;
use bp_node::payload::{Blob, Failure, Text, Txid, MAX_SMALL_LEN, TXID_LEN};
use bp_node::request::{Request, REQUEST_BAND, REQUEST_TAG_PING, REQUEST_TAG_STATUS_QUERY};
use bp_node::response::{
    Response, RESPONSE_TAG_FAILURE, RESPONSE_TAG_MINED, RESPONSE_TAG_PONG, RESPONSE_TAG_STATUS,
};
use bp_node::status::{FeedStatus, StatusReply};

fn blob(bytes: &[u8]) -> Blob {
    Blob::new(bytes.to_vec()).unwrap()
}

fn text(chars: &str) -> Text {
    Text::new(chars.to_string()).unwrap()
}

fn txid() -> Txid {
    let mut bytes = [0u8; 32];
    for (i, byte) in bytes.iter_mut().enumerate() {
        *byte = i as u8 + 1;
    }
    Txid(bytes)
}

fn responses() -> Vec<Response> {
    vec![
        Response::Failure(Failure { code: 0, message: text("") }),
        Response::Failure(Failure { code: 0x0102, message: text("no such thing") }),
        Response::Failure(Failure { code: u16::MAX, message: text("größer — 大") }),
        Response::Failure(Failure { code: 7, message: text(&"x".repeat(255)) }),
        Response::Pong(blob(&[])),
        Response::Pong(blob(&[0xde, 0xad, 0xbe, 0xef])),
        Response::Pong(blob(&[0xa5; 255])),
        Response::Status(StatusReply::Active(FeedStatus {
            chained: 6,
            cached: 2,
            known: 1,
            invalid: 1,
        })),
        Response::Status(StatusReply::Active(FeedStatus {
            chained: u16::MAX,
            cached: 0,
            known: 0x1234,
            invalid: 0xff00,
        })),
        Response::Status(StatusReply::Completed),
        Response::Status(StatusReply::NotFound),
        Response::Mined(txid()),
        Response::Mined(Txid([0u8; 32])),
    ]
}

fn requests() -> Vec<Request> {
    vec![
        Request::Ping(blob(&[])),
        Request::Ping(blob(&[1, 2, 3])),
        Request::Ping(blob(&[0xff; 255])),
        Request::StatusQuery(0),
        Request::StatusQuery(0x0102_0304_0506_0708),
        Request::StatusQuery(u64::MAX),
    ]
}

#[test]
fn every_response_round_trips() {
    for response in responses() {
        let body = response.encode();
        assert_eq!(Response::decode(&body), Ok(response.clone()));
        let bytes = response.marshall();
        assert_eq!(Response::unmarshall(&bytes), Ok(Some(response.clone())));
        assert_eq!(bytes.len(), 4 + body.len());
        assert_eq!(&bytes[4..], &body[..]);
    }
}

#[test]
fn every_request_round_trips() {
    for request in requests() {
        let body = request.encode();
        assert_eq!(Request::decode(&body), Ok(request.clone()));
        let bytes = request.marshall();
        assert_eq!(Request::unmarshall(&bytes), Ok(Some(request.clone())));
        assert_eq!(bytes.len(), 4 + body.len());
        assert_eq!(&bytes[4..], &body[..]);
    }
}

#[test]
fn round_trip_ignores_what_follows_the_frame() {
    for response in responses() {
        let mut bytes = response.marshall();
        bytes.extend([0xee, 0xee, 0xee]);
        assert_eq!(Response::unmarshall(&bytes), Ok(Some(response)));
    }
    for request in requests() {
        let mut bytes = request.marshall();
        bytes.extend(Request::StatusQuery(5).marshall());
        assert_eq!(Request::unmarshall(&bytes), Ok(Some(request)));
    }
}

#[test]
fn tags_are_fixed() {
    assert_eq!(RESPONSE_TAG_FAILURE, 0x00);
    assert_eq!(RESPONSE_TAG_PONG, 0x01);
    assert_eq!(RESPONSE_TAG_STATUS, 0x02);
    assert_eq!(RESPONSE_TAG_MINED, 0x10);
    assert_eq!(REQUEST_BAND, 0x80);
    assert_eq!(REQUEST_TAG_PING, 0x81);
    assert_eq!(REQUEST_TAG_STATUS_QUERY, 0x82);
    assert_eq!(Response::Failure(Failure { code: 1, message: text("e") }).tag(), 0x00);
    assert_eq!(Response::Pong(blob(&[])).tag(), 0x01);
    assert_eq!(Response::Status(StatusReply::Completed).tag(), 0x02);
    assert_eq!(Response::Mined(txid()).tag(), 0x10);
    assert_eq!(Request::Ping(blob(&[])).tag(), 0x81);
    assert_eq!(Request::StatusQuery(1).tag(), 0x82);
}

#[test]
fn failure_is_code_then_text() {
    let response = Response::Failure(Failure { code: 0x0102, message: text("no") });
    assert_eq!(response.encode(), vec![0x00, 0x02, 0x01, 0x02, b'n', b'o']);
    assert_eq!(response.marshall(), vec![6, 0, 0, 0, 0x00, 0x02, 0x01, 0x02, b'n', b'o']);
}

#[test]
fn failure_text_is_utf8() {
    let response = Response::Failure(Failure { code: 3, message: text("é大") });
    let body = response.encode();
    assert_eq!(body, vec![0x00, 0x03, 0x00, 0x05, 0xc3, 0xa9, 0xe5, 0xa4, 0xa7]);
    // The largest scalar takes four bytes.
    let last = Response::Failure(Failure { code: 0, message: text("\u{10ffff}") });
    assert_eq!(last.encode(), vec![0x00, 0, 0, 4, 0xf4, 0x8f, 0xbf, 0xbf]);
    assert_eq!(Response::decode(&last.encode()), Ok(last));
    match Response::decode(&body) {
        Ok(Response::Failure(failure)) => {
            assert_eq!(failure.code, 3);
            assert_eq!(failure.message.as_str(), "é大");
        }
        other => panic!("decoded to {:?}", other),
    }
}

#[test]
fn failure_text_that_is_not_utf8_is_refused() {
    assert_eq!(Response::decode(&[0x00, 1, 0, 2, 0xc3, 0x28]), Err(DecodeError::InvalidUtf8));
    assert_eq!(Response::decode(&[0x00, 1, 0, 1, 0xff]), Err(DecodeError::InvalidUtf8));
    // A surrogate, an overlong form, a value beyond the last scalar, and a
    // character cut short.
    assert_eq!(Response::decode(&[0x00, 1, 0, 3, 0xed, 0xa0, 0x80]), Err(DecodeError::InvalidUtf8));
    assert_eq!(Response::decode(&[0x00, 1, 0, 2, 0xc0, 0x80]), Err(DecodeError::InvalidUtf8));
    assert_eq!(
        Response::decode(&[0x00, 1, 0, 4, 0xf4, 0x90, 0x80, 0x80]),
        Err(DecodeError::InvalidUtf8)
    );
    assert_eq!(Response::decode(&[0x00, 1, 0, 2, 0xe5, 0xa4]), Err(DecodeError::InvalidUtf8));
    assert_eq!(
        Response::unmarshall(&[6, 0, 0, 0, 0x00, 1, 0, 2, 0xc3, 0x28]),
        Err(DecodeError::InvalidUtf8)
    );
}

#[test]
fn pong_is_length_then_bytes() {
    assert_eq!(Response::Pong(blob(&[])).encode(), vec![0x01, 0]);
    assert_eq!(Response::Pong(blob(&[9, 8, 7])).encode(), vec![0x01, 3, 9, 8, 7]);
    assert_eq!(Response::Pong(blob(&[9, 8, 7])).marshall(), vec![5, 0, 0, 0, 0x01, 3, 9, 8, 7]);
    let body = Response::Pong(blob(&[0x11; 255])).encode();
    assert_eq!(body.len(), 257);
    assert_eq!(body[1], 255);
}

#[test]
fn status_is_tag_then_counters() {
    let active = Response::Status(StatusReply::Active(FeedStatus {
        chained: 0x0102,
        cached: 3,
        known: 0x0405,
        invalid: 0xffff,
    }));
    assert_eq!(active.encode(), vec![0x02, 0x00, 0x02, 0x01, 3, 0, 0x05, 0x04, 0xff, 0xff]);
    assert_eq!(Response::Status(StatusReply::Completed).encode(), vec![0x02, 0x01]);
    assert_eq!(Response::Status(StatusReply::NotFound).encode(), vec![0x02, 0x02]);
    assert_eq!(
        Response::Status(StatusReply::NotFound).marshall(),
        vec![2, 0, 0, 0, 0x02, 0x02]
    );
}

#[test]
fn mined_is_the_identifier() {
    let mut expected = vec![0x10];
    expected.extend(1..=32u8);
    assert_eq!(Response::Mined(txid()).encode(), expected);
    assert_eq!(expected.len(), 1 + TXID_LEN);
}

#[test]
fn requests_are_tag_then_payload() {
    assert_eq!(Request::Ping(blob(&[0xaa, 0xbb])).encode(), vec![0x81, 2, 0xaa, 0xbb]);
    assert_eq!(
        Request::Ping(blob(&[0xaa, 0xbb])).marshall(),
        vec![4, 0, 0, 0, 0x81, 2, 0xaa, 0xbb]
    );
    assert_eq!(
        Request::StatusQuery(0x0102_0304_0506_0708).encode(),
        vec![0x82, 8, 7, 6, 5, 4, 3, 2, 1]
    );
    assert_eq!(
        Request::StatusQuery(1).marshall(),
        vec![9, 0, 0, 0, 0x82, 1, 0, 0, 0, 0, 0, 0, 0]
    );
}

#[test]
fn blob_and_text_hold_at_most_255_bytes() {
    assert_eq!(MAX_SMALL_LEN, 255);
    assert!(Blob::new(vec![0; 255]).is_some());
    assert!(Blob::new(vec![0; 256]).is_none());
    assert_eq!(Blob::new(vec![1, 2]).unwrap().as_slice(), &[1, 2]);
    assert_eq!(Blob::new(vec![1, 2]).unwrap().len(), 2);
    assert_eq!(Blob::empty().len(), 0);
    assert!(Text::new("a".repeat(255)).is_some());
    assert!(Text::new("a".repeat(256)).is_none());
    // 128 characters of two bytes each are 256 bytes.
    assert!(Text::new("é".repeat(127)).is_some());
    assert!(Text::new("é".repeat(128)).is_none());
    assert_eq!(Text::new("ok".to_string()).unwrap().as_str(), "ok");
}

#[test]
fn unmarshall_of_nothing_is_no_message() {
    assert_eq!(Response::unmarshall(&[]), Ok(None));
    assert_eq!(Request::unmarshall(&[]), Ok(None));
}

#[test]
fn unmarshall_of_a_frame_cut_short_is_a_fault() {
    let bytes = Response::Pong(blob(&[1, 2, 3])).marshall();
    for cut in 1..bytes.len() {
        let cut_short = Response::unmarshall(&bytes[..cut]);
        assert_eq!(cut_short, Err(DecodeError::Truncated), "cut at {}", cut);
    }
    let bytes = Request::StatusQuery(77).marshall();
    for cut in 1..bytes.len() {
        let cut_short = Request::unmarshall(&bytes[..cut]);
        assert_eq!(cut_short, Err(DecodeError::Truncated), "cut at {}", cut);
    }
}

#[test]
fn decode_of_a_payload_cut_short_is_a_fault() {
    assert_eq!(Response::decode(&[]), Err(DecodeError::Truncated));
    assert_eq!(Request::decode(&[]), Err(DecodeError::Truncated));
    for response in responses() {
        let body = response.encode();
        for cut in 0..body.len() {
            assert_eq!(Response::decode(&body[..cut]), Err(DecodeError::Truncated));
        }
    }
    for request in requests() {
        let body = request.encode();
        for cut in 0..body.len() {
            assert_eq!(Request::decode(&body[..cut]), Err(DecodeError::Truncated));
        }
    }
}

#[test]
fn unmarshall_of_an_overlong_declaration_is_a_fault() {
    assert_eq!(
        Response::unmarshall(&[0x00, 0x00, 0x00, 0x01]),
        Err(DecodeError::FrameTooLong(0x0100_0000))
    );
    assert_eq!(
        Request::unmarshall(&[0x00, 0x00, 0x00, 0x01, 0x81, 0x00]),
        Err(DecodeError::FrameTooLong(0x0100_0000))
    );
    assert_eq!(
        Request::unmarshall(&[0xff, 0xff, 0xff, 0xff]),
        Err(DecodeError::FrameTooLong(u32::MAX))
    );
}

#[test]
fn unknown_tags_are_refused() {
    for tag in [0x03u8, 0x0f, 0x11, 0x7f, 0x80, 0x81, 0x82, 0xff] {
        assert_eq!(Response::decode(&[tag, 0, 0]), Err(DecodeError::UnknownTag(tag)));
    }
    for tag in [0x00u8, 0x01, 0x02, 0x10, 0x7f, 0x80, 0x83, 0xff] {
        assert_eq!(Request::decode(&[tag, 0, 0]), Err(DecodeError::UnknownTag(tag)));
    }
    assert_eq!(Response::unmarshall(&[1, 0, 0, 0, 0x42]), Err(DecodeError::UnknownTag(0x42)));
}

#[test]
fn requests_and_responses_never_pass_for_each_other() {
    for response in responses() {
        let tag = response.tag();
        assert!(tag < REQUEST_BAND);
        assert_eq!(Request::decode(&response.encode()), Err(DecodeError::UnknownTag(tag)));
    }
    for request in requests() {
        let tag = request.tag();
        assert!(tag >= REQUEST_BAND);
        assert_eq!(Response::decode(&request.encode()), Err(DecodeError::UnknownTag(tag)));
    }
}

#[test]
fn unknown_status_tags_are_refused() {
    assert_eq!(Response::decode(&[0x02, 0x03]), Err(DecodeError::UnknownStatusTag(0x03)));
    assert_eq!(Response::decode(&[0x02, 0xff]), Err(DecodeError::UnknownStatusTag(0xff)));
}

#[test]
fn bytes_behind_the_message_are_refused() {
    for response in responses() {
        let mut body = response.encode();
        body.push(0);
        assert_eq!(Response::decode(&body), Err(DecodeError::TrailingBytes));
    }
    for request in requests() {
        let mut body = request.encode();
        body.push(0);
        assert_eq!(Request::decode(&body), Err(DecodeError::TrailingBytes));
    }
    assert_eq!(
        Response::unmarshall(&[3, 0, 0, 0, 0x02, 0x01, 0x00]),
        Err(DecodeError::TrailingBytes)
    );
}

#[test]
fn status_reply_decodes_from_the_front() {
    let input = [0x00, 1, 0, 2, 0, 3, 0, 4, 0, 0xee];
    assert_eq!(
        StatusReply::decode_from(&input),
        Ok((StatusReply::Active(FeedStatus { chained: 1, cached: 2, known: 3, invalid: 4 }), 9))
    );
    assert_eq!(StatusReply::decode_from(&input[..8]), Err(DecodeError::Truncated));
    assert_eq!(StatusReply::decode_from(&[]), Err(DecodeError::Truncated));
    assert_eq!(StatusReply::decode_from(&[0x01]), Ok((StatusReply::Completed, 1)));
    assert_eq!(StatusReply::decode_from(&[0x02, 0xee]), Ok((StatusReply::NotFound, 1)));
    assert_eq!(StatusReply::decode_from(&[0x03]), Err(DecodeError::UnknownStatusTag(3)));
}

#[test]
fn payloads_decode_from_the_front() {
    assert_eq!(Blob::decode_from(&[2, 0xaa, 0xbb, 0xee]), Ok((blob(&[0xaa, 0xbb]), 3)));
    assert_eq!(Blob::decode_from(&[0]), Ok((blob(&[]), 1)));
    assert_eq!(Blob::decode_from(&[]), Err(DecodeError::Truncated));
    assert_eq!(Blob::decode_from(&[3, 1, 2]), Err(DecodeError::Truncated));
    assert_eq!(Text::decode_from(&[2, b'h', b'i', 0xee]), Ok((text("hi"), 3)));
    assert_eq!(Text::decode_from(&[1, 0x80]), Err(DecodeError::InvalidUtf8));
    assert_eq!(Text::decode_from(&[2, b'h']), Err(DecodeError::Truncated));
    let mut bytes: Vec<u8> = (1..=32u8).collect();
    bytes.push(0xee);
    assert_eq!(Txid::decode_from(&bytes), Ok((txid(), 32)));
    assert_eq!(Txid::decode_from(&bytes[..31]), Err(DecodeError::Truncated));
    assert_eq!(
        Failure::decode_from(&[5, 0, 1, b'x', 0xee]),
        Ok((Failure { code: 5, message: text("x") }, 4))
    );
    assert_eq!(Failure::decode_from(&[5]), Err(DecodeError::Truncated));
    assert_eq!(Failure::decode_from(&[5, 0]), Err(DecodeError::Truncated));
    assert_eq!(Failure::decode_from(&[5, 0, 1, 0xff]), Err(DecodeError::InvalidUtf8));
}
