use amplify::confinement::{TinyBlob, TinyString};
use bp_node::payload::{Blob, Failure, Text, Txid};
use bp_node::request::Request;
use bp_node::response::Response;
use bp_node::wire::{put_u16, put_u64};
use strict_encoding::{StrictEncode, StrictWriter};

/// The strict encoding of a value, as the strict encoding library writes it.
fn strict(value: &impl StrictEncode) -> Vec<u8> {
    value.strict_encode(StrictWriter::in_memory::<0xFF_FFFF>()).unwrap().unbox().unconfine()
}

#[test]
fn integers_agree_with_strict_encoding() {
    for value in [0u16, 1, 0x1234, u16::MAX] {
        let mut out = Vec::new();
        put_u16(&mut out, value);
        assert_eq!(out, strict(&value));
    }
    for value in [0u64, 1, 0x0102_0304_0506_0708, u64::MAX] {
        let mut out = Vec::new();
        put_u64(&mut out, value);
        assert_eq!(out, strict(&value));
    }
}

#[test]
fn blob_agrees_with_strict_encoding() {
    for bytes in [vec![], vec![7u8], vec![1, 2, 3, 4, 5], vec![0xa5; 255]] {
        let mut out = Vec::new();
        Blob::new(bytes.clone()).unwrap().encode_into(&mut out);
        assert_eq!(out, strict(&TinyBlob::try_from(bytes).unwrap()));
    }
    assert!(TinyBlob::try_from(vec![0u8; 256]).is_err());
    assert!(Blob::new(vec![0u8; 256]).is_none());
}

#[test]
fn text_agrees_with_strict_encoding() {
    for chars in ["", "plain", "größer — 大", &"y".repeat(255)] {
        let mut out = Vec::new();
        Text::new(chars.to_string()).unwrap().encode_into(&mut out);
        assert_eq!(out, strict(&TinyString::try_from(chars.to_string()).unwrap()));
    }
    assert!(TinyString::try_from("é".repeat(128)).is_err());
    assert!(Text::new("é".repeat(128)).is_none());
}

#[test]
fn txid_agrees_with_strict_encoding() {
    let mut bytes = [0u8; 32];
    for (i, byte) in bytes.iter_mut().enumerate() {
        *byte = 0xf0 ^ i as u8;
    }
    let mut out = Vec::new();
    Txid(bytes).encode_into(&mut out);
    assert_eq!(out, strict(&bpstd::Txid::from(bytes)));
}

#[test]
fn message_bodies_are_tag_then_strict_payload() {
    let pong = Response::Pong(Blob::new(vec![4, 5, 6]).unwrap());
    let mut expected = vec![0x01];
    expected.extend(strict(&TinyBlob::try_from(vec![4u8, 5, 6]).unwrap()));
    assert_eq!(pong.encode(), expected);

    let failure = Response::Failure(Failure {
        code: 0x0a0b,
        message: Text::new("denied".to_string()).unwrap(),
    });
    let mut expected = vec![0x00];
    expected.extend(strict(&0x0a0bu16));
    expected.extend(strict(&TinyString::try_from("denied".to_string()).unwrap()));
    assert_eq!(failure.encode(), expected);

    let query = Request::StatusQuery(0xdead_beef);
    let mut expected = vec![0x82];
    expected.extend(strict(&0xdead_beefu64));
    assert_eq!(query.encode(), expected);
}
