use bp_node::error::DecodeError;
use bp_node::frame::{declared_length, frame, unframe, HEADER_LEN, MAX_FRAME_LEN};
use bp_node::wire::{get_u16, get_u32, get_u64, put_bytes, put_u16, put_u32, put_u64, skip};

#[test]
fn integers_are_little_endian() {
    let mut out = Vec::new();
    put_u16(&mut out, 0x1234);
    put_u32(&mut out, 0x89ab_cdef);
    put_u64(&mut out, 0x0102_0304_0506_0708);
    assert_eq!(
        out,
        vec![0x34, 0x12, 0xef, 0xcd, 0xab, 0x89, 0x08, 0x07, 0x06, 0x05, 0x04, 0x03, 0x02, 0x01]
    );
    assert_eq!(get_u16(&out), Some(0x1234));
    assert_eq!(get_u32(skip(&out, 2)), Some(0x89ab_cdef));
    assert_eq!(get_u64(skip(&out, 6)), Some(0x0102_0304_0506_0708));
}

#[test]
fn integers_are_not_read_from_too_few_bytes() {
    assert_eq!(get_u16(&[]), None);
    assert_eq!(get_u16(&[1]), None);
    assert_eq!(get_u16(&[1, 2]), Some(0x0201));
    assert_eq!(get_u16(&[1, 2, 3]), Some(0x0201));
    assert_eq!(get_u32(&[1, 2, 3]), None);
    assert_eq!(get_u32(&[1, 2, 3, 4]), Some(0x0403_0201));
    assert_eq!(get_u32(&[1, 2, 3, 4, 5]), Some(0x0403_0201));
    assert_eq!(get_u64(&[1, 2, 3, 4, 5, 6, 7]), None);
    assert_eq!(get_u64(&[1, 2, 3, 4, 5, 6, 7, 8]), Some(0x0807_0605_0403_0201));
    assert_eq!(get_u64(&[1, 2, 3, 4, 5, 6, 7, 8, 9]), Some(0x0807_0605_0403_0201));
}

#[test]
fn skip_gives_the_rest() {
    assert_eq!(skip(&[1, 2, 3], 0), &[1, 2, 3]);
    assert_eq!(skip(&[1, 2, 3], 2), &[3]);
    assert_eq!(skip(&[1, 2, 3], 3), &[] as &[u8]);
    assert_eq!(skip(&[1, 2, 3], 4), &[] as &[u8]);
    assert_eq!(skip(&[], usize::MAX), &[] as &[u8]);
}

#[test]
fn integers_round_trip_at_their_limits() {
    for value in [0u16, 1, 255, 256, u16::MAX] {
        let mut out = Vec::new();
        put_u16(&mut out, value);
        assert_eq!(out, value.to_le_bytes().to_vec());
        assert_eq!(get_u16(&out), Some(value));
    }
    for value in [0u32, 1, 0xffff, 0x1_0000, 0xff_ffff, u32::MAX] {
        let mut out = Vec::new();
        put_u32(&mut out, value);
        assert_eq!(out, value.to_le_bytes().to_vec());
        assert_eq!(get_u32(&out), Some(value));
    }
    for value in [0u64, 1, 0xffff_ffff, 0x1_0000_0000, u64::MAX] {
        let mut out = Vec::new();
        put_u64(&mut out, value);
        assert_eq!(out, value.to_le_bytes().to_vec());
        assert_eq!(get_u64(&out), Some(value));
    }
}

#[test]
fn bytes_are_appended_as_they_are() {
    let mut out = vec![9];
    put_bytes(&mut out, &[]);
    assert_eq!(out, vec![9]);
    put_bytes(&mut out, &[1, 2, 3]);
    assert_eq!(out, vec![9, 1, 2, 3]);
}

#[test]
fn frame_puts_the_length_in_front() {
    assert_eq!(HEADER_LEN, 4);
    assert_eq!(MAX_FRAME_LEN, (1 << 24) - 1);
    assert_eq!(frame(&[]), Some(vec![0, 0, 0, 0]));
    assert_eq!(frame(&[7, 8, 9]), Some(vec![3, 0, 0, 0, 7, 8, 9]));
    let body = vec![0x5au8; 300];
    let framed = frame(&body).unwrap();
    assert_eq!(&framed[..4], &[0x2c, 0x01, 0x00, 0x00]);
    assert_eq!(&framed[4..], &body[..]);
}

#[test]
fn frame_accepts_the_longest_body_and_no_longer_one() {
    let longest = vec![1u8; MAX_FRAME_LEN];
    let framed = frame(&longest).unwrap();
    assert_eq!(framed.len(), HEADER_LEN + MAX_FRAME_LEN);
    assert_eq!(&framed[..4], &[0xff, 0xff, 0xff, 0x00]);
    assert_eq!(unframe(&framed), Ok(Some(&longest[..])));
    let too_long = vec![1u8; MAX_FRAME_LEN + 1];
    assert_eq!(frame(&too_long), None);
}

#[test]
fn declared_length_reads_the_header_alone() {
    assert_eq!(declared_length(&[3, 0, 0, 0]), Ok(3));
    assert_eq!(declared_length(&[3, 0, 0, 0, 9, 9, 9, 9, 9]), Ok(3));
    assert_eq!(declared_length(&[0xff, 0xff, 0xff, 0x00]), Ok(MAX_FRAME_LEN));
    assert_eq!(declared_length(&[]), Err(DecodeError::Truncated));
    assert_eq!(declared_length(&[1, 0, 0]), Err(DecodeError::Truncated));
}

#[test]
fn declared_length_over_the_bound_fails_before_any_payload() {
    assert_eq!(declared_length(&[0, 0, 0, 1]), Err(DecodeError::FrameTooLong(1 << 24)));
    assert_eq!(
        declared_length(&[0xff, 0xff, 0xff, 0xff]),
        Err(DecodeError::FrameTooLong(u32::MAX))
    );
    // The same fault with no payload, with some, and with more than enough.
    assert_eq!(unframe(&[0, 0, 0, 1]), Err(DecodeError::FrameTooLong(1 << 24)));
    assert_eq!(unframe(&[0, 0, 0, 1, 0x81, 0x00]), Err(DecodeError::FrameTooLong(1 << 24)));
    let mut flood = vec![0, 0, 0, 1];
    flood.extend(vec![0u8; 4096]);
    assert_eq!(unframe(&flood), Err(DecodeError::FrameTooLong(1 << 24)));
}

#[test]
fn unframe_tells_nothing_from_too_little() {
    assert_eq!(unframe(&[]), Ok(None));
    assert_eq!(unframe(&[2]), Err(DecodeError::Truncated));
    assert_eq!(unframe(&[2, 0, 0]), Err(DecodeError::Truncated));
    assert_eq!(unframe(&[2, 0, 0, 0]), Err(DecodeError::Truncated));
    assert_eq!(unframe(&[2, 0, 0, 0, 7]), Err(DecodeError::Truncated));
    assert_eq!(unframe(&[2, 0, 0, 0, 7, 8]), Ok(Some(&[7u8, 8][..])));
    assert_eq!(unframe(&[0, 0, 0, 0]), Ok(Some(&[][..])));
}

#[test]
fn unframe_leaves_what_follows_the_frame() {
    assert_eq!(unframe(&[2, 0, 0, 0, 7, 8, 9, 9, 9]), Ok(Some(&[7u8, 8][..])));
}
