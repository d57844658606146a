use offline_messenger::frame::{decode_frame, encode_frame, frame_payload_len, FRAME_HEADER_LEN};

#[test]
fn frame_starts_with_big_endian_length() {
    let f = encode_frame(&[7, 8, 9]);
    assert_eq!(f, vec![0, 0, 0, 3, 7, 8, 9]);
}

#[test]
fn empty_payload_frame_is_four_zero_bytes() {
    assert_eq!(encode_frame(&[]), vec![0, 0, 0, 0]);
}

#[test]
fn frame_length_uses_all_four_bytes() {
    let payload = vec![1u8; 0x0102_03];
    let f = encode_frame(&payload);
    assert_eq!(&f[..4], &[0x00, 0x01, 0x02, 0x03]);
    assert_eq!(f.len(), payload.len() + FRAME_HEADER_LEN);
}

#[test]
fn header_announces_payload_length() {
    assert_eq!(frame_payload_len([0, 0, 1, 0]), 256);
    assert_eq!(frame_payload_len([0x12, 0x34, 0x56, 0x78]), 0x1234_5678);
    assert_eq!(frame_payload_len([0, 0, 0, 0]), 0);
}

#[test]
fn decoding_a_frame_gives_back_the_payload() {
    let payload = b"hello over the wire".to_vec();
    let mut stream = encode_frame(&payload);
    stream.extend_from_slice(&[42, 43]);
    let (got, used) = decode_frame(&stream).expect("complete frame");
    assert_eq!(got, payload);
    assert_eq!(used, payload.len() + 4);
}

#[test]
fn back_to_back_frames_are_read_in_order() {
    let mut stream = encode_frame(b"first");
    stream.extend(encode_frame(b"second"));
    let (a, used) = decode_frame(&stream).unwrap();
    assert_eq!(a, b"first".to_vec());
    let (b, used_b) = decode_frame(&stream[used..]).unwrap();
    assert_eq!(b, b"second".to_vec());
    assert_eq!(used + used_b, stream.len());
}

#[test]
fn truncated_streams_give_nothing() {
    assert!(decode_frame(&[0, 0, 0]).is_none());
    assert!(decode_frame(&[0, 0, 0, 5, 1, 2, 3, 4]).is_none());
    assert!(decode_frame(&[]).is_none());
}
