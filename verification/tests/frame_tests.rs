use message_relay::byte_order::ByteOrder;
use message_relay::frame::{
    checked_length as announced, decode_frame, decode_frames, encode_frame, payload_length,
    FrameError,
};

#[test]
fn frame_is_length_then_payload() {
    let payload = b"{\"action\":\"ping\",\"data\":{}}".to_vec();
    let big = encode_frame(&payload, ByteOrder::BigEndian).unwrap();
    let mut expected = vec![0u8, 0, 0, 27];
    expected.extend_from_slice(&payload);
    assert_eq!(big, expected);
    let little = encode_frame(&payload, ByteOrder::LittleEndian).unwrap();
    let mut expected = vec![27u8, 0, 0, 0];
    expected.extend_from_slice(&payload);
    assert_eq!(little, expected);
}

#[test]
fn empty_payload_has_a_frame_of_four_bytes() {
    assert_eq!(encode_frame(&[], ByteOrder::BigEndian), Ok(vec![0, 0, 0, 0]));
    assert_eq!(decode_frame(&[0, 0, 0, 0], ByteOrder::LittleEndian), Ok((vec![], 4)));
}

#[test]
fn frame_round_trip_in_both_orders() {
    for len in [0usize, 1, 2, 27, 255, 256, 257, 70_000] {
        let payload: Vec<u8> = (0..len).map(|i| (i % 251) as u8).collect();
        for order in [ByteOrder::BigEndian, ByteOrder::LittleEndian] {
            let frame = encode_frame(&payload, order).unwrap();
            assert_eq!(frame.len(), len + 4);
            assert_eq!(decode_frame(&frame, order), Ok((payload.clone(), len + 4)));
        }
    }
}

#[test]
fn decode_takes_the_first_frame_only() {
    let mut stream = encode_frame(b"first", ByteOrder::BigEndian).unwrap();
    stream.extend(encode_frame(b"second!", ByteOrder::BigEndian).unwrap());
    let (payload, end) = decode_frame(&stream, ByteOrder::BigEndian).unwrap();
    assert_eq!(payload, b"first".to_vec());
    assert_eq!(end, 9);
    let (payload, end) = decode_frame(&stream[end..], ByteOrder::BigEndian).unwrap();
    assert_eq!(payload, b"second!".to_vec());
    assert_eq!(end, 11);
    assert_eq!(decode_frame(&stream[20..], ByteOrder::BigEndian), Err(FrameError::Truncated));
}

#[test]
fn truncated_stream_declares_100_and_delivers_50() {
    for order in [ByteOrder::BigEndian, ByteOrder::LittleEndian] {
        let mut stream = order.write_length(100).to_vec();
        stream.extend(std::iter::repeat(b'x').take(50));
        assert_eq!(decode_frame(&stream, order), Err(FrameError::Truncated));
    }
}

#[test]
fn stream_one_byte_short_is_truncated() {
    let frame = encode_frame(b"abcdef", ByteOrder::LittleEndian).unwrap();
    assert_eq!(
        decode_frame(&frame[..frame.len() - 1], ByteOrder::LittleEndian),
        Err(FrameError::Truncated)
    );
    assert_eq!(decode_frame(&frame, ByteOrder::LittleEndian), Ok((b"abcdef".to_vec(), 10)));
}

#[test]
fn stream_shorter_than_the_length_field_is_truncated() {
    assert_eq!(decode_frame(&[], ByteOrder::BigEndian), Err(FrameError::Truncated));
    assert_eq!(decode_frame(&[0, 0, 0], ByteOrder::BigEndian), Err(FrameError::Truncated));
}

#[test]
fn payload_length_reads_the_field() {
    assert_eq!(payload_length(&[0, 0, 1, 11], ByteOrder::BigEndian), 267);
    assert_eq!(payload_length(&[0, 0, 1, 11], ByteOrder::LittleEndian), 0x0b01_0000);
}

#[test]
fn mismatched_orders_never_read_back_a_frame_of_27_bytes() {
    let payload = b"{\"action\":\"ping\",\"data\":{}}".to_vec();
    assert_ne!(
        ByteOrder::BigEndian.write_length(27),
        ByteOrder::LittleEndian.write_length(27)
    );
    let frame = encode_frame(&payload, ByteOrder::BigEndian).unwrap();
    assert_eq!(decode_frame(&frame, ByteOrder::LittleEndian), Err(FrameError::Truncated));
    let frame = encode_frame(&payload, ByteOrder::LittleEndian).unwrap();
    assert_eq!(decode_frame(&frame, ByteOrder::BigEndian), Err(FrameError::Truncated));
}

#[test]
fn mismatched_orders_cut_a_long_frame_short() {
    let len = 0x0001_0000usize;
    let payload: Vec<u8> = (0..len).map(|i| (i % 7) as u8).collect();
    let frame = encode_frame(&payload, ByteOrder::BigEndian).unwrap();
    assert_eq!(&frame[..4], &[0x00, 0x01, 0x00, 0x00]);
    let (read, end) = decode_frame(&frame, ByteOrder::LittleEndian).unwrap();
    assert_eq!(read.len(), 0x0000_0100);
    assert_eq!(read, payload[..0x100].to_vec());
    assert_eq!(end, 0x104);
    assert_ne!(read, payload);
}

#[test]
fn symmetric_length_reads_the_same_in_both_orders() {
    let frame = encode_frame(&[], ByteOrder::BigEndian).unwrap();
    assert_eq!(decode_frame(&frame, ByteOrder::LittleEndian), Ok((vec![], 4)));
}

#[test]
fn length_beyond_the_length_field_is_too_large() {
    assert_eq!(announced(0), Ok(0));
    assert_eq!(announced(27), Ok(27));
    assert_eq!(announced(u32::MAX as usize), Ok(u32::MAX));
    if let Some(more) = (u32::MAX as usize).checked_add(1) {
        assert_eq!(announced(more), Err(FrameError::FrameTooLarge));
        assert_eq!(announced(usize::MAX), Err(FrameError::FrameTooLarge));
    }
}

#[test]
fn frames_of_a_stream_read_back_one_by_one() {
    for order in [ByteOrder::BigEndian, ByteOrder::LittleEndian] {
        let payloads: Vec<Vec<u8>> = vec![b"one".to_vec(), vec![], b"three!".to_vec(), vec![0; 300]];
        let mut stream = Vec::new();
        for payload in &payloads {
            stream.extend(encode_frame(payload, order).unwrap());
        }
        assert_eq!(decode_frames(&stream, order), (payloads.clone(), stream.len()));
    }
}

#[test]
fn frames_before_a_cut_off_frame_are_read() {
    let order = ByteOrder::BigEndian;
    let mut stream = encode_frame(b"whole", order).unwrap();
    let whole = stream.len();
    stream.extend(&encode_frame(b"cut off", order).unwrap()[..7]);
    assert_eq!(decode_frames(&stream, order), (vec![b"whole".to_vec()], whole));
    assert_eq!(decode_frames(&stream[..whole + 2], order), (vec![b"whole".to_vec()], whole));
    assert_eq!(decode_frames(&[], order), (vec![], 0));
    assert_eq!(decode_frames(&[0, 0, 0, 100, 1, 2, 3], order), (vec![], 0));
}
