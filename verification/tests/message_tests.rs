use message_relay::byte_order::ByteOrder;
use message_relay::codec::{FrameCodec, TransportOrders};
use message_relay::frame::FrameError;
use message_relay::message::{assemble_payload, Message};

fn value(text: &str) -> serde_json::Value {
    serde_json::from_str::<serde_json::Value>(text).unwrap()
}

#[test]
fn payload_of_ping() {
    let message = Message { action: "ping".to_string(), data: value("{}") };
    assert_eq!(message.to_payload().unwrap(), b"{\"action\":\"ping\",\"data\":{}}".to_vec());
}

#[test]
fn payload_is_compact_whatever_the_data() {
    let message = Message {
        action: "sync".to_string(),
        data: value(" { \"v\" : 1 , \"list\" : [ true , null , \"x\" ] } "),
    };
    assert_eq!(
        message.to_payload().unwrap(),
        b"{\"action\":\"sync\",\"data\":{\"list\":[true,null,\"x\"],\"v\":1}}".to_vec()
    );
}

#[test]
fn action_is_written_as_a_json_string() {
    let message = Message { action: "say \"hi\"\n\\".to_string(), data: value("null") };
    assert_eq!(
        message.to_payload().unwrap(),
        b"{\"action\":\"say \\\"hi\\\"\\n\\\\\",\"data\":null}".to_vec()
    );
    let back = Message::from_payload(&message.to_payload().unwrap()).unwrap();
    assert_eq!(back.action, "say \"hi\"\n\\");
    assert_eq!(back.data, serde_json::Value::Null);
}

#[test]
fn assemble_payload_joins_the_texts() {
    assert_eq!(
        assemble_payload(b"\"a\"", b"[1,2]"),
        b"{\"action\":\"a\",\"data\":[1,2]}".to_vec()
    );
    assert_eq!(assemble_payload(b"", b""), b"{\"action\":,\"data\":}".to_vec());
}

#[test]
fn payload_reads_back() {
    let message = Message::from_payload(
        b" { \"data\" : {\"status\": \"pong\"}, \"action\" : \"response\" } ",
    )
    .unwrap();
    assert_eq!(message.action, "response");
    assert_eq!(message.data, value("{\"status\":\"pong\"}"));
    assert_eq!(
        message.to_payload().unwrap(),
        b"{\"action\":\"response\",\"data\":{\"status\":\"pong\"}}".to_vec()
    );
}

#[test]
fn other_members_are_ignored() {
    let message =
        Message::from_payload(b"{\"id\":7,\"action\":\"a\",\"data\":[],\"extra\":{}}").unwrap();
    assert_eq!(message.action, "a");
    assert_eq!(message.data, value("[]"));
    assert_eq!(message.to_payload().unwrap(), b"{\"action\":\"a\",\"data\":[]}".to_vec());
}

#[test]
fn a_key_that_comes_twice_counts_with_its_last_value() {
    let message =
        Message::from_payload(b"{\"action\":\"a\",\"data\":1,\"action\":\"b\",\"data\":2}")
            .unwrap();
    assert_eq!(message.action, "b");
    assert_eq!(message.data, value("2"));
}

#[test]
fn data_may_be_any_value() {
    for text in ["null", "true", "12", "-1.5", "\"s\"", "[1,[2]]", "{\"k\":{\"k\":null}}"] {
        let payload = format!("{{\"action\":\"a\",\"data\":{}}}", text);
        let message = Message::from_payload(payload.as_bytes()).unwrap();
        assert_eq!(message.data, value(text));
        assert_eq!(message.to_payload().unwrap(), payload.as_bytes().to_vec());
    }
}

#[test]
fn malformed_payloads() {
    let cases: [&[u8]; 12] = [
        b"",
        b"not json",
        b"{\"action\":\"x\"}",
        b"{\"data\":1}",
        b"{\"action\":1,\"data\":1}",
        b"{\"action\":null,\"data\":1}",
        b"{\"action\":[\"x\"],\"data\":1}",
        b"[\"x\",1]",
        b"\"x\"",
        b"{\"action\":\"x\",\"data\":1} trailing",
        b"{\"action\":\"x\",\"data\":1",
        b"{\"action\":\"\xff\",\"data\":1}",
    ];
    for payload in cases {
        assert_eq!(Message::from_payload(payload).err(), Some(FrameError::MalformedPayload));
    }
}

#[test]
fn from_parts_wants_both() {
    let data = value("{\"k\":1}");
    let message = Message::from_parts(Some("go"), Some(&data)).unwrap();
    assert_eq!(message.action, "go");
    assert_eq!(message.data, data);
    assert_eq!(Message::from_parts(None, Some(&data)).err(), Some(FrameError::MalformedPayload));
    assert_eq!(Message::from_parts(Some("go"), None).err(), Some(FrameError::MalformedPayload));
    assert_eq!(Message::from_parts(None, None).err(), Some(FrameError::MalformedPayload));
}

#[test]
fn from_document_wants_the_two_members() {
    assert_eq!(
        Message::from_document(&value("{\"action\":\"x\"}")).err(),
        Some(FrameError::MalformedPayload)
    );
    assert_eq!(
        Message::from_document(&value("[1,2]")).err(),
        Some(FrameError::MalformedPayload)
    );
    let message = Message::from_document(&value("{\"action\":\"x\",\"data\":2}")).unwrap();
    assert_eq!(message.action, "x");
    assert_eq!(message.data, value("2"));
}

#[test]
fn codec_round_trip_in_both_orders() {
    let message = Message { action: "sync".to_string(), data: value("{\"v\":1}") };
    for order in [ByteOrder::BigEndian, ByteOrder::LittleEndian] {
        let codec = FrameCodec::new(order);
        let frame = codec.encode(&message).unwrap();
        let (back, end) = codec.decode(&frame).unwrap();
        assert_eq!(back.action, message.action);
        assert_eq!(back.data, message.data);
        assert_eq!(end, frame.len());
    }
}

#[test]
fn codec_frame_bytes() {
    let message = Message { action: "ping".to_string(), data: value("{}") };
    let frame = FrameCodec::new(ByteOrder::BigEndian).encode(&message).unwrap();
    assert_eq!(frame, b"\x00\x00\x00\x1b{\"action\":\"ping\",\"data\":{}}".to_vec());
    let frame = FrameCodec::new(ByteOrder::LittleEndian).encode(&message).unwrap();
    assert_eq!(frame, b"\x1b\x00\x00\x00{\"action\":\"ping\",\"data\":{}}".to_vec());
}

#[test]
fn codec_decode_errors() {
    let codec = FrameCodec::new(ByteOrder::BigEndian);
    assert_eq!(codec.decode(&[0, 0]).err(), Some(FrameError::Truncated));
    assert_eq!(codec.decode(b"\x00\x00\x00\x64{\"action\"").err(), Some(FrameError::Truncated));
    assert_eq!(codec.decode(b"\x00\x00\x00\x02{}").err(), Some(FrameError::MalformedPayload));
    assert_eq!(codec.decode(b"\x00\x00\x00\x03abc").err(), Some(FrameError::MalformedPayload));
}

#[test]
fn codec_with_the_wrong_order_does_not_read_the_message() {
    let message = Message { action: "ping".to_string(), data: value("{}") };
    let frame = FrameCodec::new(ByteOrder::BigEndian).encode(&message).unwrap();
    assert_eq!(
        FrameCodec::new(ByteOrder::LittleEndian).decode(&frame).err(),
        Some(FrameError::Truncated)
    );
}

#[test]
fn transport_orders_keep_the_two_sides_apart() {
    let orders = TransportOrders {
        local_stream: ByteOrder::LittleEndian,
        network: ByteOrder::BigEndian,
    };
    assert_eq!(orders.local_codec().order, ByteOrder::LittleEndian);
    assert_eq!(orders.network_codec().order, ByteOrder::BigEndian);
    let native = TransportOrders::with_native_local_stream(ByteOrder::BigEndian);
    assert_eq!(native.network, ByteOrder::BigEndian);
    assert_eq!(native.local_stream, ByteOrder::native());
}
