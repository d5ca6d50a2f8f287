use serde_json::Value;
use sybl::messages::length_prefix::{
    decode_length_prefix, encode_length_prefix, parse_length_prefixed, FrameReader,
};
use sybl::messages::{read_length_prefixed, write_length_prefix};

fn basic() -> Value {
    let mut map = serde_json::Map::new();
    map.insert(String::from("id"), Value::from(10u32));
    map.insert(String::from("value"), Value::from(24u64));
    Value::Object(map)
}

fn large() -> Value {
    let mut map = serde_json::Map::new();
    map.insert(
        String::from("content"),
        Value::from(String::from("some longer string of characters")),
    );
    Value::Object(map)
}

#[test]
fn length_prefixed_messages_can_be_created() {
    let message = basic();
    let prefixed = write_length_prefix(&serde_json::to_vec(&message).unwrap());

    // Includes the length prefix itself
    let expected = b"\x00\x00\x00\x14{\"id\":10,\"value\":24}";

    assert_eq!(prefixed, expected);
}

#[test]
fn larger_length_prefixed_messages_can_be_created() {
    let message = large();

    let prefixed = write_length_prefix(&serde_json::to_vec(&message).unwrap());

    // Includes the length prefix itself
    let expected = b"\x00\x00\x00\x2e{\"content\":\"some longer string of characters\"}";

    assert_eq!(prefixed, expected);
}

#[test]
fn length_prefixed_messages_can_be_read() {
    // Includes the length prefix itself
    let stream = b"\x00\x00\x00\x14{\"id\":10,\"value\":24}";
    let payload = read_length_prefixed(stream, 64).unwrap();
    let message: Value = serde_json::from_slice(&payload).unwrap();

    assert_eq!(message, basic());
}

#[test]
fn length_prefixed_messages_can_be_read_with_smaller_buffers() {
    // Includes the length prefix itself
    let stream = b"\x00\x00\x00\x14{\"id\":10,\"value\":24}";

    // Use a buffer smaller than the message size
    let payload = read_length_prefixed(stream, 5).unwrap();
    let message: Value = serde_json::from_slice(&payload).unwrap();

    assert_eq!(message, basic());
}

#[test]
fn larger_length_prefixed_messages_can_be_read_with_smaller_buffers() {
    // Includes the length prefix itself
    let stream = b"\x00\x00\x00\x2e{\"content\":\"some longer string of characters\"}";

    // Use a buffer smaller than the message size
    let payload = read_length_prefixed(stream, 7).unwrap();
    let message: Value = serde_json::from_slice(&payload).unwrap();

    assert_eq!(message, large());
}

#[test]
fn prefixes_are_big_endian() {
    assert_eq!(encode_length_prefix(0x0102_0304), [1, 2, 3, 4]);
    assert_eq!(decode_length_prefix([0, 0, 1, 0]), 256);
    assert_eq!(decode_length_prefix(encode_length_prefix(4_000_000_000)), 4_000_000_000);
}

#[test]
fn framing_then_parsing_gives_the_payload_back() {
    let payload = b"payload bytes".to_vec();
    let mut stream = write_length_prefix(&payload);
    stream.extend_from_slice(b"next frame");
    assert_eq!(parse_length_prefixed(&stream), Some(payload.clone()));
    assert_eq!(read_length_prefixed(&stream, 3), Some(payload));
}

#[test]
fn truncated_frames_are_not_read() {
    assert_eq!(parse_length_prefixed(b"\x00\x00"), None);
    assert_eq!(parse_length_prefixed(b"\x00\x00\x00\x05abc"), None);
    assert_eq!(read_length_prefixed(b"\x00\x00\x00\x05abc", 2), None);
    assert_eq!(read_length_prefixed(b"\x00\x00\x00\x00", 2), Some(Vec::new()));
}

#[test]
fn frame_readers_collect_a_frame_in_pieces() {
    let mut reader = FrameReader::new([0, 0, 0, 5]);
    assert_eq!(reader.remaining(), 5);
    assert_eq!(reader.read_limit(3), 3);
    reader.accept(b"abc");
    assert!(!reader.is_complete());
    assert_eq!(reader.read_limit(3), 2);
    reader.accept(b"de");
    assert!(reader.is_complete());
    assert_eq!(reader.into_payload(), b"abcde".to_vec());
}
