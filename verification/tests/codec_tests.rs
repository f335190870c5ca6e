use messaging_core::api::{FileData, Message, MessageEnvelope, MsgPayload};
use messaging_core::codec::HEADER_SIZE;
use messaging_core::error::MsgSystemError;

fn text_envelope(user: &str, text: &str) -> MessageEnvelope {
    MessageEnvelope::new(
        Some(MsgPayload::new(user, Message::OtherText(text.to_string()))),
        None,
    )
}

fn frame_payload(frame: &[u8]) -> &[u8] {
    assert!(frame.len() >= HEADER_SIZE);
    &frame[HEADER_SIZE..]
}

#[test]
fn round_trip_text() {
    let env = text_envelope("alice", "hello");
    let frame = env.serialize().unwrap();
    let decoded = MessageEnvelope::deserialize(frame_payload(&frame)).unwrap();
    assert_eq!(decoded, env);
}

#[test]
fn round_trip_login_and_exit() {
    for content in [Message::Login, Message::Exit] {
        let env = MessageEnvelope::new(Some(MsgPayload::new("bob", content)), None);
        let frame = env.serialize().unwrap();
        let decoded = MessageEnvelope::deserialize(frame_payload(&frame)).unwrap();
        assert_eq!(decoded, env);
    }
}

#[test]
fn round_trip_file() {
    let data = FileData::new(vec![1, 2, 3], "a.txt".to_string(), Some("txt".to_string()));
    let env = MessageEnvelope::new(Some(MsgPayload::new("carol", Message::File(data))), None);
    let frame = env.serialize().unwrap();
    let decoded = MessageEnvelope::deserialize(frame_payload(&frame)).unwrap();
    assert_eq!(decoded, env);
}

#[test]
fn round_trip_image_with_unicode() {
    let data = FileData::new(vec![0, 255, 7], "snímek.png".to_string(), Some("png".to_string()));
    let env = MessageEnvelope::new(Some(MsgPayload::new("Žofie", Message::Image(data))), None);
    let frame = env.serialize().unwrap();
    let decoded = MessageEnvelope::deserialize(frame_payload(&frame)).unwrap();
    assert_eq!(decoded, env);
}

#[test]
fn round_trip_error_envelope() {
    let env = MessageEnvelope::new(
        None,
        Some(MsgSystemError::CannotConstructMessage {
            provided_str: "odd input".to_string(),
        }),
    );
    let frame = env.serialize().unwrap();
    let decoded = MessageEnvelope::deserialize(frame_payload(&frame)).unwrap();
    assert_eq!(decoded, env);
}

#[test]
fn prefix_holds_payload_length() {
    let env = text_envelope("alice", "hello");
    let frame = env.serialize().unwrap();
    let prefix = u32::from_le_bytes([frame[0], frame[1], frame[2], frame[3]]);
    assert_eq!(prefix as usize, frame.len() - 4);
}

#[test]
fn file_envelope_concrete_fields() {
    // bytes [1, 2, 3], name a.txt, size 3: decoding reproduces every field
    let data = FileData::try_new(vec![1, 2, 3], "a.txt".to_string(), Some("txt".to_string()), 3)
        .unwrap();
    let env = MessageEnvelope::new(Some(MsgPayload::new("dan", Message::File(data))), None);
    let frame = env.serialize().unwrap();
    let decoded = MessageEnvelope::deserialize(frame_payload(&frame)).unwrap();
    let payload = decoded.payload.unwrap();
    match payload.content {
        Message::File(f) => {
            assert_eq!(f.bytes, vec![1, 2, 3]);
            assert_eq!(f.file_name, "a.txt");
            assert_eq!(f.file_extension, Some("txt".to_string()));
            assert_eq!(f.file_size, 3);
        }
        other => panic!("expected a file, got {:?}", other),
    }
}

#[test]
fn mismatched_file_size_is_rejected_by_construction() {
    // a record claiming 4 bytes while holding 3 never reaches the wire
    let result = FileData::try_new(vec![1, 2, 3], "a.txt".to_string(), None, 4);
    assert!(matches!(
        result,
        Err(MsgSystemError::CannotCreateFileData { .. })
    ));
}

#[test]
fn mismatched_file_size_fails_serialization() {
    let bad = FileData {
        bytes: vec![1, 2, 3],
        file_name: "a.txt".to_string(),
        file_extension: None,
        file_size: 4,
    };
    let env = MessageEnvelope::new(Some(MsgPayload::new("eve", Message::File(bad))), None);
    assert!(matches!(
        env.serialize(),
        Err(MsgSystemError::SerializationFailed)
    ));
}

#[test]
fn garbage_fails_deserialization() {
    let result = MessageEnvelope::deserialize(&[9, 9, 9, 9, 9]);
    assert!(matches!(result, Err(MsgSystemError::DeserializationFailed)));
}

#[test]
fn trailing_bytes_fail_deserialization() {
    let env = text_envelope("alice", "hi");
    let frame = env.serialize().unwrap();
    let mut payload = frame[4..].to_vec();
    payload.push(0);
    let result = MessageEnvelope::deserialize(&payload);
    assert!(matches!(result, Err(MsgSystemError::DeserializationFailed)));
}

#[test]
fn reencoding_a_decoded_envelope_gives_the_same_bytes() {
    let env = text_envelope("alice", "hello again");
    let frame = env.serialize().unwrap();
    let decoded = MessageEnvelope::deserialize(frame_payload(&frame)).unwrap();
    let reencoded = decoded.serialize().unwrap();
    assert_eq!(reencoded, frame);
}

#[test]
fn empty_envelope_round_trips() {
    let env = MessageEnvelope::new(None, None);
    let frame = env.serialize().unwrap();
    assert_eq!(frame.len(), 6);
    let decoded = MessageEnvelope::deserialize(frame_payload(&frame)).unwrap();
    assert_eq!(decoded, env);
}
