use messaging_core::api::{Message, MessageEnvelope, MsgPayload};
use messaging_core::stream::{next_read_len, StreamEnd, StreamReader, CHUNK_SIZE};

fn sample_frame() -> (MessageEnvelope, Vec<u8>) {
    let env = MessageEnvelope::new(
        Some(MsgPayload::new("alice", Message::OtherText("hello".to_string()))),
        None,
    );
    let frame = env.serialize().unwrap();
    (env, frame)
}

#[test]
fn whole_frame_in_one_chunk() {
    let (env, frame) = sample_frame();
    let mut reader = StreamReader::new();
    reader.push_chunk(&frame);
    let payload = reader.try_take_frame().unwrap();
    let decoded = MessageEnvelope::deserialize(&payload).unwrap();
    assert_eq!(decoded, env);
    assert_eq!(reader.pending_len(), 0);
}

#[test]
fn split_delivery_equals_single_delivery() {
    // every two-way split of the frame yields the same envelope
    let (env, frame) = sample_frame();
    for cut in 0..=frame.len() {
        let mut reader = StreamReader::new();
        reader.push_chunk(&frame[..cut]);
        reader.push_chunk(&frame[cut..]);
        let payload = reader.try_take_frame().unwrap();
        let decoded = MessageEnvelope::deserialize(&payload).unwrap();
        assert_eq!(decoded, env);
    }
}

#[test]
fn byte_by_byte_delivery() {
    let (env, frame) = sample_frame();
    let mut reader = StreamReader::new();
    for b in &frame[..frame.len() - 1] {
        reader.push_chunk(&[*b]);
        assert!(reader.try_take_frame().is_none());
    }
    reader.push_chunk(&[frame[frame.len() - 1]]);
    let payload = reader.try_take_frame().unwrap();
    let decoded = MessageEnvelope::deserialize(&payload).unwrap();
    assert_eq!(decoded, env);
}

#[test]
fn two_frames_in_one_chunk() {
    let (env, frame) = sample_frame();
    let mut both = frame.clone();
    both.extend_from_slice(&frame);
    let mut reader = StreamReader::new();
    reader.push_chunk(&both);
    let first = reader.try_take_frame().unwrap();
    let second = reader.try_take_frame().unwrap();
    assert_eq!(MessageEnvelope::deserialize(&first).unwrap(), env);
    assert_eq!(MessageEnvelope::deserialize(&second).unwrap(), env);
    assert!(reader.try_take_frame().is_none());
}

#[test]
fn interrupted_mid_frame_is_a_protocol_violation() {
    // the prefix declares 100 bytes; only 40 arrive before the close
    let mut reader = StreamReader::new();
    reader.push_chunk(&100u32.to_le_bytes());
    reader.push_chunk(&[7u8; 40]);
    assert!(reader.try_take_frame().is_none());
    assert_eq!(reader.stream_end_kind(), StreamEnd::AbruptInterruption);
}

#[test]
fn interrupted_mid_prefix_is_a_protocol_violation() {
    let mut reader = StreamReader::new();
    reader.push_chunk(&[1, 0]);
    assert_eq!(reader.stream_end_kind(), StreamEnd::AbruptInterruption);
}

#[test]
fn clean_close_with_nothing_pending_is_graceful() {
    let mut reader = StreamReader::new();
    assert_eq!(reader.stream_end_kind(), StreamEnd::Graceful);
    let (_, frame) = sample_frame();
    reader.push_chunk(&frame);
    let _ = reader.try_take_frame().unwrap();
    assert_eq!(reader.stream_end_kind(), StreamEnd::Graceful);
}

#[test]
fn complete_frame_with_invalid_payload_fails_decoding() {
    let mut reader = StreamReader::new();
    let mut bytes = 3u32.to_le_bytes().to_vec();
    bytes.extend_from_slice(&[250, 250, 250]);
    reader.push_chunk(&bytes);
    assert!(reader.try_take_envelope().is_err());
}

#[test]
fn take_envelope_reports_pending_and_success() {
    let (env, frame) = sample_frame();
    let mut reader = StreamReader::new();
    reader.push_chunk(&frame[..3]);
    assert!(matches!(reader.try_take_envelope(), Ok(None)));
    reader.push_chunk(&frame[3..]);
    match reader.try_take_envelope() {
        Ok(Some(decoded)) => assert_eq!(decoded, env),
        other => panic!("expected an envelope, got {:?}", other),
    }
}

#[test]
fn read_lengths_are_bounded_chunks() {
    assert_eq!(next_read_len(10), 10);
    assert_eq!(next_read_len(CHUNK_SIZE), CHUNK_SIZE);
    assert_eq!(next_read_len(CHUNK_SIZE + 5), CHUNK_SIZE);
    assert_eq!(next_read_len(0), 0);
}
