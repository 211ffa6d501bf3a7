use bbcpr::protocol::{MessageType, ProtocolMessage};
use bbcpr::BbcprError;

#[test]
fn encode_writes_big_endian_header() {
    let message = ProtocolMessage::new(MessageType::DataChunk, vec![9, 8, 7]);
    assert_eq!(message.encode(), vec![0, 0, 0, 3, 0, 0, 0, 3, 9, 8, 7]);
    let empty = ProtocolMessage::new(MessageType::Error, Vec::new());
    assert_eq!(empty.encode(), vec![0, 0, 0, 6, 0, 0, 0, 0]);
}

#[test]
fn decode_reads_back_encoded_messages() {
    let types = [
        MessageType::Handshake,
        MessageType::FileInfo,
        MessageType::DataChunk,
        MessageType::Checksum,
        MessageType::Complete,
        MessageType::Error,
    ];
    for (i, t) in types.iter().enumerate() {
        assert_eq!(t.code(), i as u32 + 1);
        let payload: Vec<u8> = (0..300u32).map(|b| (b * 7) as u8).collect();
        let frame = ProtocolMessage::new(*t, payload.clone()).encode();
        let decoded = ProtocolMessage::decode(&frame).unwrap();
        assert_eq!(decoded.message_type, *t);
        assert_eq!(decoded.data, payload);
    }
}

#[test]
fn decode_ignores_trailing_bytes() {
    let decoded = ProtocolMessage::decode(&[0, 0, 0, 2, 0, 0, 0, 1, 42, 43, 44]).unwrap();
    assert_eq!(decoded.message_type, MessageType::FileInfo);
    assert_eq!(decoded.data, vec![42]);
}

#[test]
fn decode_rejects_short_frames() {
    match ProtocolMessage::decode(&[0, 0, 0, 1, 0, 0, 0]) {
        Err(BbcprError::Protocol(text)) => assert_eq!(text, "Invalid message: too short"),
        _ => panic!("expected a protocol error"),
    }
    match ProtocolMessage::decode(&[0, 0, 0, 1, 0, 0, 0, 4, 1, 2, 3]) {
        Err(BbcprError::Protocol(text)) => assert_eq!(text, "Invalid message: data length mismatch"),
        _ => panic!("expected a protocol error"),
    }
}

#[test]
fn decode_rejects_unknown_types() {
    match ProtocolMessage::decode(&[0, 0, 1, 7, 0, 0, 0, 0]) {
        Err(BbcprError::Protocol(text)) => assert_eq!(text, "Unknown message type: 263"),
        _ => panic!("expected a protocol error"),
    }
    assert!(MessageType::from_code(0).is_none());
    assert_eq!(MessageType::from_code(4), Some(MessageType::Checksum));
}
