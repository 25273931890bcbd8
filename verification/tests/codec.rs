use hyperblow::codec::{PeerCodecError, PeerMessageCodec, MAX_PEER_FRAME_LENGTH};
use hyperblow::messages::{ExtendedMessage, Message};

#[test]
fn decodes_choke_and_consumes_frame() {
    let mut codec = PeerMessageCodec::new();
    let mut src = vec![0, 0, 0, 1, 0];

    let message = codec.decode(&mut src).expect("valid frame").expect("message");

    assert_eq!(message, Message::Choke);
    assert!(src.is_empty());
}

#[test]
fn waits_for_incomplete_length_prefixed_frame() {
    let mut codec = PeerMessageCodec::new();
    let mut src = vec![0, 0, 0, 5, 4, 0, 0];

    assert!(codec.decode(&mut src).expect("partial frame should not error").is_none());
    assert_eq!(src.as_slice(), &[0, 0, 0, 5, 4, 0, 0]);
}

#[test]
fn rejects_oversized_peer_frame() {
    let mut codec = PeerMessageCodec::new();
    let mut src = Vec::new();
    src.extend_from_slice(&((MAX_PEER_FRAME_LENGTH + 1) as u32).to_be_bytes());

    let error = codec.decode(&mut src).expect_err("oversized frame should fail");

    assert!(matches!(error, PeerCodecError::FrameTooLarge { .. }));
}

#[test]
fn rejects_unknown_complete_frame() {
    let mut codec = PeerMessageCodec::new();
    let mut src = vec![0, 0, 0, 1, 99];

    let error = codec.decode(&mut src).expect_err("unknown frame should fail");

    assert!(matches!(error, PeerCodecError::InvalidFrame(_)));
}

#[test]
fn encodes_messages_with_standard_ids() {
    let mut codec = PeerMessageCodec::new();
    let mut dst = Vec::new();

    codec
        .encode(vec![Message::Choke, Message::Interested], &mut dst)
        .expect("messages should encode");

    assert_eq!(dst.as_slice(), &[0, 0, 0, 1, 0, 0, 0, 0, 1, 2]);
}

#[test]
fn decodes_extended_message() {
    let mut codec = PeerMessageCodec::new();
    let mut src = Vec::new();
    src.extend_from_slice(&5u32.to_be_bytes());
    src.push(20);
    src.push(3);
    src.extend_from_slice(b"abc");

    let message = codec.decode(&mut src).expect("valid frame").expect("message");

    assert_eq!(message, Message::Extended(ExtendedMessage::new(3, b"abc".to_vec())));
    assert!(src.is_empty());
}

#[test]
fn encodes_extended_message() {
    let mut codec = PeerMessageCodec::new();
    let mut dst = Vec::new();

    codec
        .encode(vec![Message::Extended(ExtendedMessage::new(1, b"xyz".to_vec()))], &mut dst)
        .expect("extended message should encode");

    assert_eq!(dst.as_slice(), &[0, 0, 0, 5, 20, 1, b'x', b'y', b'z']);
}

#[test]
fn decoding_an_encoded_message_gives_it_back() {
    let mut codec = PeerMessageCodec::new();
    let mut buffer = Vec::new();
    codec
        .encode(vec![Message::Extended(ExtendedMessage::new(7, vec![1, 2, 3, 4]))], &mut buffer)
        .expect("encodes");
    let message = codec.decode(&mut buffer).expect("decodes").expect("complete");
    assert_eq!(message, Message::Extended(ExtendedMessage::new(7, vec![1, 2, 3, 4])));
    assert!(buffer.is_empty());
}
