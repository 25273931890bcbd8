use hyperblow::messages::{ExtendedMessage, Handshake, Message};
use hyperblow::metadata::{MagnetMetadataError, MetadataMessage, MetadataPayloadHeader, RemoteExtensionHandshake};
use hyperblow::metadata_fetch::{FetchAction, FetchEvent, FetchPhase, MetadataFetch};

fn started(info_hash: &[u8]) -> MetadataFetch {
    match MetadataFetch::start(info_hash) {
        Ok((fetch, FetchAction::Send(messages))) => {
            assert_eq!(messages.len(), 1);
            assert!(matches!(&messages[0], Message::Handshake(h) if h.info_hash() == info_hash && h.supports_extensions()));
            fetch
        }
        _ => panic!("a fetch starts by sending a handshake"),
    }
}

fn to_collecting(fetch: &mut MetadataFetch, info_hash: &[u8]) {
    assert!(matches!(
        fetch.step(FetchEvent::Message(Message::Handshake(Handshake::from_info_hash(info_hash)))),
        Ok(FetchAction::SendExtensionHandshake)
    ));
    assert!(matches!(fetch.step(FetchEvent::Message(Message::Unchoke)), Ok(FetchAction::Receive)));
    match fetch.step(FetchEvent::Message(Message::Extended(ExtendedMessage::new(0, vec![9, 9])))) {
        Ok(FetchAction::DecodeExtensionHandshake(bytes)) => assert_eq!(bytes, vec![9, 9]),
        _ => panic!("the extension handshake is handed over for decoding"),
    }
    match fetch.step(FetchEvent::ExtensionHandshake(RemoteExtensionHandshake::new(3, 4))) {
        Ok(FetchAction::Send(requests)) => {
            assert_eq!(requests.len(), 1);
            assert_eq!(requests[0], MetadataMessage::request(3, 0));
        }
        _ => panic!("every piece is asked for"),
    }
    assert_eq!(fetch.phase(), FetchPhase::Collecting);
}

#[test]
fn metadata_fetch_collects_the_info_dictionary() {
    let info_hash = [7u8; 20];
    let mut fetch = started(&info_hash);
    to_collecting(&mut fetch, &info_hash);
    assert!(matches!(
        fetch.step(FetchEvent::Message(Message::Extended(ExtendedMessage::new(5, vec![1])))),
        Ok(FetchAction::Receive)
    ));
    let header = match fetch.step(FetchEvent::Message(MetadataMessage::data(3, 0, 4, vec![1, 2, 3, 4]))) {
        Ok(FetchAction::DecodePieceHeader(bytes)) => bytes,
        _ => panic!("the piece header is handed over for decoding"),
    };
    assert_eq!(header, b"d8:msg_typei1e5:piecei0e10:total_sizei4ee".to_vec());
    match fetch.step(FetchEvent::PieceHeader(MetadataPayloadHeader { msg_type: 1, piece: 0, total_size: Some(4) })) {
        Ok(FetchAction::Done(metadata)) => assert_eq!(metadata, vec![1, 2, 3, 4]),
        _ => panic!("the metadata is complete"),
    }
    assert_eq!(fetch.phase(), FetchPhase::Done);
}

#[test]
fn metadata_fetch_refuses_wrong_peers_and_rejected_pieces() {
    assert!(matches!(MetadataFetch::start(&[1, 2]), Err(MagnetMetadataError::InvalidInfoHashLength(2))));
    let info_hash = [7u8; 20];
    let mut fetch = started(&info_hash);
    assert!(matches!(
        fetch.step(FetchEvent::Message(Message::Handshake(Handshake::from_info_hash(&[8u8; 20])))),
        Err(MagnetMetadataError::InfoHashMismatch)
    ));
    assert!(matches!(
        fetch.step(FetchEvent::Message(Message::Handshake(Handshake::new(&info_hash)))),
        Err(MagnetMetadataError::ExtensionProtocolUnsupported)
    ));
    assert!(matches!(fetch.step(FetchEvent::Message(Message::Choke)), Err(MagnetMetadataError::MalformedResponse(_))));
    to_collecting(&mut fetch, &info_hash);
    assert!(matches!(
        fetch.step(FetchEvent::ExtensionHandshake(RemoteExtensionHandshake::new(3, 4))),
        Err(MagnetMetadataError::MalformedResponse(_))
    ));
    assert!(matches!(
        fetch.step(FetchEvent::Message(MetadataMessage::data(3, 0, 4, vec![1, 2, 3, 4]))),
        Ok(FetchAction::DecodePieceHeader(_))
    ));
    assert!(matches!(
        fetch.step(FetchEvent::PieceHeader(MetadataPayloadHeader { msg_type: 2, piece: 0, total_size: None })),
        Err(MagnetMetadataError::PieceRejected(0))
    ));
}
