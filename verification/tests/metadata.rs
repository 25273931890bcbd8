use hyperblow::messages::{ExtendedMessage, Handshake, Message};
use hyperblow::metadata::{
    BencodePrefix, LocalExtensionHandshake, MagnetMetadataError, MagnetMetadataFetcher, MetadataCollector, MetadataMessage,
    MetadataPayloadHeader, MetadataPieceMessage, PeerExtensionHandshake, RemoteExtensionHandshake,
    METADATA_BLOCK_SIZE,
};

#[test]
fn splits_metadata_response_header_from_payload() {
    let block = vec![1, 2, 3, 4];
    let payload = match MetadataMessage::data(3, 0, 4, block.clone()) {
        Message::Extended(message) => message.payload,
        _ => unreachable!("metadata message is extended"),
    };
    assert_eq!(&payload[..payload.len() - 4], b"d8:msg_typei1e5:piecei0e10:total_sizei4ee");

    let header_length = BencodePrefix::value_length(&payload).expect("header should be a bencode value");
    let header = MetadataPayloadHeader { msg_type: 1, piece: 0, total_size: Some(4) };
    let parsed = MetadataPieceMessage::from_header(header, &payload, header_length).expect("payload should parse");

    assert_eq!(parsed.piece, 0);
    assert_eq!(parsed.total_size, Some(4));
    assert_eq!(parsed.data, block);
    let rejected = MetadataPayloadHeader { msg_type: 2, piece: 0, total_size: None };
    assert!(matches!(
        MetadataPieceMessage::from_header(rejected, &payload, header_length),
        Err(MagnetMetadataError::PieceRejected(0))
    ));
}

#[test]
fn finds_the_end_of_bencode_values() {
    assert_eq!(BencodePrefix::value_length(b"i42e").ok(), Some(4));
    assert_eq!(BencodePrefix::value_length(b"4:spamrest").ok(), Some(6));
    assert_eq!(BencodePrefix::value_length(b"l4:spami7ee").ok(), Some(11));
    assert_eq!(BencodePrefix::value_length(b"d1:ai1eeXYZ").ok(), Some(8));
    assert!(matches!(BencodePrefix::value_length(b""), Err(MagnetMetadataError::MalformedResponse(_))));
    assert!(matches!(BencodePrefix::value_length(b"x"), Err(MagnetMetadataError::MalformedResponse(_))));
    assert!(matches!(BencodePrefix::value_length(b"i42"), Err(MagnetMetadataError::MalformedResponse(_))));
    assert!(matches!(BencodePrefix::value_length(b"9:short"), Err(MagnetMetadataError::MalformedResponse(_))));
    assert!(matches!(BencodePrefix::value_length(b"1x:a"), Err(MagnetMetadataError::MalformedResponse(_))));
    assert!(matches!(BencodePrefix::value_length(b"l1:a"), Err(MagnetMetadataError::MalformedResponse(_))));
}

#[test]
fn metadata_messages_of_other_types() {
    let payload = b"d8:msg_typei2e5:piecei3ee".to_vec();
    let rejected = MetadataPieceMessage::from_header(
        MetadataPayloadHeader { msg_type: 2, piece: 3, total_size: None },
        &payload,
        payload.len(),
    );
    assert!(matches!(rejected, Err(MagnetMetadataError::PieceRejected(3))));
    let unknown = MetadataPieceMessage::from_header(
        MetadataPayloadHeader { msg_type: 9, piece: 0, total_size: None },
        &payload,
        payload.len(),
    );
    assert!(matches!(unknown, Err(MagnetMetadataError::MalformedResponse(_))));
}

#[test]
fn collected_pieces_assemble_to_the_metadata() {
    let metadata: Vec<u8> = (0..40000u32).map(|i| (i % 251) as u8).collect();
    let mut collector = MetadataCollector::new(metadata.len());
    assert_eq!(collector.piece_count(), 3);
    assert!(!collector.is_complete());
    for piece in [2usize, 0, 1] {
        let start = piece * METADATA_BLOCK_SIZE;
        let end = (start + METADATA_BLOCK_SIZE).min(metadata.len());
        collector
            .insert(MetadataPieceMessage { piece, total_size: Some(metadata.len()), data: metadata[start..end].to_vec() })
            .expect("piece fits");
    }
    assert!(collector.is_complete());
    assert_eq!(collector.assemble().expect("complete"), metadata);
}

#[test]
fn collector_refuses_foreign_pieces() {
    let mut collector = MetadataCollector::new(10);
    assert_eq!(collector.piece_count(), 1);
    assert!(matches!(
        collector.insert(MetadataPieceMessage { piece: 1, total_size: None, data: vec![] }),
        Err(MagnetMetadataError::PieceOutOfRange { piece: 1, piece_count: 1 })
    ));
    assert!(matches!(
        collector.insert(MetadataPieceMessage { piece: 0, total_size: Some(11), data: vec![] }),
        Err(MagnetMetadataError::MalformedResponse(_))
    ));
    assert!(matches!(collector.assemble(), Err(MagnetMetadataError::MalformedResponse(_))));
    assert_eq!(MetadataCollector::new(0).piece_count(), 1);
}

#[test]
fn collector_cuts_metadata_to_its_size() {
    let mut collector = MetadataCollector::new(3);
    collector
        .insert(MetadataPieceMessage { piece: 0, total_size: None, data: vec![1, 2, 3, 4, 5] })
        .expect("fits");
    assert_eq!(collector.assemble().expect("complete"), vec![1, 2, 3]);
}

#[test]
fn extension_handshakes_offer_ut_metadata() {
    let local = LocalExtensionHandshake::new();
    assert_eq!(local.m, vec![("ut_metadata".to_string(), 1)]);

    let remote = RemoteExtensionHandshake::new(3, 1234);
    let peer = PeerExtensionHandshake::from_remote(&remote).expect("offers ut_metadata");
    assert_eq!(peer.ut_metadata_id, 3);
    assert_eq!(peer.metadata_size, 1234);

    let without_size = RemoteExtensionHandshake { m: vec![("ut_metadata".to_string(), 2)], metadata_size: None };
    assert!(matches!(
        PeerExtensionHandshake::from_remote(&without_size),
        Err(MagnetMetadataError::MetadataSizeMissing)
    ));
    let without_extension = RemoteExtensionHandshake { m: vec![("ut_pex".to_string(), 2)], metadata_size: Some(5) };
    assert!(matches!(
        PeerExtensionHandshake::from_remote(&without_extension),
        Err(MagnetMetadataError::UtMetadataUnsupported)
    ));
}

#[test]
fn fetch_decisions() {
    assert!(matches!(
        MagnetMetadataFetcher::check_info_hash(&[0; 19]),
        Err(MagnetMetadataError::InvalidInfoHashLength(19))
    ));
    assert!(MagnetMetadataFetcher::check_info_hash(&[0; 20]).is_ok());

    let info_hash = [7u8; 20];
    let offering = Message::Handshake(Handshake::from_info_hash(&info_hash));
    assert!(MagnetMetadataFetcher::check_peer_handshake(&offering, &info_hash).is_ok());
    assert!(matches!(
        MagnetMetadataFetcher::check_peer_handshake(&offering, &[8u8; 20]),
        Err(MagnetMetadataError::InfoHashMismatch)
    ));
    let plain = Message::Handshake(Handshake::new(&info_hash));
    assert!(matches!(
        MagnetMetadataFetcher::check_peer_handshake(&plain, &info_hash),
        Err(MagnetMetadataError::ExtensionProtocolUnsupported)
    ));
    assert!(matches!(
        MagnetMetadataFetcher::check_peer_handshake(&Message::Choke, &info_hash),
        Err(MagnetMetadataError::MalformedResponse(_))
    ));

    let handshake = Message::Extended(ExtendedMessage::new(0, vec![1]));
    assert_eq!(MagnetMetadataFetcher::extension_handshake_payload(&handshake), Some(&vec![1]));
    assert_eq!(MagnetMetadataFetcher::metadata_payload(&handshake, 3), None);
    let data = Message::Extended(ExtendedMessage::new(3, vec![2]));
    assert_eq!(MagnetMetadataFetcher::metadata_payload(&data, 3), Some(&vec![2]));
}

#[test]
fn metadata_request_and_data_messages() {
    match MetadataMessage::request(3, 5) {
        Message::Extended(e) => {
            assert_eq!(e.extension_id, 3);
            assert_eq!(e.payload, b"d8:msg_typei0e5:piecei5ee".to_vec());
        }
        _ => panic!("expected an extended message"),
    }
    match MetadataMessage::data(7, 12, 40000, vec![1, 2]) {
        Message::Extended(e) => {
            assert_eq!(e.extension_id, 7);
            assert_eq!(e.payload, b"d8:msg_typei1e5:piecei12e10:total_sizei40000ee\x01\x02".to_vec());
        }
        _ => panic!("expected an extended message"),
    }
}
