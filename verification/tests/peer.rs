use hyperblow::net::{admit_peer, same_peer, PeerAddr, PeerIp};
use hyperblow::messages::{Bitfield, Block, Handshake, Have, Message, Request};
use hyperblow::peer::{ActivePiece, PeerError, PeerInfo, PeerSession, PeerState, PeerType, SessionAction};
use hyperblow::piece_assembler::PieceAssemblyError;
use hyperblow::piece_picker::PiecePicker;
use hyperblow::piece_storage::PieceStorageError;
use hyperblow::torrent::{FileMeta, Info};
use sha1::{Digest, Sha1};

fn meta(length: i64, piece_length: i64, pieces: Vec<u8>) -> FileMeta {
    FileMeta {
        announce: String::new(),
        announce_list: None,
        info: Info { name: Some("p".to_string()), length: Some(length), files: None, piece_length: Some(piece_length), pieces },
        creation_data: None,
        comment: None,
        encoding: None,
        created_by: None,
        acceptable_source: None,
    }
}

#[test]
fn peer_info_follows_have_and_bitfield_messages() {
    let mut info = PeerInfo::new();
    assert_eq!(info.peer_type(), PeerType::Unknown);
    assert_eq!(info.peer_state(), PeerState::NotConnected);
    info.record_have(4);
    info.record_have(4);
    info.record_have(1);
    assert_eq!(info.pieces_have(), &vec![4, 1]);
    info.record_bitfield(&[0, 2], &[]);
    assert_eq!(info.pieces_have(), &vec![0, 2]);
    assert_eq!(info.peer_type(), PeerType::Seeder);
    info.record_bitfield(&[0], &[1]);
    assert_eq!(info.peer_type(), PeerType::Leecher);
    info.set_peer_state(PeerState::Running);
    assert_eq!(info.peer_state(), PeerState::Running);
}

#[test]
fn handshake_must_name_the_torrent() {
    let info_hash = [3u8; 20];
    assert!(PeerSession::check_handshake(Message::Handshake(Handshake::new(&info_hash)), &info_hash).is_ok());
    assert!(matches!(
        PeerSession::check_handshake(Message::Handshake(Handshake::new(&[4u8; 20])), &info_hash),
        Err(PeerError::InfoHashMismatch)
    ));
    assert!(matches!(
        PeerSession::check_handshake(Message::Choke, &info_hash),
        Err(PeerError::UnexpectedHandshakeMessage(Message::Choke))
    ));
    assert_eq!(PeerSession::next_retry_delay_secs(2), 4);
    assert_eq!(PeerSession::next_retry_delay_secs(40), 60);
    assert!(PeerSession::may_request_piece(false, false, 1));
    assert!(!PeerSession::may_request_piece(true, false, 1));
}

#[test]
fn piece_requests_tile_the_piece() {
    let m = meta(40000, 40000, vec![0; 20]);
    let piece = ActivePiece::new(&m, 0).expect("piece exists");
    assert_eq!(piece.index(), 0);
    assert_eq!(
        piece.requests(),
        vec![Request::new(0, 0, 16384), Request::new(0, 16384, 16384), Request::new(0, 32768, 7232)]
    );
    assert!(ActivePiece::new(&m, 1).is_none());
}

#[test]
fn downloads_a_piece_block_by_block() {
    let data = b"hello".to_vec();
    let hash: [u8; 20] = Sha1::digest(&data).into();
    let m = meta(5, 5, hash.to_vec());
    let mut piece = ActivePiece::new(&m, 0).expect("piece exists");
    piece.insert_block(2, b"llo".to_vec()).expect("tail");
    assert!(!piece.is_complete());
    assert_eq!(piece.insert_block(9, vec![1]).expect_err("outside"), PieceAssemblyError::BlockOutOfRange { begin: 9, piece_length: 5 });
    piece.insert_block(0, b"he".to_vec()).expect("head");
    assert!(piece.is_complete());
    assert_eq!(piece.assemble().expect("valid"), data);
}

fn unchoked_session(m: &FileMeta, picker: &mut PiecePicker) -> PeerSession {
    let mut session = PeerSession::new();
    assert!(matches!(session.on_message(Message::Unchoke, m, picker), Ok(SessionAction::Wait)));
    session
}

fn bitfield(have: Vec<usize>) -> Message {
    Message::Bitfield(Bitfield { have, not_have: Vec::new() })
}

fn block(piece_index: u32, byte_index: u32, raw_block: &[u8]) -> Message {
    Message::Piece(Block { piece_index, byte_index, raw_block: raw_block.to_vec() })
}

#[test]
fn session_asks_for_the_piece_and_hands_it_over_to_be_written() {
    let data = b"hello peer".to_vec();
    let hash: [u8; 20] = Sha1::digest(&data).into();
    let m = meta(10, 10, hash.to_vec());
    let mut picker = PiecePicker::new(1);
    let mut session = unchoked_session(&m, &mut picker);
    match session.on_message(bitfield(vec![0]), &m, &mut picker) {
        Ok(SessionAction::Send(requests)) => assert_eq!(requests, vec![Request::new(0, 0, 10)]),
        other => panic!("expected requests, got {:?}", other),
    }
    assert_eq!(picker.requested_count(), 1);
    assert_eq!(session.info().pieces_have(), &vec![0]);
    match session.on_message(block(0, 0, &data), &m, &mut picker) {
        Ok(SessionAction::Write { index, bytes }) => {
            assert_eq!(index, 0);
            assert_eq!(bytes, data);
        }
        other => panic!("expected a piece to write, got {:?}", other),
    }
    assert!(matches!(session.piece_written(0, Ok(()), &m, &mut picker), Ok(SessionAction::Wait)));
    assert_eq!(picker.completed_count(), 1);
    assert_eq!(picker.requested_count(), 0);
}

#[test]
fn session_waits_while_choked_and_gives_the_piece_back_on_choke() {
    let m = meta(10, 10, vec![0; 20]);
    let mut picker = PiecePicker::new(1);
    let mut session = PeerSession::new();
    assert!(matches!(session.on_message(Message::Have(Have { piece_index: 0 }), &m, &mut picker), Ok(SessionAction::Wait)));
    assert_eq!(picker.requested_count(), 0);
    assert!(matches!(session.on_message(Message::Unchoke, &m, &mut picker), Ok(SessionAction::Send(_))));
    assert_eq!(picker.requested_count(), 1);
    assert!(matches!(session.on_message(Message::Choke, &m, &mut picker), Ok(SessionAction::Wait)));
    assert_eq!(picker.requested_count(), 0);
    assert!(matches!(session.on_message(Message::Unchoke, &m, &mut picker), Ok(SessionAction::Send(_))));
    session.release_piece(&mut picker);
    assert_eq!(picker.requested_count(), 0);
}

#[test]
fn session_collects_blocks_until_the_piece_is_complete() {
    let data = vec![5u8; 20000];
    let hash: [u8; 20] = Sha1::digest(&data).into();
    let m = meta(20000, 20000, hash.to_vec());
    let mut picker = PiecePicker::new(1);
    let mut session = unchoked_session(&m, &mut picker);
    match session.on_message(bitfield(vec![0]), &m, &mut picker) {
        Ok(SessionAction::Send(requests)) => {
            assert_eq!(requests, vec![Request::new(0, 0, 16384), Request::new(0, 16384, 3616)])
        }
        other => panic!("expected requests, got {:?}", other),
    }
    assert!(matches!(session.on_message(block(0, 16384, &data[16384..]), &m, &mut picker), Ok(SessionAction::Wait)));
    assert!(matches!(session.on_message(block(3, 0, &data[..16384]), &m, &mut picker), Ok(SessionAction::Wait)));
    assert!(matches!(
        session.on_message(block(0, 0, &data[..16384]), &m, &mut picker),
        Ok(SessionAction::Write { index: 0, .. })
    ));
}

#[test]
fn session_ends_on_a_piece_that_does_not_match_its_hash() {
    let m = meta(10, 10, vec![0; 20]);
    let mut picker = PiecePicker::new(1);
    let mut session = unchoked_session(&m, &mut picker);
    assert!(matches!(session.on_message(bitfield(vec![0]), &m, &mut picker), Ok(SessionAction::Send(_))));
    assert!(matches!(
        session.on_message(block(0, 0, b"hello peer"), &m, &mut picker),
        Err(PeerError::PieceAssembly(PieceAssemblyError::HashMismatch))
    ));
    assert_eq!(picker.requested_count(), 0);
    assert_eq!(picker.completed_count(), 0);
}

#[test]
fn session_ends_on_a_block_outside_the_piece() {
    let m = meta(10, 10, vec![0; 20]);
    let mut picker = PiecePicker::new(1);
    let mut session = unchoked_session(&m, &mut picker);
    assert!(matches!(session.on_message(bitfield(vec![0]), &m, &mut picker), Ok(SessionAction::Send(_))));
    assert!(matches!(
        session.on_message(block(0, 8, b"abc"), &m, &mut picker),
        Err(PeerError::PieceAssembly(PieceAssemblyError::BlockTooLong { end: 11, piece_length: 10 }))
    ));
    assert_eq!(picker.requested_count(), 0);
}

#[test]
fn session_ends_when_a_piece_cannot_be_stored() {
    let data = b"hello peer".to_vec();
    let hash: [u8; 20] = Sha1::digest(&data).into();
    let m = meta(10, 10, hash.to_vec());
    let mut picker = PiecePicker::new(1);
    let mut session = unchoked_session(&m, &mut picker);
    assert!(matches!(session.on_message(bitfield(vec![0]), &m, &mut picker), Ok(SessionAction::Send(_))));
    assert!(matches!(session.on_message(block(0, 0, &data), &m, &mut picker), Ok(SessionAction::Write { .. })));
    assert!(matches!(
        session.piece_written(0, Err(PieceStorageError::PieceDataTooLong), &m, &mut picker),
        Err(PeerError::PieceStorage(PieceStorageError::PieceDataTooLong))
    ));
    assert_eq!(picker.requested_count(), 0);
    assert_eq!(picker.completed_count(), 0);
}

#[test]
fn a_piece_asked_for_is_not_offered_to_another_peer() {
    let m = meta(10, 10, vec![0; 20]);
    let mut picker = PiecePicker::new(1);
    let mut first = unchoked_session(&m, &mut picker);
    assert!(matches!(first.on_message(bitfield(vec![0]), &m, &mut picker), Ok(SessionAction::Send(_))));
    let mut second = unchoked_session(&m, &mut picker);
    assert!(matches!(second.on_message(bitfield(vec![0]), &m, &mut picker), Ok(SessionAction::Wait)));
    first.release_piece(&mut picker);
    assert!(matches!(second.on_message(Message::KeepAlive, &m, &mut picker), Ok(SessionAction::Send(_))));
}

#[test]
fn each_peer_gets_one_session_within_the_limit() {
    let a = PeerAddr { ip: PeerIp::V4([10, 0, 0, 1]), port: 6881 };
    let b = PeerAddr { ip: PeerIp::V4([10, 0, 0, 1]), port: 6882 };
    let c = PeerAddr { ip: PeerIp::V6([1; 16]), port: 6881 };
    let mut seen = Vec::new();
    assert!(admit_peer(&mut seen, a, 0, 2));
    assert!(!admit_peer(&mut seen, a, 1, 2));
    assert!(admit_peer(&mut seen, b, 1, 2));
    assert!(!admit_peer(&mut seen, c, 2, 2));
    assert_eq!(seen, vec![a, b]);
    assert!(same_peer(&a, &a));
    assert!(!same_peer(&a, &b));
    assert!(!same_peer(&a, &c));
}
