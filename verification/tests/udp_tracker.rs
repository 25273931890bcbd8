use hyperblow::net::{PeerAddr, PeerIp};
use hyperblow::udp_announce::{udp_announce_request, UdpAction, UdpAnnouncer, UdpEvent, UdpPhase};
use hyperblow::udp_tracker::{
    is_announce_response, is_connect_response, AnnounceRequest, AnnounceResponse, ConnectRequest, ConnectResponse,
    ErrorResponse, ScrapeRequest, TrackerRequest, TrackerResponse, UdpResponseError,
};

#[test]
fn announce_request_has_the_documented_layout() {
    let mut request = AnnounceRequest::empty();
    assert!(request.serialize_to_bytes().is_none());
    request.set_connection_id(0x0102030405060708);
    request.set_transaction_id(9);
    request.set_info_hash(vec![0xaa; 20]);
    request.set_downloaded(1);
    request.set_uploaded(2);
    request.set_left(3);
    request.set_port(6881);
    request.set_key(-1);
    let bytes = request.getBytesMut();
    assert_eq!(bytes.len(), 98);
    assert_eq!(&bytes[0..8], &[1, 2, 3, 4, 5, 6, 7, 8]);
    assert_eq!(&bytes[8..12], &[0, 0, 0, 1]);
    assert_eq!(&bytes[12..16], &[0, 0, 0, 9]);
    assert_eq!(&bytes[16..36], &[0xaa; 20]);
    assert_eq!(&bytes[36..56], b"-HYBxxx-yyyyyyyyyyyy");
    assert_eq!(&bytes[56..64], &1i64.to_be_bytes());
    assert_eq!(&bytes[64..72], &3i64.to_be_bytes());
    assert_eq!(&bytes[72..80], &2i64.to_be_bytes());
    assert_eq!(&bytes[80..84], &1i32.to_be_bytes());
    assert_eq!(&bytes[84..88], &0i32.to_be_bytes());
    assert_eq!(&bytes[88..92], &(-1i32).to_be_bytes());
    assert_eq!(&bytes[92..96], &(-1i32).to_be_bytes());
    assert_eq!(&bytes[96..98], &6881u16.to_be_bytes());
    assert_eq!(request.serialize_to_bytes(), Some(bytes));
}

#[test]
fn connect_request_and_response() {
    let request = ConnectRequest::new();
    let bytes = request.serializeToBytes();
    assert_eq!(bytes.len(), 16);
    assert_eq!(&bytes[0..8], &0x41727101980i64.to_be_bytes());
    assert_eq!(&bytes[8..12], &[0, 0, 0, 0]);
    assert_eq!(&bytes[12..16], &request.transaction_id.to_be_bytes());

    let mut datagram = vec![0, 0, 0, 0];
    datagram.extend_from_slice(&request.transaction_id.to_be_bytes());
    datagram.extend_from_slice(&77i64.to_be_bytes());
    let response = ConnectResponse::from(&datagram).expect("16 bytes");
    assert_eq!(response.action, 0);
    assert_eq!(response.transaction_id, request.transaction_id);
    assert_eq!(response.connection_id, 77);
    assert!(is_connect_response(&datagram, request.transaction_id));
    assert!(!is_connect_response(&datagram[..15], request.transaction_id));
}

#[test]
fn announce_response_lists_peers() {
    let mut datagram = Vec::new();
    for v in [1i32, 5, 1800, 3, 4] {
        datagram.extend_from_slice(&v.to_be_bytes());
    }
    datagram.extend_from_slice(&[192, 168, 0, 1, 0x1a, 0xe1]);
    let response = AnnounceResponse::new(&datagram).expect("valid");
    assert_eq!(response.transaction_id, 5);
    assert_eq!(response.interval, 1800);
    assert_eq!(response.leechers, 3);
    assert_eq!(response.seeders, 4);
    assert_eq!(response.peersAddresses, vec![PeerAddr { ip: PeerIp::V4([192, 168, 0, 1]), port: 6881 }]);

    datagram.push(0);
    assert!(matches!(AnnounceResponse::new(&datagram), Err(UdpResponseError::ServerError)));
    let mut error = vec![0, 0, 0, 3];
    error.extend_from_slice(&[0; 16]);
    assert!(matches!(AnnounceResponse::new(&error), Err(UdpResponseError::ServerError)));
}

#[test]
fn error_response_carries_a_message() {
    let mut datagram = vec![0, 0, 0, 3, 0, 0, 0, 8];
    datagram.extend_from_slice(b"nope");
    let error = ErrorResponse::from(&datagram).expect("UTF-8 message");
    assert_eq!(error.action, 3);
    assert_eq!(error.transaction_id, 8);
    assert_eq!(error.message, "nope");
    let bad = vec![0, 0, 0, 3, 0, 0, 0, 8, 0xff];
    assert!(ErrorResponse::from(&bad).is_err());
}

#[test]
fn datagrams_are_matched_to_the_requests_sent() {
    let connect = ConnectRequest { protocol_id: 0x41727101980, action: 0, transaction_id: 11 };
    let mut announce = AnnounceRequest::empty();
    announce.set_transaction_id(12);
    let connect_sent = TrackerRequest::ConnectRequest(connect);
    let announce_sent = TrackerRequest::AnnounceRequest(announce);

    let mut connect_reply = vec![0, 0, 0, 0, 0, 0, 0, 11];
    connect_reply.extend_from_slice(&5i64.to_be_bytes());
    assert!(matches!(
        TrackerResponse::from_datagram(&connect_reply, &connect_sent, &announce_sent),
        TrackerResponse::ConnectResponse(c) if c.connection_id == 5
    ));

    let mut announce_reply = Vec::new();
    for v in [1i32, 12, 60, 0, 0] {
        announce_reply.extend_from_slice(&v.to_be_bytes());
    }
    assert!(is_announce_response(&announce_reply, 12));
    assert!(matches!(
        TrackerResponse::from_datagram(&announce_reply, &connect_sent, &announce_sent),
        TrackerResponse::AnnounceResponse(a) if a.interval == 60
    ));
    let mut with_peers = Vec::new();
    for v in [1i32, 12, 60, 2, 3] {
        with_peers.extend_from_slice(&v.to_be_bytes());
    }
    with_peers.extend_from_slice(&[10, 0, 0, 1, 0x1a, 0xe1, 192, 168, 1, 9, 0, 80]);
    match TrackerResponse::from_datagram(&with_peers, &connect_sent, &announce_sent) {
        TrackerResponse::AnnounceResponse(a) => {
            assert_eq!((a.action, a.leechers, a.seeders), (1, 2, 3));
            assert_eq!(
                a.peersAddresses,
                vec![
                    PeerAddr { ip: PeerIp::V4([10, 0, 0, 1]), port: 6881 },
                    PeerAddr { ip: PeerIp::V4([192, 168, 1, 9]), port: 80 }
                ]
            );
        }
        other => panic!("expected an announce response, got {:?}", other),
    }
    assert!(matches!(
        TrackerResponse::from_datagram(&announce_reply, &TrackerRequest::default(), &TrackerRequest::Empty),
        TrackerResponse::Empty
    ));
}

#[test]
fn scrape_request_layout() {
    let mut request = ScrapeRequest::new();
    request.set_connection_id(1);
    request.set_transaction_id(2);
    request.set_info_hash(vec![3; 20]);
    let bytes = request.getBytesMut();
    assert_eq!(bytes.len(), 36);
    assert_eq!(&bytes[8..12], &[0, 0, 0, 2]);
    assert_eq!(&bytes[12..16], &[0, 0, 0, 2]);
    assert_eq!(&bytes[16..36], &[3; 20]);
}

fn connect_reply(connection_id: i64, transaction_id: i32) -> UdpEvent {
    UdpEvent::Received(Some(TrackerResponse::ConnectResponse(ConnectResponse { action: 0, transaction_id, connection_id })))
}

#[test]
fn udp_announcer_connects_announces_and_hands_over_peers() {
    let (mut announcer, action) = UdpAnnouncer::start();
    assert!(matches!(action, UdpAction::SendConnect { timeout_secs: 15 }));
    assert!(matches!(announcer.step(UdpEvent::Sent, 0), UdpAction::Receive));
    assert_eq!(announcer.phase(), UdpPhase::AwaitingConnect);
    assert!(matches!(
        announcer.step(connect_reply(99, 7), 5),
        UdpAction::SendAnnounce { connection_id: 99, transaction_id: 7, timeout_secs: 15 }
    ));
    assert!(matches!(announcer.step(UdpEvent::Sent, 6), UdpAction::Receive));
    let peer = PeerAddr { ip: PeerIp::V4([10, 0, 0, 1]), port: 6881 };
    let reply = AnnounceResponse { action: 1, transaction_id: 7, interval: 1800, leechers: 1, seeders: 2, peersAddresses: vec![peer] };
    match announcer.step(UdpEvent::Received(Some(TrackerResponse::AnnounceResponse(reply))), 7) {
        UdpAction::Announced { peers, pause_secs } => {
            assert_eq!(peers, vec![peer]);
            assert_eq!(pause_secs, 1800);
        }
        other => panic!("expected peers, got {:?}", other),
    }
    assert!(matches!(announcer.step(UdpEvent::PauseOver, 1807), UdpAction::SendConnect { timeout_secs: 15 }));
}

#[test]
fn udp_announcer_lengthens_timeouts_and_waits_after_failures() {
    let (mut announcer, _) = UdpAnnouncer::start();
    assert!(matches!(announcer.step(UdpEvent::SendTimedOut, 0), UdpAction::SendConnect { timeout_secs: 30 }));
    assert!(matches!(announcer.step(UdpEvent::SendTimedOut, 0), UdpAction::SendConnect { timeout_secs: 60 }));
    for _ in 0..10 {
        announcer.step(UdpEvent::SendTimedOut, 0);
    }
    assert!(matches!(announcer.step(UdpEvent::SendTimedOut, 0), UdpAction::SendConnect { timeout_secs: 3840 }));
    assert!(matches!(announcer.step(UdpEvent::SendFailed, 0), UdpAction::Pause { secs: 1000 }));
    assert!(matches!(announcer.step(UdpEvent::PauseOver, 1000), UdpAction::SendConnect { timeout_secs: 3840 }));
    assert!(matches!(announcer.step(UdpEvent::Sent, 1000), UdpAction::Receive));
    assert!(matches!(announcer.step(UdpEvent::Received(None), 1001), UdpAction::SendConnect { .. }));
}

#[test]
fn udp_announcer_sends_nothing_more_once_the_connection_id_expires() {
    let (mut announcer, _) = UdpAnnouncer::start();
    announcer.step(UdpEvent::Sent, 0);
    assert!(matches!(announcer.step(connect_reply(1, 2), 10), UdpAction::SendAnnounce { timeout_secs: 15, .. }));
    assert!(matches!(announcer.step(UdpEvent::SendTimedOut, 40), UdpAction::SendAnnounce { timeout_secs: 30, .. }));
    assert!(matches!(announcer.step(UdpEvent::SendTimedOut, 71), UdpAction::Stop));
    assert_eq!(announcer.phase(), UdpPhase::Stalled);
    assert!(matches!(announcer.step(UdpEvent::PauseOver, 72), UdpAction::Stop));
}

#[test]
fn udp_announcer_awaits_a_reply_when_the_connect_reply_was_not_a_connect_response() {
    let (mut announcer, _) = UdpAnnouncer::start();
    announcer.step(UdpEvent::Sent, 0);
    assert!(matches!(announcer.step(UdpEvent::Received(Some(TrackerResponse::Empty)), 1), UdpAction::Receive));
    assert_eq!(announcer.phase(), UdpPhase::AwaitingAnnounce);
    assert!(matches!(announcer.step(UdpEvent::Received(Some(TrackerResponse::Error)), 2), UdpAction::Receive));
}

#[test]
fn udp_announce_request_carries_the_connection_and_progress() {
    let request = udp_announce_request(5, 6, vec![3; 20], 100, 1000, &[6881], 42);
    let bytes = request.serialize_to_bytes().expect("complete request");
    assert_eq!(bytes.len(), 98);
    assert_eq!(&bytes[0..8], &5i64.to_be_bytes());
    assert_eq!(&bytes[12..16], &6i32.to_be_bytes());
    assert_eq!(&bytes[64..72], &900i64.to_be_bytes());
    assert_eq!(&bytes[88..92], &42i32.to_be_bytes());
    assert_eq!(&bytes[96..98], &6881u16.to_be_bytes());
    assert!(udp_announce_request(5, 6, vec![3; 20], 100, 1000, &[], 42).serialize_to_bytes().is_none());
}
