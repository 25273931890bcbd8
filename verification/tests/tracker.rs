use hyperblow::net::{PeerAddr, PeerIp};
use hyperblow::torrent::{FileMeta, Info};
use hyperblow::tracker::{
    announce_port, append_bytes_query_pair, append_query_pair, build_http_announce_url_with_values, bytes_left,
    next_retry_delay_secs, parse_compact_ipv4_peers, parse_compact_ipv6_peers, parse_http_announce_response,
    percEncode, reannounce_secs, response_timeout_secs, tracker_tiers, HttpAnnounceResponse, HttpPeer, HttpPeers, TrackerError,
    TrackerProtocol, TrackerState, TrackerTarget, TrackerUrl,
};

fn v4(a: u8, b: u8, c: u8, d: u8, port: u16) -> PeerAddr {
    PeerAddr { ip: PeerIp::V4([a, b, c, d]), port }
}

fn empty_response() -> HttpAnnounceResponse {
    HttpAnnounceResponse {
        interval: None,
        complete: None,
        incomplete: None,
        peers: None,
        peers6: Vec::new(),
        failure_reason: None,
    }
}

#[test]
fn http_announce_url_percent_encodes_binary_fields() {
    let url = TrackerUrl::parse("https://tracker.example.test/announce?existing=1").expect("valid URL");
    let info_hash = [
        0x00, 0x01, 0x02, 0x03, 0x04, b'a', b'b', b'c', b'd', b'e', b'f', 0x7f, 0x80, 0x81, 0xfe, 0xff, b'1', b'2', b'3', b'4',
    ];

    let announce_url = build_http_announce_url_with_values(&url, &info_hash, 25, 75, 6881);

    assert!(announce_url.starts_with("https://tracker.example.test/announce?existing=1&"));
    assert!(announce_url.contains("info_hash=%00%01%02%03%04abcdef%7F%80%81%FE%FF1234"));
    assert!(announce_url.contains("peer_id=%2DHBYxxx%2DQMAXYDGHQAHF"));
    assert!(announce_url.contains("downloaded=25"));
    assert!(announce_url.contains("left=75"));
    assert!(announce_url.contains("compact=1"));
}

#[test]
fn announce_url_without_query_and_negative_counts() {
    let url = TrackerUrl::parse("http://tracker.example.test:8080/announce#frag").expect("valid URL");
    let announce_url = build_http_announce_url_with_values(&url, &[0xff; 2], -3, -4, 1);
    assert_eq!(
        announce_url,
        "http://tracker.example.test:8080/announce?info_hash=%FF%FF&peer_id=%2DHBYxxx%2DQMAXYDGHQAHF&port=1&uploaded=0&downloaded=0&left=0&compact=1&numwant=80&event=started"
    );
}

#[test]
fn query_pairs_are_joined_with_ampersands() {
    let mut query = String::new();
    append_query_pair(&mut query, "a", "1");
    append_bytes_query_pair(&mut query, "b", b"x y");
    assert_eq!(query, "a=1&b=x%20y");
    assert_eq!(percEncode(b"foo bar?".to_vec()), "foo%20bar%3F");
}

#[test]
fn parses_http_compact_ipv4_peers() {
    let peers = parse_compact_ipv4_peers(&[127, 0, 0, 1, 0x1a, 0xe1]).expect("valid compact peers");

    assert_eq!(peers, vec![v4(127, 0, 0, 1, 6881)]);
}

#[test]
fn rejects_malformed_http_compact_ipv4_peers() {
    assert!(parse_compact_ipv4_peers(&[127, 0, 0, 1, 0x1a]).is_err());
}

#[test]
fn parses_http_compact_ipv6_peers() {
    let mut bytes = Vec::new();
    let mut localhost = [0u8; 16];
    localhost[15] = 1;
    bytes.extend_from_slice(&localhost);
    bytes.extend_from_slice(&6881_u16.to_be_bytes());

    let peers = parse_compact_ipv6_peers(&bytes).expect("valid compact IPv6 peers");

    assert_eq!(peers, vec![PeerAddr { ip: PeerIp::V6(localhost), port: 6881 }]);
    assert!(matches!(
        parse_compact_ipv6_peers(&[0; 17]),
        Err(TrackerError::InvalidCompactPeerList { family: "IPv6", chunk_size: 18, len: 17 })
    ));
}

#[test]
fn parses_http_announce_response_with_compact_peers() {
    let mut peers = vec![10, 0, 0, 1];
    peers.extend_from_slice(&51413u16.to_be_bytes());
    let response = HttpAnnounceResponse {
        interval: Some(1800),
        complete: Some(2),
        incomplete: Some(3),
        peers: Some(HttpPeers::Compact(peers)),
        ..empty_response()
    };

    let response = parse_http_announce_response(response).expect("valid HTTP announce response");

    assert_eq!(response.interval, 1800);
    assert_eq!(response.seeders, 2);
    assert_eq!(response.leechers, 3);
    assert_eq!(response.peersAddresses, vec![v4(10, 0, 0, 1, 51413)]);
}

#[test]
fn parses_http_announce_response_with_dictionary_peers() {
    let response = HttpAnnounceResponse {
        interval: Some(30),
        peers: Some(HttpPeers::Dictionary(vec![HttpPeer {
            ip: "127.0.0.1".to_string(),
            address: Some(PeerIp::V4([127, 0, 0, 1])),
            port: 6881,
        }])),
        ..empty_response()
    };

    let response = parse_http_announce_response(response).expect("valid dictionary peer response");

    assert_eq!(response.peersAddresses, vec![v4(127, 0, 0, 1, 6881)]);
}

#[test]
fn rejects_http_tracker_failure_response() {
    let response = HttpAnnounceResponse { failure_reason: Some("tracker down".to_string()), ..empty_response() };

    assert!(parse_http_announce_response(response).is_err());
}

#[test]
fn http_response_defaults_and_peer_errors() {
    let defaults = parse_http_announce_response(empty_response()).expect("empty response is valid");
    assert_eq!(defaults.interval, 1800);
    assert_eq!(defaults.seeders, 0);
    assert_eq!(defaults.leechers, 0);
    assert!(defaults.peersAddresses.is_empty());

    let clamped = parse_http_announce_response(HttpAnnounceResponse {
        interval: Some(0),
        complete: Some(-1),
        ..empty_response()
    })
    .expect("valid");
    assert_eq!(clamped.interval, 1);
    assert_eq!(clamped.seeders, 0);

    let bad_ip = HttpAnnounceResponse {
        peers: Some(HttpPeers::Dictionary(vec![HttpPeer { ip: "nope".to_string(), address: None, port: 1 }])),
        ..empty_response()
    };
    assert!(matches!(parse_http_announce_response(bad_ip), Err(TrackerError::InvalidPeerIp { ip }) if ip == "nope"));
}

#[test]
fn tracker_protocol_comes_from_the_scheme() {
    assert_eq!(TrackerProtocol::from_scheme("udp").ok(), Some(TrackerProtocol::Udp));
    assert_eq!(TrackerProtocol::from_scheme("https").ok(), Some(TrackerProtocol::Http));
    assert!(matches!(TrackerProtocol::from_scheme("wss"), Err(TrackerError::UnsupportedProtocol(s)) if s == "wss"));
    let target = TrackerTarget::new("udp://tracker.example.com:6969/announce").expect("valid tracker");
    assert!(target.is_udp());
    assert!(!target.is_http());
    assert!(matches!(TrackerTarget::new("not a url"), Err(TrackerError::InvalidUrl(_))));
}

#[test]
fn tracker_state_labels() {
    assert_eq!(TrackerState::Idle.label(0), "Idle");
    assert_eq!(TrackerState::WaitingForAnnounceResponse.label(0), "Waiting for Announce Response");
    let unresolved = TrackerState::DNSUnresolved { retry_time: std::time::Instant::now() };
    assert_eq!(unresolved.label(12), "DNSUnresolved (12/30 sec)");
    assert!(unresolved.is_error());
    assert!(TrackerState::Idle.is_error());
    assert!(!TrackerState::DNSResolved.is_error());
}

#[test]
fn announce_timing() {
    assert_eq!(response_timeout_secs(0), 15);
    assert_eq!(response_timeout_secs(3), 120);
    assert_eq!(response_timeout_secs(20), 15 * 256);
    assert_eq!(next_retry_delay_secs(15), 30);
    assert_eq!(next_retry_delay_secs(200), 300);
    assert_eq!(reannounce_secs(10), 30);
    assert_eq!(reannounce_secs(1800), 1800);
    assert_eq!(announce_port(&[]), 6881);
    assert_eq!(announce_port(&[7000, 7001]), 7000);
    assert_eq!(bytes_left(100, 30), 70);
    assert_eq!(bytes_left(i64::MIN, 1), i64::MIN);
}

fn meta_with_trackers(announce: &str, announce_list: Option<Vec<Vec<&str>>>) -> FileMeta {
    FileMeta {
        announce: announce.to_string(),
        announce_list: announce_list
            .map(|tiers| tiers.into_iter().map(|tier| tier.into_iter().map(str::to_string).collect()).collect()),
        info: Info { name: None, length: Some(1), files: None, piece_length: Some(1), pieces: vec![0; 20] },
        creation_data: None,
        comment: None,
        encoding: None,
        created_by: None,
        acceptable_source: None,
    }
}

#[test]
fn tracker_tiers_keep_usable_trackers_with_their_protocols() {
    let meta = meta_with_trackers(
        "udp://ignored.example:1",
        Some(vec![vec!["udp://a.example:80/announce", "not a url", "ftp://x.example/", "http://b.example/announce"], vec![
            "https://c.example/x",
        ]]),
    );
    let tiers = tracker_tiers(&meta);
    assert_eq!(tiers.len(), 2);
    assert_eq!(tiers[0].len(), 2);
    assert_eq!(tiers[0][0].address.href, "udp://a.example:80/announce");
    assert_eq!(tiers[0][0].protocol, TrackerProtocol::Udp);
    assert!(tiers[0][0].is_udp());
    assert_eq!(tiers[0][1].address.href, "http://b.example/announce");
    assert_eq!(tiers[0][1].protocol, TrackerProtocol::Http);
    assert_eq!(tiers[1][0].protocol, TrackerProtocol::Http);
    let single = tracker_tiers(&meta_with_trackers("udp://t.example:6969", None));
    assert_eq!(single.len(), 1);
    assert_eq!(single[0][0].protocol, TrackerProtocol::Udp);
    assert!(tracker_tiers(&meta_with_trackers("not a url", None)).is_empty());
}
