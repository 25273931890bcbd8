//! The UDP tracker protocol (BEP 15): connect, announce and scrape requests, and the
//! responses to them.
use crate::net::{PeerAddr, PeerIp};
use crate::wire::{
    be_u16, be_u32, be_u64, copy_range, push_slice, push_u16_be, push_u32_be, push_u64_be,
    read_u16_be, read_u32_be, read_u64_be, u16_bytes, u32_bytes, u64_bytes,
};
use vstd::prelude::*;
use vstd::utf8::{decode_utf8, valid_utf8};

verus! {

/// The magic protocol id of a connect request.
pub const UDP_TRACKER_PROTOCOL_ID: i64 = 0x41727101980;

/// Calls `rand::random::<i32>()`. The number is random: nothing is stated of it.
#[verifier::external_body]
fn random_i32() -> i32 {
    rand::random::<i32>()
}

// ---------------------------------------------------------------------------------------------
// Connect
// ---------------------------------------------------------------------------------------------

/// A connect request: `<protocol id: i64><action = 0: i32><transaction id: i32>`.
#[derive(Debug, Clone)]
pub struct ConnectRequest {
    pub protocol_id: i64,
    pub action: i32,
    pub transaction_id: i32,
}

impl ConnectRequest {
    /// A connect request with a random transaction id.
    pub fn new() -> (r: Self)
        ensures
            r.protocol_id == UDP_TRACKER_PROTOCOL_ID,
            r.action == 0,
    {
        ConnectRequest {
            protocol_id: UDP_TRACKER_PROTOCOL_ID,
            action: 0,
            transaction_id: random_i32(),
        }
    }

    /// The 16 bytes of the request.
    pub fn serializeToBytes(&self) -> (out: Vec<u8>)
        ensures
            out@ == u64_bytes(self.protocol_id as u64) + u32_bytes(self.action as u32) + u32_bytes(
                self.transaction_id as u32,
            ),
    {
        let mut out: Vec<u8> = Vec::new();
        push_u64_be(&mut out, self.protocol_id as u64);
        push_u32_be(&mut out, self.action as u32);
        push_u32_be(&mut out, self.transaction_id as u32);
        out
    }
}

/// A connect response: `<action: i32><transaction id: i32><connection id: i64>`.
#[derive(Debug, Clone)]
pub struct ConnectResponse {
    pub action: i32,
    pub transaction_id: i32,
    pub connection_id: i64,
}

/// The `i32` stored big-endian at `offset` of `b`.
pub open spec fn be_i32_at(b: Seq<u8>, offset: int) -> i32 {
    be_u32(b.subrange(offset, offset + 4)) as u32 as i32
}

/// The `i64` stored big-endian at `offset` of `b`.
pub open spec fn be_i64_at(b: Seq<u8>, offset: int) -> i64 {
    be_u64(b.subrange(offset, offset + 8)) as u64 as i64
}

fn read_i32_be(buf: &[u8], offset: usize) -> (v: i32)
    requires
        offset + 4 <= buf@.len(),
    ensures
        v == be_i32_at(buf@, offset as int),
{
    read_u32_be(buf, offset) as i32
}

fn read_i64_be(buf: &[u8], offset: usize) -> (v: i64)
    requires
        offset + 8 <= buf@.len(),
    ensures
        v == be_i64_at(buf@, offset as int),
{
    read_u64_be(buf, offset) as i64
}

impl ConnectResponse {
    /// Reads the first 16 bytes of a connect response.
    pub fn from(v: &[u8]) -> (r: Result<ConnectResponse, std::io::Error>)
        requires
            v@.len() >= 16,
        ensures
            r matches Ok(c) && c.action == be_i32_at(v@, 0) && c.transaction_id == be_i32_at(v@, 4)
                && c.connection_id == be_i64_at(v@, 8),
    {
        Ok(
            ConnectResponse {
                action: read_i32_be(v, 0),
                transaction_id: read_i32_be(v, 4),
                connection_id: read_i64_be(v, 8),
            },
        )
    }
}

// ---------------------------------------------------------------------------------------------
// Announce
// ---------------------------------------------------------------------------------------------

/// Peer id sent in UDP announce requests.
pub open spec fn udp_announce_peer_id() -> Seq<u8> {
    seq![45u8, 72, 89, 66, 120, 120, 120, 45, 121, 121, 121, 121, 121, 121, 121, 121, 121, 121, 121, 121]
}

/// Abstract value of an announce request: the fields set so far.
pub struct AnnounceRequestView {
    pub connection_id: Option<i64>,
    pub action: i32,
    pub transaction_id: Option<i32>,
    pub info_hash: Option<Seq<u8>>,
    pub peer_id: Option<Seq<u8>>,
    pub downloaded: Option<i64>,
    pub left: Option<i64>,
    pub uploaded: Option<i64>,
    pub event: Option<i32>,
    pub ip_address: Option<i32>,
    pub key: Option<i32>,
    pub num_want: i32,
    pub port: Option<i16>,
}

/// An announce request (98 bytes on the wire), filled in field by field.
#[derive(Debug, Clone)]
pub struct AnnounceRequest {
    connection_id: Option<i64>,
    action: i32,
    transaction_id: Option<i32>,
    info_hash: Option<Vec<u8>>,
    peer_id: Option<[u8; 20]>,
    downloaded: Option<i64>,
    left: Option<i64>,
    uploaded: Option<i64>,
    event: Option<i32>,
    ip_address: Option<i32>,
    key: Option<i32>,
    num_want: i32,
    port: Option<i16>,
}

impl View for AnnounceRequest {
    type V = AnnounceRequestView;

    closed spec fn view(&self) -> AnnounceRequestView {
        AnnounceRequestView {
            connection_id: self.connection_id,
            action: self.action,
            transaction_id: self.transaction_id,
            info_hash: match self.info_hash {
                Some(h) => Some(h@),
                None => None,
            },
            peer_id: match self.peer_id {
                Some(p) => Some(p@),
                None => None,
            },
            downloaded: self.downloaded,
            left: self.left,
            uploaded: self.uploaded,
            event: self.event,
            ip_address: self.ip_address,
            key: self.key,
            num_want: self.num_want,
            port: self.port,
        }
    }
}

/// Every field of the request is set and the info hash is 20 bytes long.
pub open spec fn announce_complete(r: AnnounceRequestView) -> bool {
    &&& r.connection_id is Some
    &&& r.transaction_id is Some
    &&& r.info_hash matches Some(h) && h.len() == 20
    &&& r.peer_id is Some
    &&& r.downloaded is Some
    &&& r.left is Some
    &&& r.uploaded is Some
    &&& r.event is Some
    &&& r.ip_address is Some
    &&& r.key is Some
    &&& r.port is Some
}

/// The wire bytes of a request with all fields set.
pub open spec fn announce_bytes(r: AnnounceRequestView) -> Seq<u8> {
    u64_bytes(r.connection_id->0 as u64) + u32_bytes(r.action as u32) + u32_bytes(
        r.transaction_id->0 as u32,
    ) + r.info_hash->0 + r.peer_id->0 + u64_bytes(r.downloaded->0 as u64) + u64_bytes(
        r.left->0 as u64,
    ) + u64_bytes(r.uploaded->0 as u64) + u32_bytes(r.event->0 as u32) + u32_bytes(
        r.ip_address->0 as u32,
    ) + u32_bytes(r.key->0 as u32) + u32_bytes(r.num_want as u32) + u16_bytes(r.port->0 as u16)
}

impl AnnounceRequest {
    /// A request with only the fixed fields set: action 1 (announce), the client's peer id,
    /// event 1, IP address 0 (the sender's) and `num_want` -1 (the tracker's default).
    pub fn empty() -> (r: Self)
        ensures
            r@ == (AnnounceRequestView {
                connection_id: None,
                action: 1,
                transaction_id: None,
                info_hash: None,
                peer_id: Some(udp_announce_peer_id()),
                downloaded: None,
                left: None,
                uploaded: None,
                event: Some(1),
                ip_address: Some(0),
                key: None,
                num_want: -1i32,
                port: None,
            }),
    {
        let peer_id: [u8; 20] = [
            45, 72, 89, 66, 120, 120, 120, 45, 121, 121, 121, 121, 121, 121, 121, 121, 121, 121,
            121, 121,
        ];
        assert(peer_id@ =~= udp_announce_peer_id());
        AnnounceRequest {
            connection_id: None,
            action: 1,
            transaction_id: None,
            info_hash: None,
            peer_id: Some(peer_id),
            downloaded: None,
            left: None,
            uploaded: None,
            event: Some(1),
            ip_address: Some(0),
            key: None,
            num_want: -1,
            port: None,
        }
    }

    /// The 98 bytes of a request whose fields are all set.
    pub fn getBytesMut(&self) -> (out: Vec<u8>)
        requires
            announce_complete(self@),
        ensures
            out@ == announce_bytes(self@),
            out@.len() == 98,
    {
        let mut out: Vec<u8> = Vec::new();
        push_u64_be(&mut out, self.connection_id.unwrap() as u64);
        push_u32_be(&mut out, self.action as u32);
        push_u32_be(&mut out, self.transaction_id.unwrap() as u32);
        match &self.info_hash {
            Some(h) => push_slice(&mut out, h.as_slice()),
            None => {},
        }
        match &self.peer_id {
            Some(p) => push_slice(&mut out, p),
            None => {},
        }
        push_u64_be(&mut out, self.downloaded.unwrap() as u64);
        push_u64_be(&mut out, self.left.unwrap() as u64);
        push_u64_be(&mut out, self.uploaded.unwrap() as u64);
        push_u32_be(&mut out, self.event.unwrap() as u32);
        push_u32_be(&mut out, self.ip_address.unwrap() as u32);
        push_u32_be(&mut out, self.key.unwrap() as u32);
        push_u32_be(&mut out, self.num_want as u32);
        push_u16_be(&mut out, self.port.unwrap() as u16);
        proof {
            crate::wire::lemma_u16_roundtrip(self.port->0 as u16);
            crate::wire::lemma_u32_roundtrip(0);
            crate::wire::lemma_u64_roundtrip(0);
        }
        out
    }

    /// The bytes of the request, or `None` while a field is unset or the info hash is not
    /// 20 bytes long.
    pub fn serialize_to_bytes(&self) -> (out: Option<Vec<u8>>)
        ensures
            announce_complete(self@) ==> (out matches Some(b) && b@ == announce_bytes(self@)),
            !announce_complete(self@) ==> out is None,
    {
        let complete = self.connection_id.is_some() && self.transaction_id.is_some() && match &self.info_hash {
            Some(h) => h.len() == 20,
            None => false,
        } && self.peer_id.is_some() && self.downloaded.is_some() && self.left.is_some()
            && self.uploaded.is_some() && self.event.is_some() && self.ip_address.is_some()
            && self.key.is_some() && self.port.is_some();
        if complete {
            Some(self.getBytesMut())
        } else {
            None
        }
    }

    /// The transaction id, once set.
    pub fn transaction_id(&self) -> (t: Option<i32>)
        ensures
            t == self@.transaction_id,
    {
        self.transaction_id
    }

    /// Sets the connection id.
    pub fn set_connection_id(&mut self, v: i64)
        ensures
            final(self)@ == (AnnounceRequestView { connection_id: Some(v), ..old(self)@ }),
    {
        self.connection_id = Some(v);
    }

    /// Sets the transaction id.
    pub fn set_transaction_id(&mut self, v: i32)
        ensures
            final(self)@ == (AnnounceRequestView { transaction_id: Some(v), ..old(self)@ }),
    {
        self.transaction_id = Some(v);
    }

    /// Sets the info hash.
    pub fn set_info_hash(&mut self, v: Vec<u8>)
        ensures
            final(self)@ == (AnnounceRequestView { info_hash: Some(v@), ..old(self)@ }),
    {
        self.info_hash = Some(v);
    }

    /// Sets the number of bytes downloaded.
    pub fn set_downloaded(&mut self, v: i64)
        ensures
            final(self)@ == (AnnounceRequestView { downloaded: Some(v), ..old(self)@ }),
    {
        self.downloaded = Some(v);
    }

    /// Sets the number of bytes uploaded.
    pub fn set_uploaded(&mut self, v: i64)
        ensures
            final(self)@ == (AnnounceRequestView { uploaded: Some(v), ..old(self)@ }),
    {
        self.uploaded = Some(v);
    }

    /// Sets the number of bytes left.
    pub fn set_left(&mut self, v: i64)
        ensures
            final(self)@ == (AnnounceRequestView { left: Some(v), ..old(self)@ }),
    {
        self.left = Some(v);
    }

    /// Sets the listening port.
    pub fn set_port(&mut self, v: i16)
        ensures
            final(self)@ == (AnnounceRequestView { port: Some(v), ..old(self)@ }),
    {
        self.port = Some(v);
    }

    /// Sets the key.
    pub fn set_key(&mut self, v: i32)
        ensures
            final(self)@ == (AnnounceRequestView { key: Some(v), ..old(self)@ }),
    {
        self.key = Some(v);
    }
}

/// Why a UDP tracker response was refused.
#[derive(Debug, Clone, Copy, PartialEq, Eq)]
pub enum UdpResponseError {
    /// The tracker answered with an error (action 3), or the peer list is not a whole number
    /// of 6-byte entries.
    ServerError,
}

/// An announce response: `<action><transaction id><interval><leechers><seeders>` and
/// 6-byte peer entries.
#[derive(Debug, Clone)]
pub struct AnnounceResponse {
    pub action: i32,
    pub transaction_id: i32,
    pub interval: i32,
    pub leechers: i32,
    pub seeders: i32,
    pub peersAddresses: Vec<PeerAddr>,
}

/// The IPv4 peer entry `i` (6 bytes) of `b` from `start`.
pub open spec fn compact_v4_peer(b: Seq<u8>, start: int, i: int) -> PeerAddr {
    let o = start + 6 * i;
    PeerAddr {
        ip: PeerIp::V4([b[o], b[o + 1], b[o + 2], b[o + 3]]),
        port: be_u16(b.subrange(o + 4, o + 6)) as u16,
    }
}

/// Reads the IPv4 peer entries of `b` from `start` to the end (a whole number of them).
pub fn read_compact_v4_peers(b: &[u8], start: usize) -> (peers: Vec<PeerAddr>)
    requires
        start <= b@.len(),
        (b@.len() - start) % 6 == 0,
    ensures
        peers@.len() == (b@.len() - start) / 6,
        forall|i: int| 0 <= i < peers@.len() ==> #[trigger] peers@[i] == compact_v4_peer(b@, start as int, i),
{
    let mut peers: Vec<PeerAddr> = Vec::new();
    let mut o = start;
    let len = b.len();
    while o < len
        invariant
            start <= o <= len,
            len == b@.len(),
            (len - start) % 6 == 0,
            (o - start) % 6 == 0,
            peers@.len() == (o - start) / 6,
            forall|i: int| 0 <= i < peers@.len() ==> #[trigger] peers@[i] == compact_v4_peer(b@, start as int, i),
        decreases len - o,
    {
        assert(o + 6 <= len);
        let port = read_u16_be(b, o + 4);
        let peer = PeerAddr { ip: PeerIp::V4([b[o], b[o + 1], b[o + 2], b[o + 3]]), port };
        proof {
            let i = (o - start) / 6;
            assert(o == start + 6 * i);
        }
        peers.push(peer);
        o = o + 6;
    }
    peers
}

impl AnnounceResponse {
    /// Reads an announce response of at least 20 bytes. An error response (action 3), or a
    /// peer list that is not a whole number of entries, is refused.
    pub fn new(v: &[u8]) -> (r: Result<AnnounceResponse, UdpResponseError>)
        requires
            v@.len() >= 20,
        ensures
            (be_i32_at(v@, 0) == 3 || (v@.len() - 20) % 6 != 0) ==> (r matches Err(
                UdpResponseError::ServerError,
            )),
            !(be_i32_at(v@, 0) == 3 || (v@.len() - 20) % 6 != 0) ==> (r matches Ok(a) && a.action
                == be_i32_at(v@, 0) && a.transaction_id == be_i32_at(v@, 4) && a.interval
                == be_i32_at(v@, 8) && a.leechers == be_i32_at(v@, 12) && a.seeders == be_i32_at(
                v@,
                16,
            ) && a.peersAddresses@.len() == (v@.len() - 20) / 6 && forall|i: int|
                0 <= i < a.peersAddresses@.len() ==> #[trigger] a.peersAddresses@[i]
                    == compact_v4_peer(v@, 20, i)),
    {
        let action = read_i32_be(v, 0);
        let transaction_id = read_i32_be(v, 4);
        let interval = read_i32_be(v, 8);
        let leechers = read_i32_be(v, 12);
        let seeders = read_i32_be(v, 16);
        if action == 3 || (v.len() - 20) % 6 != 0 {
            return Err(UdpResponseError::ServerError);
        }
        let peersAddresses = read_compact_v4_peers(v, 20);
        Ok(AnnounceResponse { action, transaction_id, interval, leechers, seeders, peersAddresses })
    }
}

// ---------------------------------------------------------------------------------------------
// Scrape
// ---------------------------------------------------------------------------------------------

/// A scrape request: `<connection id: i64><action = 2: i32><transaction id: i32><info hash>`.
pub struct ScrapeRequest {
    connection_id: Option<i64>,
    action: i32,
    transaction_id: Option<i32>,
    info_hash: Option<Vec<u8>>,
}

/// Abstract value of a scrape request.
pub struct ScrapeRequestView {
    pub connection_id: Option<i64>,
    pub action: i32,
    pub transaction_id: Option<i32>,
    pub info_hash: Option<Seq<u8>>,
}

impl View for ScrapeRequest {
    type V = ScrapeRequestView;

    closed spec fn view(&self) -> ScrapeRequestView {
        ScrapeRequestView {
            connection_id: self.connection_id,
            action: self.action,
            transaction_id: self.transaction_id,
            info_hash: match self.info_hash {
                Some(h) => Some(h@),
                None => None,
            },
        }
    }
}

impl Default for ScrapeRequest {
    /// A scrape request with only the action (2) set.
    fn default() -> (r: Self)
        ensures
            r@ == (ScrapeRequestView {
                connection_id: None,
                action: 2,
                transaction_id: None,
                info_hash: None,
            }),
    {
        ScrapeRequest::new()
    }
}

impl ScrapeRequest {
    /// A scrape request with only the action (2) set.
    pub fn new() -> (r: Self)
        ensures
            r@ == (ScrapeRequestView {
                connection_id: None,
                action: 2,
                transaction_id: None,
                info_hash: None,
            }),
    {
        ScrapeRequest { connection_id: None, action: 2, transaction_id: None, info_hash: None }
    }

    /// The bytes of a request whose fields are all set.
    pub fn getBytesMut(&self) -> (out: Vec<u8>)
        requires
            self@.connection_id is Some,
            self@.transaction_id is Some,
            self@.info_hash is Some,
        ensures
            out@ == u64_bytes(self@.connection_id->0 as u64) + u32_bytes(self@.action as u32)
                + u32_bytes(self@.transaction_id->0 as u32) + self@.info_hash->0,
    {
        let mut out: Vec<u8> = Vec::new();
        push_u64_be(&mut out, self.connection_id.unwrap() as u64);
        push_u32_be(&mut out, self.action as u32);
        push_u32_be(&mut out, self.transaction_id.unwrap() as u32);
        match &self.info_hash {
            Some(h) => push_slice(&mut out, h.as_slice()),
            None => {},
        }
        out
    }

    /// Sets the connection id.
    pub fn set_connection_id(&mut self, v: i64)
        ensures
            final(self)@ == (ScrapeRequestView { connection_id: Some(v), ..old(self)@ }),
    {
        self.connection_id = Some(v);
    }

    /// Sets the transaction id.
    pub fn set_transaction_id(&mut self, v: i32)
        ensures
            final(self)@ == (ScrapeRequestView { transaction_id: Some(v), ..old(self)@ }),
    {
        self.transaction_id = Some(v);
    }

    /// Sets the info hash (its length is not checked).
    pub fn set_info_hash(&mut self, v: Vec<u8>)
        ensures
            final(self)@ == (ScrapeRequestView { info_hash: Some(v@), ..old(self)@ }),
    {
        self.info_hash = Some(v);
    }
}


// ---------------------------------------------------------------------------------------------
// Errors and classification of datagrams
// ---------------------------------------------------------------------------------------------

#[verifier::external_type_specification]
#[verifier::external_body]
pub struct ExFromUtf8Error(std::string::FromUtf8Error);

/// Calls `String::from_utf8`: the bytes as text when they are valid UTF-8, refused otherwise.
#[verifier::external_body]
fn string_from_utf8(bytes: Vec<u8>) -> (r: Result<String, std::string::FromUtf8Error>)
    ensures
        r is Ok <==> valid_utf8(bytes@),
        r matches Ok(s) ==> s@ == decode_utf8(bytes@),
{
    String::from_utf8(bytes)
}

/// An error response: `<action = 3: i32><transaction id: i32><message>`.
#[derive(Debug, Clone)]
pub struct ErrorResponse {
    pub action: i32,
    pub transaction_id: i32,
    pub message: String,
}

impl ErrorResponse {
    /// Reads an error response of at least 8 bytes; the message must be UTF-8.
    pub fn from(v: &[u8]) -> (r: Result<ErrorResponse, std::string::FromUtf8Error>)
        requires
            v@.len() >= 8,
        ensures
            valid_utf8(v@.subrange(8, v@.len() as int)) ==> (r matches Ok(e) && e.action
                == be_i32_at(v@, 0) && e.transaction_id == be_i32_at(v@, 4) && e.message@
                == decode_utf8(v@.subrange(8, v@.len() as int))),
            !valid_utf8(v@.subrange(8, v@.len() as int)) ==> r is Err,
    {
        let action = read_i32_be(v, 0);
        let transaction_id = read_i32_be(v, 4);
        let message_bytes = copy_range(v, 8, v.len());
        match string_from_utf8(message_bytes) {
            Ok(message) => Ok(ErrorResponse { action, transaction_id, message }),
            Err(e) => Err(e),
        }
    }
}

/// The request last sent to a tracker, if any.
#[derive(Debug, Default)]
pub enum TrackerRequest {
    ConnectRequest(ConnectRequest),
    AnnounceRequest(AnnounceRequest),
    #[default]
    Empty,
}

/// The response last read from a tracker.
#[derive(Debug)]
pub enum TrackerResponse {
    ConnectResponse(ConnectResponse),
    AnnounceResponse(AnnounceResponse),
    Error,
    Empty,
}

/// The transaction id a connect response must carry: that of the connect request sent,
/// or 0 when none was.
pub open spec fn expected_connect_transaction(request: TrackerRequest) -> i32 {
    match request {
        TrackerRequest::ConnectRequest(c) => c.transaction_id,
        _ => 0,
    }
}

/// The transaction id an announce response must carry: that of the announce request sent,
/// or 0 when none was.
pub open spec fn expected_announce_transaction(request: TrackerRequest) -> i32 {
    match request {
        TrackerRequest::AnnounceRequest(a) => a@.transaction_id->0,
        _ => 0,
    }
}

/// A sent announce request carries a transaction id.
pub open spec fn announce_request_ready(request: TrackerRequest) -> bool {
    request matches TrackerRequest::AnnounceRequest(a) ==> a@.transaction_id is Some
}

/// Whether a datagram is the connect response to a request with transaction id `expected`:
/// at least 16 bytes, action 0 and that transaction id.
pub open spec fn spec_is_connect_response(d: Seq<u8>, expected: i32) -> bool {
    d.len() >= 16 && be_i32_at(d, 0) == 0 && be_i32_at(d, 4) == expected
}

/// Whether a datagram is the announce response to a request with transaction id
/// `expected`: at least 20 bytes, action 1 and that transaction id.
pub open spec fn spec_is_announce_response(d: Seq<u8>, expected: i32) -> bool {
    d.len() >= 20 && be_i32_at(d, 0) == 1 && be_i32_at(d, 4) == expected
}

impl TrackerRequest {
    /// The transaction id a connect response must carry.
    pub fn connect_transaction_id(&self) -> (t: i32)
        ensures
            t == expected_connect_transaction(*self),
    {
        match self {
            TrackerRequest::ConnectRequest(c) => c.transaction_id,
            _ => 0,
        }
    }

    /// The transaction id an announce response must carry.
    pub fn announce_transaction_id(&self) -> (t: i32)
        requires
            announce_request_ready(*self),
        ensures
            t == expected_announce_transaction(*self),
    {
        match self {
            TrackerRequest::AnnounceRequest(a) => a.transaction_id().unwrap(),
            _ => 0,
        }
    }
}

/// Whether `d` is the connect response to a request with transaction id `expected`.
pub fn is_connect_response(d: &[u8], expected: i32) -> (b: bool)
    ensures
        b == spec_is_connect_response(d@, expected),
{
    d.len() >= 16 && read_i32_be(d, 0) == 0 && read_i32_be(d, 4) == expected
}

/// Whether `d` is the announce response to a request with transaction id `expected`.
pub fn is_announce_response(d: &[u8], expected: i32) -> (b: bool)
    ensures
        b == spec_is_announce_response(d@, expected),
{
    d.len() >= 20 && read_i32_be(d, 0) == 1 && read_i32_be(d, 4) == expected
}

impl TrackerResponse {
    /// Reads a datagram from a UDP tracker: the connect response to the connect request
    /// sent, the announce response to the announce request sent, or nothing of use.
    pub fn from_datagram(
        d: &[u8],
        connect_request: &TrackerRequest,
        announce_request: &TrackerRequest,
    ) -> (r: TrackerResponse)
        requires
            announce_request_ready(*announce_request),
        ensures
            spec_is_connect_response(d@, expected_connect_transaction(*connect_request)) ==> (r matches TrackerResponse::ConnectResponse(c)
                && c.action == 0 && c.transaction_id == be_i32_at(d@, 4) && c.connection_id
                == be_i64_at(d@, 8)),
            !spec_is_connect_response(d@, expected_connect_transaction(*connect_request))
                && spec_is_announce_response(d@, expected_announce_transaction(*announce_request))
                ==> (if (d@.len() - 20) % 6 == 0 {
                r matches TrackerResponse::AnnounceResponse(a) && a.action == 1 && a.transaction_id
                    == be_i32_at(d@, 4) && a.interval == be_i32_at(d@, 8) && a.leechers == be_i32_at(
                    d@,
                    12,
                ) && a.seeders == be_i32_at(d@, 16) && a.peersAddresses@.len() == (d@.len() - 20)
                    / 6 && forall|i: int|
                    0 <= i < a.peersAddresses@.len() ==> #[trigger] a.peersAddresses@[i]
                        == compact_v4_peer(d@, 20, i)
            } else {
                r matches TrackerResponse::Empty
            }),
            !spec_is_connect_response(d@, expected_connect_transaction(*connect_request))
                && !spec_is_announce_response(d@, expected_announce_transaction(*announce_request))
                ==> (r matches TrackerResponse::Empty),
    {
        if is_connect_response(d, connect_request.connect_transaction_id()) {
            match ConnectResponse::from(d) {
                Ok(c) => TrackerResponse::ConnectResponse(c),
                Err(_) => TrackerResponse::Empty,
            }
        } else if is_announce_response(d, announce_request.announce_transaction_id()) {
            match AnnounceResponse::new(d) {
                Ok(a) => TrackerResponse::AnnounceResponse(a),
                Err(_) => TrackerResponse::Empty,
            }
        } else {
            TrackerResponse::Empty
        }
    }
}

} // verus!
