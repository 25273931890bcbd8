//! Trackers: their URL and protocol, the query of an HTTP announce, the peers an HTTP
//! tracker answers with, and the states a tracker goes through.
use crate::net::{PeerAddr, PeerIp};
use crate::torrent::FileMeta;
use crate::text::same_chars;
use crate::udp_tracker::{compact_v4_peer, read_compact_v4_peers, AnnounceResponse};
use crate::wire::{be_u16, read_u16_be};
use vstd::prelude::*;

verus! {

#[verifier::external_type_specification]
#[verifier::external_body]
pub struct ExUrlParseError(url::ParseError);

#[verifier::external_type_specification]
#[verifier::external_body]
pub struct ExReqwestError(reqwest::Error);

#[verifier::external_type_specification]
#[verifier::external_body]
pub struct ExInstant(std::time::Instant);

/// Why talking to a tracker failed.
#[derive(Debug)]
pub enum TrackerError {
    UnsupportedProtocol(String),
    InvalidUrl(url::ParseError),
    HttpRequest(reqwest::Error),
    Bencode(serde_bencode::Error),
    TrackerFailure(String),
    InvalidPeerIp { ip: String },
    InvalidCompactPeerList { family: &'static str, chunk_size: usize, len: usize },
}

// ---------------------------------------------------------------------------------------------
// Tracker URLs
// ---------------------------------------------------------------------------------------------

/// A parsed tracker URL, as plain text.
pub struct TrackerUrl {
    /// The whole URL.
    pub href: String,
    /// Its scheme.
    pub scheme: String,
    /// Its query, without the `?`.
    pub query: Option<String>,
    /// The URL without query and fragment.
    pub base: String,
}

/// Abstract value of a [`TrackerUrl`].
pub struct TrackerUrlView {
    pub href: Seq<char>,
    pub scheme: Seq<char>,
    pub query: Option<Seq<char>>,
    pub base: Seq<char>,
}

impl View for TrackerUrl {
    type V = TrackerUrlView;

    open spec fn view(&self) -> TrackerUrlView {
        TrackerUrlView {
            href: self.href@,
            scheme: self.scheme@,
            query: match self.query {
                Some(q) => Some(q@),
                None => None,
            },
            base: self.base@,
        }
    }
}

/// What `url::Url::parse` makes of a string, read through the URL's serialization, scheme
/// and query, and its serialization once query and fragment are removed.
pub uninterp spec fn url_parse(address: Seq<char>) -> Option<TrackerUrlView>;

/// Calls `url::Url::parse` and reads the result as text. Whether a string parses, and into
/// what, follows the URL standard; it is named [`url_parse`], a function of the string
/// alone, and not stated.
#[verifier::external_body]
fn parse_url(address: &str) -> (r: Result<TrackerUrl, url::ParseError>)
    ensures
        match url_parse(address@) {
            Some(v) => r matches Ok(u) && u@ == v,
            None => r is Err,
        },
{
    let url = url::Url::parse(address)?;
    let mut base = url.clone();
    base.set_query(None);
    base.set_fragment(None);
    Ok(TrackerUrl {
        href: url.to_string(),
        scheme: url.scheme().to_owned(),
        query: url.query().map(str::to_owned),
        base: base.to_string(),
    })
}

impl TrackerUrl {
    /// Parses a tracker URL.
    pub fn parse(address: &str) -> (r: Result<TrackerUrl, url::ParseError>)
        ensures
            match url_parse(address@) {
                Some(v) => r matches Ok(u) && u@ == v,
                None => r is Err,
            },
    {
        parse_url(address)
    }
}

/// How a tracker is spoken to.
#[derive(PartialEq, Eq, Structural, Debug, Clone, Copy)]
pub enum TrackerProtocol {
    Udp,
    Http,
}

/// The protocol of a URL scheme: `udp`, or `http` and `https`.
pub open spec fn protocol_of_scheme(scheme: Seq<char>) -> Option<TrackerProtocol> {
    if scheme == seq!['u', 'd', 'p'] {
        Some(TrackerProtocol::Udp)
    } else if scheme == seq!['h', 't', 't', 'p'] || scheme == seq!['h', 't', 't', 'p', 's'] {
        Some(TrackerProtocol::Http)
    } else {
        None
    }
}

impl TrackerProtocol {
    /// The protocol for a URL scheme; other schemes are refused.
    pub fn from_scheme(scheme: &str) -> (r: Result<TrackerProtocol, TrackerError>)
        ensures
            match protocol_of_scheme(scheme@) {
                Some(p) => r matches Ok(q) && q == p,
                None => r matches Err(TrackerError::UnsupportedProtocol(s)) && s@ == scheme@,
            },
    {
        if same_chars(scheme, &['u', 'd', 'p']) {
            Ok(TrackerProtocol::Udp)
        } else if same_chars(scheme, &['h', 't', 't', 'p']) || same_chars(
            scheme,
            &['h', 't', 't', 'p', 's'],
        ) {
            Ok(TrackerProtocol::Http)
        } else {
            Err(TrackerError::UnsupportedProtocol(String::from_str(scheme)))
        }
    }
}

/// A tracker's URL and the protocol it is spoken to with.
pub struct TrackerTarget {
    pub address: TrackerUrl,
    pub protocol: TrackerProtocol,
}

impl TrackerTarget {
    /// The tracker at `address`: the URL must parse and its scheme must be `udp`, `http` or
    /// `https`.
    pub fn new(address: &str) -> (r: Result<TrackerTarget, TrackerError>)
        ensures
            match url_parse(address@) {
                None => r matches Err(TrackerError::InvalidUrl(_)),
                Some(u) => match protocol_of_scheme(u.scheme) {
                    Some(p) => r matches Ok(t) && t.address@ == u && t.protocol == p,
                    None => r matches Err(TrackerError::UnsupportedProtocol(s)) && s@ == u.scheme,
                },
            },
    {
        let url = match TrackerUrl::parse(address) {
            Ok(u) => u,
            Err(e) => {
                return Err(TrackerError::InvalidUrl(e));
            },
        };
        match TrackerProtocol::from_scheme(url.scheme.as_str()) {
            Ok(protocol) => Ok(TrackerTarget { address: url, protocol }),
            Err(e) => Err(e),
        }
    }

    /// Whether the tracker speaks UDP.
    pub fn is_udp(&self) -> (b: bool)
        ensures
            b == (self.protocol == TrackerProtocol::Udp),
    {
        self.protocol == TrackerProtocol::Udp
    }

    /// Whether the tracker speaks HTTP.
    pub fn is_http(&self) -> (b: bool)
        ensures
            b == (self.protocol == TrackerProtocol::Http),
    {
        self.protocol == TrackerProtocol::Http
    }
}

// ---------------------------------------------------------------------------------------------
// Text of numbers and bytes
// ---------------------------------------------------------------------------------------------

/// The character of a decimal digit.
pub open spec fn digit_char(d: int) -> char {
    (48 + d) as char
}

/// The decimal digits of `n`.
pub open spec fn decimal_digits(n: nat) -> Seq<char>
    decreases n,
{
    if n < 10 {
        seq![digit_char(n as int)]
    } else {
        decimal_digits(n / 10) + seq![digit_char((n % 10) as int)]
    }
}

/// The decimal text of `n`, with a `-` before a negative number.
pub open spec fn decimal_text(n: int) -> Seq<char> {
    if n < 0 {
        seq!['-'] + decimal_digits((-n) as nat)
    } else {
        decimal_digits(n as nat)
    }
}

/// The decimal digits of `m`.
fn digits_string(m: u128) -> (s: String)
    ensures
        s@ == decimal_digits(m as nat),
    decreases m,
{
    let digits = "0123456789";
    proof {
        reveal_strlit("0123456789");
        assert(forall|d: int| 0 <= d < 10 ==> #[trigger] digits@[d] == digit_char(d));
    }
    if m < 10 {
        let d = m as usize;
        let one = digits.substring_char(d, d + 1);
        assert(one@ =~= seq![digit_char(m as int)]);
        String::from_str(one)
    } else {
        let mut s = digits_string(m / 10);
        let d = (m % 10) as usize;
        let one = digits.substring_char(d, d + 1);
        assert(one@ =~= seq![digit_char((m % 10) as int)]);
        s.append(one);
        s
    }
}

/// The decimal text of `n`, with a `-` before a negative number.
pub(crate) fn decimal_string(n: i128) -> (s: String)
    ensures
        s@ == decimal_text(n as int),
{
    if n < 0 {
        let m: u128 = (-(n + 1)) as u128 + 1;
        let mut s = String::from_str("-");
        proof {
            reveal_strlit("-");
        }
        let digits = digits_string(m);
        s.append(digits.as_str());
        s
    } else {
        digits_string(n as u128)
    }
}

/// The character of a hexadecimal digit, in upper case.
pub open spec fn hex_upper(d: int) -> char {
    if d < 10 {
        (48 + d) as char
    } else {
        (55 + d) as char
    }
}

/// Whether a byte is an ASCII letter or digit.
pub open spec fn is_ascii_alphanumeric(b: u8) -> bool {
    (48 <= b <= 57) || (65 <= b <= 90) || (97 <= b <= 122)
}

/// Percent-encoding with the `NON_ALPHANUMERIC` set: ASCII letters and digits stay, every
/// other byte becomes `%` and two upper-case hexadecimal digits.
pub open spec fn percent_encoded(b: Seq<u8>) -> Seq<char>
    decreases b.len(),
{
    if b.len() == 0 {
        Seq::empty()
    } else {
        let last = b.last();
        percent_encoded(b.drop_last()) + if is_ascii_alphanumeric(last) {
            seq![last as char]
        } else {
            seq!['%', hex_upper(last as int / 16), hex_upper(last as int % 16)]
        }
    }
}

/// Calls `percent_encoding::percent_encode` with `NON_ALPHANUMERIC` and writes the result out.
#[verifier::external_body]
fn percent_encode_bytes(value: &[u8]) -> (s: String)
    ensures
        s@ == percent_encoded(value@),
{
    percent_encoding::percent_encode(value, percent_encoding::NON_ALPHANUMERIC).to_string()
}

/// Percent-encodes bytes with the `NON_ALPHANUMERIC` set.
pub fn percEncode(byteVector: Vec<u8>) -> (s: String)
    ensures
        s@ == percent_encoded(byteVector@),
{
    percent_encode_bytes(byteVector.as_slice())
}

// ---------------------------------------------------------------------------------------------
// HTTP announce URL
// ---------------------------------------------------------------------------------------------

/// Peer id this client announces itself with, `-HBYxxx-QMAXYDGHQAHF`.
pub open spec fn client_peer_id() -> Seq<u8> {
    seq![45u8, 72, 66, 89, 120, 120, 120, 45, 81, 77, 65, 88, 89, 68, 71, 72, 81, 65, 72, 70]
}

/// The peer id this client announces itself with.
pub fn peer_id() -> (id: [u8; 20])
    ensures
        id@ == client_peer_id(),
{
    let id: [u8; 20] = [45, 72, 66, 89, 120, 120, 120, 45, 81, 77, 65, 88, 89, 68, 71, 72, 81, 65, 72, 70];
    assert(id@ =~= client_peer_id());
    id
}

/// `query` with the pair `key=value` appended, after a `&` if `query` is not empty.
pub open spec fn with_pair(query: Seq<char>, key: Seq<char>, value: Seq<char>) -> Seq<char> {
    (if query.len() > 0 {
        query + seq!['&']
    } else {
        query
    }) + key + seq!['='] + value
}

/// Appends `key=value` to a query.
pub fn append_query_pair(query: &mut String, key: &str, value: &str)
    ensures
        final(query)@ == with_pair(old(query)@, key@, value@),
{
    if !query.as_str().is_empty() {
        query.append("&");
    }
    query.append(key);
    query.append("=");
    query.append(value);
    proof {
        reveal_strlit("&");
        reveal_strlit("=");
    }
}

/// Appends `key=<value percent-encoded>` to a query.
pub fn append_bytes_query_pair(query: &mut String, key: &str, value: &[u8])
    ensures
        final(query)@ == with_pair(old(query)@, key@, percent_encoded(value@)),
{
    let encoded = percent_encode_bytes(value);
    append_query_pair(query, key, encoded.as_str());
}

/// The query of an HTTP announce: the URL's own query, then the info hash and peer id
/// (percent-encoded), the port, nothing uploaded, the bytes downloaded and left (at least
/// 0), a compact peer list, up to 80 peers, and the `started` event.
pub open spec fn announce_query(
    original: Seq<char>,
    info_hash: Seq<u8>,
    downloaded: int,
    left: int,
    port: int,
) -> Seq<char> {
    let q1 = with_pair(original, "info_hash"@, percent_encoded(info_hash));
    let q2 = with_pair(q1, "peer_id"@, percent_encoded(client_peer_id()));
    let q3 = with_pair(q2, "port"@, decimal_text(port));
    let q4 = with_pair(q3, "uploaded"@, decimal_text(0));
    let q5 = with_pair(q4, "downloaded"@, decimal_text(if downloaded < 0 { 0 } else { downloaded }));
    let q6 = with_pair(q5, "left"@, decimal_text(if left < 0 { 0 } else { left }));
    let q7 = with_pair(q6, "compact"@, decimal_text(1));
    let q8 = with_pair(q7, "numwant"@, decimal_text(80));
    with_pair(q8, "event"@, "started"@)
}

/// The URL of an HTTP announce: the tracker URL without query and fragment, `?`, and the
/// announce query.
pub fn build_http_announce_url_with_values(
    address: &TrackerUrl,
    info_hash: &[u8],
    downloaded: i64,
    left: i64,
    port: u16,
) -> (url: String)
    ensures
        url@ == address@.base + seq!['?'] + announce_query(
            match address@.query {
                Some(q) => q,
                None => Seq::empty(),
            },
            info_hash@,
            downloaded as int,
            left as int,
            port as int,
        ),
{
    let mut query = match &address.query {
        Some(q) => q.clone(),
        None => String::new(),
    };
    let id = peer_id();
    append_bytes_query_pair(&mut query, "info_hash", info_hash);
    append_bytes_query_pair(&mut query, "peer_id", &id);
    append_query_pair(&mut query, "port", decimal_string(port as i128).as_str());
    append_query_pair(&mut query, "uploaded", decimal_string(0).as_str());
    let downloaded_shown = if downloaded < 0 {
        0
    } else {
        downloaded
    };
    let left_shown = if left < 0 {
        0
    } else {
        left
    };
    append_query_pair(&mut query, "downloaded", decimal_string(downloaded_shown as i128).as_str());
    append_query_pair(&mut query, "left", decimal_string(left_shown as i128).as_str());
    append_query_pair(&mut query, "compact", decimal_string(1).as_str());
    append_query_pair(&mut query, "numwant", decimal_string(80).as_str());
    append_query_pair(&mut query, "event", "started");
    let mut url = address.base.clone();
    url.append("?");
    url.append(query.as_str());
    proof {
        reveal_strlit("?");
    }
    url
}


// ---------------------------------------------------------------------------------------------
// Peers in HTTP announce responses
// ---------------------------------------------------------------------------------------------

/// The IPv6 peer entry `i` (18 bytes: address, then port) of `b`.
pub open spec fn compact_v6_peer(b: Seq<u8>, i: int) -> PeerAddr {
    let o = 18 * i;
    PeerAddr {
        ip: PeerIp::V6(
            [
                b[o],
                b[o + 1],
                b[o + 2],
                b[o + 3],
                b[o + 4],
                b[o + 5],
                b[o + 6],
                b[o + 7],
                b[o + 8],
                b[o + 9],
                b[o + 10],
                b[o + 11],
                b[o + 12],
                b[o + 13],
                b[o + 14],
                b[o + 15],
            ],
        ),
        port: be_u16(b.subrange(o + 16, o + 18)) as u16,
    }
}

/// The compact IPv4 peers: 6 bytes each, address then port.
pub open spec fn compact_v4_peers(b: Seq<u8>) -> Seq<PeerAddr> {
    Seq::new(b.len() / 6, |i: int| compact_v4_peer(b, 0, i))
}

/// A compact IPv4 list of `6 * k` bytes holds exactly `k` peers; peer `i` is the address in
/// bytes `6i..6i+4` with the big-endian port in bytes `6i+4..6i+6`.
pub proof fn lemma_compact_v4_peers(b: Seq<u8>)
    requires
        b.len() % 6 == 0,
    ensures
        compact_v4_peers(b).len() * 6 == b.len(),
        forall|i: int|
            0 <= i < compact_v4_peers(b).len() ==> #[trigger] compact_v4_peers(b)[i] == (PeerAddr {
                ip: PeerIp::V4([b[6 * i], b[6 * i + 1], b[6 * i + 2], b[6 * i + 3]]),
                port: (b[6 * i + 4] * 256 + b[6 * i + 5]) as u16,
            }),
{
    assert forall|i: int| 0 <= i < compact_v4_peers(b).len() implies #[trigger] compact_v4_peers(
        b,
    )[i] == (PeerAddr {
        ip: PeerIp::V4([b[6 * i], b[6 * i + 1], b[6 * i + 2], b[6 * i + 3]]),
        port: (b[6 * i + 4] * 256 + b[6 * i + 5]) as u16,
    }) by {
        let o = 6 * i;
        assert(b.subrange(o + 4, o + 6)[0] == b[o + 4]);
        assert(b.subrange(o + 4, o + 6)[1] == b[o + 5]);
    }
}

/// The compact IPv6 peers: 18 bytes each, address then port.
pub open spec fn compact_v6_peers(b: Seq<u8>) -> Seq<PeerAddr> {
    Seq::new(b.len() / 18, |i: int| compact_v6_peer(b, i))
}

/// A compact IPv6 list of `18 * k` bytes holds exactly `k` peers; peer `i` is the address in
/// bytes `18i..18i+16` with the big-endian port in bytes `18i+16..18i+18`.
pub proof fn lemma_compact_v6_peers(b: Seq<u8>)
    requires
        b.len() % 18 == 0,
    ensures
        compact_v6_peers(b).len() * 18 == b.len(),
        forall|i: int|
            0 <= i < compact_v6_peers(b).len() ==> ((#[trigger] compact_v6_peers(b)[i]).ip matches PeerIp::V6(
                a,
            ) && a@ == b.subrange(18 * i, 18 * i + 16)),
        forall|i: int|
            0 <= i < compact_v6_peers(b).len() ==> (#[trigger] compact_v6_peers(b)[i]).port == (b[18
                * i + 16] * 256 + b[18 * i + 17]) as u16,
{
    assert forall|i: int| 0 <= i < compact_v6_peers(b).len() implies (#[trigger] compact_v6_peers(
        b,
    )[i]).port == (b[18 * i + 16] * 256 + b[18 * i + 17]) as u16 by {
        let o = 18 * i;
        assert(b.subrange(o + 16, o + 18)[0] == b[o + 16]);
        assert(b.subrange(o + 16, o + 18)[1] == b[o + 17]);
    }
    assert forall|i: int| 0 <= i < compact_v6_peers(b).len() implies ((#[trigger] compact_v6_peers(
        b,
    )[i]).ip matches PeerIp::V6(a) && a@ == b.subrange(18 * i, 18 * i + 16)) by {
        let p = compact_v6_peer(b, i);
        if let PeerIp::V6(a) = p.ip {
            assert(a@ =~= b.subrange(18 * i, 18 * i + 16));
        }
    }
}

/// Reads a compact IPv4 peer list; its length must be a multiple of 6.
pub fn parse_compact_ipv4_peers(bytes: &[u8]) -> (r: Result<Vec<PeerAddr>, TrackerError>)
    ensures
        bytes@.len() % 6 == 0 ==> (r matches Ok(peers) && peers@ == compact_v4_peers(bytes@)),
        bytes@.len() % 6 == 0 ==> (r matches Ok(peers) && peers@.len() * 6 == bytes@.len() && (
        forall|i: int|
            0 <= i < peers@.len() ==> #[trigger] peers@[i] == (PeerAddr {
                ip: PeerIp::V4(
                    [bytes@[6 * i], bytes@[6 * i + 1], bytes@[6 * i + 2], bytes@[6 * i + 3]],
                ),
                port: (bytes@[6 * i + 4] * 256 + bytes@[6 * i + 5]) as u16,
            }))),
        bytes@.len() % 6 != 0 ==> (r matches Err(
            TrackerError::InvalidCompactPeerList { family, chunk_size, len },
        ) && family@ == "IPv4"@ && chunk_size == 6 && len == bytes@.len()),
{
    if bytes.len() % 6 != 0 {
        return Err(
            TrackerError::InvalidCompactPeerList { family: "IPv4", chunk_size: 6, len: bytes.len() },
        );
    }
    let peers = read_compact_v4_peers(bytes, 0);
    assert(peers@ =~= compact_v4_peers(bytes@));
    proof {
        lemma_compact_v4_peers(bytes@);
    }
    Ok(peers)
}

/// Reads a compact IPv6 peer list; its length must be a multiple of 18.
pub fn parse_compact_ipv6_peers(bytes: &[u8]) -> (r: Result<Vec<PeerAddr>, TrackerError>)
    ensures
        bytes@.len() % 18 == 0 ==> (r matches Ok(peers) && peers@ == compact_v6_peers(bytes@)),
        bytes@.len() % 18 != 0 ==> (r matches Err(
            TrackerError::InvalidCompactPeerList { family, chunk_size, len },
        ) && family@ == "IPv6"@ && chunk_size == 18 && len == bytes@.len()),
{
    if bytes.len() % 18 != 0 {
        return Err(
            TrackerError::InvalidCompactPeerList {
                family: "IPv6",
                chunk_size: 18,
                len: bytes.len(),
            },
        );
    }
    let mut peers: Vec<PeerAddr> = Vec::new();
    let len = bytes.len();
    let mut o: usize = 0;
    while o < len
        invariant
            o <= len,
            len == bytes@.len(),
            len % 18 == 0,
            o % 18 == 0,
            peers@.len() == o / 18,
            forall|i: int| 0 <= i < peers@.len() ==> #[trigger] peers@[i] == compact_v6_peer(bytes@, i),
        decreases len - o,
    {
        assert(o + 18 <= len);
        let ip: [u8; 16] = [
            bytes[o],
            bytes[o + 1],
            bytes[o + 2],
            bytes[o + 3],
            bytes[o + 4],
            bytes[o + 5],
            bytes[o + 6],
            bytes[o + 7],
            bytes[o + 8],
            bytes[o + 9],
            bytes[o + 10],
            bytes[o + 11],
            bytes[o + 12],
            bytes[o + 13],
            bytes[o + 14],
            bytes[o + 15],
        ];
        let port = read_u16_be(bytes, o + 16);
        proof {
            let i = o / 18;
            assert(o == 18 * i);
        }
        peers.push(PeerAddr { ip: PeerIp::V6(ip), port });
        o = o + 18;
    }
    assert(peers@ =~= compact_v6_peers(bytes@));
    Ok(peers)
}

/// One peer of a dictionary peer list: its address text, that text read as an IP address
/// (`None` when it is not one), and its port.
pub struct HttpPeer {
    pub ip: String,
    pub address: Option<PeerIp>,
    pub port: u16,
}

/// The `peers` entry of an HTTP announce response.
pub enum HttpPeers {
    Compact(Vec<u8>),
    Dictionary(Vec<HttpPeer>),
}

/// The decoded body of an HTTP announce response.
pub struct HttpAnnounceResponse {
    pub interval: Option<i64>,
    pub complete: Option<i64>,
    pub incomplete: Option<i64>,
    pub peers: Option<HttpPeers>,
    pub peers6: Vec<u8>,
    pub failure_reason: Option<String>,
}

/// Index of the first peer whose address text is not an IP address.
pub open spec fn first_invalid_peer(peers: Seq<HttpPeer>) -> Option<int>
    decreases peers.len(),
{
    if peers.len() == 0 {
        None
    } else if peers[0].address is None {
        Some(0)
    } else {
        match first_invalid_peer(peers.drop_first()) {
            Some(i) => Some(i + 1),
            None => None,
        }
    }
}

/// The addresses of a dictionary peer list whose addresses are all IP addresses.
pub open spec fn dictionary_peers(peers: Seq<HttpPeer>) -> Seq<PeerAddr> {
    Seq::new(peers.len(), |i: int| PeerAddr { ip: peers[i].address->0, port: peers[i].port })
}

/// The IPv4 (or dictionary) peers of a response, when they are well formed.
pub open spec fn v4_peers(peers: Option<HttpPeers>) -> Seq<PeerAddr> {
    match peers {
        None => Seq::empty(),
        Some(HttpPeers::Compact(b)) => compact_v4_peers(b@),
        Some(HttpPeers::Dictionary(ps)) => dictionary_peers(ps@),
    }
}

/// `v` at least `low`.
pub open spec fn at_least(v: int, low: int) -> int {
    if v < low {
        low
    } else {
        v
    }
}

/// Reads the peer entry of a response; refused when a compact list is not made of whole
/// entries or a dictionary entry's address is not an IP address.
fn collect_v4_peers(peers: &Option<HttpPeers>) -> (r: Result<Vec<PeerAddr>, TrackerError>)
    ensures
        peers is None ==> (r matches Ok(v) && v@.len() == 0),
        peers matches Some(HttpPeers::Compact(b)) ==> (b@.len() % 6 != 0 ==> (r matches Err(
            TrackerError::InvalidCompactPeerList { family, chunk_size, len },
        ) && family@ == "IPv4"@ && chunk_size == 6 && len == b@.len())),
        peers matches Some(HttpPeers::Compact(b)) ==> (b@.len() % 6 == 0 ==> (r matches Ok(v)
            && v@ == v4_peers(*peers))),
        peers matches Some(HttpPeers::Dictionary(ps)) ==> (first_invalid_peer(ps@) is Some ==> (
        r matches Err(TrackerError::InvalidPeerIp { ip }) && ip@ == ps@[first_invalid_peer(
            ps@,
        )->0].ip@)),
        peers matches Some(HttpPeers::Dictionary(ps)) ==> (first_invalid_peer(ps@) is None ==> (
        r matches Ok(v) && v@ == v4_peers(*peers))),
{
    match peers {
        None => Ok(Vec::new()),
        Some(HttpPeers::Compact(bytes)) => parse_compact_ipv4_peers(bytes.as_slice()),
        Some(HttpPeers::Dictionary(ps)) => {
            let mut out: Vec<PeerAddr> = Vec::new();
            let mut i: usize = 0;
            assert(ps@.skip(0) =~= ps@);
            while i < ps.len()
                invariant
                    *peers == Some(HttpPeers::Dictionary(*ps)),
                    i <= ps@.len(),
                    out@.len() == i,
                    forall|k: int| 0 <= k < i ==> (#[trigger] ps@[k]).address is Some,
                    forall|k: int|
                        0 <= k < i ==> #[trigger] out@[k] == (PeerAddr {
                            ip: ps@[k].address->0,
                            port: ps@[k].port,
                        }),
                    first_invalid_peer(ps@) == (match first_invalid_peer(ps@.skip(i as int)) {
                        Some(j) => Some(j + i),
                        None => None,
                    }),
                decreases ps@.len() - i,
            {
                proof {
                    assert(ps@.skip(i as int).drop_first() =~= ps@.skip(i + 1));
                    assert(ps@.skip(i as int)[0] == ps@[i as int]);
                }
                match ps[i].address {
                    Some(ip) => {
                        out.push(PeerAddr { ip, port: ps[i].port });
                    },
                    None => {
                        assert(first_invalid_peer(ps@.skip(i as int)) == Some(0int));
                        assert(first_invalid_peer(ps@) == Some(i as int));
                        let ip = ps[i].ip.clone();
                        assert(ip@ == ps@[i as int].ip@);
                        return Err(TrackerError::InvalidPeerIp { ip });
                    },
                }
                i = i + 1;
            }
            proof {
                assert(ps@.skip(i as int).len() == 0);
                assert(out@ =~= dictionary_peers(ps@));
            }
            Ok(out)
        },
    }
}

/// Reads a decoded HTTP announce response: a failure reason is an error; otherwise the
/// peers (compact or dictionary, then compact IPv6), the interval (1800 seconds when absent,
/// at least 1), and the seeders and leechers (0 when absent, at least 0).
pub fn parse_http_announce_response(response: HttpAnnounceResponse) -> (r: Result<
    AnnounceResponse,
    TrackerError,
>)
    ensures
        match response.failure_reason {
            Some(reason) => r matches Err(TrackerError::TrackerFailure(t)) && t@ == reason@,
            None => match response.peers {
                Some(HttpPeers::Compact(b)) if b@.len() % 6 != 0 => r matches Err(
                    TrackerError::InvalidCompactPeerList { family, chunk_size, len },
                ) && family@ == "IPv4"@ && chunk_size == 6 && len == b@.len(),
                Some(HttpPeers::Dictionary(ps)) if first_invalid_peer(ps@) is Some => r matches Err(
                    TrackerError::InvalidPeerIp { ip },
                ) && ip@ == ps@[first_invalid_peer(ps@)->0].ip@,
                _ => if response.peers6@.len() % 18 != 0 {
                    r matches Err(TrackerError::InvalidCompactPeerList { family, chunk_size, len })
                        && family@ == "IPv6"@ && chunk_size == 18 && len == response.peers6@.len()
                } else {
                    r matches Ok(a) && a.action == 1 && a.transaction_id == 0 && a.interval
                        == at_least(
                        match response.interval {
                            Some(i) => i as int,
                            None => 1800,
                        },
                        1,
                    ) as i32 && a.leechers == at_least(
                        match response.incomplete {
                            Some(i) => i as int,
                            None => 0,
                        },
                        0,
                    ) as i32 && a.seeders == at_least(
                        match response.complete {
                            Some(i) => i as int,
                            None => 0,
                        },
                        0,
                    ) as i32 && a.peersAddresses@ == v4_peers(response.peers) + compact_v6_peers(
                        response.peers6@,
                    )
                },
            },
        },
{
    if let Some(reason) = response.failure_reason {
        return Err(TrackerError::TrackerFailure(reason));
    }
    let mut peers = match collect_v4_peers(&response.peers) {
        Ok(p) => p,
        Err(e) => {
            return Err(e);
        },
    };
    let mut v6 = match parse_compact_ipv6_peers(response.peers6.as_slice()) {
        Ok(p) => p,
        Err(e) => {
            return Err(e);
        },
    };
    proof {
        if response.peers is None {
            assert(peers@ =~= v4_peers(response.peers));
        }
    }
    peers.append(&mut v6);
    let interval = match response.interval {
        Some(i) => i,
        None => 1800,
    };
    let interval = if interval < 1 {
        1
    } else {
        interval
    };
    let leechers = match response.incomplete {
        Some(i) => i,
        None => 0,
    };
    let leechers = if leechers < 0 {
        0
    } else {
        leechers
    };
    let seeders = match response.complete {
        Some(i) => i,
        None => 0,
    };
    let seeders = if seeders < 0 {
        0
    } else {
        seeders
    };
    Ok(
        AnnounceResponse {
            action: 1,
            transaction_id: 0,
            interval: interval as i32,
            leechers: leechers as i32,
            seeders: seeders as i32,
            peersAddresses: peers,
        },
    )
}

// ---------------------------------------------------------------------------------------------
// Tracker states and timing
// ---------------------------------------------------------------------------------------------

/// The states a tracker goes through.
#[derive(Debug, Copy, Clone)]
pub enum TrackerState {
    /// Nothing is being done with the tracker.
    Idle,
    /// Its host name is being resolved.
    DNSResolving,
    /// Its host name did not resolve (or a request failed); retried later.
    DNSUnresolved { retry_time: std::time::Instant },
    /// Its host name resolved.
    DNSResolved,
    /// A connect request was sent (UDP).
    WaitingForConnectResponse,
    /// An announce request was sent.
    WaitingForAnnounceResponse,
    /// A scrape request was sent (UDP).
    WaitingForScrapeResponse,
}

/// The text a tracker state is shown with; an unresolved tracker shows the seconds since
/// the failure, `elapsed_secs`.
pub open spec fn state_label(state: TrackerState, elapsed_secs: u64) -> Seq<char> {
    match state {
        TrackerState::Idle => "Idle"@,
        TrackerState::DNSResolving => "DNS Resolving"@,
        TrackerState::DNSResolved => "DNS Resolved"@,
        TrackerState::WaitingForConnectResponse => "Waiting for Connect Response"@,
        TrackerState::WaitingForAnnounceResponse => "Waiting for Announce Response"@,
        TrackerState::WaitingForScrapeResponse => "Waiting for Scrape Response"@,
        TrackerState::DNSUnresolved { .. } => "DNSUnresolved ("@ + decimal_text(
            elapsed_secs as int,
        ) + "/30 sec)"@,
    }
}

impl TrackerState {
    /// The text the state is shown with.
    pub fn label(&self, elapsed_secs: u64) -> (s: String)
        ensures
            s@ == state_label(*self, elapsed_secs),
    {
        match self {
            TrackerState::Idle => String::from_str("Idle"),
            TrackerState::DNSResolving => String::from_str("DNS Resolving"),
            TrackerState::DNSResolved => String::from_str("DNS Resolved"),
            TrackerState::WaitingForConnectResponse => String::from_str("Waiting for Connect Response"),
            TrackerState::WaitingForAnnounceResponse => String::from_str(
                "Waiting for Announce Response",
            ),
            TrackerState::WaitingForScrapeResponse => String::from_str("Waiting for Scrape Response"),
            TrackerState::DNSUnresolved { .. } => {
                let mut s = String::from_str("DNSUnresolved (");
                s.append(decimal_string(elapsed_secs as i128).as_str());
                s.append("/30 sec)");
                s
            },
        }
    }

    /// Whether the state is shown as an error: unresolved or idle.
    pub fn is_error(&self) -> (b: bool)
        ensures
            b == (*self is DNSUnresolved || *self is Idle),
    {
        match self {
            TrackerState::DNSUnresolved { .. } | TrackerState::Idle => true,
            _ => false,
        }
    }
}

/// Bytes left to download, `total - downloaded`, saturated at the bounds of `i64`.
pub open spec fn spec_bytes_left(total: i64, downloaded: i64) -> int {
    let d = total - downloaded;
    if d > i64::MAX {
        i64::MAX as int
    } else if d < i64::MIN {
        i64::MIN as int
    } else {
        d
    }
}

/// Bytes left to download.
pub fn bytes_left(total: i64, downloaded: i64) -> (left: i64)
    ensures
        left == spec_bytes_left(total, downloaded),
{
    if downloaded < 0 && total > i64::MAX + downloaded {
        i64::MAX
    } else if downloaded > 0 && total < i64::MIN + downloaded {
        i64::MIN
    } else {
        total - downloaded
    }
}

/// The port to announce: the first UDP port of the torrent, or 6881.
pub fn announce_port(udp_ports: &[u16]) -> (port: u16)
    ensures
        udp_ports@.len() > 0 ==> port == udp_ports@[0],
        udp_ports@.len() == 0 ==> port == 6881,
{
    if udp_ports.len() > 0 {
        udp_ports[0]
    } else {
        6881
    }
}

/// Seconds to wait for a UDP tracker response after `n` timeouts: 15 seconds, doubled per
/// timeout, up to 8 doublings.
pub fn response_timeout_secs(n: u64) -> (secs: u64)
    ensures
        secs == 15 * vstd::arithmetic::power2::pow2(if n < 8 { n as nat } else { 8 }),
{
    let doublings = if n < 8 {
        n
    } else {
        8
    };
    let mut secs: u64 = 15;
    let mut i: u64 = 0;
    proof {
        vstd::arithmetic::power2::lemma2_to64();
    }
    while i < doublings
        invariant
            i <= doublings <= 8,
            secs == 15 * vstd::arithmetic::power2::pow2(i as nat),
        decreases doublings - i,
    {
        proof {
            vstd::arithmetic::power2::lemma_pow2_unfold((i + 1) as nat);
            vstd::arithmetic::power2::lemma_pow2_strictly_increases(i as nat, 8);
            vstd::arithmetic::power2::lemma2_to64();
        }
        secs = secs * 2;
        i = i + 1;
    }
    secs
}

/// Seconds to wait before the next HTTP announce after a failure: twice the last delay, at
/// most 300. Doubling a delay whose double does not fit in `u64` seconds overflows, so such a
/// delay is left out.
pub fn next_retry_delay_secs(secs: u64) -> (next: u64)
    requires
        secs * 2 <= u64::MAX,
    ensures
        next == (if secs * 2 < 300 { secs * 2 } else { 300 }),
{
    if secs * 2 < 300 {
        secs * 2
    } else {
        300
    }
}

/// Seconds until the next HTTP announce: the tracker's interval, at least 30.
pub fn reannounce_secs(interval: i32) -> (secs: u64)
    ensures
        secs == at_least(interval as int, 30),
{
    if interval < 30 {
        30
    } else {
        interval as u64
    }
}


// ---------------------------------------------------------------------------------------------
// Tracker tiers
// ---------------------------------------------------------------------------------------------

/// Whether a tracker URL is usable: it parses and its scheme is `udp`, `http` or `https`.
pub open spec fn usable_tracker(address: Seq<char>) -> bool {
    url_parse(address) matches Some(u) && protocol_of_scheme(u.scheme) is Some
}

/// The tracker at a usable address: its parsed URL and the protocol of the URL's scheme.
pub open spec fn tracker_at(address: Seq<char>) -> (TrackerUrlView, TrackerProtocol) {
    let u = url_parse(address)->0;
    (u, protocol_of_scheme(u.scheme)->0)
}

/// The usable trackers among `addresses`, in order: each one's parsed URL and protocol.
pub open spec fn usable_trackers(addresses: Seq<Seq<char>>) -> Seq<(TrackerUrlView, TrackerProtocol)>
    decreases addresses.len(),
{
    if addresses.len() == 0 {
        Seq::empty()
    } else {
        usable_trackers(addresses.drop_last()) + if usable_tracker(addresses.last()) {
            seq![tracker_at(addresses.last())]
        } else {
            Seq::empty()
        }
    }
}

/// The trackers of a tier: each one's URL and protocol.
pub open spec fn tier_targets(tier: Seq<TrackerTarget>) -> Seq<(TrackerUrlView, TrackerProtocol)> {
    tier.map_values(|t: TrackerTarget| (t.address@, t.protocol))
}

/// The usable trackers of a list of addresses, in order, each with the protocol of its scheme.
pub fn usable_tier(addresses: &Vec<String>) -> (tier: Vec<TrackerTarget>)
    ensures
        tier_targets(tier@) == usable_trackers(crate::magnet::texts(addresses@)),
{
    let mut tier: Vec<TrackerTarget> = Vec::new();
    let mut i: usize = 0;
    while i < addresses.len()
        invariant
            i <= addresses@.len(),
            tier_targets(tier@) == usable_trackers(crate::magnet::texts(addresses@.subrange(0, i as int))),
        decreases addresses@.len() - i,
    {
        let ghost before = tier@;
        assert(crate::magnet::texts(addresses@.subrange(0, i + 1)).drop_last() =~= crate::magnet::texts(
            addresses@.subrange(0, i as int),
        ));
        match TrackerTarget::new(addresses[i].as_str()) {
            Ok(t) => {
                tier.push(t);
                assert(tier_targets(tier@) =~= tier_targets(before).push((tier@.last().address@, tier@.last().protocol)));
            },
            Err(_) => {},
        }
        i = i + 1;
    }
    assert(addresses@.subrange(0, i as int) =~= addresses@);
    tier
}

/// The trackers of a torrent, tier by tier (BEP 12): every tier of the announce list with
/// its usable trackers, or, without an announce list, the announce URL alone when it is
/// usable; each tracker is spoken to with the protocol of its URL's scheme.
pub fn tracker_tiers(meta: &FileMeta) -> (tiers: Vec<Vec<TrackerTarget>>)
    ensures
        match meta.announce_list {
            Some(list) => tiers@.len() == list@.len() && forall|i: int|
                0 <= i < tiers@.len() ==> tier_targets(#[trigger] tiers@[i]@) == usable_trackers(
                    crate::magnet::texts(list@[i]@),
                ),
            None => if usable_tracker(meta.announce@) {
                tiers@.len() == 1 && tier_targets(tiers@[0]@) == seq![tracker_at(meta.announce@)]
            } else {
                tiers@.len() == 0
            },
        },
{
    let mut tiers: Vec<Vec<TrackerTarget>> = Vec::new();
    match &meta.announce_list {
        Some(list) => {
            let mut i: usize = 0;
            while i < list.len()
                invariant
                    i <= list@.len(),
                    tiers@.len() == i,
                    forall|k: int|
                        0 <= k < i ==> tier_targets(#[trigger] tiers@[k]@) == usable_trackers(
                            crate::magnet::texts(list@[k]@),
                        ),
                decreases list@.len() - i,
            {
                tiers.push(usable_tier(&list[i]));
                i = i + 1;
            }
        },
        None => {
            if let Ok(t) = TrackerTarget::new(meta.announce.as_str()) {
                let mut tier: Vec<TrackerTarget> = Vec::new();
                tier.push(t);
                assert(tier_targets(tier@) =~= seq![tracker_at(meta.announce@)]);
                tiers.push(tier);
            }
        },
    }
    tiers
}

} // verus!
