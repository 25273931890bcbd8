//! The decisions of announcing to a UDP tracker (BEP 15): when to connect, when to announce,
//! how long a send may take, and what each reply leads to. The caller sends, receives and
//! waits, and reports each outcome as an event.
use crate::net::PeerAddr;
use crate::tracker::{bytes_left, response_timeout_secs, spec_bytes_left};
use crate::udp_tracker::{udp_announce_peer_id, AnnounceRequest, AnnounceRequestView, TrackerResponse};
use vstd::arithmetic::power2::pow2;
use vstd::prelude::*;

verus! {

/// Where an exchange with a UDP tracker stands.
#[derive(Debug, Clone, Copy, PartialEq, Eq, Structural)]
pub enum UdpPhase {
    /// A connect request is being sent.
    SendingConnect,
    /// Waiting after a connect request could not be sent.
    PausedConnect,
    /// Waiting for the connect response.
    AwaitingConnect,
    /// An announce request is being sent.
    SendingAnnounce,
    /// Waiting after an announce request could not be sent.
    PausedAnnounce,
    /// Waiting for the announce response.
    AwaitingAnnounce,
    /// Waiting out the interval the tracker asked for.
    PausedAfterAnnounce,
    /// The connection id expired while announcing: nothing more is sent.
    Stalled,
}

/// What became of the last action.
#[derive(Debug)]
pub enum UdpEvent {
    /// The request went out.
    Sent,
    /// Sending took longer than the action allowed.
    SendTimedOut,
    /// Sending failed.
    SendFailed,
    /// A reply arrived, as [`TrackerResponse::from_datagram`] reads it; `None` when no reply
    /// can arrive any more.
    Received(Option<TrackerResponse>),
    /// A pause is over.
    PauseOver,
}

/// What the caller does next.
#[derive(Debug)]
pub enum UdpAction {
    /// Send a connect request, within `timeout_secs` seconds.
    SendConnect { timeout_secs: u64 },
    /// Send an announce request for this connection, within `timeout_secs` seconds.
    SendAnnounce { connection_id: i64, transaction_id: i32, timeout_secs: u64 },
    /// Wait for the tracker's reply.
    Receive,
    /// Wait `secs` seconds.
    Pause { secs: u64 },
    /// Hand these peers to the download, then wait `pause_secs` seconds.
    Announced { peers: Vec<PeerAddr>, pause_secs: u64 },
    /// Send nothing more to this tracker.
    Stop,
}

/// Abstract value of a [`UdpAction`].
pub enum UdpActionView {
    SendConnect { timeout_secs: u64 },
    SendAnnounce { connection_id: i64, transaction_id: i32, timeout_secs: u64 },
    Receive,
    Pause { secs: u64 },
    Announced { peers: Seq<PeerAddr>, pause_secs: u64 },
    Stop,
}

impl View for UdpAction {
    type V = UdpActionView;

    open spec fn view(&self) -> UdpActionView {
        match self {
            UdpAction::SendConnect { timeout_secs } => UdpActionView::SendConnect { timeout_secs: *timeout_secs },
            UdpAction::SendAnnounce { connection_id, transaction_id, timeout_secs } => UdpActionView::SendAnnounce {
                connection_id: *connection_id,
                transaction_id: *transaction_id,
                timeout_secs: *timeout_secs,
            },
            UdpAction::Receive => UdpActionView::Receive,
            UdpAction::Pause { secs } => UdpActionView::Pause { secs: *secs },
            UdpAction::Announced { peers, pause_secs } => UdpActionView::Announced {
                peers: peers@,
                pause_secs: *pause_secs,
            },
            UdpAction::Stop => UdpActionView::Stop,
        }
    }
}

/// The decisions of an exchange with one UDP tracker.
pub struct UdpAnnouncer {
    phase: UdpPhase,
    connect_timeouts: u64,
    announce_timeouts: u64,
    connected_at: u64,
    connection: Option<(i64, i32)>,
}

/// Abstract value of a [`UdpAnnouncer`]: the phase, how many sends of each kind timed out
/// (counted up to 9), when the last connect reply came (in the caller's seconds) and the
/// connection id and transaction id it carried, if it was a connect response.
pub struct UdpAnnouncerView {
    pub phase: UdpPhase,
    pub connect_timeouts: u64,
    pub announce_timeouts: u64,
    pub connected_at: u64,
    pub connection: Option<(i64, i32)>,
}

impl View for UdpAnnouncer {
    type V = UdpAnnouncerView;

    closed spec fn view(&self) -> UdpAnnouncerView {
        UdpAnnouncerView {
            phase: self.phase,
            connect_timeouts: self.connect_timeouts,
            announce_timeouts: self.announce_timeouts,
            connected_at: self.connected_at,
            connection: self.connection,
        }
    }
}

/// Seconds a send may take after `n` timeouts: 15, doubled per timeout, up to 8 doublings.
pub open spec fn udp_timeout(n: u64) -> u64 {
    (15 * pow2(if n < 8 {
        n as nat
    } else {
        8
    })) as u64
}

/// The timeout count after one more timeout: it stops growing past 9.
pub open spec fn bumped(n: u64) -> u64 {
    if n <= 8 {
        (n + 1) as u64
    } else {
        n
    }
}

/// A connection id serves for a minute after its connect reply arrived (BEP 15).
pub open spec fn connection_fresh(connected_at: u64, now: u64) -> bool {
    now <= connected_at + 60
}

/// The connection a reply opens: that of a connect response, none for any other reply.
pub open spec fn connection_of(r: TrackerResponse) -> Option<(i64, i32)> {
    match r {
        TrackerResponse::ConnectResponse(c) => Some((c.connection_id, c.transaction_id)),
        _ => None,
    }
}

/// Sending a connect request.
pub open spec fn connect_step(s: UdpAnnouncerView) -> (UdpAnnouncerView, UdpActionView) {
    (
        UdpAnnouncerView { phase: UdpPhase::SendingConnect, ..s },
        UdpActionView::SendConnect { timeout_secs: udp_timeout(s.connect_timeouts) },
    )
}

/// An announce attempt: with a fresh connection id, the announce request is sent, or, when the
/// last connect reply was no connect response, there is no request to send and the reply is
/// awaited at once. Announcing goes on only while the connection id is fresh: once it has
/// expired, the exchange sends nothing more.
pub open spec fn announce_step(s: UdpAnnouncerView, now: u64) -> (UdpAnnouncerView, UdpActionView) {
    if !connection_fresh(s.connected_at, now) {
        (UdpAnnouncerView { phase: UdpPhase::Stalled, ..s }, UdpActionView::Stop)
    } else {
        match s.connection {
            Some((connection_id, transaction_id)) => (
                UdpAnnouncerView { phase: UdpPhase::SendingAnnounce, ..s },
                UdpActionView::SendAnnounce {
                    connection_id,
                    transaction_id,
                    timeout_secs: udp_timeout(s.announce_timeouts),
                },
            ),
            None => (UdpAnnouncerView { phase: UdpPhase::AwaitingAnnounce, ..s }, UdpActionView::Receive),
        }
    }
}

/// One step of the exchange, at time `now`: connect, announce while the connection id is
/// fresh (and nothing more once it has expired), and after an announce response hand the peers
/// over, wait the interval and connect again. A send that times out is tried again with a longer timeout; a send that fails is
/// tried again after 1000 seconds; a connect reply of any kind starts the announcing, and
/// any other reply while announcing leads to another announce. Any event ends a pause.
pub open spec fn udp_step(s: UdpAnnouncerView, e: UdpEvent, now: u64) -> (UdpAnnouncerView, UdpActionView) {
    match s.phase {
        UdpPhase::SendingConnect => match e {
            UdpEvent::Sent => (UdpAnnouncerView { phase: UdpPhase::AwaitingConnect, ..s }, UdpActionView::Receive),
            UdpEvent::SendTimedOut => connect_step(
                UdpAnnouncerView { connect_timeouts: bumped(s.connect_timeouts), ..s },
            ),
            UdpEvent::SendFailed => (
                UdpAnnouncerView { phase: UdpPhase::PausedConnect, ..s },
                UdpActionView::Pause { secs: 1000 },
            ),
            _ => connect_step(s),
        },
        UdpPhase::PausedConnect => connect_step(s),
        UdpPhase::AwaitingConnect => match e {
            UdpEvent::Received(Some(r)) => announce_step(
                UdpAnnouncerView {
                    connection: connection_of(r),
                    connected_at: now,
                    announce_timeouts: 0,
                    ..s
                },
                now,
            ),
            UdpEvent::Received(None) => connect_step(s),
            _ => (s, UdpActionView::Receive),
        },
        UdpPhase::SendingAnnounce => match e {
            UdpEvent::Sent => (UdpAnnouncerView { phase: UdpPhase::AwaitingAnnounce, ..s }, UdpActionView::Receive),
            UdpEvent::SendTimedOut => announce_step(
                UdpAnnouncerView { announce_timeouts: bumped(s.announce_timeouts), ..s },
                now,
            ),
            UdpEvent::SendFailed => (
                UdpAnnouncerView { phase: UdpPhase::PausedAnnounce, ..s },
                UdpActionView::Pause { secs: 1000 },
            ),
            _ => announce_step(s, now),
        },
        UdpPhase::PausedAnnounce => announce_step(s, now),
        UdpPhase::AwaitingAnnounce => match e {
            UdpEvent::Received(Some(TrackerResponse::AnnounceResponse(a))) => (
                UdpAnnouncerView { phase: UdpPhase::PausedAfterAnnounce, ..s },
                UdpActionView::Announced { peers: a.peersAddresses@, pause_secs: a.interval as u64 },
            ),
            UdpEvent::Received(_) => announce_step(s, now),
            _ => (s, UdpActionView::Receive),
        },
        UdpPhase::PausedAfterAnnounce => connect_step(s),
        UdpPhase::Stalled => (s, UdpActionView::Stop),
    }
}

impl UdpAnnouncer {
    /// An exchange that starts by sending a connect request with the shortest timeout.
    pub fn start() -> (r: (UdpAnnouncer, UdpAction))
        ensures
            r.0@ == (UdpAnnouncerView {
                phase: UdpPhase::SendingConnect,
                connect_timeouts: 0,
                announce_timeouts: 0,
                connected_at: 0,
                connection: None,
            }),
            r.1@ == (UdpActionView::SendConnect { timeout_secs: udp_timeout(0) }),
    {
        let announcer = UdpAnnouncer {
            phase: UdpPhase::SendingConnect,
            connect_timeouts: 0,
            announce_timeouts: 0,
            connected_at: 0,
            connection: None,
        };
        let action = announcer.connect_action();
        (announcer, action)
    }

    /// The phase of the exchange.
    pub fn phase(&self) -> (p: UdpPhase)
        ensures
            p == self@.phase,
    {
        self.phase
    }

    fn connect_action(&self) -> (action: UdpAction)
        ensures
            action@ == connect_step(self@).1,
    {
        UdpAction::SendConnect { timeout_secs: response_timeout_secs(self.connect_timeouts) }
    }

    fn connect(&mut self) -> (action: UdpAction)
        ensures
            (final(self)@, action@) == connect_step(old(self)@),
    {
        self.phase = UdpPhase::SendingConnect;
        self.connect_action()
    }

    fn announce(&mut self, now: u64) -> (action: UdpAction)
        ensures
            (final(self)@, action@) == announce_step(old(self)@, now),
    {
        let fresh = now <= self.connected_at || now - self.connected_at <= 60;
        if !fresh {
            self.phase = UdpPhase::Stalled;
            return UdpAction::Stop;
        }
        match self.connection {
            Some((connection_id, transaction_id)) => {
                self.phase = UdpPhase::SendingAnnounce;
                UdpAction::SendAnnounce {
                    connection_id,
                    transaction_id,
                    timeout_secs: response_timeout_secs(self.announce_timeouts),
                }
            },
            None => {
                self.phase = UdpPhase::AwaitingAnnounce;
                UdpAction::Receive
            },
        }
    }

    /// Takes what became of the last action, at time `now` (in seconds of a clock that does
    /// not go back), and says what to do next: see [`udp_step`].
    pub fn step(&mut self, event: UdpEvent, now: u64) -> (action: UdpAction)
        ensures
            (final(self)@, action@) == udp_step(old(self)@, event, now),
    {
        match self.phase {
            UdpPhase::SendingConnect => match event {
                UdpEvent::Sent => {
                    self.phase = UdpPhase::AwaitingConnect;
                    UdpAction::Receive
                },
                UdpEvent::SendTimedOut => {
                    if self.connect_timeouts <= 8 {
                        self.connect_timeouts = self.connect_timeouts + 1;
                    }
                    self.connect()
                },
                UdpEvent::SendFailed => {
                    self.phase = UdpPhase::PausedConnect;
                    UdpAction::Pause { secs: 1000 }
                },
                _ => self.connect(),
            },
            UdpPhase::PausedConnect => self.connect(),
            UdpPhase::AwaitingConnect => match event {
                UdpEvent::Received(Some(response)) => {
                    self.connection = match response {
                        TrackerResponse::ConnectResponse(c) => Some((c.connection_id, c.transaction_id)),
                        _ => None,
                    };
                    self.connected_at = now;
                    self.announce_timeouts = 0;
                    self.announce(now)
                },
                UdpEvent::Received(None) => self.connect(),
                _ => UdpAction::Receive,
            },
            UdpPhase::SendingAnnounce => match event {
                UdpEvent::Sent => {
                    self.phase = UdpPhase::AwaitingAnnounce;
                    UdpAction::Receive
                },
                UdpEvent::SendTimedOut => {
                    if self.announce_timeouts <= 8 {
                        self.announce_timeouts = self.announce_timeouts + 1;
                    }
                    self.announce(now)
                },
                UdpEvent::SendFailed => {
                    self.phase = UdpPhase::PausedAnnounce;
                    UdpAction::Pause { secs: 1000 }
                },
                _ => self.announce(now),
            },
            UdpPhase::PausedAnnounce => self.announce(now),
            UdpPhase::AwaitingAnnounce => match event {
                UdpEvent::Received(Some(TrackerResponse::AnnounceResponse(a))) => {
                    self.phase = UdpPhase::PausedAfterAnnounce;
                    UdpAction::Announced { peers: a.peersAddresses, pause_secs: a.interval as u64 }
                },
                UdpEvent::Received(_) => self.announce(now),
                _ => UdpAction::Receive,
            },
            UdpPhase::PausedAfterAnnounce => self.connect(),
            UdpPhase::Stalled => UdpAction::Stop,
        }
    }
}

/// The announce request of a UDP exchange: the connection id and transaction id of the
/// connect response, the torrent's info hash, the bytes downloaded and left, nothing
/// uploaded, the first UDP port of the torrent (none when it has none) and `key`.
pub fn udp_announce_request(
    connection_id: i64,
    transaction_id: i32,
    info_hash: Vec<u8>,
    downloaded: i64,
    total: i64,
    udp_ports: &[u16],
    key: i32,
) -> (r: AnnounceRequest)
    ensures
        r@ == (AnnounceRequestView {
            connection_id: Some(connection_id),
            action: 1,
            transaction_id: Some(transaction_id),
            info_hash: Some(info_hash@),
            peer_id: Some(udp_announce_peer_id()),
            downloaded: Some(downloaded),
            left: Some(spec_bytes_left(total, downloaded) as i64),
            uploaded: Some(0),
            event: Some(1),
            ip_address: Some(0),
            key: Some(key),
            num_want: -1i32,
            port: if udp_ports@.len() > 0 {
                Some(udp_ports@[0] as i16)
            } else {
                None
            },
        }),
{
    let mut request = AnnounceRequest::empty();
    request.set_connection_id(connection_id);
    request.set_transaction_id(transaction_id);
    request.set_info_hash(info_hash);
    request.set_downloaded(downloaded);
    request.set_uploaded(0);
    request.set_left(bytes_left(total, downloaded));
    if udp_ports.len() > 0 {
        request.set_port(udp_ports[0] as i16);
    }
    request.set_key(key);
    request
}

} // verus!
