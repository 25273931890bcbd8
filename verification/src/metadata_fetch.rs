//! The decisions of fetching a magnet torrent's info dictionary from a peer (BEP 9/10): what to
//! send, what each message of the peer means, and when the metadata is complete. The caller
//! sends and receives the messages, decodes the bencoded parts it is handed, and reports back.
use crate::messages::{extension_bit_set, handshake_peer_id, protocol_string, Handshake, Message, MessageView};
use crate::metadata::{
    all_pieces_present, concat_pieces, extension_id_of, extension_map_view, lemma_value_end_bounds,
    metadata_piece_count, read_metadata_payload, request_payload, size_agrees, truncated,
    ut_metadata_key, value_end, BencodePrefix, CollectorView, MagnetMetadataError,
    MagnetMetadataFetcher, MetadataCollector, MetadataMessage, MetadataPayloadHeader,
    MetadataPieceMessage, MetadataReading, PeerExtensionHandshake, RemoteExtensionHandshake,
};
use vstd::prelude::*;

verus! {

/// Where a metadata fetch stands.
#[derive(Debug, Clone, Copy, PartialEq, Eq, Structural)]
pub enum FetchPhase {
    /// Waiting for the peer's handshake.
    AwaitingPeerHandshake,
    /// Waiting for the peer's extension handshake.
    AwaitingExtensionHandshake,
    /// Waiting for the decoded extension handshake.
    DecodingExtensionHandshake,
    /// Waiting for `ut_metadata` messages.
    Collecting,
    /// Waiting for the decoded header of a `ut_metadata` message.
    DecodingPieceHeader,
    /// The metadata is complete.
    Done,
}

/// What the caller reports.
pub enum FetchEvent {
    /// The peer's next message.
    Message(Message),
    /// The extension handshake that the last action asked to decode.
    ExtensionHandshake(RemoteExtensionHandshake),
    /// The `ut_metadata` header that the last action asked to decode.
    PieceHeader(MetadataPayloadHeader),
}

/// What the caller does next.
pub enum FetchAction {
    /// Send these messages, then report the peer's next message.
    Send(Vec<Message>),
    /// Send this client's extension handshake (`LocalExtensionHandshake::new()`, bencoded, as
    /// extended message 0), then report the peer's next message.
    SendExtensionHandshake,
    /// Report the peer's next message.
    Receive,
    /// Decode these bytes as the peer's extension handshake and report it.
    DecodeExtensionHandshake(Vec<u8>),
    /// Decode these bytes as the bencoded header of a `ut_metadata` message and report it.
    DecodePieceHeader(Vec<u8>),
    /// The fetched info dictionary.
    Done(Vec<u8>),
}

/// The steps of one metadata fetch.
pub struct MetadataFetch {
    info_hash: Vec<u8>,
    phase: FetchPhase,
    ut_metadata_id: u8,
    collector: Option<MetadataCollector>,
    pending: Vec<u8>,
    header_length: usize,
}

/// Abstract value of a [`MetadataFetch`]: the info hash, the phase, the peer's `ut_metadata`
/// id, the pieces collected, and the payload whose header is being decoded.
pub struct FetchView {
    pub info_hash: Seq<u8>,
    pub phase: FetchPhase,
    pub ut_metadata_id: u8,
    pub collector: Option<CollectorView>,
    pub pending: Seq<u8>,
    pub header_length: nat,
}

impl View for MetadataFetch {
    type V = FetchView;

    closed spec fn view(&self) -> FetchView {
        FetchView {
            info_hash: self.info_hash@,
            phase: self.phase,
            ut_metadata_id: self.ut_metadata_id,
            collector: match self.collector {
                Some(c) => Some(c@),
                None => None,
            },
            pending: self.pending@,
            header_length: self.header_length as nat,
        }
    }
}

/// The requests for every piece of metadata of `size` bytes, from a peer whose `ut_metadata`
/// id is `id`.
pub open spec fn piece_requests(id: u8, size: nat) -> Seq<MessageView> {
    Seq::new(
        metadata_piece_count(size),
        |i: int| MessageView::Extended { extension_id: id, payload: request_payload(i as nat) },
    )
}

/// A collector for metadata of `size` bytes with no piece yet.
pub open spec fn fresh_collector(size: nat) -> CollectorView {
    CollectorView {
        total_size: size,
        pieces: Seq::new(metadata_piece_count(size), |i: int| None::<Seq<u8>>),
    }
}

/// One step of a fetch: the peer's handshake must name the torrent and offer the extension
/// protocol; then the extension handshake is awaited, decoded, and must offer `ut_metadata`
/// with a size, upon which every piece is asked for; each `ut_metadata` message of the peer
/// has its header decoded and its piece stored, until every piece is there. Other messages
/// are passed over. An error ends the fetch and changes nothing.
pub open spec fn fetch_outcome(
    s: FetchView,
    e: FetchEvent,
    s2: FetchView,
    r: Result<FetchAction, MagnetMetadataError>,
) -> bool {
    match (s.phase, e) {
        (FetchPhase::AwaitingPeerHandshake, FetchEvent::Message(m)) => match m@ {
            MessageView::Handshake(h) => if h.info_hash != s.info_hash {
                r matches Err(MagnetMetadataError::InfoHashMismatch) && s2 == s
            } else if !extension_bit_set(h.reserved) {
                r matches Err(MagnetMetadataError::ExtensionProtocolUnsupported) && s2 == s
            } else {
                r matches Ok(FetchAction::SendExtensionHandshake) && s2 == (FetchView {
                    phase: FetchPhase::AwaitingExtensionHandshake,
                    ..s
                })
            },
            _ => r matches Err(MagnetMetadataError::MalformedResponse(_)) && s2 == s,
        },
        (FetchPhase::AwaitingExtensionHandshake, FetchEvent::Message(m)) => match m@ {
            MessageView::Extended { extension_id, payload } if extension_id == 0 => r matches Ok(
                FetchAction::DecodeExtensionHandshake(b),
            ) && b@ == payload && s2 == (FetchView {
                phase: FetchPhase::DecodingExtensionHandshake,
                ..s
            }),
            _ => r matches Ok(FetchAction::Receive) && s2 == s,
        },
        (FetchPhase::DecodingExtensionHandshake, FetchEvent::ExtensionHandshake(remote)) => match extension_id_of(
            extension_map_view(remote.m@),
            ut_metadata_key(),
        ) {
            None => r matches Err(MagnetMetadataError::UtMetadataUnsupported) && s2 == s,
            Some(id) => match remote.metadata_size {
                None => r matches Err(MagnetMetadataError::MetadataSizeMissing) && s2 == s,
                Some(size) => r matches Ok(FetchAction::Send(v)) && v@.map_values(
                    |m: Message| m@,
                ) == piece_requests(id, size as nat) && s2 == (FetchView {
                    phase: FetchPhase::Collecting,
                    ut_metadata_id: id,
                    collector: Some(fresh_collector(size as nat)),
                    ..s
                }),
            },
        },
        (FetchPhase::Collecting, FetchEvent::Message(m)) => match m@ {
            MessageView::Extended { extension_id, payload } if extension_id
                == s.ut_metadata_id => match value_end(payload, 0) {
                None => r matches Err(MagnetMetadataError::MalformedResponse(_)) && s2 == s,
                Some(h) => r matches Ok(FetchAction::DecodePieceHeader(b)) && b@ == payload.subrange(
                    0,
                    h,
                ) && s2 == (FetchView {
                    phase: FetchPhase::DecodingPieceHeader,
                    pending: payload,
                    header_length: h as nat,
                    ..s
                }),
            },
            _ => r matches Ok(FetchAction::Receive) && s2 == s,
        },
        (FetchPhase::DecodingPieceHeader, FetchEvent::PieceHeader(header)) => {
            let c = s.collector->0;
            match read_metadata_payload(header, s.pending, s.header_length as int) {
                MetadataReading::Rejected(p) => r matches Err(MagnetMetadataError::PieceRejected(q))
                    && q == p && s2 == s,
                MetadataReading::Malformed => r matches Err(MagnetMetadataError::MalformedResponse(_))
                    && s2 == s,
                MetadataReading::Piece { piece, total_size, data } => if piece >= c.pieces.len() {
                    r matches Err(MagnetMetadataError::PieceOutOfRange { piece: p, piece_count: n })
                        && p == piece && n == c.pieces.len() && s2 == s
                } else if !size_agrees(total_size, c.total_size) {
                    r matches Err(MagnetMetadataError::MalformedResponse(_)) && s2 == s
                } else {
                    let pieces = c.pieces.update(piece as int, Some(data));
                    if all_pieces_present(pieces) {
                        r matches Ok(FetchAction::Done(v)) && v@ == truncated(
                            concat_pieces(pieces),
                            c.total_size,
                        ) && s2.phase == FetchPhase::Done
                    } else {
                        r matches Ok(FetchAction::Receive) && s2 == (FetchView {
                            phase: FetchPhase::Collecting,
                            collector: Some(CollectorView { pieces, ..c }),
                            ..s
                        })
                    }
                },
            }
        },
        _ => r matches Err(MagnetMetadataError::MalformedResponse(_)) && s2 == s,
    }
}

impl MetadataFetch {
    /// The phase and pieces fit together: from `Collecting` on there is a collector, and the
    /// header being decoded lies within its payload.
    pub closed spec fn wf(&self) -> bool {
        &&& (self.phase == FetchPhase::Collecting || self.phase == FetchPhase::DecodingPieceHeader)
            ==> self.collector is Some
        &&& self.header_length <= self.pending@.len()
    }

    /// Starts a fetch for `info_hash`, which must be 20 bytes long: the first action sends this
    /// client's handshake, which offers the extension protocol.
    pub fn start(info_hash: &[u8]) -> (r: Result<(MetadataFetch, FetchAction), MagnetMetadataError>)
        ensures
            info_hash@.len() != 20 ==> (r matches Err(MagnetMetadataError::InvalidInfoHashLength(n))
                && n == info_hash@.len()),
            info_hash@.len() == 20 ==> match r {
                Ok((f, a)) => {
                    &&& f.wf()
                    &&& f@ == (FetchView {
                        info_hash: info_hash@,
                        phase: FetchPhase::AwaitingPeerHandshake,
                        ut_metadata_id: 0,
                        collector: None,
                        pending: Seq::empty(),
                        header_length: 0,
                    })
                    &&& match a {
                        FetchAction::Send(v) => v@.len() == 1 && match v@[0]@ {
                            MessageView::Handshake(h) => {
                                &&& h.pstrlen == 19
                                &&& h.pstr == protocol_string()
                                &&& h.reserved == Seq::new(8, |i: int| 0u8).update(5, 0x10u8)
                                &&& h.info_hash == info_hash@
                                &&& h.peer_id == handshake_peer_id()
                            },
                            _ => false,
                        },
                        _ => false,
                    }
                },
                Err(_) => false,
            },
    {
        match MagnetMetadataFetcher::check_info_hash(info_hash) {
            Err(e) => Err(e),
            Ok(()) => {
                let handshake = Handshake::from_info_hash(info_hash);
                let fetch = MetadataFetch {
                    info_hash: crate::wire::copy_range(info_hash, 0, info_hash.len()),
                    phase: FetchPhase::AwaitingPeerHandshake,
                    ut_metadata_id: 0,
                    collector: None,
                    pending: Vec::new(),
                    header_length: 0,
                };
                proof {
                    assert(info_hash@.subrange(0, info_hash@.len() as int) =~= info_hash@);
                    assert(fetch@.pending =~= Seq::<u8>::empty());
                }
                let mut messages: Vec<Message> = Vec::new();
                messages.push(Message::Handshake(handshake));
                Ok((fetch, FetchAction::Send(messages)))
            },
        }
    }

    /// The phase of the fetch.
    pub fn phase(&self) -> (p: FetchPhase)
        ensures
            p == self@.phase,
    {
        self.phase
    }

    /// Takes what the caller reports and says what to do next, as [`fetch_outcome`] says.
    pub fn step(&mut self, event: FetchEvent) -> (r: Result<FetchAction, MagnetMetadataError>)
        requires
            old(self).wf(),
        ensures
            final(self).wf(),
            fetch_outcome(old(self)@, event, final(self)@, r),
    {
        match (self.phase, event) {
            (FetchPhase::AwaitingPeerHandshake, FetchEvent::Message(m)) => self.on_peer_handshake(m),
            (FetchPhase::AwaitingExtensionHandshake, FetchEvent::Message(m)) => self.on_extension_message(m),
            (FetchPhase::DecodingExtensionHandshake, FetchEvent::ExtensionHandshake(remote)) => self.on_remote(remote),
            (FetchPhase::Collecting, FetchEvent::Message(m)) => self.on_metadata_message(m),
            (FetchPhase::DecodingPieceHeader, FetchEvent::PieceHeader(header)) => self.on_piece_header(header),
            _ => Err(MagnetMetadataError::MalformedResponse("unexpected report in this phase")),
        }
    }

    fn on_peer_handshake(&mut self, m: Message) -> (r: Result<FetchAction, MagnetMetadataError>)
        requires
            old(self).wf(),
            old(self)@.phase == FetchPhase::AwaitingPeerHandshake,
        ensures
            final(self).wf(),
            fetch_outcome(old(self)@, FetchEvent::Message(m), final(self)@, r),
    {
        match MagnetMetadataFetcher::check_peer_handshake(&m, self.info_hash.as_slice()) {
            Err(e) => Err(e),
            Ok(()) => {
                self.phase = FetchPhase::AwaitingExtensionHandshake;
                Ok(FetchAction::SendExtensionHandshake)
            },
        }
    }

    fn on_extension_message(&mut self, m: Message) -> (r: Result<FetchAction, MagnetMetadataError>)
        requires
            old(self).wf(),
            old(self)@.phase == FetchPhase::AwaitingExtensionHandshake,
        ensures
            final(self).wf(),
            fetch_outcome(old(self)@, FetchEvent::Message(m), final(self)@, r),
    {
        match m {
            Message::Extended(e) => {
                if e.extension_id == 0 {
                    self.phase = FetchPhase::DecodingExtensionHandshake;
                    Ok(FetchAction::DecodeExtensionHandshake(e.payload))
                } else {
                    Ok(FetchAction::Receive)
                }
            },
            _ => Ok(FetchAction::Receive),
        }
    }

    fn on_remote(&mut self, remote: RemoteExtensionHandshake) -> (r: Result<FetchAction, MagnetMetadataError>)
        requires
            old(self).wf(),
            old(self)@.phase == FetchPhase::DecodingExtensionHandshake,
        ensures
            final(self).wf(),
            fetch_outcome(old(self)@, FetchEvent::ExtensionHandshake(remote), final(self)@, r),
    {
        match PeerExtensionHandshake::from_remote(&remote) {
            Err(e) => Err(e),
            Ok(h) => {
                let collector = MetadataCollector::new(h.metadata_size);
                let count = collector.piece_count();
                let ghost id = h.ut_metadata_id;
                let ghost size = h.metadata_size as nat;
                let mut requests: Vec<Message> = Vec::new();
                let mut piece: usize = 0;
                while piece < count
                    invariant
                        piece <= count,
                        count == metadata_piece_count(size),
                        id == h.ut_metadata_id,
                        requests@.map_values(|m: Message| m@) == piece_requests(id, size).subrange(
                            0,
                            piece as int,
                        ),
                    decreases count - piece,
                {
                    let ghost prev = requests@;
                    let message = MetadataMessage::request(h.ut_metadata_id, piece);
                    proof {
                        assert(message@ == piece_requests(id, size)[piece as int]);
                    }
                    requests.push(message);
                    proof {
                        assert(requests@.map_values(|m: Message| m@) =~= prev.map_values(
                            |m: Message| m@,
                        ).push(message@));
                        assert(piece_requests(id, size).subrange(0, piece + 1) =~= piece_requests(
                            id,
                            size,
                        ).subrange(0, piece as int).push(piece_requests(id, size)[piece as int]));
                    }
                    piece = piece + 1;
                }
                proof {
                    assert(piece_requests(id, size).subrange(0, piece as int) =~= piece_requests(
                        id,
                        size,
                    ));
                    assert(collector@.pieces =~= fresh_collector(size).pieces);
                }
                self.ut_metadata_id = h.ut_metadata_id;
                self.collector = Some(collector);
                self.phase = FetchPhase::Collecting;
                Ok(FetchAction::Send(requests))
            },
        }
    }

    fn on_metadata_message(&mut self, m: Message) -> (r: Result<FetchAction, MagnetMetadataError>)
        requires
            old(self).wf(),
            old(self)@.phase == FetchPhase::Collecting,
        ensures
            final(self).wf(),
            fetch_outcome(old(self)@, FetchEvent::Message(m), final(self)@, r),
    {
        match m {
            Message::Extended(e) => {
                if e.extension_id != self.ut_metadata_id {
                    return Ok(FetchAction::Receive);
                }
                match BencodePrefix::value_length(e.payload.as_slice()) {
                    Err(error) => Err(error),
                    Ok(h) => {
                        proof {
                            lemma_value_end_bounds(e.payload@, 0);
                        }
                        let header = crate::wire::copy_range(e.payload.as_slice(), 0, h);
                        self.pending = e.payload;
                        self.header_length = h;
                        self.phase = FetchPhase::DecodingPieceHeader;
                        Ok(FetchAction::DecodePieceHeader(header))
                    },
                }
            },
            _ => Ok(FetchAction::Receive),
        }
    }

    fn on_piece_header(&mut self, header: MetadataPayloadHeader) -> (r: Result<FetchAction, MagnetMetadataError>)
        requires
            old(self).wf(),
            old(self)@.phase == FetchPhase::DecodingPieceHeader,
        ensures
            final(self).wf(),
            fetch_outcome(old(self)@, FetchEvent::PieceHeader(header), final(self)@, r),
    {
        let ghost reading = read_metadata_payload(header, self.pending@, self.header_length as int);
        let piece = match MetadataPieceMessage::from_header(
            header,
            self.pending.as_slice(),
            self.header_length,
        ) {
            Err(e) => {
                return Err(e);
            },
            Ok(piece) => piece,
        };
        let mut collector = match self.collector.take() {
            Some(c) => c,
            None => {
                return Err(MagnetMetadataError::MalformedResponse("no metadata size yet"));
            },
        };
        let ghost before = collector@;
        match collector.insert(piece) {
            Err(e) => {
                self.collector = Some(collector);
                return Err(e);
            },
            Ok(()) => {},
        }
        if collector.is_complete() {
            self.phase = FetchPhase::Done;
            match collector.assemble() {
                Ok(metadata) => Ok(FetchAction::Done(metadata)),
                Err(e) => Err(e),
            }
        } else {
            self.collector = Some(collector);
            self.phase = FetchPhase::Collecting;
            Ok(FetchAction::Receive)
        }
    }
}

} // verus!
