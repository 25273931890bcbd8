//! What this client knows of a peer (the pieces it has, its kind, the state of the
//! connection) and the piece it downloads from the peer, block by block.
use crate::codec::PeerCodecError;
use crate::hash::sha1;
use crate::messages::{Block, Message, MessageView, Request, RangeView};
use crate::net::PeerAddr;
use crate::piece_assembler::{
    block_end, blocks_map, concat_blocks, covers_piece, sorted_by_offset, spec_ranges_overlap, PieceAssembler,
    PieceAssemblyError,
};
use crate::piece_picker::{
    after_mark_completed, after_mark_requested, after_request_failed, lemma_rarest_unique,
    lemma_requested_piece_not_eligible, PickerState, PiecePicker,
};
use crate::piece_storage::PieceStorageError;
use crate::torrent::{piece_hash_at, spec_piece_length_at, spec_total_length, FileMeta, Info};
use vstd::prelude::*;

verus! {

/// How far the relation with a peer has come.
#[derive(Debug, Clone, Copy, PartialEq, Eq, Structural)]
pub enum PeerState {
    /// No TCP connection yet.
    NotConnected,
    /// Connecting.
    TryingToConnect,
    /// Waiting after a connection attempt timed out.
    ConnectionTimeoutIdle,
    /// Waiting after a connection attempt failed.
    ConnectionErrorIdle,
    /// Connected.
    Connected,
    /// The handshake was sent.
    SentHandshake,
    /// The peer answered the handshake.
    HandshakeComplete,
    /// Exchanging pieces.
    Running,
    /// The session ended.
    Disconnected,
}

/// What kind of peer it is.
#[derive(Debug, Clone, Copy, PartialEq, Eq, Structural)]
pub enum PeerType {
    /// Lacks pieces.
    Leecher,
    /// Has every piece.
    Seeder,
    /// Has what it wanted and takes no more.
    PartialSeeder,
    /// Not known yet.
    Unknown,
}

/// The pieces a peer has and does not have, its kind and the state of the relation.
#[derive(Debug, Clone)]
pub struct PeerInfo {
    pieces_have: Vec<u32>,
    pieces_not_have: Vec<u32>,
    peer_type: PeerType,
    peer_state: PeerState,
}

/// Abstract value of [`PeerInfo`].
pub struct PeerInfoView {
    pub pieces_have: Seq<u32>,
    pub pieces_not_have: Seq<u32>,
    pub peer_type: PeerType,
    pub peer_state: PeerState,
}

impl View for PeerInfo {
    type V = PeerInfoView;

    closed spec fn view(&self) -> PeerInfoView {
        PeerInfoView {
            pieces_have: self.pieces_have@,
            pieces_not_have: self.pieces_not_have@,
            peer_type: self.peer_type,
            peer_state: self.peer_state,
        }
    }
}

/// Piece indexes as they are kept: each truncated to 32 bits.
pub open spec fn as_u32_indexes(v: Seq<usize>) -> Seq<u32> {
    v.map_values(|i: usize| i as u32)
}

impl PeerInfo {
    /// A peer about which nothing is known, not connected.
    pub fn new() -> (p: Self)
        ensures
            p@.pieces_have.len() == 0,
            p@.pieces_not_have.len() == 0,
            p@.peer_type == PeerType::Unknown,
            p@.peer_state == PeerState::NotConnected,
    {
        PeerInfo {
            pieces_have: Vec::new(),
            pieces_not_have: Vec::new(),
            peer_type: PeerType::Unknown,
            peer_state: PeerState::NotConnected,
        }
    }

    /// The pieces the peer has.
    pub fn pieces_have(&self) -> (v: &Vec<u32>)
        ensures
            v@ == self@.pieces_have,
    {
        &self.pieces_have
    }

    /// The kind of peer.
    pub fn peer_type(&self) -> (t: PeerType)
        ensures
            t == self@.peer_type,
    {
        self.peer_type
    }

    /// The state of the relation.
    pub fn peer_state(&self) -> (s: PeerState)
        ensures
            s == self@.peer_state,
    {
        self.peer_state
    }

    /// Records a new state of the relation.
    pub fn set_peer_state(&mut self, peer_state: PeerState)
        ensures
            final(self)@ == (PeerInfoView { peer_state, ..old(self)@ }),
    {
        self.peer_state = peer_state;
    }

    /// Records a `have` message: the piece joins the pieces the peer has, once.
    pub fn record_have(&mut self, piece_index: u32)
        ensures
            old(self)@.pieces_have.contains(piece_index) ==> final(self)@ == old(self)@,
            !old(self)@.pieces_have.contains(piece_index) ==> final(self)@ == (PeerInfoView {
                pieces_have: old(self)@.pieces_have.push(piece_index),
                ..old(self)@
            }),
    {
        let mut i: usize = 0;
        while i < self.pieces_have.len()
            invariant
                i <= self.pieces_have@.len(),
                self.pieces_have@ == old(self)@.pieces_have,
                forall|k: int| 0 <= k < i ==> self.pieces_have@[k] != piece_index,
            decreases self.pieces_have@.len() - i,
        {
            if self.pieces_have[i] == piece_index {
                assert(self.pieces_have@[i as int] == piece_index);
                return;
            }
            i = i + 1;
        }
        self.pieces_have.push(piece_index);
    }

    /// Records a `bitfield` message: it replaces the pieces the peer has and lacks, and the
    /// peer is a seeder when it lacks none, a leecher otherwise.
    pub fn record_bitfield(&mut self, have: &[usize], not_have: &[usize])
        ensures
            final(self)@.pieces_have == as_u32_indexes(have@),
            final(self)@.pieces_not_have == as_u32_indexes(not_have@),
            final(self)@.peer_type == (if not_have@.len() == 0 {
                PeerType::Seeder
            } else {
                PeerType::Leecher
            }),
            final(self)@.peer_state == old(self)@.peer_state,
    {
        self.pieces_have = to_u32_indexes(have);
        self.pieces_not_have = to_u32_indexes(not_have);
        self.peer_type = if self.pieces_not_have.len() == 0 {
            PeerType::Seeder
        } else {
            PeerType::Leecher
        };
    }
}

fn to_u32_indexes(v: &[usize]) -> (out: Vec<u32>)
    ensures
        out@ == as_u32_indexes(v@),
{
    let mut out: Vec<u32> = Vec::new();
    let mut i: usize = 0;
    while i < v.len()
        invariant
            i <= v@.len(),
            out@ == as_u32_indexes(v@.subrange(0, i as int)),
        decreases v@.len() - i,
    {
        out.push(v[i] as u32);
        i = i + 1;
        assert(as_u32_indexes(v@.subrange(0, i as int)) =~= as_u32_indexes(v@.subrange(0, i - 1)).push(
            v@[i - 1] as u32,
        ));
    }
    assert(v@.subrange(0, i as int) =~= v@);
    out
}

/// Why a session with a peer ended.
#[derive(Debug)]
pub enum PeerError {
    ConnectionTimeout(PeerAddr),
    Connection { addr: PeerAddr, source: std::io::Error },
    Codec(PeerCodecError),
    HandshakeClosed,
    UnexpectedHandshakeMessage(Message),
    InfoHashMismatch,
    PieceAssembly(PieceAssemblyError),
    PieceStorage(PieceStorageError),
}

/// A session with a peer, as far as it decides things: whether the peer chokes, the piece in
/// progress and what is known of the peer. The connection itself is the caller's: it hands
/// each message over and carries out the action that comes back.
pub struct PeerSession {
    peer_choking: bool,
    active: Option<ActivePiece>,
    info: PeerInfo,
}

/// Abstract value of a [`PeerSession`].
pub struct PeerSessionView {
    pub peer_choking: bool,
    pub active: Option<ActivePieceView>,
    pub info: PeerInfoView,
}

impl View for PeerSession {
    type V = PeerSessionView;

    closed spec fn view(&self) -> PeerSessionView {
        PeerSessionView {
            peer_choking: self.peer_choking,
            active: match self.active {
                Some(p) => Some(p@),
                None => None,
            },
            info: self.info@,
        }
    }
}

/// What the caller of a session does next.
#[derive(Debug)]
pub enum SessionAction {
    /// Nothing to send: wait for the peer's next message.
    Wait,
    /// Send these block requests to the peer.
    Send(Vec<Request>),
    /// Store this piece, which matched its hash, and report the outcome with
    /// [`PeerSession::piece_written`] before the next message.
    Write { index: usize, bytes: Vec<u8> },
}

impl PeerSession {
    /// Judges the peer's first message: a handshake for the torrent's info hash completes the
    /// handshake, one for another hash is refused, and any other message is unexpected.
    pub fn check_handshake(message: Message, info_hash: &[u8]) -> (r: Result<(), PeerError>)
        ensures
            match message@ {
                crate::messages::MessageView::Handshake(h) => if h.info_hash == info_hash@ {
                    r is Ok
                } else {
                    r matches Err(PeerError::InfoHashMismatch)
                },
                _ => r matches Err(PeerError::UnexpectedHandshakeMessage(m)) && m@ == message@,
            },
    {
        let is_handshake = match &message {
            Message::Handshake(_) => true,
            _ => false,
        };
        if !is_handshake {
            return Err(PeerError::UnexpectedHandshakeMessage(message));
        }
        match &message {
            Message::Handshake(handshake) => {
                if same_bytes(handshake.info_hash(), info_hash) {
                    Ok(())
                } else {
                    Err(PeerError::InfoHashMismatch)
                }
            },
            _ => Err(PeerError::HandshakeClosed),
        }
    }

    /// Seconds to wait before connecting again after a failed session: twice the last wait,
    /// at most 60. Doubling a wait whose double does not fit in `u64` seconds overflows, so
    /// such a wait is left out.
    pub fn next_retry_delay_secs(secs: u64) -> (next: u64)
        requires
            secs * 2 <= u64::MAX,
        ensures
            next == (if secs * 2 < 60 { secs * 2 } else { 60 }),
    {
        if secs * 2 < 60 {
            secs * 2
        } else {
            60
        }
    }

    /// Whether a new piece may be asked for: the peer does not choke, no piece is in progress
    /// and the peer has some piece.
    pub fn may_request_piece(peer_choking: bool, has_active_piece: bool, peer_piece_count: usize) -> (b: bool)
        ensures
            b == (!peer_choking && !has_active_piece && peer_piece_count > 0),
    {
        !peer_choking && !has_active_piece && peer_piece_count > 0
    }
}

/// Whether two byte strings are equal.
fn same_bytes(a: &[u8], b: &[u8]) -> (r: bool)
    ensures
        r == (a@ == b@),
{
    if a.len() != b.len() {
        return false;
    }
    let mut i: usize = 0;
    while i < a.len()
        invariant
            i <= a@.len(),
            a@.len() == b@.len(),
            a@.subrange(0, i as int) == b@.subrange(0, i as int),
        decreases a@.len() - i,
    {
        if a[i] != b[i] {
            return false;
        }
        assert(a@.subrange(0, i + 1) =~= a@.subrange(0, i as int).push(a@[i as int]));
        assert(b@.subrange(0, i + 1) =~= b@.subrange(0, i as int).push(b@[i as int]));
        i = i + 1;
    }
    assert(a@ =~= a@.subrange(0, i as int));
    assert(b@ =~= b@.subrange(0, i as int));
    true
}

// ---------------------------------------------------------------------------------------------
// The piece in progress
// ---------------------------------------------------------------------------------------------

/// Size of the blocks a piece is asked for in (16 KiB).
pub const BLOCK_SIZE: usize = 16384;

/// The block requests for a piece of `piece_length` bytes: 16 KiB at a time from offset 0,
/// the last one shorter.
pub open spec fn block_requests(piece_index: usize, piece_length: nat) -> Seq<RangeView> {
    let count = (piece_length + BLOCK_SIZE - 1) / (BLOCK_SIZE as int);
    Seq::new(
        count as nat,
        |k: int|
            RangeView {
                index: piece_index as u32,
                begin: (k * BLOCK_SIZE) as u32,
                length: (if piece_length - k * BLOCK_SIZE < BLOCK_SIZE {
                    piece_length - k * BLOCK_SIZE
                } else {
                    BLOCK_SIZE as int
                }) as u32,
            },
    )
}

/// A piece being downloaded from a peer.
pub struct ActivePiece {
    piece_index: usize,
    assembler: PieceAssembler,
    piece_length: usize,
}

/// Abstract value of an [`ActivePiece`]: its index and length, the hash it must have, and the
/// blocks received so far in offset order.
pub struct ActivePieceView {
    pub index: usize,
    pub piece_length: nat,
    pub expected_hash: Seq<u8>,
    pub blocks: Seq<(usize, Seq<u8>)>,
}

impl View for ActivePiece {
    type V = ActivePieceView;

    open spec fn view(&self) -> ActivePieceView {
        ActivePieceView {
            index: self.spec_index(),
            piece_length: self.spec_piece_length(),
            expected_hash: self.spec_expected_hash(),
            blocks: self.spec_blocks(),
        }
    }
}

/// A block of `len` bytes at `begin` can join `blocks` of a piece of `piece_length` bytes: it
/// starts and ends inside the piece and overlaps no block.
pub open spec fn block_accepted(blocks: Seq<(usize, Seq<u8>)>, piece_length: int, begin: int, len: int) -> bool {
    let end = block_end(begin, len);
    &&& begin < piece_length
    &&& end <= piece_length
    &&& !(exists|i: int|
        0 <= i < blocks.len() && spec_ranges_overlap(
            begin,
            end,
            (#[trigger] blocks[i]).0 as int,
            blocks[i].0 + blocks[i].1.len(),
        ))
}

impl ActivePiece {
    /// The blocks of a well-formed piece are in increasing offset order.
    pub proof fn lemma_sorted(&self)
        requires
            self.wf(),
        ensures
            sorted_by_offset(self.spec_blocks()),
    {
        self.assembler.lemma_wf();
    }

    /// The assembler is well formed and measures the piece.
    pub closed spec fn wf(&self) -> bool {
        &&& self.assembler.wf()
        &&& self.assembler@.piece_length == self.piece_length
    }

    /// The piece's index.
    pub closed spec fn spec_index(&self) -> usize {
        self.piece_index
    }

    /// The piece's length.
    pub closed spec fn spec_piece_length(&self) -> nat {
        self.piece_length as nat
    }

    /// The blocks received so far.
    pub closed spec fn spec_blocks(&self) -> Seq<(usize, Seq<u8>)> {
        self.assembler@.blocks
    }

    /// The hash the piece must have.
    pub closed spec fn spec_expected_hash(&self) -> Seq<u8> {
        self.assembler@.expected_hash
    }

    /// Starts piece `piece_index` of a torrent: its hash and length come from the metadata;
    /// there is no such piece past the last one or without a piece length.
    pub fn new(meta: &FileMeta, piece_index: usize) -> (r: Option<ActivePiece>)
        ensures
            match meta.info.piece_length {
                Some(l) if l > 0 && piece_index < meta.info.pieces@.len() / 20 => r matches Some(
                    p,
                ) && p.wf() && p.spec_index() == piece_index && p.spec_piece_length()
                    == spec_piece_length_at(
                    l as int,
                    spec_total_length(meta.info),
                    (meta.info.pieces@.len() / 20) as int,
                    piece_index as int,
                ) as usize && p.spec_expected_hash() == piece_hash_at(
                    meta.info.pieces@,
                    piece_index as int,
                ) && p.spec_blocks().len() == 0,
                _ => r is None,
            },
    {
        let expected_hash = match meta.piece_hash(piece_index) {
            Some(h) => h,
            None => {
                return None;
            },
        };
        let piece_length = match meta.piece_length_at(piece_index) {
            Some(l) => l,
            None => {
                return None;
            },
        };
        Some(
            ActivePiece {
                piece_index,
                assembler: PieceAssembler::new(expected_hash, piece_length),
                piece_length,
            },
        )
    }

    /// The piece's index.
    pub fn index(&self) -> (i: usize)
        ensures
            i == self.spec_index(),
    {
        self.piece_index
    }

    /// The requests for the blocks of the piece.
    pub fn requests(&self) -> (v: Vec<Request>)
        ensures
            v@.map_values(|r: Request| r@) == block_requests(
                self.spec_index(),
                self.spec_piece_length(),
            ),
    {
        let mut requests: Vec<Request> = Vec::new();
        let mut begin: usize = 0;
        let ghost l = self.piece_length as int;
        while begin < self.piece_length
            invariant
                l == self.piece_length,
                begin <= l,
                requests@.len() == (begin + 16383) / 16384,
                begin < l ==> begin == requests@.len() * BLOCK_SIZE,
                requests@.map_values(|r: Request| r@) == block_requests(
                    self.piece_index,
                    self.piece_length as nat,
                ).subrange(0, requests@.len() as int),
            decreases l - begin,
        {
            let length = if BLOCK_SIZE < self.piece_length - begin {
                BLOCK_SIZE
            } else {
                self.piece_length - begin
            };
            let k = requests.len();
            let r = Request::new(self.piece_index as u32, begin as u32, length as u32);
            proof {
                assert(block_requests(self.piece_index, l as nat).len() > k) by (nonlinear_arith)
                    requires
                        begin == k * 16384,
                        begin < l,
                        block_requests(self.piece_index, l as nat).len() == (l + 16383) / 16384,
                {
                }
                assert(block_requests(self.piece_index, l as nat)[k as int] == r@);
            }
            requests.push(r);
            proof {
                assert(requests@.map_values(|r: Request| r@) =~= block_requests(
                    self.piece_index,
                    self.piece_length as nat,
                ).subrange(0, requests@.len() as int));
                assert((begin + length + 16383) / 16384 == k + 1) by (nonlinear_arith)
                    requires
                        begin == k * 16384,
                        0 < length <= 16384,
                {
                }
            }
            begin = begin + length;
        }
        proof {
            assert(block_requests(self.piece_index, l as nat).subrange(0, requests@.len() as int)
                =~= block_requests(self.piece_index, l as nat));
        }
        requests
    }

    /// Adds a block received for the piece. A block whose end does not fit in `usize` is
    /// refused like any block that ends past the piece.
    pub fn insert_block(&mut self, begin: usize, block: Vec<u8>) -> (r: Result<(), PieceAssemblyError>)
        requires
            old(self).wf(),
        ensures
            final(self).wf(),
            final(self).spec_index() == old(self).spec_index(),
            final(self).spec_piece_length() == old(self).spec_piece_length(),
            final(self).spec_expected_hash() == old(self).spec_expected_hash(),
            r is Err ==> final(self).spec_blocks() == old(self).spec_blocks(),
            r is Ok ==> blocks_map(final(self).spec_blocks()) == blocks_map(
                old(self).spec_blocks(),
            ).insert(begin, block@),
            begin >= old(self).spec_piece_length() ==> r is Err,
            r is Ok <==> begin + block@.len() <= usize::MAX && block_accepted(
                old(self).spec_blocks(),
                old(self).spec_piece_length() as int,
                begin as int,
                block@.len() as int,
            ),
    {
        if begin.checked_add(block.len()).is_none() {
            if begin >= self.piece_length {
                return Err(
                    PieceAssemblyError::BlockOutOfRange { begin, piece_length: self.piece_length },
                );
            }
            return Err(
                PieceAssemblyError::BlockTooLong { end: usize::MAX, piece_length: self.piece_length },
            );
        }
        self.assembler.insert_block(begin, block)
    }

    /// Whether the blocks cover the piece.
    pub fn is_complete(&self) -> (b: bool)
        requires
            self.wf(),
        ensures
            b == covers_piece(self.spec_blocks(), self.spec_piece_length() as int),
    {
        self.assembler.is_complete()
    }

    /// The piece, when complete and matching its hash.
    pub fn assemble(self) -> (r: Result<Vec<u8>, PieceAssemblyError>)
        requires
            self.wf(),
        ensures
            !covers_piece(self.spec_blocks(), self.spec_piece_length() as int) ==> (r matches Err(
                PieceAssemblyError::Incomplete,
            )),
            covers_piece(self.spec_blocks(), self.spec_piece_length() as int) && sha1(
                concat_blocks(self.spec_blocks()),
            ) != self.spec_expected_hash() ==> (r matches Err(PieceAssemblyError::HashMismatch)),
            covers_piece(self.spec_blocks(), self.spec_piece_length() as int) && sha1(
                concat_blocks(self.spec_blocks()),
            ) == self.spec_expected_hash() ==> (r matches Ok(v) && v@ == concat_blocks(
                self.spec_blocks(),
            )),
    {
        self.assembler.assemble()
    }
}

/// The block requests of a piece tile it: they start at 0, each starts where the previous
/// ends, none is empty or longer than 16 KiB, and together they reach the piece's end.
pub proof fn lemma_block_requests_tile(piece_index: usize, piece_length: nat)
    requires
        piece_length <= u32::MAX,
    ensures
        ({
            let reqs = block_requests(piece_index, piece_length);
            &&& forall|k: int|
                0 <= k < reqs.len() ==> (#[trigger] reqs[k]).begin == k * BLOCK_SIZE && 0
                    < reqs[k].length <= BLOCK_SIZE
            &&& forall|k: int|
                0 <= k < reqs.len() - 1 ==> #[trigger] reqs[k + 1].begin == reqs[k].begin
                    + reqs[k].length
            &&& reqs.len() > 0 ==> reqs.last().begin + reqs.last().length == piece_length
            &&& reqs.len() == 0 <==> piece_length == 0
        }),
{
    let reqs = block_requests(piece_index, piece_length);
    let count = reqs.len() as int;
    assert(count * 16384 >= piece_length && (count - 1) * 16384 < piece_length || piece_length
        == 0) by (nonlinear_arith)
        requires
            count == (piece_length + 16383) / 16384,
    {
    }
    assert forall|k: int| 0 <= k < reqs.len() implies (#[trigger] reqs[k]).begin == k * BLOCK_SIZE
        && 0 < reqs[k].length <= BLOCK_SIZE by {
        assert(k * 16384 < piece_length) by (nonlinear_arith)
            requires
                0 <= k < count,
                (count - 1) * 16384 < piece_length,
        {
        }
        assert(k * 16384 <= u32::MAX);
    }
    assert forall|k: int| 0 <= k < reqs.len() - 1 implies #[trigger] reqs[k + 1].begin
        == reqs[k].begin + reqs[k].length by {
        assert((k + 1) * 16384 < piece_length) by (nonlinear_arith)
            requires
                0 <= k < count - 1,
                (count - 1) * 16384 < piece_length,
        {
        }
        assert((k + 1) * 16384 == k * 16384 + 16384) by (nonlinear_arith);
        assert((k + 1) * 16384 <= u32::MAX);
    }
    if count > 0 {
        assert((count - 1) * 16384 <= u32::MAX);
        assert(piece_length - (count - 1) * 16384 <= 16384) by (nonlinear_arith)
            requires
                count * 16384 >= piece_length,
        {
        }
    }
}

// ---------------------------------------------------------------------------------------------
// The steps of a session
// ---------------------------------------------------------------------------------------------

/// The pieces a peer has, as piece indexes.
pub open spec fn have_indexes(have: Seq<u32>) -> Seq<usize> {
    have.map_values(|p: u32| p as usize)
}

/// The piece a peer is asked for: the rarest of the pieces it has that are neither completed
/// nor requested (the lowest index among equally rare ones), if there is one.
pub open spec fn rarest_of(picker: PickerState, have: Seq<u32>) -> Option<int> {
    let sets = seq![have_indexes(have)];
    if exists|p: int| picker.is_rarest(sets, p) {
        Some(choose|p: int| picker.is_rarest(sets, p))
    } else {
        None
    }
}

/// Whether the metadata describes piece `i`: it has a positive piece length and a hash for it.
pub open spec fn piece_in_meta(info: Info, i: int) -> bool {
    match info.piece_length {
        Some(l) => l > 0 && 0 <= i < info.pieces@.len() / 20,
        None => false,
    }
}

/// Piece `i` as its download starts: length and hash from the metadata, no block yet.
pub open spec fn fresh_piece(info: Info, i: usize) -> ActivePieceView {
    ActivePieceView {
        index: i,
        piece_length: match info.piece_length {
            Some(l) => spec_piece_length_at(
                l as int,
                spec_total_length(info),
                (info.pieces@.len() / 20) as int,
                i as int,
            ) as usize as nat,
            None => 0,
        },
        expected_hash: piece_hash_at(info.pieces@, i as int),
        blocks: Seq::empty(),
    }
}

/// The picker once the piece in progress, if any, is given up.
pub open spec fn released(picker: PickerState, active: Option<ActivePieceView>) -> PickerState {
    match active {
        Some(a) => after_request_failed(picker, a.index as int),
        None => picker,
    }
}

/// What is known of a peer after its `have` message for `piece`.
pub open spec fn info_after_have(info: PeerInfoView, piece: u32) -> PeerInfoView {
    if info.pieces_have.contains(piece) {
        info
    } else {
        PeerInfoView { pieces_have: info.pieces_have.push(piece), ..info }
    }
}

/// What is known of a peer after its bitfield.
pub open spec fn info_after_bitfield(info: PeerInfoView, have: Seq<usize>, not_have: Seq<usize>) -> PeerInfoView {
    PeerInfoView {
        pieces_have: as_u32_indexes(have),
        pieces_not_have: as_u32_indexes(not_have),
        peer_type: if not_have.len() == 0 {
            PeerType::Seeder
        } else {
            PeerType::Leecher
        },
        peer_state: info.peer_state,
    }
}

/// Whether `m` is a block of the piece in progress.
pub open spec fn is_active_block(s: PeerSessionView, m: MessageView) -> bool {
    &&& m is Piece
    &&& s.active is Some
    &&& m->piece_index as usize == s.active->0.index
}

/// The session and the picker after a message that is not a block of the piece in progress,
/// before a new piece is asked for: a choke gives up the piece in progress, an unchoke lifts
/// the choke, `have` and bitfield messages update what is known of the peer, and any other
/// message changes nothing.
pub open spec fn after_message(s: PeerSessionView, picker: PickerState, m: MessageView) -> (PeerSessionView, PickerState) {
    match m {
        MessageView::Choke => (
            PeerSessionView { peer_choking: true, active: None, ..s },
            released(picker, s.active),
        ),
        MessageView::Unchoke => (PeerSessionView { peer_choking: false, ..s }, picker),
        MessageView::Have(piece) => (PeerSessionView { info: info_after_have(s.info, piece), ..s }, picker),
        MessageView::Bitfield { have, not_have } => (
            PeerSessionView { info: info_after_bitfield(s.info, have, not_have), ..s },
            picker,
        ),
        _ => (s, picker),
    }
}

/// Asking for a new piece: only when the peer does not choke, no piece is in progress and the
/// peer has some piece. The rarest piece it has is marked requested; it becomes the piece in
/// progress when the metadata describes it, and its request is undone otherwise. The third
/// component is the piece asked for.
pub open spec fn request_outcome(s: PeerSessionView, picker: PickerState, info: Info) -> (
    PeerSessionView,
    PickerState,
    Option<usize>,
) {
    if s.peer_choking || s.active is Some || s.info.pieces_have.len() == 0 {
        (s, picker, None)
    } else {
        match rarest_of(picker, s.info.pieces_have) {
            None => (s, picker, None),
            Some(p) => {
                let requested = after_mark_requested(picker, p);
                if piece_in_meta(info, p) {
                    (
                        PeerSessionView { active: Some(fresh_piece(info, p as usize)), ..s },
                        requested,
                        Some(p as usize),
                    )
                } else {
                    (s, after_request_failed(requested, p), None)
                }
            },
        }
    }
}

/// The action for the piece asked for: its block requests, or nothing.
pub open spec fn asks_for(action: SessionAction, asked: Option<usize>, info: Info) -> bool {
    match asked {
        None => action is Wait,
        Some(i) => action matches SessionAction::Send(v) && v@.map_values(|r: Request| r@)
            == block_requests(i, fresh_piece(info, i).piece_length),
    }
}

/// A block of the piece in progress: when it cannot join the piece the session ends and the
/// piece is given up; otherwise it joins, and a piece that is then complete leaves the session
/// to be written when it matches its hash, or ends the session and is given up when it does not.
pub open spec fn block_outcome(
    s: PeerSessionView,
    picker: PickerState,
    m: MessageView,
    s2: PeerSessionView,
    p2: PickerState,
    r: Result<SessionAction, PeerError>,
) -> bool {
    let a = s.active->0;
    let begin = m->byte_index as int;
    let block = m->block;
    if !(begin + block.len() <= usize::MAX && block_accepted(
        a.blocks,
        a.piece_length as int,
        begin,
        block.len() as int,
    )) {
        &&& r matches Err(PeerError::PieceAssembly(_))
        &&& s2 == PeerSessionView { active: None, ..s }
        &&& p2 == after_request_failed(picker, a.index as int)
    } else {
        exists|blocks: Seq<(usize, Seq<u8>)>|
            #![trigger blocks_map(blocks)]
            {
                &&& sorted_by_offset(blocks)
                &&& blocks_map(blocks) == blocks_map(a.blocks).insert(begin as usize, block)
                &&& if !covers_piece(blocks, a.piece_length as int) {
                    &&& r matches Ok(SessionAction::Wait)
                    &&& s2 == PeerSessionView { active: Some(ActivePieceView { blocks, ..a }), ..s }
                    &&& p2 == picker
                } else if sha1(concat_blocks(blocks)) == a.expected_hash {
                    &&& r matches Ok(SessionAction::Write { index, bytes }) && index == a.index
                        && bytes@ == concat_blocks(blocks)
                    &&& s2 == PeerSessionView { active: None, ..s }
                    &&& p2 == picker
                } else {
                    &&& r matches Err(PeerError::PieceAssembly(PieceAssemblyError::HashMismatch))
                    &&& s2 == PeerSessionView { active: None, ..s }
                    &&& p2 == after_request_failed(picker, a.index as int)
                }
            }
    }
}

/// The piece indexes of a peer as `usize`.
fn to_usize_indexes(v: &Vec<u32>) -> (out: Vec<usize>)
    ensures
        out@ == have_indexes(v@),
{
    let mut out: Vec<usize> = Vec::new();
    let mut i: usize = 0;
    while i < v.len()
        invariant
            i <= v@.len(),
            out@ == have_indexes(v@.subrange(0, i as int)),
        decreases v@.len() - i,
    {
        out.push(v[i] as usize);
        i = i + 1;
        assert(have_indexes(v@.subrange(0, i as int)) =~= have_indexes(v@.subrange(0, i - 1)).push(
            v@[i - 1] as usize,
        ));
    }
    assert(v@.subrange(0, i as int) =~= v@);
    out
}

impl PeerSession {
    /// The piece in progress, if any, is well formed.
    pub closed spec fn wf(&self) -> bool {
        self.active matches Some(p) ==> p.wf()
    }

    /// A session that starts with the peer choking, no piece in progress and nothing known of
    /// the peer.
    pub fn new() -> (s: Self)
        ensures
            s.wf(),
            s@.peer_choking,
            s@.active is None,
            s@.info.pieces_have.len() == 0,
            s@.info.pieces_not_have.len() == 0,
            s@.info.peer_type == PeerType::Unknown,
            s@.info.peer_state == PeerState::NotConnected,
    {
        PeerSession { peer_choking: true, active: None, info: PeerInfo::new() }
    }

    /// What is known of the peer.
    pub fn info(&self) -> (i: &PeerInfo)
        ensures
            i@ == self@.info,
    {
        &self.info
    }

    /// Records a new state of the relation with the peer.
    pub fn set_peer_state(&mut self, peer_state: PeerState)
        requires
            old(self).wf(),
        ensures
            final(self).wf(),
            final(self)@ == (PeerSessionView {
                info: PeerInfoView { peer_state, ..old(self)@.info },
                ..old(self)@
            }),
    {
        self.info.set_peer_state(peer_state);
    }

    /// Gives up the piece in progress, if any: its request is undone. This is what happens when
    /// the peer chokes, when the requests cannot be sent and when the connection ends.
    pub fn release_piece(&mut self, picker: &mut PiecePicker)
        requires
            old(self).wf(),
            old(picker).wf(),
        ensures
            final(self).wf(),
            final(picker).wf(),
            final(self)@ == (PeerSessionView { active: None, ..old(self)@ }),
            final(picker)@ == released(old(picker)@, old(self)@.active),
    {
        match self.active.take() {
            Some(piece) => picker.mark_request_failed(piece.index()),
            None => {},
        }
    }

    /// Asks for a new piece when the session may (see [`request_outcome`]).
    fn request_piece(&mut self, meta: &FileMeta, picker: &mut PiecePicker) -> (action: SessionAction)
        requires
            old(self).wf(),
            old(picker).wf(),
        ensures
            final(self).wf(),
            final(picker).wf(),
            ({
                let (s2, p2, asked) = request_outcome(old(self)@, old(picker)@, meta.info);
                &&& final(self)@ == s2
                &&& final(picker)@ == p2
                &&& asks_for(action, asked, meta.info)
            }),
    {
        if self.peer_choking || self.active.is_some() || self.info.pieces_have.len() == 0 {
            return SessionAction::Wait;
        }
        let peer_pieces = to_usize_indexes(&self.info.pieces_have);
        let ghost have = self@.info.pieces_have;
        let ghost sets = seq![have_indexes(have)];
        let peer_piece_sets = vec![peer_pieces];
        proof {
            assert(peer_piece_sets@.map_values(|s: Vec<usize>| s@) =~= sets);
        }
        let picked = picker.next_rarest_piece(peer_piece_sets.as_slice());
        match picked {
            None => {
                proof {
                    assert(!exists|p: int| old(picker)@.is_rarest(sets, p)) by {
                        if exists|p: int| old(picker)@.is_rarest(sets, p) {
                            let p = choose|p: int| old(picker)@.is_rarest(sets, p);
                            assert(old(picker)@.eligible(sets, p));
                        }
                    }
                }
                SessionAction::Wait
            },
            Some(index) => {
                proof {
                    let c = choose|p: int| old(picker)@.is_rarest(sets, p);
                    lemma_rarest_unique(old(picker)@, sets, c, index as int);
                }
                picker.mark_requested(index);
                match ActivePiece::new(meta, index) {
                    None => {
                        picker.mark_request_failed(index);
                        SessionAction::Wait
                    },
                    Some(piece) => {
                        let requests = piece.requests();
                        self.active = Some(piece);
                        proof {
                            assert(self@.active->0.blocks =~= fresh_piece(meta.info, index).blocks);
                            assert(self@.active == Some(fresh_piece(meta.info, index)));
                        }
                        SessionAction::Send(requests)
                    },
                }
            },
        }
    }

    /// Takes the peer's next message and says what to do: the steps are those of
    /// [`after_message`] and [`request_outcome`], and [`block_outcome`] for a block of the
    /// piece in progress. An error ends the session.
    pub fn on_message(&mut self, message: Message, meta: &FileMeta, picker: &mut PiecePicker) -> (r: Result<
        SessionAction,
        PeerError,
    >)
        requires
            old(self).wf(),
            old(picker).wf(),
        ensures
            final(self).wf(),
            final(picker).wf(),
            !is_active_block(old(self)@, message@) ==> ({
                let (s1, p1) = after_message(old(self)@, old(picker)@, message@);
                let (s2, p2, asked) = request_outcome(s1, p1, meta.info);
                &&& r matches Ok(action) && asks_for(action, asked, meta.info)
                &&& final(self)@ == s2
                &&& final(picker)@ == p2
            }),
            is_active_block(old(self)@, message@) ==> block_outcome(
                old(self)@,
                old(picker)@,
                message@,
                final(self)@,
                final(picker)@,
                r,
            ),
    {
        match message {
            Message::Choke => {
                self.peer_choking = true;
                self.release_piece(picker);
                Ok(SessionAction::Wait)
            },
            Message::Unchoke => {
                self.peer_choking = false;
                Ok(self.request_piece(meta, picker))
            },
            Message::Have(have) => {
                self.info.record_have(have.piece_index);
                Ok(self.request_piece(meta, picker))
            },
            Message::Bitfield(bitfield) => {
                self.info.record_bitfield(bitfield.have.as_slice(), bitfield.not_have.as_slice());
                Ok(self.request_piece(meta, picker))
            },
            Message::Piece(block) => self.on_block(block, meta, picker),
            _ => Ok(self.request_piece(meta, picker)),
        }
    }

    /// A `piece` message.
    fn on_block(&mut self, block: Block, meta: &FileMeta, picker: &mut PiecePicker) -> (r: Result<
        SessionAction,
        PeerError,
    >)
        requires
            old(self).wf(),
            old(picker).wf(),
        ensures
            final(self).wf(),
            final(picker).wf(),
            ({
                let m = MessageView::Piece {
                    piece_index: block.piece_index,
                    byte_index: block.byte_index,
                    block: block.raw_block@,
                };
                &&& !is_active_block(old(self)@, m) ==> ({
                    let (s2, p2, asked) = request_outcome(old(self)@, old(picker)@, meta.info);
                    &&& r matches Ok(action) && asks_for(action, asked, meta.info)
                    &&& final(self)@ == s2
                    &&& final(picker)@ == p2
                })
                &&& is_active_block(old(self)@, m) ==> block_outcome(
                    old(self)@,
                    old(picker)@,
                    m,
                    final(self)@,
                    final(picker)@,
                    r,
                )
            }),
    {
        let mut piece = match self.active.take() {
            Some(piece) if block.piece_index as usize == piece.index() => piece,
            other => {
                self.active = other;
                return Ok(self.request_piece(meta, picker));
            },
        };
        let ghost a = piece@;
        let index = piece.index();
        let inserted = piece.insert_block(block.byte_index as usize, block.raw_block);
        if let Err(error) = inserted {
            picker.mark_request_failed(index);
            return Err(PeerError::PieceAssembly(error));
        }
        proof {
            piece.lemma_sorted();
            assert(blocks_map(piece.spec_blocks()) == blocks_map(a.blocks).insert(
                block.byte_index as usize,
                block.raw_block@,
            ));
        }
        if !piece.is_complete() {
            self.active = Some(piece);
            proof {
                assert(self@.active == Some(ActivePieceView { blocks: piece.spec_blocks(), ..a }));
            }
            return Ok(SessionAction::Wait);
        }
        match piece.assemble() {
            Ok(bytes) => Ok(SessionAction::Write { index, bytes }),
            Err(error) => {
                picker.mark_request_failed(index);
                Err(PeerError::PieceAssembly(error))
            },
        }
    }

    /// Takes the outcome of storing a piece that the session handed over: a stored piece is
    /// completed and a new piece is asked for; a piece that could not be stored is given up
    /// and the session ends.
    pub fn piece_written(
        &mut self,
        index: usize,
        written: Result<(), PieceStorageError>,
        meta: &FileMeta,
        picker: &mut PiecePicker,
    ) -> (r: Result<SessionAction, PeerError>)
        requires
            old(self).wf(),
            old(picker).wf(),
        ensures
            final(self).wf(),
            final(picker).wf(),
            written matches Err(e) ==> {
                &&& r matches Err(PeerError::PieceStorage(e2)) && e2 == e
                &&& final(self)@ == old(self)@
                &&& final(picker)@ == after_request_failed(old(picker)@, index as int)
            },
            written is Ok ==> ({
                let (s2, p2, asked) = request_outcome(
                    old(self)@,
                    after_mark_completed(old(picker)@, index as int),
                    meta.info,
                );
                &&& r matches Ok(action) && asks_for(action, asked, meta.info)
                &&& final(self)@ == s2
                &&& final(picker)@ == p2
            }),
    {
        match written {
            Err(error) => {
                picker.mark_request_failed(index);
                Err(PeerError::PieceStorage(error))
            },
            Ok(()) => {
                picker.mark_completed(index);
                Ok(self.request_piece(meta, picker))
            },
        }
    }
}

/// A piece that a session asks for is taken: the picker holds it as requested, so no peer is
/// offered it until its request is undone or it is completed.
pub proof fn lemma_asked_piece_is_taken(
    s: PeerSessionView,
    picker: PickerState,
    info: Info,
    sets: Seq<Seq<usize>>,
)
    requires
        picker.completed.len() == picker.piece_count,
        picker.requested.len() == picker.piece_count,
    ensures
        request_outcome(s, picker, info).2 matches Some(i) ==> {
            &&& request_outcome(s, picker, info).1.requested[i as int]
            &&& !request_outcome(s, picker, info).1.eligible(sets, i as int)
        },
{
    if let Some(i) = request_outcome(s, picker, info).2 {
        let have_sets = seq![have_indexes(s.info.pieces_have)];
        let p = choose|p: int| picker.is_rarest(have_sets, p);
        assert(picker.is_rarest(have_sets, p));
        assert(info.pieces@.len() == info.pieces.len());
        assert(p == i);
        lemma_requested_piece_not_eligible(picker, sets, p);
    }
}

} // verus!
