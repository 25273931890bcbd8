//! Peer wire messages (BEP 3, BEP 10): their values, their byte layouts and the frame tests.
use crate::wire::{be_u16, be_u32, copy_range, read_u16_be, read_u32_be, push_slice, push_u16_be, push_u32_be, u16_bytes, u32_bytes};
use vstd::prelude::*;

verus! {

/// Length of a handshake frame: `<pstrlen><pstr><reserved><info_hash><peer_id>`.
pub const HANDSHAKE_LENGTH: usize = 68;

/// The protocol string of BitTorrent v1.
pub open spec fn protocol_string() -> Seq<u8> {
    seq![66u8, 105, 116, 84, 111, 114, 114, 101, 110, 116, 32, 112, 114, 111, 116, 111, 99, 111, 108]
}

/// The peer id this client sends in handshakes: `-HYBLOW-110011001100`.
pub open spec fn handshake_peer_id() -> Seq<u8> {
    seq![45u8, 72, 89, 66, 76, 79, 87, 45, 49, 49, 48, 48, 49, 49, 48, 48, 49, 49, 48, 48]
}

fn protocol_string_bytes() -> (v: Vec<u8>)
    ensures
        v@ == protocol_string(),
{
    let v: Vec<u8> = vec![66u8, 105, 116, 84, 111, 114, 114, 101, 110, 116, 32, 112, 114, 111, 116, 111, 99, 111, 108];
    assert(v@ == protocol_string());
    v
}

fn handshake_peer_id_bytes() -> (v: Vec<u8>)
    ensures
        v@ == handshake_peer_id(),
{
    let v: Vec<u8> = vec![45u8, 72, 89, 66, 76, 79, 87, 45, 49, 49, 48, 48, 49, 49, 48, 48, 49, 49, 48, 48];
    assert(v@ == handshake_peer_id());
    v
}

fn zero_bytes(n: usize) -> (v: Vec<u8>)
    ensures
        v@ == Seq::new(n as nat, |i: int| 0u8),
{
    let mut v: Vec<u8> = Vec::new();
    let mut i: usize = 0;
    while i < n
        invariant
            i <= n,
            v@ == Seq::new(i as nat, |j: int| 0u8),
        decreases n - i,
    {
        v.push(0);
        i = i + 1;
    }
    v
}

/// Abstract value of a handshake.
pub struct HandshakeView {
    pub pstrlen: u8,
    pub pstr: Seq<u8>,
    pub reserved: Seq<u8>,
    pub info_hash: Seq<u8>,
    pub peer_id: Seq<u8>,
}

/// Handshake message: `<pstrlen><pstr><reserved><info_hash><peer_id>`, 68 bytes in BitTorrent v1.
#[derive(Debug, Clone, PartialEq)]
pub struct Handshake {
    pstrlen: u8,
    pstr: Vec<u8>,
    reserved: Vec<u8>,
    info_hash: Vec<u8>,
    peer_id: Vec<u8>,
}

impl View for Handshake {
    type V = HandshakeView;

    closed spec fn view(&self) -> HandshakeView {
        HandshakeView {
            pstrlen: self.pstrlen,
            pstr: self.pstr@,
            reserved: self.reserved@,
            info_hash: self.info_hash@,
            peer_id: self.peer_id@,
        }
    }
}

/// Bit 0x10 of reserved byte 5 announces the extension protocol (BEP 10).
pub open spec fn extension_bit_set(reserved: Seq<u8>) -> bool {
    reserved.len() > 5 && reserved[5] & 0x10u8 != 0
}

impl Handshake {
    /// The handshake this client sends for a torrent with the given info hash.
    pub fn new(info_hash: &[u8]) -> (h: Self)
        ensures
            h@.pstrlen == 19,
            h@.pstr == protocol_string(),
            h@.reserved == Seq::new(8, |i: int| 0u8),
            h@.info_hash == info_hash@,
            h@.peer_id == handshake_peer_id(),
    {
        let pstrlen: u8 = 19;
        let pstr = protocol_string_bytes();
        let reserved = zero_bytes(8);
        let info_hash = crate::wire::copy_range(info_hash, 0, info_hash.len());
        let peer_id = handshake_peer_id_bytes();
        proof {
            assert(info_hash@ == info_hash@.subrange(0, info_hash@.len() as int));
        }
        Self { pstrlen, pstr, reserved, info_hash, peer_id }
    }

    /// The handshake used to fetch metadata: like [`Handshake::new`], and announcing the
    /// extension protocol in reserved byte 5.
    pub fn from_info_hash(info_hash: &[u8]) -> (h: Self)
        ensures
            h@.pstrlen == 19,
            h@.pstr == protocol_string(),
            h@.reserved == Seq::new(8, |i: int| 0u8).update(5, 0x10u8),
            h@.info_hash == info_hash@,
            h@.peer_id == handshake_peer_id(),
    {
        let mut h = Self::new(info_hash);
        h.reserved.set(5, 0x10);
        h
    }

    /// Deserializes the first 68 bytes of `v` into a handshake and removes them from `v`.
    pub fn from(v: &mut Vec<u8>) -> (h: Self)
        requires
            old(v)@.len() >= HANDSHAKE_LENGTH,
        ensures
            h@ == handshake_view_of(old(v)@),
            final(v)@ == old(v)@.skip(HANDSHAKE_LENGTH as int),
    {
        let pstrlen = v[0];
        let pstr = copy_range(v.as_slice(), 1, 20);
        let reserved = copy_range(v.as_slice(), 20, 28);
        let info_hash = copy_range(v.as_slice(), 28, 48);
        let peer_id = copy_range(v.as_slice(), 48, 68);
        let rest = copy_range(v.as_slice(), 68, v.len());
        *v = rest;
        Self { pstrlen, pstr, reserved, info_hash, peer_id }
    }

    /// The info hash the handshake carries.
    pub fn info_hash(&self) -> (hash: &[u8])
        ensures
            hash@ == self@.info_hash,
    {
        self.info_hash.as_slice()
    }

    /// Whether the handshake announces the extension protocol (BEP 10).
    pub fn supports_extensions(&self) -> (b: bool)
        ensures
            b == extension_bit_set(self@.reserved),
    {
        self.reserved.len() > 5 && self.reserved[5] & 0x10 != 0
    }

    /// Serializes the handshake into its 68 bytes.
    pub fn to_bytes(&self) -> (out: Vec<u8>)
        ensures
            out@ == handshake_bytes(self@),
    {
        let mut out: Vec<u8> = Vec::new();
        out.push(self.pstrlen);
        push_slice(&mut out, self.pstr.as_slice());
        push_slice(&mut out, self.reserved.as_slice());
        push_slice(&mut out, self.info_hash.as_slice());
        push_slice(&mut out, self.peer_id.as_slice());
        proof {
            assert(out@ == handshake_bytes(self@));
        }
        out
    }
}

/// The handshake held in the first 68 bytes of `b`.
pub open spec fn handshake_view_of(b: Seq<u8>) -> HandshakeView {
    HandshakeView {
        pstrlen: b[0],
        pstr: b.subrange(1, 20),
        reserved: b.subrange(20, 28),
        info_hash: b.subrange(28, 48),
        peer_id: b.subrange(48, 68),
    }
}

/// The bytes of a handshake.
pub open spec fn handshake_bytes(h: HandshakeView) -> Seq<u8> {
    seq![h.pstrlen] + h.pstr + h.reserved + h.info_hash + h.peer_id
}

/// Indices, among the first `n` bytes, of the bytes equal to `value`, in increasing order.
pub open spec fn indices_equal_to(bytes: Seq<u8>, value: u8, n: int) -> Seq<usize>
    decreases n,
{
    if n <= 0 {
        Seq::empty()
    } else if bytes[n - 1] == value {
        indices_equal_to(bytes, value, n - 1).push((n - 1) as usize)
    } else {
        indices_equal_to(bytes, value, n - 1)
    }
}

/// The indices collected among the first `n` bytes are exactly the positions below `n` whose
/// byte equals `value`, each once, in increasing order.
pub proof fn lemma_indices_equal_to(bytes: Seq<u8>, value: u8, n: int)
    requires
        0 <= n <= bytes.len(),
        n <= usize::MAX,
    ensures
        forall|i: usize| #[trigger]
            indices_equal_to(bytes, value, n).contains(i) <==> (i < n && bytes[i as int]
                == value),
        forall|j: int, k: int|
            0 <= j < k < indices_equal_to(bytes, value, n).len() ==> #[trigger] indices_equal_to(
                bytes,
                value,
                n,
            )[j] < #[trigger] indices_equal_to(bytes, value, n)[k],
        forall|j: int|
            0 <= j < indices_equal_to(bytes, value, n).len() ==> #[trigger] indices_equal_to(
                bytes,
                value,
                n,
            )[j] < n,
    decreases n,
{
    if n > 0 {
        lemma_indices_equal_to(bytes, value, n - 1);
        let prev = indices_equal_to(bytes, value, n - 1);
        if bytes[n - 1] == value {
            let cur = prev.push((n - 1) as usize);
            assert(indices_equal_to(bytes, value, n) == cur);
            assert forall|i: usize| #[trigger] cur.contains(i) <==> (i < n && bytes[i as int]
                == value) by {
                if cur.contains(i) {
                    let w = choose|w: int| 0 <= w < cur.len() && cur[w] == i;
                    if w < prev.len() {
                        assert(prev[w] == i);
                        assert(prev.contains(i));
                    }
                }
                if i < n && bytes[i as int] == value {
                    if i < n - 1 {
                        assert(prev.contains(i));
                        let w = choose|w: int| 0 <= w < prev.len() && prev[w] == i;
                        assert(cur[w] == i);
                    } else {
                        assert(cur[prev.len() as int] == i);
                    }
                }
            }
        }
    }
}

/// Bitfield message: one byte per piece; a byte 1 means the peer has the piece, a byte 0 that
/// it does not; other bytes are ignored.
#[derive(Debug, Clone, PartialEq)]
pub struct Bitfield {
    /// Represents the pieces that peer have
    pub have: Vec<usize>,
    /// Represents the pieces that peer doesn't have
    pub not_have: Vec<usize>,
}

impl Bitfield {
    /// Reads the bitfield frame at the start of `src` and removes the frame from `src`.
    pub fn from_bytes(src: &mut Vec<u8>) -> (b: Self)
        requires
            old(src)@.len() >= 5,
            be_u32(old(src)@.subrange(0, 4)) >= 1,
            4 + be_u32(old(src)@.subrange(0, 4)) <= old(src)@.len(),
        ensures
            ({
                let frame = 4 + be_u32(old(src)@.subrange(0, 4));
                let payload = old(src)@.subrange(5, frame);
                &&& b.have@ == indices_equal_to(payload, 1, payload.len() as int)
                &&& b.not_have@ == indices_equal_to(payload, 0, payload.len() as int)
                &&& final(src)@ == old(src)@.skip(frame)
            }),
    {
        let length_prefix = read_u32_be(src.as_slice(), 0);
        let len = src.len();
        assert(4 + length_prefix <= len);
        let frame = 4 + length_prefix as usize;
        let payload = copy_range(src.as_slice(), 5, frame);
        let (have, not_have) = bitfield_indices(&payload);
        let rest = copy_range(src.as_slice(), frame, src.len());
        *src = rest;
        Self { have, not_have }
    }
}

/// Splits the indices of a bitfield payload into those of bytes 1 and those of bytes 0.
fn bitfield_indices(payload: &Vec<u8>) -> (r: (Vec<usize>, Vec<usize>))
    ensures
        r.0@ == indices_equal_to(payload@, 1, payload@.len() as int),
        r.1@ == indices_equal_to(payload@, 0, payload@.len() as int),
{
    let mut have: Vec<usize> = Vec::new();
    let mut not_have: Vec<usize> = Vec::new();
    let mut i: usize = 0;
    while i < payload.len()
        invariant
            i <= payload@.len(),
            have@ == indices_equal_to(payload@, 1, i as int),
            not_have@ == indices_equal_to(payload@, 0, i as int),
        decreases payload@.len() - i,
    {
        if payload[i] == 0 {
            not_have.push(i);
        } else if payload[i] == 1 {
            have.push(i);
        }
        i = i + 1;
    }
    (have, not_have)
}

/// Have message: `<len=0005><id=4><piece index>`.
#[derive(Debug, Clone, PartialEq)]
pub struct Have {
    pub piece_index: u32,
}

impl Have {
    /// Reads the piece index of the have frame at the start of `src` (the frame stays in `src`).
    pub fn from_bytes(src: &Vec<u8>) -> (h: Self)
        requires
            src@.len() >= 9,
        ensures
            h.piece_index == be_u32(src@.subrange(5, 9)),
    {
        Self { piece_index: read_u32_be(src.as_slice(), 5) }
    }
}

/// Request message: `<len=0013><id=6><index><begin><length>`.
#[derive(Debug, Clone, PartialEq)]
pub struct Request {
    /// Zero based piece index
    index: u32,
    /// Zero based byte offset within the piece
    begin: u32,
    /// Requested length
    length: u32,
}

/// Abstract value of a request or a cancel: `(index, begin, length)`.
pub struct RangeView {
    pub index: u32,
    pub begin: u32,
    pub length: u32,
}

impl View for Request {
    type V = RangeView;

    closed spec fn view(&self) -> RangeView {
        RangeView { index: self.index, begin: self.begin, length: self.length }
    }
}

impl Request {
    /// A request for `length` bytes at offset `begin` of piece `index`.
    pub fn new(index: u32, begin: u32, length: u32) -> (r: Self)
        ensures
            r@ == (RangeView { index, begin, length }),
    {
        Self { index, begin, length }
    }

    /// Zero based piece index.
    pub fn index(&self) -> (v: u32)
        ensures
            v == self@.index,
    {
        self.index
    }

    /// Zero based byte offset within the piece.
    pub fn begin(&self) -> (v: u32)
        ensures
            v == self@.begin,
    {
        self.begin
    }

    /// Requested length.
    pub fn length(&self) -> (v: u32)
        ensures
            v == self@.length,
    {
        self.length
    }

    /// Reads the request frame at the start of `src` and removes its 17 bytes from `src`.
    pub fn from_bytes(src: &mut Vec<u8>) -> (r: Self)
        requires
            old(src)@.len() >= 17,
        ensures
            r@ == range_view_of(old(src)@),
            final(src)@ == old(src)@.skip(17),
    {
        let index = read_u32_be(src.as_slice(), 5);
        let begin = read_u32_be(src.as_slice(), 9);
        let length = read_u32_be(src.as_slice(), 13);
        let rest = copy_range(src.as_slice(), 17, src.len());
        *src = rest;
        Self { index, begin, length }
    }
}

/// The `(index, begin, length)` fields of a request or cancel frame.
pub open spec fn range_view_of(b: Seq<u8>) -> RangeView {
    RangeView {
        index: be_u32(b.subrange(5, 9)) as u32,
        begin: be_u32(b.subrange(9, 13)) as u32,
        length: be_u32(b.subrange(13, 17)) as u32,
    }
}

/// Piece message, carrying one block of a piece: `<len=0009+X><id=7><index><begin><block>`.
#[derive(Debug, Clone, PartialEq)]
pub struct Block {
    /// Zero based piece index
    pub piece_index: u32,
    /// Zero based byte index within the piece
    pub byte_index: u32,
    /// Block of raw data(bytes)
    pub raw_block: Vec<u8>,
}

impl Block {
    /// Reads the piece frame at the start of `src` and removes the frame from `src`.
    pub fn from_bytes(src: &mut Vec<u8>) -> (b: Self)
        requires
            old(src)@.len() >= 13,
            be_u32(old(src)@.subrange(0, 4)) >= 9,
            4 + be_u32(old(src)@.subrange(0, 4)) <= old(src)@.len(),
        ensures
            ({
                let frame = 4 + be_u32(old(src)@.subrange(0, 4));
                &&& b.piece_index == be_u32(old(src)@.subrange(5, 9))
                &&& b.byte_index == be_u32(old(src)@.subrange(9, 13))
                &&& b.raw_block@ == old(src)@.subrange(13, frame)
                &&& final(src)@ == old(src)@.skip(frame)
            }),
    {
        let length_prefix = read_u32_be(src.as_slice(), 0);
        let piece_index = read_u32_be(src.as_slice(), 5);
        let byte_index = read_u32_be(src.as_slice(), 9);
        let len = src.len();
        assert(4 + length_prefix <= len);
        let frame = 4 + length_prefix as usize;
        let raw_block = copy_range(src.as_slice(), 13, frame);
        let rest = copy_range(src.as_slice(), frame, src.len());
        *src = rest;
        Self { piece_index, byte_index, raw_block }
    }
}

/// Cancel message: `<len=0013><id=8><index><begin><length>`.
#[derive(Debug, Clone, PartialEq)]
pub struct Cancel {
    index: u32,
    begin: u32,
    length: u32,
}

impl View for Cancel {
    type V = RangeView;

    closed spec fn view(&self) -> RangeView {
        RangeView { index: self.index, begin: self.begin, length: self.length }
    }
}

impl Cancel {
    /// A cancel of the request for `length` bytes at offset `begin` of piece `index`.
    pub fn new(index: u32, begin: u32, length: u32) -> (c: Self)
        ensures
            c@ == (RangeView { index, begin, length }),
    {
        Self { index, begin, length }
    }

    /// Reads the cancel frame at the start of `src` and removes its 17 bytes from `src`.
    pub fn from_bytes(src: &mut Vec<u8>) -> (c: Self)
        requires
            old(src)@.len() >= 17,
        ensures
            c@ == range_view_of(old(src)@),
            final(src)@ == old(src)@.skip(17),
    {
        let index = read_u32_be(src.as_slice(), 5);
        let begin = read_u32_be(src.as_slice(), 9);
        let length = read_u32_be(src.as_slice(), 13);
        let rest = copy_range(src.as_slice(), 17, src.len());
        *src = rest;
        Self { index, begin, length }
    }
}

/// Port message: `<len=0003><id=9><listen-port>`.
#[derive(Debug, Clone, PartialEq)]
pub struct Port {
    listen_port: u16,
}

impl View for Port {
    type V = u16;

    closed spec fn view(&self) -> u16 {
        self.listen_port
    }
}

impl Port {
    /// A port message announcing `listen_port`.
    pub fn new(listen_port: u16) -> (p: Self)
        ensures
            p@ == listen_port,
    {
        Self { listen_port }
    }

    /// Reads the port frame at the start of `src` and removes its 7 bytes from `src`.
    pub fn from_bytes(src: &mut Vec<u8>) -> (p: Self)
        requires
            old(src)@.len() >= 7,
        ensures
            p@ == be_u16(old(src)@.subrange(5, 7)),
            final(src)@ == old(src)@.skip(7),
    {
        let listen_port = read_u16_be(src.as_slice(), 5);
        let rest = copy_range(src.as_slice(), 7, src.len());
        *src = rest;
        Self { listen_port }
    }
}

/// Extended message (BEP 10): `<len><id=20><extension id><payload>`.
#[derive(Debug, Clone, PartialEq)]
pub struct ExtendedMessage {
    pub extension_id: u8,
    pub payload: Vec<u8>,
}

impl ExtendedMessage {
    /// An extended message with the given extension id and payload.
    pub fn new(extension_id: u8, payload: Vec<u8>) -> (m: Self)
        ensures
            m.extension_id == extension_id,
            m.payload == payload,
    {
        Self { extension_id, payload }
    }

    /// Reads the extended frame at the start of `src` and removes the frame from `src`.
    pub fn from_bytes(src: &mut Vec<u8>) -> (m: Self)
        requires
            old(src)@.len() >= 6,
            be_u32(old(src)@.subrange(0, 4)) >= 2,
            4 + be_u32(old(src)@.subrange(0, 4)) <= old(src)@.len(),
        ensures
            ({
                let frame = 4 + be_u32(old(src)@.subrange(0, 4));
                &&& m.extension_id == old(src)@[5]
                &&& m.payload@ == old(src)@.subrange(6, frame)
                &&& final(src)@ == old(src)@.skip(frame)
            }),
    {
        let length_prefix = read_u32_be(src.as_slice(), 0);
        let len = src.len();
        assert(4 + length_prefix <= len);
        let frame = 4 + length_prefix as usize;
        let extension_id = src[5];
        let payload = copy_range(src.as_slice(), 6, frame);
        let rest = copy_range(src.as_slice(), frame, src.len());
        *src = rest;
        Self { extension_id, payload }
    }
}

/// Unchoke message: `<len=0001><id=1>`.
pub struct Unchoke;

impl Unchoke {
    /// The five bytes of an unchoke message.
    pub fn to_bytes() -> (out: Vec<u8>)
        ensures
            out@ == u32_bytes(1) + seq![1u8],
    {
        let mut out: Vec<u8> = Vec::new();
        push_u32_be(&mut out, 1);
        out.push(1);
        out
    }
}

/// Interested message: `<len=0001><id=2>`.
pub struct Interested;

impl Interested {
    /// The five bytes of an interested message.
    pub fn to_bytes() -> (out: Vec<u8>)
        ensures
            out@ == u32_bytes(1) + seq![2u8],
    {
        let mut out: Vec<u8> = Vec::new();
        push_u32_be(&mut out, 1);
        out.push(2);
        out
    }
}

/// Abstract value of a peer message.
pub enum MessageView {
    Handshake(HandshakeView),
    KeepAlive,
    Choke,
    Unchoke,
    Interested,
    NotInterested,
    Bitfield { have: Seq<usize>, not_have: Seq<usize> },
    Have(u32),
    Request(RangeView),
    Piece { piece_index: u32, byte_index: u32, block: Seq<u8> },
    Cancel(RangeView),
    Port(u16),
    Extended { extension_id: u8, payload: Seq<u8> },
}

/// Messages sent to the peer and received from the peer.
#[derive(PartialEq, Debug, Clone)]
pub enum Message {
    Handshake(Handshake),
    KeepAlive,
    Choke,
    Unchoke,
    Interested,
    NotInterested,
    Bitfield(Bitfield),
    Have(Have),
    Request(Request),
    Piece(Block),
    Cancel(Cancel),
    Port(Port),
    Extended(ExtendedMessage),
}

impl View for Message {
    type V = MessageView;

    open spec fn view(&self) -> MessageView {
        match self {
            Message::Handshake(h) => MessageView::Handshake(h@),
            Message::KeepAlive => MessageView::KeepAlive,
            Message::Choke => MessageView::Choke,
            Message::Unchoke => MessageView::Unchoke,
            Message::Interested => MessageView::Interested,
            Message::NotInterested => MessageView::NotInterested,
            Message::Bitfield(b) => MessageView::Bitfield { have: b.have@, not_have: b.not_have@ },
            Message::Have(h) => MessageView::Have(h.piece_index),
            Message::Request(r) => MessageView::Request(r@),
            Message::Piece(b) => MessageView::Piece {
                piece_index: b.piece_index,
                byte_index: b.byte_index,
                block: b.raw_block@,
            },
            Message::Cancel(c) => MessageView::Cancel(c@),
            Message::Port(p) => MessageView::Port(p@),
            Message::Extended(e) => MessageView::Extended {
                extension_id: e.extension_id,
                payload: e.payload@,
            },
        }
    }
}

/// The bytes of a length-prefixed frame with message id `id` and the given payload.
pub open spec fn frame_bytes(id: u8, payload: Seq<u8>) -> Seq<u8> {
    u32_bytes((payload.len() + 1) as u32) + seq![id] + payload
}

impl MessageView {
    /// Payloads fit the 32-bit length prefix. Bitfields are not serialized.
    pub open spec fn encodable(self) -> bool {
        match self {
            MessageView::Piece { block, .. } => block.len() + 9 <= u32::MAX,
            MessageView::Extended { payload, .. } => payload.len() + 2 <= u32::MAX,
            _ => true,
        }
    }

    /// The bytes a message is sent as. A bitfield is sent as no bytes.
    pub open spec fn encoding(self) -> Seq<u8> {
        match self {
            MessageView::Handshake(h) => handshake_bytes(h),
            MessageView::KeepAlive => u32_bytes(0),
            MessageView::Choke => frame_bytes(0, Seq::empty()),
            MessageView::Unchoke => frame_bytes(1, Seq::empty()),
            MessageView::Interested => frame_bytes(2, Seq::empty()),
            MessageView::NotInterested => frame_bytes(3, Seq::empty()),
            MessageView::Bitfield { .. } => Seq::empty(),
            MessageView::Have(index) => frame_bytes(4, u32_bytes(index)),
            MessageView::Request(r) => frame_bytes(
                6,
                u32_bytes(r.index) + u32_bytes(r.begin) + u32_bytes(r.length),
            ),
            MessageView::Piece { piece_index, byte_index, block } => frame_bytes(
                7,
                u32_bytes(piece_index) + u32_bytes(byte_index) + block,
            ),
            MessageView::Cancel(r) => frame_bytes(
                8,
                u32_bytes(r.index) + u32_bytes(r.begin) + u32_bytes(r.length),
            ),
            MessageView::Port(port) => frame_bytes(9, u16_bytes(port)),
            MessageView::Extended { extension_id, payload } => frame_bytes(
                20,
                seq![extension_id] + payload,
            ),
        }
    }
}

/// Appends `<len = payload_len + 1><id>`.
fn push_frame_header(out: &mut Vec<u8>, id: u8, payload_len: usize)
    requires
        payload_len + 1 <= u32::MAX,
    ensures
        final(out)@ == old(out)@ + u32_bytes((payload_len + 1) as u32) + seq![id],
{
    push_u32_be(out, (payload_len + 1) as u32);
    out.push(id);
}

impl Message {
    /// Serializes the message into the bytes it is sent as.
    pub fn to_bytes(&self) -> (out: Vec<u8>)
        requires
            self@.encodable(),
        ensures
            out@ == self@.encoding(),
    {
        let mut out: Vec<u8> = Vec::new();
        match self {
            Message::Handshake(h) => {
                out = h.to_bytes();
            },
            Message::KeepAlive => {
                push_u32_be(&mut out, 0);
            },
            Message::Choke => {
                push_frame_header(&mut out, 0, 0);
                assert(out@ == frame_bytes(0, Seq::empty()));
            },
            Message::Unchoke => {
                push_frame_header(&mut out, 1, 0);
                assert(out@ == frame_bytes(1, Seq::empty()));
            },
            Message::Interested => {
                push_frame_header(&mut out, 2, 0);
                assert(out@ == frame_bytes(2, Seq::empty()));
            },
            Message::NotInterested => {
                push_frame_header(&mut out, 3, 0);
                assert(out@ == frame_bytes(3, Seq::empty()));
            },
            Message::Bitfield(_) => {},
            Message::Have(h) => {
                push_frame_header(&mut out, 4, 4);
                push_u32_be(&mut out, h.piece_index);
                assert(out@ == frame_bytes(4, u32_bytes(h.piece_index)));
            },
            Message::Request(r) => {
                push_frame_header(&mut out, 6, 12);
                push_u32_be(&mut out, r.index);
                push_u32_be(&mut out, r.begin);
                push_u32_be(&mut out, r.length);
                assert(out@ == frame_bytes(
                    6,
                    u32_bytes(r.index) + u32_bytes(r.begin) + u32_bytes(r.length),
                ));
            },
            Message::Piece(b) => {
                push_frame_header(&mut out, 7, 8 + b.raw_block.len());
                push_u32_be(&mut out, b.piece_index);
                push_u32_be(&mut out, b.byte_index);
                push_slice(&mut out, b.raw_block.as_slice());
                assert(out@ == frame_bytes(
                    7,
                    u32_bytes(b.piece_index) + u32_bytes(b.byte_index) + b.raw_block@,
                ));
            },
            Message::Cancel(c) => {
                push_frame_header(&mut out, 8, 12);
                push_u32_be(&mut out, c.index);
                push_u32_be(&mut out, c.begin);
                push_u32_be(&mut out, c.length);
                assert(out@ == frame_bytes(
                    8,
                    u32_bytes(c.index) + u32_bytes(c.begin) + u32_bytes(c.length),
                ));
            },
            Message::Port(p) => {
                push_frame_header(&mut out, 9, 2);
                push_u16_be(&mut out, p.listen_port);
                assert(out@ == frame_bytes(9, u16_bytes(p.listen_port)));
            },
            Message::Extended(e) => {
                push_frame_header(&mut out, 20, 1 + e.payload.len());
                out.push(e.extension_id);
                push_slice(&mut out, e.payload.as_slice());
                assert(out@ == frame_bytes(20, seq![e.extension_id] + e.payload@));
            },
        }
        out
    }
}

/// The length prefix of a frame: its first four bytes, big-endian.
pub open spec fn length_prefix(src: Seq<u8>) -> int {
    be_u32(src.subrange(0, 4))
}

/// A frame whose length prefix is exactly `lp`, whose `min_len` bytes are all present and whose
/// id is `id`.
pub open spec fn fixed_frame_is(src: Seq<u8>, lp: int, min_len: int, id: u8) -> bool {
    src.len() >= 4 && length_prefix(src) == lp && src.len() >= min_len && src[4] == id
}

/// A frame whose whole length-prefixed body is present and whose id is `id`.
pub open spec fn variable_frame_is(src: Seq<u8>, id: u8) -> bool {
    src.len() >= 4 && src.len() >= 4 + length_prefix(src) && src[4] == id
}

/// Frames whose test reads no byte that is not there: a complete frame with an empty body has
/// no id byte, and the frame length must fit in 32 bits.
pub open spec fn variable_frame_testable(src: Seq<u8>) -> bool {
    src.len() >= 4 ==> (length_prefix(src) + 4 <= u32::MAX && (length_prefix(src) == 0 ==> src.len()
        >= 5))
}

fn fixed_frame_test(src: &[u8], lp: u32, min_len: usize, id: u8) -> (b: bool)
    requires
        min_len >= 5,
    ensures
        b == fixed_frame_is(src@, lp as int, min_len as int, id),
{
    if src.len() >= 4 {
        let length_prefix = read_u32_be(src, 0);
        if length_prefix == lp && src.len() >= min_len {
            return src[4] == id;
        }
    }
    false
}

fn variable_frame_test(src: &[u8], id: u8) -> (b: bool)
    requires
        variable_frame_testable(src@),
    ensures
        b == variable_frame_is(src@, id),
{
    if src.len() >= 4 {
        let length_prefix = read_u32_be(src, 0);
        let expected_frame_length = 4 + length_prefix;
        if src.len() as u64 >= expected_frame_length as u64 {
            return src[4] == id;
        }
    }
    false
}

impl Message {
    /// Whether the buffer starts with a complete handshake frame.
    pub fn is_handshake_message(src: &[u8]) -> (b: bool)
        ensures
            b == (src@.len() >= HANDSHAKE_LENGTH && src@[0] == 19),
    {
        src.len() >= HANDSHAKE_LENGTH && src[0] == 19
    }

    /// Whether the buffer starts with a keep-alive frame `<0000>`.
    pub fn is_keep_alive_message(src: &[u8]) -> (b: bool)
        ensures
            b == (src@.len() >= 4 && length_prefix(src@) == 0),
    {
        if src.len() >= 4 {
            let length_prefix = read_u32_be(src, 0);
            return length_prefix == 0;
        }
        false
    }

    /// Whether the buffer starts with a choke frame `<0001><0>`.
    pub fn is_choke_message(src: &[u8]) -> (b: bool)
        ensures
            b == fixed_frame_is(src@, 1, 5, 0),
    {
        fixed_frame_test(src, 1, 5, 0)
    }

    /// Whether the buffer starts with an unchoke frame `<0001><1>`.
    pub fn is_unchoke_message(src: &[u8]) -> (b: bool)
        ensures
            b == fixed_frame_is(src@, 1, 5, 1),
    {
        fixed_frame_test(src, 1, 5, 1)
    }

    /// Whether the buffer starts with an interested frame `<0001><2>`.
    pub fn is_interested_message(src: &[u8]) -> (b: bool)
        ensures
            b == fixed_frame_is(src@, 1, 5, 2),
    {
        fixed_frame_test(src, 1, 5, 2)
    }

    /// Whether the buffer starts with a not-interested frame `<0001><3>`.
    pub fn is_not_interested_message(src: &[u8]) -> (b: bool)
        ensures
            b == fixed_frame_is(src@, 1, 5, 3),
    {
        fixed_frame_test(src, 1, 5, 3)
    }

    /// Whether the buffer starts with a complete have frame `<0005><4><index>`.
    pub fn is_have_message(src: &[u8]) -> (b: bool)
        ensures
            b == fixed_frame_is(src@, 5, 9, 4),
    {
        fixed_frame_test(src, 5, 9, 4)
    }

    /// Whether the buffer starts with a complete bitfield frame.
    pub fn is_bitfield_message(src: &[u8]) -> (b: bool)
        requires
            variable_frame_testable(src@),
        ensures
            b == variable_frame_is(src@, 5),
    {
        variable_frame_test(src, 5)
    }

    /// Whether the buffer starts with a complete request frame `<0013><6>...`.
    pub fn is_request_message(src: &[u8]) -> (b: bool)
        ensures
            b == fixed_frame_is(src@, 13, 17, 6),
    {
        fixed_frame_test(src, 13, 17, 6)
    }

    /// Whether the buffer starts with a complete piece frame.
    pub fn is_piece_message(src: &[u8]) -> (b: bool)
        requires
            variable_frame_testable(src@),
        ensures
            b == variable_frame_is(src@, 7),
    {
        variable_frame_test(src, 7)
    }

    /// Whether the buffer starts with a complete cancel frame `<0013><8>...`.
    pub fn is_cancel_message(src: &[u8]) -> (b: bool)
        ensures
            b == fixed_frame_is(src@, 13, 17, 8),
    {
        fixed_frame_test(src, 13, 17, 8)
    }

    /// Whether the buffer starts with a complete port frame `<0003><9><port>`.
    pub fn is_port_message(src: &[u8]) -> (b: bool)
        ensures
            b == fixed_frame_is(src@, 3, 7, 9),
    {
        fixed_frame_test(src, 3, 7, 9)
    }
}

} // verus!
