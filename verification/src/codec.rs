//! Framing of peer messages: splitting a receive buffer into messages, and the reverse.
use crate::messages::{
    frame_bytes, handshake_bytes, handshake_view_of, indices_equal_to, lemma_indices_equal_to,
    range_view_of, Bitfield,
    Block, Cancel, ExtendedMessage, Handshake, Have, Message, MessageView, Port, Request,
    HANDSHAKE_LENGTH,
};
use crate::wire::{
    be_u16, be_u32, copy_range, lemma_u16_roundtrip, lemma_u32_roundtrip, push_slice,
    read_u32_be, u16_bytes, u32_bytes,
};
use vstd::prelude::*;

verus! {

/// Largest length prefix a peer frame may carry (4 MiB).
pub const MAX_PEER_FRAME_LENGTH: usize = 4194304;

#[verifier::external_type_specification]
#[verifier::external_body]
pub struct ExIoError(std::io::Error);

/// Errors met while splitting peer frames.
#[derive(Debug)]
pub enum PeerCodecError {
    FrameTooLarge { length: usize, max: usize },
    InvalidFrame(&'static str),
    Io(std::io::Error),
}

/// What the bytes at the start of a receive buffer amount to.
pub enum FrameOutcome {
    /// More bytes are needed before a message can be read.
    Incomplete,
    /// The length prefix exceeds [`MAX_PEER_FRAME_LENGTH`].
    TooLarge(nat),
    /// The frame is complete but its id and length do not form a known message.
    Invalid,
    /// A message, and the number of bytes its frame occupies.
    Complete(MessageView, nat),
}

/// How the first frame of `buf` is read.
pub open spec fn decode_frame(buf: Seq<u8>) -> FrameOutcome {
    if buf.len() == 0 {
        FrameOutcome::Incomplete
    } else if buf[0] == 19 {
        if buf.len() < HANDSHAKE_LENGTH {
            FrameOutcome::Incomplete
        } else {
            FrameOutcome::Complete(MessageView::Handshake(handshake_view_of(buf)), 68)
        }
    } else if buf.len() < 4 {
        FrameOutcome::Incomplete
    } else {
        let lp = be_u32(buf.subrange(0, 4));
        let frame = 4 + lp;
        if lp > MAX_PEER_FRAME_LENGTH {
            FrameOutcome::TooLarge(lp as nat)
        } else if buf.len() < frame {
            FrameOutcome::Incomplete
        } else if lp == 0 {
            FrameOutcome::Complete(MessageView::KeepAlive, 4)
        } else {
            let id = buf[4];
            if id == 0 && lp == 1 {
                FrameOutcome::Complete(MessageView::Choke, 5)
            } else if id == 1 && lp == 1 {
                FrameOutcome::Complete(MessageView::Unchoke, 5)
            } else if id == 2 && lp == 1 {
                FrameOutcome::Complete(MessageView::Interested, 5)
            } else if id == 3 && lp == 1 {
                FrameOutcome::Complete(MessageView::NotInterested, 5)
            } else if id == 4 && lp == 5 {
                FrameOutcome::Complete(MessageView::Have(be_u32(buf.subrange(5, 9)) as u32), 9)
            } else if id == 5 && lp >= 1 {
                let payload = buf.subrange(5, frame);
                FrameOutcome::Complete(
                    MessageView::Bitfield {
                        have: indices_equal_to(payload, 1, payload.len() as int),
                        not_have: indices_equal_to(payload, 0, payload.len() as int),
                    },
                    frame as nat,
                )
            } else if id == 6 && lp == 13 {
                FrameOutcome::Complete(MessageView::Request(range_view_of(buf)), 17)
            } else if id == 7 && lp >= 9 {
                FrameOutcome::Complete(
                    MessageView::Piece {
                        piece_index: be_u32(buf.subrange(5, 9)) as u32,
                        byte_index: be_u32(buf.subrange(9, 13)) as u32,
                        block: buf.subrange(13, frame),
                    },
                    frame as nat,
                )
            } else if id == 8 && lp == 13 {
                FrameOutcome::Complete(MessageView::Cancel(range_view_of(buf)), 17)
            } else if id == 9 && lp == 3 {
                FrameOutcome::Complete(MessageView::Port(be_u16(buf.subrange(5, 7)) as u16), 7)
            } else if id == 20 && lp >= 2 {
                FrameOutcome::Complete(
                    MessageView::Extended { extension_id: buf[5], payload: buf.subrange(6, frame) },
                    frame as nat,
                )
            } else {
                FrameOutcome::Invalid
            }
        }
    }
}

/// Splits the peer byte stream into messages.
#[derive(Debug)]
pub struct PeerMessageCodec;

/// Removes the first `n` bytes of `src`.
fn consume(src: &mut Vec<u8>, n: usize)
    requires
        n <= old(src)@.len(),
    ensures
        final(src)@ == old(src)@.skip(n as int),
{
    let rest = copy_range(src.as_slice(), n, src.len());
    *src = rest;
}

impl PeerMessageCodec {
    /// A codec.
    pub fn new() -> (c: Self) {
        PeerMessageCodec
    }

    /// Reads the first frame of `src`. A complete frame is removed from `src` and returned as
    /// a message; an incomplete one leaves `src` as it is and gives `None`.
    pub fn decode(&mut self, src: &mut Vec<u8>) -> (r: Result<Option<Message>, PeerCodecError>)
        ensures
            match decode_frame(old(src)@) {
                FrameOutcome::Incomplete => r matches Ok(None) && final(src)@ == old(src)@,
                FrameOutcome::TooLarge(n) => r matches Err(PeerCodecError::FrameTooLarge {
                    length,
                    max,
                }) && length == n && max == MAX_PEER_FRAME_LENGTH && final(src)@ == old(src)@,
                FrameOutcome::Invalid => r matches Err(PeerCodecError::InvalidFrame(_))
                    && final(src)@ == old(src)@,
                FrameOutcome::Complete(m, n) => r matches Ok(Some(msg)) && msg@ == m && n
                    <= old(src)@.len() && final(src)@ == old(src)@.skip(n as int),
            },
            ({
                let buf = old(src)@;
                let lp = be_u32(buf.subrange(0, 4));
                buf.len() >= 5 && 1 <= lp <= MAX_PEER_FRAME_LENGTH && buf[4] == 5 && 4 + lp
                    <= buf.len() ==> (r matches Ok(Some(Message::Bitfield(b))) && (forall|
                    i: usize,
                | #[trigger] b.have@.contains(i) <==> (i < lp - 1 && buf[5 + i] == 1)) && (
                forall|i: usize| #[trigger]
                    b.not_have@.contains(i) <==> (i < lp - 1 && buf[5 + i] == 0)) && final(src)@
                    == buf.skip(4 + lp))
            }),
    {
        proof {
            let buf = old(src)@;
            let lp = be_u32(buf.subrange(0, 4));
            if buf.len() >= 5 && 1 <= lp <= MAX_PEER_FRAME_LENGTH && buf[4] == 5 && 4 + lp
                <= buf.len() {
                assert(buf.subrange(0, 4)[0] == buf[0]);
                lemma_bitfield_frame(buf);
            }
        }
        let len = src.len();
        if len == 0 {
            return Ok(None);
        }
        if src[0] == 19 {
            if len < HANDSHAKE_LENGTH {
                return Ok(None);
            }
            return Ok(Some(Message::Handshake(Handshake::from(src))));
        }
        if len < 4 {
            return Ok(None);
        }
        let length_prefix = read_u32_be(src.as_slice(), 0);
        if length_prefix as usize > MAX_PEER_FRAME_LENGTH {
            return Err(
                PeerCodecError::FrameTooLarge {
                    length: length_prefix as usize,
                    max: MAX_PEER_FRAME_LENGTH,
                },
            );
        }
        let lp = length_prefix as usize;
        let frame_length = 4 + lp;
        if len < frame_length {
            return Ok(None);
        }
        if lp == 0 {
            consume(src, 4);
            return Ok(Some(Message::KeepAlive));
        }
        let message_id = src[4];
        if message_id == 0 && lp == 1 {
            consume(src, 5);
            Ok(Some(Message::Choke))
        } else if message_id == 1 && lp == 1 {
            consume(src, 5);
            Ok(Some(Message::Unchoke))
        } else if message_id == 2 && lp == 1 {
            consume(src, 5);
            Ok(Some(Message::Interested))
        } else if message_id == 3 && lp == 1 {
            consume(src, 5);
            Ok(Some(Message::NotInterested))
        } else if message_id == 4 && lp == 5 {
            let have = Have::from_bytes(src);
            consume(src, 9);
            Ok(Some(Message::Have(have)))
        } else if message_id == 5 && lp >= 1 {
            proof {
                let payload = src@.subrange(5, frame_length as int);
                lemma_indices_equal_to(payload, 1, payload.len() as int);
                lemma_indices_equal_to(payload, 0, payload.len() as int);
            }
            Ok(Some(Message::Bitfield(Bitfield::from_bytes(src))))
        } else if message_id == 6 && lp == 13 {
            Ok(Some(Message::Request(Request::from_bytes(src))))
        } else if message_id == 7 && lp >= 9 {
            Ok(Some(Message::Piece(Block::from_bytes(src))))
        } else if message_id == 8 && lp == 13 {
            Ok(Some(Message::Cancel(Cancel::from_bytes(src))))
        } else if message_id == 9 && lp == 3 {
            Ok(Some(Message::Port(Port::from_bytes(src))))
        } else if message_id == 20 && lp >= 2 {
            Ok(Some(Message::Extended(ExtendedMessage::from_bytes(src))))
        } else {
            Err(PeerCodecError::InvalidFrame("unknown message id or invalid length prefix"))
        }
    }

    /// Appends the bytes of every message, in order.
    pub fn encode(&mut self, item: Vec<Message>, dst: &mut Vec<u8>) -> (r: Result<(), PeerCodecError>)
        requires
            forall|i: int| 0 <= i < item@.len() ==> (#[trigger] item@[i])@.encodable(),
        ensures
            r is Ok,
            final(dst)@ == old(dst)@ + encoding_of_all(item@.map_values(|m: Message| m@)),
    {
        let ghost views = item@.map_values(|m: Message| m@);
        let mut i: usize = 0;
        while i < item.len()
            invariant
                i <= item@.len(),
                views == item@.map_values(|m: Message| m@),
                forall|j: int| 0 <= j < item@.len() ==> (#[trigger] item@[j])@.encodable(),
                dst@ == old(dst)@ + encoding_of_all(views.take(i as int)),
            decreases item@.len() - i,
        {
            let bytes = item[i].to_bytes();
            push_slice(dst, bytes.as_slice());
            proof {
                assert(views.take(i + 1).drop_last() == views.take(i as int));
                assert(views[i as int] == item@[i as int]@);
            }
            i = i + 1;
        }
        proof {
            assert(views.take(item@.len() as int) == views);
        }
        Ok(())
    }
}

/// The bytes of a sequence of messages, one after the other.
pub open spec fn encoding_of_all(messages: Seq<MessageView>) -> Seq<u8>
    decreases messages.len(),
{
    if messages.len() == 0 {
        Seq::empty()
    } else {
        encoding_of_all(messages.drop_last()) + messages.last().encoding()
    }
}

/// A complete bitfield frame (id 5) is read as a bitfield whose `have` holds exactly the
/// indices of the payload bytes equal to 1 and whose `not_have` holds exactly those of the
/// payload bytes equal to 0, each in increasing order; the frame is consumed whole.
pub proof fn lemma_bitfield_frame(buf: Seq<u8>)
    requires
        buf.len() >= 5,
        1 <= be_u32(buf.subrange(0, 4)) <= MAX_PEER_FRAME_LENGTH,
        buf[4] == 5,
        4 + be_u32(buf.subrange(0, 4)) <= buf.len(),
    ensures
        ({
            let lp = be_u32(buf.subrange(0, 4));
            decode_frame(buf) matches FrameOutcome::Complete(
                MessageView::Bitfield { have, not_have },
                n,
            ) && n == 4 + lp && (forall|i: usize| #[trigger]
                have.contains(i) <==> (i < lp - 1 && buf[5 + i] == 1)) && (forall|i: usize|
                #[trigger] not_have.contains(i) <==> (i < lp - 1 && buf[5 + i] == 0)) && (forall|
                j: int,
                k: int,
            | 0 <= j < k < have.len() ==> #[trigger] have[j] < #[trigger] have[k]) && (forall|
                j: int,
                k: int,
            | 0 <= j < k < not_have.len() ==> #[trigger] not_have[j] < #[trigger] not_have[k])
        }),
{
    let lp = be_u32(buf.subrange(0, 4));
    assert(buf.subrange(0, 4)[0] == buf[0]);
    assert(buf[0] != 19);
    let payload = buf.subrange(5, 4 + lp);
    lemma_indices_equal_to(payload, 1, payload.len() as int);
    lemma_indices_equal_to(payload, 0, payload.len() as int);
    assert forall|i: usize| i < lp - 1 implies payload[i as int] == buf[5 + i] by {}
}

/// Messages that the decoder gives back exactly from their own bytes: every message but a
/// bitfield (which is not serialized), with a v1 handshake, and within the frame size limit.
pub open spec fn roundtrips(m: MessageView) -> bool {
    match m {
        MessageView::Handshake(h) => h.pstrlen == 19 && h.pstr.len() == 19 && h.reserved.len() == 8
            && h.info_hash.len() == 20 && h.peer_id.len() == 20,
        MessageView::Bitfield { .. } => false,
        MessageView::Piece { block, .. } => block.len() + 9 <= MAX_PEER_FRAME_LENGTH,
        MessageView::Extended { payload, .. } => payload.len() + 2 <= MAX_PEER_FRAME_LENGTH,
        _ => true,
    }
}

proof fn lemma_frame_prefix(id: u8, payload: Seq<u8>, rest: Seq<u8>)
    requires
        payload.len() + 1 <= MAX_PEER_FRAME_LENGTH,
    ensures
        ({
            let buf = frame_bytes(id, payload) + rest;
            &&& buf.len() >= 5 + payload.len()
            &&& be_u32(buf.subrange(0, 4)) == payload.len() + 1
            &&& buf[0] == 0
            &&& buf[4] == id
            &&& buf.subrange(5, 5 + payload.len() as int) == payload
            &&& buf.skip(5 + payload.len() as int) == rest
        }),
{
    let n = (payload.len() + 1) as u32;
    lemma_u32_roundtrip(n);
    let buf = frame_bytes(id, payload) + rest;
    assert(buf.subrange(0, 4) == u32_bytes(n));
    assert(u32_bytes(n)[0] == n / 16777216);
    assert(buf.subrange(5, 5 + payload.len() as int) == payload);
    assert(buf.skip(5 + payload.len() as int) == rest);
}

/// A message's own bytes, followed by anything, decode back to that message and consume
/// exactly its bytes.
#[verifier::spinoff_prover]
#[verifier::rlimit(40)]
pub proof fn lemma_encode_decode_roundtrip(m: MessageView, rest: Seq<u8>)
    requires
        roundtrips(m),
    ensures
        decode_frame(m.encoding() + rest) == FrameOutcome::Complete(m, m.encoding().len()),
{
    let buf = m.encoding() + rest;
    match m {
        MessageView::Handshake(h) => {
            assert(buf.len() >= 68);
            assert(buf[0] == 19);
            assert(handshake_view_of(buf).pstr == h.pstr);
            assert(handshake_view_of(buf).reserved == h.reserved);
            assert(handshake_view_of(buf).info_hash == h.info_hash);
            assert(handshake_view_of(buf).peer_id == h.peer_id);
            assert(handshake_view_of(buf) == h);
        },
        MessageView::KeepAlive => {
            lemma_u32_roundtrip(0);
            assert(buf.subrange(0, 4) == u32_bytes(0));
        },
        MessageView::Choke => {
            lemma_frame_prefix(0, Seq::empty(), rest);
        },
        MessageView::Unchoke => {
            lemma_frame_prefix(1, Seq::empty(), rest);
        },
        MessageView::Interested => {
            lemma_frame_prefix(2, Seq::empty(), rest);
        },
        MessageView::NotInterested => {
            lemma_frame_prefix(3, Seq::empty(), rest);
        },
        MessageView::Bitfield { .. } => {},
        MessageView::Have(index) => {
            let p = u32_bytes(index);
            lemma_frame_prefix(4, p, rest);
            lemma_u32_roundtrip(index);
            assert(buf.subrange(5, 9) == p);
        },
        MessageView::Request(r) => {
            let p = u32_bytes(r.index) + u32_bytes(r.begin) + u32_bytes(r.length);
            lemma_frame_prefix(6, p, rest);
            lemma_u32_roundtrip(r.index);
            lemma_u32_roundtrip(r.begin);
            lemma_u32_roundtrip(r.length);
            assert(buf.subrange(5, 9) == u32_bytes(r.index));
            assert(buf.subrange(9, 13) == u32_bytes(r.begin));
            assert(buf.subrange(13, 17) == u32_bytes(r.length));
            assert(range_view_of(buf) == r);
        },
        MessageView::Piece { piece_index, byte_index, block } => {
            let p = u32_bytes(piece_index) + u32_bytes(byte_index) + block;
            lemma_frame_prefix(7, p, rest);
            lemma_u32_roundtrip(piece_index);
            lemma_u32_roundtrip(byte_index);
            assert(buf.subrange(5, 9) == u32_bytes(piece_index));
            assert(buf.subrange(9, 13) == u32_bytes(byte_index));
            assert(buf.subrange(13, 5 + p.len() as int) == block);
        },
        MessageView::Cancel(r) => {
            let p = u32_bytes(r.index) + u32_bytes(r.begin) + u32_bytes(r.length);
            lemma_frame_prefix(8, p, rest);
            lemma_u32_roundtrip(r.index);
            lemma_u32_roundtrip(r.begin);
            lemma_u32_roundtrip(r.length);
            assert(buf.subrange(5, 9) == u32_bytes(r.index));
            assert(buf.subrange(9, 13) == u32_bytes(r.begin));
            assert(buf.subrange(13, 17) == u32_bytes(r.length));
            assert(range_view_of(buf) == r);
        },
        MessageView::Port(port) => {
            let p = u16_bytes(port);
            lemma_frame_prefix(9, p, rest);
            lemma_u16_roundtrip(port);
            assert(buf.subrange(5, 7) == p);
        },
        MessageView::Extended { extension_id, payload } => {
            let p = seq![extension_id] + payload;
            lemma_frame_prefix(20, p, rest);
            assert(buf[5] == extension_id);
            assert(buf.subrange(6, 5 + p.len() as int) == payload);
        },
    }
}

} // verus!
