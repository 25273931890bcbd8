//! Fetching a torrent's info dictionary from a peer (BEP 9): bencode value scanning, metadata
//! piece collection and the decisions of a fetch session.
use crate::codec::PeerCodecError;
use crate::messages::{extension_bit_set, ExtendedMessage, Message, MessageView};
use crate::net::PeerAddr;
use vstd::prelude::*;

verus! {

/// Size of one metadata piece (16 KiB).
pub const METADATA_BLOCK_SIZE: usize = 16384;

/// Extension id under which this client asks for `ut_metadata`.
pub const LOCAL_UT_METADATA_ID: u8 = 1;

#[verifier::external_type_specification]
#[verifier::external_body]
pub struct ExBencodeError(serde_bencode::Error);

/// Errors of a metadata fetch.
#[derive(Debug)]
pub enum MagnetMetadataError {
    InvalidInfoHashLength(usize),
    ConnectionTimeout(PeerAddr),
    Connection { addr: PeerAddr, source: std::io::Error },
    PeerClosed,
    PeerTimeout,
    InfoHashMismatch,
    ExtensionProtocolUnsupported,
    UtMetadataUnsupported,
    MetadataSizeMissing,
    PieceRejected(usize),
    PieceOutOfRange { piece: usize, piece_count: usize },
    MalformedResponse(&'static str),
    Codec(PeerCodecError),
    Bencode(serde_bencode::Error),
}

/// Fetches metadata of a magnet torrent from a peer. The connection and the exchange of
/// frames happen around these decisions.
pub struct MagnetMetadataFetcher;

impl MagnetMetadataFetcher {
    /// A metadata fetch needs a 20-byte info hash.
    pub fn check_info_hash(info_hash: &[u8]) -> (r: Result<(), MagnetMetadataError>)
        ensures
            info_hash@.len() == 20 ==> r is Ok,
            info_hash@.len() != 20 ==> (r matches Err(MagnetMetadataError::InvalidInfoHashLength(n))
                && n == info_hash@.len()),
    {
        if info_hash.len() != 20 {
            Err(MagnetMetadataError::InvalidInfoHashLength(info_hash.len()))
        } else {
            Ok(())
        }
    }

    /// Judges the first message of the peer: a handshake for the same info hash that offers
    /// the extension protocol is accepted; one for another hash is a mismatch; one without
    /// the extension protocol is refused; anything else is malformed.
    pub fn check_peer_handshake(message: &Message, info_hash: &[u8]) -> (r: Result<
        (),
        MagnetMetadataError,
    >)
        ensures
            match message@ {
                crate::messages::MessageView::Handshake(h) => if h.info_hash != info_hash@ {
                    r matches Err(MagnetMetadataError::InfoHashMismatch)
                } else if !extension_bit_set(h.reserved) {
                    r matches Err(MagnetMetadataError::ExtensionProtocolUnsupported)
                } else {
                    r is Ok
                },
                _ => r matches Err(MagnetMetadataError::MalformedResponse(_)),
            },
    {
        match message {
            Message::Handshake(handshake) => {
                let theirs = handshake.info_hash();
                let mut same = theirs.len() == info_hash.len();
                let mut i: usize = 0;
                while same && i < theirs.len()
                    invariant
                        i <= theirs@.len(),
                        same ==> theirs@.len() == info_hash@.len(),
                        same ==> theirs@.subrange(0, i as int) == info_hash@.subrange(0, i as int),
                        !same ==> theirs@ != info_hash@,
                    decreases theirs@.len() - i,
                {
                    if theirs[i] != info_hash[i] {
                        same = false;
                    } else {
                        assert(theirs@.subrange(0, i + 1) =~= theirs@.subrange(0, i as int).push(theirs@[i as int]));
                        assert(info_hash@.subrange(0, i + 1) =~= info_hash@.subrange(0, i as int).push(info_hash@[i as int]));
                    }
                    i = i + 1;
                }
                proof {
                    if same {
                        assert(theirs@ =~= theirs@.subrange(0, i as int));
                        assert(info_hash@ =~= info_hash@.subrange(0, i as int));
                    }
                }
                if !same {
                    Err(MagnetMetadataError::InfoHashMismatch)
                } else if !handshake.supports_extensions() {
                    Err(MagnetMetadataError::ExtensionProtocolUnsupported)
                } else {
                    Ok(())
                }
            },
            _ => Err(MagnetMetadataError::MalformedResponse("expected peer handshake")),
        }
    }

    /// The payload of the peer's extension handshake, if `message` is one (extended id 0).
    pub fn extension_handshake_payload(message: &Message) -> (r: Option<&Vec<u8>>)
        ensures
            match message@ {
                crate::messages::MessageView::Extended { extension_id, payload } => if extension_id
                    == 0 {
                    r matches Some(p) && p@ == payload
                } else {
                    r is None
                },
                _ => r is None,
            },
    {
        match message {
            Message::Extended(extended) => if extended.extension_id == 0 {
                Some(&extended.payload)
            } else {
                None
            },
            _ => None,
        }
    }

    /// The payload of a `ut_metadata` message, if `message` is one (extended id of the
    /// peer's `ut_metadata`); other messages are passed over.
    pub fn metadata_payload(message: &Message, ut_metadata_id: u8) -> (r: Option<&Vec<u8>>)
        ensures
            match message@ {
                crate::messages::MessageView::Extended { extension_id, payload } => if extension_id
                    == ut_metadata_id {
                    r matches Some(p) && p@ == payload
                } else {
                    r is None
                },
                _ => r is None,
            },
    {
        match message {
            Message::Extended(extended) => if extended.extension_id == ut_metadata_id {
                Some(&extended.payload)
            } else {
                None
            },
            _ => None,
        }
    }
}

// ---------------------------------------------------------------------------------------------
// Bencode value boundaries
// ---------------------------------------------------------------------------------------------

/// Whether a byte is an ASCII decimal digit.
pub open spec fn is_digit(b: u8) -> bool {
    48 <= b <= 57
}

/// Value of a string of ASCII digits, read in base 10.
pub open spec fn decimal_value(digits: Seq<u8>) -> int
    decreases digits.len(),
{
    if digits.len() == 0 {
        0
    } else {
        decimal_value(digits.drop_last()) * 10 + (digits.last() - 48)
    }
}

/// Position of the first `byte` at or after `from`.
pub open spec fn first_index_of(b: Seq<u8>, from: int, byte: u8) -> Option<int>
    decreases b.len() - from,
{
    if from < 0 || from >= b.len() {
        None
    } else if b[from] == byte {
        Some(from)
    } else {
        first_index_of(b, from + 1, byte)
    }
}

/// End of the integer `i<digits>e` that starts at `o`: just past the first `e`.
pub open spec fn integer_end(b: Seq<u8>, o: int) -> Option<int> {
    match first_index_of(b, o, 101) {
        Some(p) => Some(p + 1),
        None => None,
    }
}

/// End of the byte string `<length>:<bytes>` that starts at `o`.
pub open spec fn byte_string_end(b: Seq<u8>, o: int) -> Option<int> {
    match first_index_of(b, o, 58) {
        Some(colon) => {
            let digits = b.subrange(o, colon);
            let length = decimal_value(digits);
            if (forall|i: int| 0 <= i < digits.len() ==> is_digit(#[trigger] digits[i])) && length
                <= usize::MAX && colon + 1 + length <= b.len() {
                Some(colon + 1 + length)
            } else {
                None
            }
        },
        None => None,
    }
}

/// End of the bencode value that starts at `o`, if one starts there.
pub open spec fn value_end(b: Seq<u8>, o: int) -> Option<int>
    decreases b.len() - o, 0int,
{
    if o < 0 || o >= b.len() {
        None
    } else if b[o] == 100 || b[o] == 108 {
        list_end(b, o + 1)
    } else if b[o] == 105 {
        integer_end(b, o)
    } else if is_digit(b[o]) {
        byte_string_end(b, o)
    } else {
        None
    }
}

/// End of the items of a list or dictionary, from `c` to just past its closing `e`.
pub open spec fn list_end(b: Seq<u8>, c: int) -> Option<int>
    decreases b.len() - c, 1int,
{
    if c < 0 || c >= b.len() {
        None
    } else if b[c] == 101 {
        Some(c + 1)
    } else {
        match value_end(b, c) {
            Some(c2) => if c < c2 <= b.len() {
                list_end(b, c2)
            } else {
                None
            },
            None => None,
        }
    }
}

proof fn lemma_first_index_of(b: Seq<u8>, from: int, byte: u8)
    ensures
        first_index_of(b, from, byte) matches Some(p) ==> from <= p < b.len() && b[p] == byte
            && forall|k: int| from <= k < p ==> b[k] != byte,
        first_index_of(b, from, byte) is None ==> forall|k: int|
            0 <= from <= k < b.len() ==> b[k] != byte,
    decreases b.len() - from,
{
    if 0 <= from < b.len() && b[from] != byte {
        lemma_first_index_of(b, from + 1, byte);
    }
}

/// A value that ends, ends after it starts and within the bytes.
pub proof fn lemma_value_end_bounds(b: Seq<u8>, o: int)
    ensures
        value_end(b, o) matches Some(e) ==> o < e <= b.len(),
    decreases b.len() - o, 0int,
{
    if 0 <= o < b.len() {
        if b[o] == 100 || b[o] == 108 {
            lemma_list_end_bounds(b, o + 1);
        } else if b[o] == 105 {
            lemma_first_index_of(b, o, 101);
        } else if is_digit(b[o]) {
            lemma_first_index_of(b, o, 58);
            if let Some(colon) = first_index_of(b, o, 58) {
                let digits = b.subrange(o, colon);
                if forall|i: int| 0 <= i < digits.len() ==> is_digit(#[trigger] digits[i]) {
                    lemma_decimal_nonnegative(digits);
                }
            }
        }
    }
}

/// A list that ends, ends after where its items start and within the bytes.
pub proof fn lemma_list_end_bounds(b: Seq<u8>, c: int)
    ensures
        list_end(b, c) matches Some(e) ==> c < e <= b.len(),
    decreases b.len() - c, 1int,
{
    if 0 <= c < b.len() && b[c] != 101 {
        lemma_value_end_bounds(b, c);
        if let Some(c2) = value_end(b, c) {
            if c < c2 <= b.len() {
                lemma_list_end_bounds(b, c2);
            }
        }
    }
}

/// Finds the end of the bencode value that starts at the beginning of a byte string.
pub struct BencodePrefix;

impl BencodePrefix {
    /// Length of the bencode value at the start of `bytes`.
    pub fn value_length(bytes: &[u8]) -> (r: Result<usize, MagnetMetadataError>)
        ensures
            match value_end(bytes@, 0) {
                Some(e) => r matches Ok(n) && n == e,
                None => r matches Err(MagnetMetadataError::MalformedResponse(_)),
            },
    {
        Self::scan_value(bytes, 0)
    }

    /// End of the bencode value that starts at `offset`.
    pub fn scan_value(bytes: &[u8], offset: usize) -> (r: Result<usize, MagnetMetadataError>)
        requires
            offset <= bytes@.len(),
        ensures
            match value_end(bytes@, offset as int) {
                Some(e) => r matches Ok(n) && n == e,
                None => r matches Err(MagnetMetadataError::MalformedResponse(_)),
            },
        decreases bytes@.len() - offset, 1int,
    {
        if offset >= bytes.len() {
            return Err(MagnetMetadataError::MalformedResponse("empty bencode value"));
        }
        let byte = bytes[offset];
        if byte == 100 || byte == 108 {
            Self::scan_list_like(bytes, offset)
        } else if byte == 105 {
            Self::scan_integer(bytes, offset)
        } else if 48 <= byte && byte <= 57 {
            Self::scan_bytes(bytes, offset)
        } else {
            Err(MagnetMetadataError::MalformedResponse("invalid bencode prefix"))
        }
    }

    /// End of the list or dictionary that starts at `offset`.
    pub fn scan_list_like(bytes: &[u8], offset: usize) -> (r: Result<usize, MagnetMetadataError>)
        requires
            offset < bytes@.len(),
        ensures
            match list_end(bytes@, offset + 1) {
                Some(e) => r matches Ok(n) && n == e,
                None => r matches Err(MagnetMetadataError::MalformedResponse(_)),
            },
        decreases bytes@.len() - offset, 0int,
    {
        let len = bytes.len();
        let mut cursor = offset + 1;
        while cursor >= bytes.len() || bytes[cursor] != 101
            invariant
                offset < cursor <= bytes@.len(),
                offset < bytes@.len(),
                list_end(bytes@, offset + 1) == list_end(bytes@, cursor as int),
            decreases bytes@.len() - cursor,
        {
            proof {
                lemma_value_end_bounds(bytes@, cursor as int);
            }
            let next = Self::scan_value(bytes, cursor);
            match next {
                Ok(c2) => {
                    cursor = c2;
                },
                Err(e) => {
                    return Err(e);
                },
            }
        }
        Ok(cursor + 1)
    }

    /// End of the integer that starts at `offset`: just past the first `e` at or after it.
    pub fn scan_integer(bytes: &[u8], offset: usize) -> (r: Result<usize, MagnetMetadataError>)
        requires
            offset <= bytes@.len(),
        ensures
            match integer_end(bytes@, offset as int) {
                Some(e) => r matches Ok(n) && n == e,
                None => r matches Err(MagnetMetadataError::MalformedResponse(_)),
            },
    {
        let len = bytes.len();
        match Self::position_of(bytes, offset, 101) {
            Some(p) => Ok(p + 1),
            None => Err(MagnetMetadataError::MalformedResponse("unterminated bencode integer")),
        }
    }

    /// First position at or after `from` holding `byte`.
    fn position_of(bytes: &[u8], from: usize, byte: u8) -> (r: Option<usize>)
        requires
            from <= bytes@.len(),
        ensures
            r matches Some(p) ==> first_index_of(bytes@, from as int, byte) == Some(p as int),
            r is None ==> first_index_of(bytes@, from as int, byte) is None,
            r matches Some(p) ==> p < bytes@.len(),
    {
        let mut i = from;
        while i < bytes.len()
            invariant
                from <= i <= bytes@.len(),
                first_index_of(bytes@, from as int, byte) == first_index_of(bytes@, i as int, byte),
            decreases bytes@.len() - i,
        {
            if bytes[i] == byte {
                return Some(i);
            }
            i = i + 1;
        }
        None
    }

    /// End of the byte string `<length>:<bytes>` that starts at `offset`.
    pub fn scan_bytes(bytes: &[u8], offset: usize) -> (r: Result<usize, MagnetMetadataError>)
        requires
            offset <= bytes@.len(),
        ensures
            match byte_string_end(bytes@, offset as int) {
                Some(e) => r matches Ok(n) && n == e,
                None => r matches Err(MagnetMetadataError::MalformedResponse(_)),
            },
    {
        let colon = match Self::position_of(bytes, offset, 58) {
            Some(c) => c,
            None => {
                return Err(
                    MagnetMetadataError::MalformedResponse("unterminated bencode byte string"),
                );
            },
        };
        proof {
            lemma_first_index_of(bytes@, offset as int, 58);
        }
        let ghost digits = bytes@.subrange(offset as int, colon as int);
        let mut length: usize = 0;
        let mut i = offset;
        while i < colon
            invariant
                offset <= i <= colon,
                colon < bytes@.len(),
                first_index_of(bytes@, offset as int, 58) == Some(colon as int),
                digits == bytes@.subrange(offset as int, colon as int),
                forall|k: int| 0 <= k < i - offset ==> is_digit(#[trigger] digits[k]),
                length == decimal_value(digits.subrange(0, i - offset)),
            decreases colon - i,
        {
            let d = bytes[i];
            if !(48 <= d && d <= 57) {
                proof {
                    assert(!is_digit(digits[i - offset]));
                }
                return Err(
                    MagnetMetadataError::MalformedResponse("invalid bencode byte string length"),
                );
            }
            proof {
                assert(digits.subrange(0, i - offset + 1).drop_last() == digits.subrange(
                    0,
                    i - offset,
                ));
                assert(digits[i - offset] == d);
            }
            let next = match length.checked_mul(10) {
                Some(m) => m.checked_add((d - 48) as usize),
                None => None,
            };
            match next {
                Some(v) => {
                    length = v;
                },
                None => {
                    proof {
                        assert(decimal_value(digits.subrange(0, i - offset + 1)) == length * 10 + (d
                            - 48));
                        if forall|k: int| 0 <= k < digits.len() ==> is_digit(#[trigger] digits[k]) {
                            lemma_decimal_prefix_grows(digits, i - offset + 1);
                        }
                    }
                    return Err(
                        MagnetMetadataError::MalformedResponse("invalid bencode byte string length"),
                    );
                },
            }
            i = i + 1;
        }
        assert(digits.subrange(0, colon - offset) == digits);
        if length > bytes.len() - colon - 1 {
            return Err(MagnetMetadataError::MalformedResponse("truncated bencode byte string"));
        }
        Ok(colon + 1 + length)
    }
}

/// The value of a prefix of a digit string is at most the value of the whole string.
proof fn lemma_decimal_prefix_grows(digits: Seq<u8>, n: int)
    requires
        0 <= n <= digits.len(),
        forall|k: int| 0 <= k < digits.len() ==> is_digit(#[trigger] digits[k]),
    ensures
        decimal_value(digits.subrange(0, n)) <= decimal_value(digits),
    decreases digits.len() - n,
{
    if n < digits.len() {
        lemma_decimal_prefix_grows(digits, n + 1);
        let p = digits.subrange(0, n + 1);
        assert(p.drop_last() == digits.subrange(0, n));
        assert(is_digit(p.last()));
        lemma_decimal_nonnegative(digits.subrange(0, n));
    } else {
        assert(digits.subrange(0, n) == digits);
    }
}

proof fn lemma_decimal_nonnegative(digits: Seq<u8>)
    requires
        forall|k: int| 0 <= k < digits.len() ==> is_digit(#[trigger] digits[k]),
    ensures
        decimal_value(digits) >= 0,
    decreases digits.len(),
{
    if digits.len() > 0 {
        lemma_decimal_nonnegative(digits.drop_last());
    }
}


// ---------------------------------------------------------------------------------------------
// Metadata pieces
// ---------------------------------------------------------------------------------------------

/// Number of metadata pieces for a total size: `ceil(total_size / 16384)`, at least one.
pub open spec fn metadata_piece_count(total_size: nat) -> nat {
    let count = (total_size + METADATA_BLOCK_SIZE - 1) / (METADATA_BLOCK_SIZE as int);
    if count < 1 {
        1
    } else {
        count as nat
    }
}

/// The bytes of the received pieces, one after the other (a missing piece adds nothing).
pub open spec fn concat_pieces(pieces: Seq<Option<Seq<u8>>>) -> Seq<u8>
    decreases pieces.len(),
{
    if pieces.len() == 0 {
        Seq::empty()
    } else {
        concat_pieces(pieces.drop_last()) + match pieces.last() {
            Some(data) => data,
            None => Seq::empty(),
        }
    }
}

/// Every piece has been received.
pub open spec fn all_pieces_present(pieces: Seq<Option<Seq<u8>>>) -> bool {
    forall|i: int| 0 <= i < pieces.len() ==> (#[trigger] pieces[i]) is Some
}

/// The first `n` bytes of `bytes`, or all of them if there are fewer.
pub open spec fn truncated(bytes: Seq<u8>, n: nat) -> Seq<u8> {
    if n < bytes.len() {
        bytes.subrange(0, n as int)
    } else {
        bytes
    }
}

/// Piece `i` of `metadata` cut into 16 KiB pieces.
pub open spec fn metadata_chunk(metadata: Seq<u8>, i: int) -> Seq<u8> {
    let start = i * METADATA_BLOCK_SIZE;
    let end = if (i + 1) * METADATA_BLOCK_SIZE < metadata.len() {
        (i + 1) * METADATA_BLOCK_SIZE
    } else {
        metadata.len() as int
    };
    metadata.subrange(start, end)
}

/// The ASCII decimal digits of `n`.
pub open spec fn ascii_decimal(n: nat) -> Seq<u8>
    decreases n,
{
    if n < 10 {
        seq![(48 + n) as u8]
    } else {
        ascii_decimal(n / 10).push((48 + n % 10) as u8)
    }
}

/// A number written in ASCII decimal digits reads back as itself: the digits of `n` are all
/// decimal digits and their value is `n`.
pub proof fn lemma_ascii_decimal_round_trip(n: nat)
    ensures
        decimal_value(ascii_decimal(n)) == n,
        forall|i: int| 0 <= i < ascii_decimal(n).len() ==> is_digit(#[trigger] ascii_decimal(n)[i]),
        ascii_decimal(n).len() >= 1,
    decreases n,
{
    if n < 10 {
        assert(ascii_decimal(n).drop_last() =~= Seq::<u8>::empty());
        assert(((48 + n) as u8) == 48 + n);
        assert(decimal_value(Seq::<u8>::empty()) == 0);
        assert(decimal_value(ascii_decimal(n)) == decimal_value(ascii_decimal(n).drop_last()) * 10 + (
        ascii_decimal(n).last() - 48));
    } else {
        lemma_ascii_decimal_round_trip(n / 10);
        assert(ascii_decimal(n).drop_last() =~= ascii_decimal(n / 10));
        assert(((48 + n % 10) as u8) == 48 + n % 10);
        assert((n / 10) * 10 + n % 10 == n);
        assert(ascii_decimal(n).last() == 48 + n % 10);
        assert(decimal_value(ascii_decimal(n)) == decimal_value(ascii_decimal(n).drop_last()) * 10 + (
        ascii_decimal(n).last() - 48));
        assert forall|i: int| 0 <= i < ascii_decimal(n).len() implies is_digit(
            #[trigger] ascii_decimal(n)[i],
        ) by {
            if i < ascii_decimal(n).len() - 1 {
                assert(ascii_decimal(n)[i] == ascii_decimal(n / 10)[i]);
            }
        }
    }
}

/// The ASCII decimal digits of `n`.
fn ascii_decimal_bytes(n: usize) -> (v: Vec<u8>)
    ensures
        v@ == ascii_decimal(n as nat),
    decreases n,
{
    if n < 10 {
        let d = (48 + n) as u8;
        let v: Vec<u8> = vec![d];
        assert(v@ =~= ascii_decimal(n as nat));
        v
    } else {
        let mut v = ascii_decimal_bytes(n / 10);
        v.push((48 + n % 10) as u8);
        v
    }
}

/// `d8:msg_typei<type>e5:piecei`, the start of a `ut_metadata` header whose message type is
/// the digit `msg_type`.
pub open spec fn metadata_header_start(msg_type: u8) -> Seq<u8> {
    seq![100u8, 56, 58, 109, 115, 103, 95, 116, 121, 112, 101, 105, msg_type, 101, 53, 58, 112, 105, 101, 99, 101, 105]
}

/// `10:total_sizei`, the key of the total size and the start of its value.
pub open spec fn total_size_key() -> Seq<u8> {
    seq![49u8, 48, 58, 116, 111, 116, 97, 108, 95, 115, 105, 122, 101, 105]
}

/// The payload of a `ut_metadata` request for `piece`: the bencoded dictionary
/// `{msg_type: 0, piece: <piece>}`.
pub open spec fn request_payload(piece: nat) -> Seq<u8> {
    metadata_header_start(48) + ascii_decimal(piece) + seq![101u8, 101]
}

/// The payload of a `ut_metadata` data message: the bencoded dictionary
/// `{msg_type: 1, piece: <piece>, total_size: <total_size>}` followed by the data.
pub open spec fn data_payload(piece: nat, total_size: nat, data: Seq<u8>) -> Seq<u8> {
    metadata_header_start(49) + ascii_decimal(piece) + seq![101u8] + total_size_key() + ascii_decimal(
        total_size,
    ) + seq![101u8, 101] + data
}

/// The first `byte` at or after `from` is at `p` when `p` holds it and nothing before it does.
proof fn lemma_first_index_at(b: Seq<u8>, from: int, p: int, byte: u8)
    requires
        0 <= from <= p < b.len(),
        b[p] == byte,
        forall|k: int| from <= k < p ==> b[k] != byte,
    ensures
        first_index_of(b, from, byte) == Some(p),
    decreases p - from,
{
    if from < p {
        lemma_first_index_at(b, from + 1, p, byte);
    }
}

/// The bencoded header of a `ut_metadata` data message splits off exactly: the bencode value
/// at the start of the payload ends where the header ends, and what follows is the data.
pub proof fn lemma_data_header_splits(piece: nat, total_size: nat, data: Seq<u8>)
    ensures
        ({
            let b = data_payload(piece, total_size, data);
            let h = data_payload(piece, total_size, Seq::empty()).len() as int;
            &&& value_end(b, 0) == Some(h)
            &&& b.subrange(0, h) == data_payload(piece, total_size, Seq::empty())
            &&& b.subrange(h, b.len() as int) == data
        }),
{
    let d1 = ascii_decimal(piece);
    let d2 = ascii_decimal(total_size);
    lemma_ascii_decimal_round_trip(piece);
    lemma_ascii_decimal_round_trip(total_size);
    let l1 = d1.len() as int;
    let l2 = d2.len() as int;
    let head = metadata_header_start(49);
    let key = total_size_key();
    let b = data_payload(piece, total_size, data);
    let h = data_payload(piece, total_size, Seq::empty()).len() as int;
    assert(h == 39 + l1 + l2);
    assert(b.len() == h + data.len());
    // the bytes of the header, position by position
    assert forall|k: int| 0 <= k < 22 implies b[k] == head[k] by {}
    assert forall|j: int| 0 <= j < l1 implies b[22 + j] == d1[j] by {}
    assert(b[22 + l1] == 101);
    assert forall|j: int| 0 <= j < 14 implies b[23 + l1 + j] == key[j] by {}
    assert forall|j: int| 0 <= j < l2 implies b[37 + l1 + j] == d2[j] by {}
    assert(b[37 + l1 + l2] == 101);
    assert(b[38 + l1 + l2] == 101);
    assert forall|j: int| 0 <= j < data.len() implies b[h + j] == data[j] by {}
    // `8:msg_type`
    lemma_first_index_at(b, 1, 2, 58);
    assert(b.subrange(1, 2) =~= seq![56u8]);
    assert(decimal_value(seq![56u8].drop_last()) == 0);
    assert(decimal_value(seq![56u8]) == 8);
    assert(byte_string_end(b, 1) == Some(11int));
    assert(value_end(b, 1) == Some(11int));
    // `i1e`
    lemma_first_index_at(b, 11, 13, 101);
    assert(value_end(b, 11) == Some(14int));
    // `5:piece`
    lemma_first_index_at(b, 14, 15, 58);
    assert(b.subrange(14, 15) =~= seq![53u8]);
    assert(decimal_value(seq![53u8].drop_last()) == 0);
    assert(decimal_value(seq![53u8]) == 5);
    assert(value_end(b, 14) == Some(21int));
    // `i<piece>e`
    assert forall|k: int| 21 <= k < 22 + l1 implies b[k] != 101 by {
        if k > 21 {
            assert(is_digit(d1[k - 22]));
        }
    }
    lemma_first_index_at(b, 21, 22 + l1, 101);
    assert(value_end(b, 21) == Some(23 + l1));
    // `10:total_size`
    lemma_first_index_at(b, 23 + l1, 25 + l1, 58);
    assert(b.subrange(23 + l1, 25 + l1) =~= seq![49u8, 48]);
    assert(seq![49u8, 48].drop_last() =~= seq![49u8]);
    assert(decimal_value(seq![49u8].drop_last()) == 0);
    assert(decimal_value(seq![49u8]) == 1);
    assert(decimal_value(seq![49u8, 48]) == 10);
    assert(value_end(b, 23 + l1) == Some(36 + l1));
    // `i<total_size>e`
    assert forall|k: int| 36 + l1 <= k < 37 + l1 + l2 implies b[k] != 101 by {
        if k > 36 + l1 {
            assert(is_digit(d2[k - 37 - l1]));
        }
    }
    lemma_first_index_at(b, 36 + l1, 37 + l1 + l2, 101);
    assert(value_end(b, 36 + l1) == Some(38 + l1 + l2));
    // the dictionary's end
    assert(list_end(b, 38 + l1 + l2) == Some(h));
    assert(list_end(b, 36 + l1) == Some(h));
    assert(list_end(b, 23 + l1) == Some(h));
    assert(list_end(b, 21) == Some(h));
    assert(list_end(b, 14) == Some(h));
    assert(list_end(b, 11) == Some(h));
    assert(list_end(b, 1) == Some(h));
    assert(b.subrange(0, h) =~= data_payload(piece, total_size, Seq::empty()));
    assert(b.subrange(h, b.len() as int) =~= data);
}

fn push_all(v: &mut Vec<u8>, bytes: &[u8])
    ensures
        final(v)@ == old(v)@ + bytes@,
{
    let ghost start = v@;
    let mut i: usize = 0;
    while i < bytes.len()
        invariant
            i <= bytes@.len(),
            v@ == start + bytes@.subrange(0, i as int),
        decreases bytes@.len() - i,
    {
        v.push(bytes[i]);
        assert(bytes@.subrange(0, i + 1) =~= bytes@.subrange(0, i as int).push(bytes@[i as int]));
        i = i + 1;
    }
    assert(bytes@.subrange(0, i as int) =~= bytes@);
}

fn header_start_bytes(msg_type: u8) -> (v: Vec<u8>)
    ensures
        v@ == metadata_header_start(msg_type),
{
    let v: Vec<u8> = vec![100u8, 56, 58, 109, 115, 103, 95, 116, 121, 112, 101, 105, msg_type, 101, 53, 58, 112, 105, 101, 99, 101, 105];
    assert(v@ =~= metadata_header_start(msg_type));
    v
}

/// A `ut_metadata` message of the peer's extension `ut_metadata_id`.
pub struct MetadataMessage;

impl MetadataMessage {
    /// The extended message that asks for the metadata piece `piece`.
    pub fn request(ut_metadata_id: u8, piece: usize) -> (m: Message)
        ensures
            m@ == (MessageView::Extended {
                extension_id: ut_metadata_id,
                payload: request_payload(piece as nat),
            }),
    {
        let mut payload = header_start_bytes(48);
        let digits = ascii_decimal_bytes(piece);
        push_all(&mut payload, digits.as_slice());
        payload.push(101);
        payload.push(101);
        assert(payload@ =~= request_payload(piece as nat));
        Message::Extended(ExtendedMessage::new(ut_metadata_id, payload))
    }

    /// The extended message that sends the metadata piece `piece`, `data`, of metadata
    /// `total_size` bytes long.
    pub fn data(ut_metadata_id: u8, piece: usize, total_size: usize, data: Vec<u8>) -> (m: Message)
        ensures
            m@ == (MessageView::Extended {
                extension_id: ut_metadata_id,
                payload: data_payload(piece as nat, total_size as nat, data@),
            }),
    {
        let mut payload = header_start_bytes(49);
        let digits = ascii_decimal_bytes(piece);
        push_all(&mut payload, digits.as_slice());
        payload.push(101);
        let key: Vec<u8> = vec![49u8, 48, 58, 116, 111, 116, 97, 108, 95, 115, 105, 122, 101, 105];
        assert(key@ =~= total_size_key());
        push_all(&mut payload, key.as_slice());
        let total = ascii_decimal_bytes(total_size);
        push_all(&mut payload, total.as_slice());
        payload.push(101);
        payload.push(101);
        push_all(&mut payload, data.as_slice());
        assert(payload@ =~= data_payload(piece as nat, total_size as nat, data@));
        Message::Extended(ExtendedMessage::new(ut_metadata_id, payload))
    }
}

/// A `data` message of `ut_metadata`: one piece of the info dictionary.
pub struct MetadataPieceMessage {
    pub piece: usize,
    pub total_size: Option<usize>,
    pub data: Vec<u8>,
}

/// The decoded header of a `ut_metadata` message.
pub struct MetadataPayloadHeader {
    pub msg_type: u8,
    pub piece: usize,
    pub total_size: Option<usize>,
}

/// What a `ut_metadata` payload says, read through its decoded header.
pub ghost enum MetadataReading {
    /// A piece of the metadata: its index, the total size announced and its bytes.
    Piece { piece: usize, total_size: Option<usize>, data: Seq<u8> },
    /// The peer refuses the piece.
    Rejected(usize),
    /// Neither.
    Malformed,
}

/// What a payload whose bencoded header, `header_length` bytes long, decodes to `header` says:
/// a `data` message (type 1) carries the bytes after the header, a `reject` (type 2) refuses
/// the piece, and any other type is malformed.
pub open spec fn read_metadata_payload(header: MetadataPayloadHeader, payload: Seq<u8>, header_length: int) -> MetadataReading {
    if header.msg_type == 1 {
        MetadataReading::Piece {
            piece: header.piece,
            total_size: header.total_size,
            data: payload.subrange(header_length, payload.len() as int),
        }
    } else if header.msg_type == 2 {
        MetadataReading::Rejected(header.piece)
    } else {
        MetadataReading::Malformed
    }
}

/// A data message reads back as what it was built from: the bencode value at the start of its
/// payload is the header `{msg_type: 1, piece, total_size}`, and reading the payload through
/// that header gives the piece, the total size and exactly the bytes that were sent. Read
/// through the header of a `reject` for the same piece, it refuses that piece.
pub proof fn lemma_metadata_piece_round_trip(piece: usize, total_size: usize, data: Seq<u8>)
    ensures
        ({
            let payload = data_payload(piece as nat, total_size as nat, data);
            &&& value_end(payload, 0) matches Some(h) && {
                &&& payload.subrange(0, h) == data_payload(piece as nat, total_size as nat, Seq::empty())
                &&& read_metadata_payload(
                    MetadataPayloadHeader { msg_type: 1, piece, total_size: Some(total_size) },
                    payload,
                    h,
                ) == MetadataReading::Piece { piece, total_size: Some(total_size), data }
                &&& read_metadata_payload(
                    MetadataPayloadHeader { msg_type: 2, piece, total_size: None },
                    payload,
                    h,
                ) == MetadataReading::Rejected(piece)
            }
        }),
{
    lemma_data_header_splits(piece as nat, total_size as nat, data);
}

impl MetadataPieceMessage {
    /// Interprets a `ut_metadata` payload whose bencoded header, `header_length` bytes long,
    /// decodes to `header`, as [`read_metadata_payload`] says.
    pub fn from_header(header: MetadataPayloadHeader, payload: &[u8], header_length: usize) -> (r:
        Result<MetadataPieceMessage, MagnetMetadataError>)
        requires
            header_length <= payload@.len(),
        ensures
            match read_metadata_payload(header, payload@, header_length as int) {
                MetadataReading::Piece { piece, total_size, data } => r matches Ok(m) && m.piece == piece
                    && m.total_size == total_size && m.data@ == data,
                MetadataReading::Rejected(p) => r matches Err(MagnetMetadataError::PieceRejected(q))
                    && q == p,
                MetadataReading::Malformed => r matches Err(MagnetMetadataError::MalformedResponse(_)),
            },
            header.msg_type == 1 ==> (r matches Ok(m) && m.piece == header.piece && m.total_size
                == header.total_size && m.data@ == payload@.subrange(
                header_length as int,
                payload@.len() as int,
            )),
            header.msg_type == 2 ==> (r matches Err(MagnetMetadataError::PieceRejected(p)) && p
                == header.piece),
            header.msg_type != 1 && header.msg_type != 2 ==> r matches Err(
                MagnetMetadataError::MalformedResponse(_),
            ),
    {
        if header.msg_type == 1 {
            let data = crate::wire::copy_range(payload, header_length, payload.len());
            Ok(MetadataPieceMessage { piece: header.piece, total_size: header.total_size, data })
        } else if header.msg_type == 2 {
            Err(MagnetMetadataError::PieceRejected(header.piece))
        } else {
            Err(MagnetMetadataError::MalformedResponse("unknown metadata msg_type"))
        }
    }
}

/// A piece's announced total size, if any, is the one the collector expects.
pub open spec fn size_agrees(announced: Option<usize>, total_size: nat) -> bool {
    announced matches Some(t) ==> t == total_size
}

/// Abstract state of a metadata collector.
pub struct CollectorView {
    pub total_size: nat,
    pub pieces: Seq<Option<Seq<u8>>>,
}

/// Collects the pieces of an info dictionary of known size.
pub struct MetadataCollector {
    total_size: usize,
    pieces: Vec<Option<Vec<u8>>>,
}

/// The bytes of an optional piece.
pub open spec fn piece_view(p: Option<Vec<u8>>) -> Option<Seq<u8>> {
    match p {
        Some(v) => Some(v@),
        None => None,
    }
}

impl View for MetadataCollector {
    type V = CollectorView;

    closed spec fn view(&self) -> CollectorView {
        CollectorView {
            total_size: self.total_size as nat,
            pieces: self.pieces@.map_values(|p: Option<Vec<u8>>| piece_view(p)),
        }
    }
}

impl MetadataCollector {
    /// A collector with no pieces, one slot per 16 KiB of `total_size` (at least one).
    pub fn new(total_size: usize) -> (c: MetadataCollector)
        ensures
            c@.total_size == total_size,
            c@.pieces.len() == metadata_piece_count(total_size as nat),
            forall|i: int| 0 <= i < c@.pieces.len() ==> (#[trigger] c@.pieces[i]) is None,
    {
        let mut count = total_size / METADATA_BLOCK_SIZE;
        if total_size % METADATA_BLOCK_SIZE != 0 {
            count = count + 1;
        }
        if count < 1 {
            count = 1;
        }
        assert(count == metadata_piece_count(total_size as nat)) by (nonlinear_arith)
            requires
                count == (if total_size / 16384 + (if total_size % 16384 != 0 { 1int } else { 0 }) < 1 { 1 } else { total_size / 16384 + (if total_size % 16384 != 0 { 1int } else { 0 }) }),
        {
        }
        let mut pieces: Vec<Option<Vec<u8>>> = Vec::new();
        while pieces.len() < count
            invariant
                pieces.len() <= count,
                forall|i: int| 0 <= i < pieces@.len() ==> (#[trigger] pieces@[i]) is None,
            decreases count - pieces.len(),
        {
            pieces.push(None);
        }
        MetadataCollector { total_size, pieces }
    }

    /// Number of pieces.
    pub fn piece_count(&self) -> (n: usize)
        ensures
            n == self@.pieces.len(),
    {
        self.pieces.len()
    }

    /// Whether every piece has been received.
    pub fn is_complete(&self) -> (b: bool)
        ensures
            b == all_pieces_present(self@.pieces),
    {
        let mut i: usize = 0;
        while i < self.pieces.len()
            invariant
                i <= self.pieces@.len(),
                forall|k: int| 0 <= k < i ==> (#[trigger] self@.pieces[k]) is Some,
            decreases self.pieces@.len() - i,
        {
            if self.pieces[i].is_none() {
                assert(self@.pieces[i as int] is None);
                return false;
            }
            i = i + 1;
        }
        true
    }

    /// Stores a received piece. A piece index past the last piece, or a total size other than
    /// the one announced, is refused and leaves the collector unchanged.
    pub fn insert(&mut self, piece: MetadataPieceMessage) -> (r: Result<(), MagnetMetadataError>)
        ensures
            piece.piece >= old(self)@.pieces.len() ==> (r matches Err(
                MagnetMetadataError::PieceOutOfRange { piece: p, piece_count: n },
            ) && p == piece.piece && n == old(self)@.pieces.len()),
            piece.piece < old(self)@.pieces.len() && !size_agrees(
                piece.total_size,
                old(self)@.total_size,
            ) ==> (r matches Err(MagnetMetadataError::MalformedResponse(_))),
            r is Err ==> final(self)@ == old(self)@,
            piece.piece < old(self)@.pieces.len() && size_agrees(
                piece.total_size,
                old(self)@.total_size,
            ) ==> r is Ok && final(self)@.total_size == old(self)@.total_size && final(self)@.pieces
                == old(self)@.pieces.update(piece.piece as int, Some(piece.data@)),
    {
        if piece.piece >= self.pieces.len() {
            return Err(
                MagnetMetadataError::PieceOutOfRange {
                    piece: piece.piece,
                    piece_count: self.pieces.len(),
                },
            );
        }
        if let Some(total_size) = piece.total_size {
            if total_size != self.total_size {
                return Err(MagnetMetadataError::MalformedResponse("metadata total_size changed"));
            }
        }
        let index = piece.piece;
        self.pieces.set(index, Some(piece.data));
        proof {
            assert(self@.pieces =~= old(self)@.pieces.update(index as int, Some(piece.data@)));
        }
        Ok(())
    }

    /// The pieces one after the other, cut to the announced total size; refused while a piece
    /// is missing.
    pub fn assemble(self) -> (r: Result<Vec<u8>, MagnetMetadataError>)
        ensures
            all_pieces_present(self@.pieces) ==> (r matches Ok(v) && v@ == truncated(
                concat_pieces(self@.pieces),
                self@.total_size,
            )),
            !all_pieces_present(self@.pieces) ==> r matches Err(
                MagnetMetadataError::MalformedResponse(_),
            ),
    {
        let ghost pieces = self@.pieces;
        let mut metadata: Vec<u8> = Vec::new();
        let mut i: usize = 0;
        while i < self.pieces.len()
            invariant
                i <= self.pieces@.len(),
                pieces == self@.pieces,
                pieces.len() == self.pieces@.len(),
                forall|k: int| 0 <= k < i ==> (#[trigger] pieces[k]) is Some,
                metadata@ == concat_pieces(pieces.subrange(0, i as int)),
            decreases self.pieces@.len() - i,
        {
            match &self.pieces[i] {
                Some(data) => {
                    assert(pieces[i as int] == Some(data@));
                    assert(pieces.subrange(0, i + 1).drop_last() == pieces.subrange(0, i as int));
                    metadata.extend_from_slice(data.as_slice());
                    assert(metadata@ == concat_pieces(pieces.subrange(0, i + 1)));
                },
                None => {
                    assert(pieces[i as int] is None);
                    return Err(MagnetMetadataError::MalformedResponse("missing metadata piece"));
                },
            }
            i = i + 1;
        }
        assert(pieces.subrange(0, i as int) == pieces);
        metadata.truncate(self.total_size);
        Ok(metadata)
    }
}


/// Bytes covered by the first `k` pieces of a `len`-byte info dictionary.
pub open spec fn covered_prefix(len: nat, k: int) -> int {
    if k * METADATA_BLOCK_SIZE < len {
        k * METADATA_BLOCK_SIZE
    } else {
        len as int
    }
}

proof fn lemma_piece_starts_within(len: nat, k: int)
    requires
        0 <= k < metadata_piece_count(len),
    ensures
        k * METADATA_BLOCK_SIZE <= len,
{
    assert(k * 16384 <= len) by (nonlinear_arith)
        requires
            0 <= k,
            k < (if (len + 16383) / 16384 < 1 { 1 } else { (len + 16383) / 16384 }),
    {
        if len == 0 {
            assert(k == 0);
        } else {
            assert(k <= (len + 16383) / 16384 - 1);
            assert(16384 * ((len + 16383) / 16384) <= len + 16383);
        }
    }
}

proof fn lemma_concat_prefix(metadata: Seq<u8>, pieces: Seq<Option<Seq<u8>>>, k: int)
    requires
        pieces.len() == metadata_piece_count(metadata.len()),
        forall|i: int|
            0 <= i < pieces.len() ==> #[trigger] pieces[i] == Some(metadata_chunk(metadata, i)),
        0 <= k <= pieces.len(),
    ensures
        concat_pieces(pieces.subrange(0, k)) == metadata.subrange(0, covered_prefix(metadata.len(), k)),
    decreases k,
{
    if k == 0 {
        assert(pieces.subrange(0, 0).len() == 0);
        assert(metadata.subrange(0, 0) =~= Seq::<u8>::empty());
    } else {
        lemma_concat_prefix(metadata, pieces, k - 1);
        lemma_piece_starts_within(metadata.len(), k - 1);
        let prefix = pieces.subrange(0, k);
        assert(prefix.drop_last() =~= pieces.subrange(0, k - 1));
        assert(prefix.last() == pieces[k - 1]);
        let start = (k - 1) * METADATA_BLOCK_SIZE;
        assert(covered_prefix(metadata.len(), k - 1) == start);
        assert(k * METADATA_BLOCK_SIZE == start + METADATA_BLOCK_SIZE) by (nonlinear_arith)
            requires start == (k - 1) * 16384;
        assert(metadata.subrange(0, start) + metadata_chunk(metadata, k - 1) =~= metadata.subrange(
            0,
            covered_prefix(metadata.len(), k),
        ));
    }
}

/// Cutting an info dictionary into 16 KiB pieces and assembling them gives it back: a
/// collector for its size that holds piece `i` in every slot `i` assembles to the bytes the
/// pieces were cut from.
pub proof fn lemma_assembled_metadata_is_whole(metadata: Seq<u8>, c: CollectorView)
    requires
        c.total_size == metadata.len(),
        c.pieces.len() == metadata_piece_count(metadata.len()),
        forall|i: int|
            0 <= i < c.pieces.len() ==> #[trigger] c.pieces[i] == Some(metadata_chunk(metadata, i)),
    ensures
        all_pieces_present(c.pieces),
        truncated(concat_pieces(c.pieces), c.total_size) == metadata,
{
    let n = c.pieces.len() as int;
    lemma_concat_prefix(metadata, c.pieces, n);
    assert(c.pieces.subrange(0, n) =~= c.pieces);
    assert(n * METADATA_BLOCK_SIZE >= metadata.len()) by (nonlinear_arith)
        requires
            n == (if (metadata.len() + 16383) / 16384 < 1 { 1 } else { (metadata.len() + 16383) / 16384 }),
    {
        assert(16384 * ((metadata.len() + 16383) / 16384) > metadata.len() + 16383 - 16384);
    }
    assert(metadata.subrange(0, metadata.len() as int) =~= metadata);
    assert forall|i: int| 0 <= i < c.pieces.len() implies (#[trigger] c.pieces[i]) is Some by {
        assert(c.pieces[i] == Some(metadata_chunk(metadata, i)));
    }
}


// ---------------------------------------------------------------------------------------------
// Extension handshakes
// ---------------------------------------------------------------------------------------------

/// The key under which peers advertise the metadata extension.
pub open spec fn ut_metadata_key() -> Seq<char> {
    "ut_metadata"@
}

/// Extension id of the first entry of `m` named `key`.
pub open spec fn extension_id_of(m: Seq<(Seq<char>, u8)>, key: Seq<char>) -> Option<u8>
    decreases m.len(),
{
    if m.len() == 0 {
        None
    } else if m[0].0 == key {
        Some(m[0].1)
    } else {
        extension_id_of(m.drop_first(), key)
    }
}

/// An extension map yields an id for `key` exactly when some entry, at any position, is
/// named `key`; the id is that of the first such entry.
pub proof fn lemma_extension_id_of(m: Seq<(Seq<char>, u8)>, key: Seq<char>)
    ensures
        (exists|i: int| 0 <= i < m.len() && #[trigger] m[i].0 == key) <==> extension_id_of(
            m,
            key,
        ) is Some,
        extension_id_of(m, key) matches Some(id) ==> exists|j: int|
            0 <= j < m.len() && #[trigger] m[j].0 == key && m[j].1 == id && forall|k: int|
                0 <= k < j ==> #[trigger] m[k].0 != key,
    decreases m.len(),
{
    if m.len() > 0 {
        let t = m.drop_first();
        lemma_extension_id_of(t, key);
        if m[0].0 == key {
            assert(m[0].0 == key);
        } else {
            if exists|i: int| 0 <= i < m.len() && #[trigger] m[i].0 == key {
                let i = choose|i: int| 0 <= i < m.len() && #[trigger] m[i].0 == key;
                assert(t[i - 1].0 == key);
            }
            if extension_id_of(t, key) is Some {
                let i = choose|i: int| 0 <= i < t.len() && #[trigger] t[i].0 == key;
                assert(m[i + 1].0 == key);
                let id = extension_id_of(t, key)->0;
                let j = choose|j: int|
                    0 <= j < t.len() && #[trigger] t[j].0 == key && t[j].1 == id && forall|k: int|
                        0 <= k < j ==> #[trigger] t[k].0 != key;
                assert(m[j + 1] == t[j]);
                assert forall|k: int| 0 <= k < j + 1 implies #[trigger] m[k].0 != key by {
                    if k > 0 {
                        assert(m[k] == t[k - 1]);
                    }
                }
            }
        }
    }
}

/// The extension map as pairs of names and ids.
pub open spec fn extension_map_view(m: Seq<(String, u8)>) -> Seq<(Seq<char>, u8)> {
    m.map_values(|e: (String, u8)| (e.0@, e.1))
}

/// The name `ut_metadata`.
fn ut_metadata_name() -> (s: String)
    ensures
        s@ == ut_metadata_key(),
{
    String::from_str("ut_metadata")
}

/// The extension handshake this client sends: it offers `ut_metadata` under id 1.
pub struct LocalExtensionHandshake {
    pub m: Vec<(String, u8)>,
}

impl LocalExtensionHandshake {
    /// The handshake that maps `ut_metadata` to the local id.
    pub fn new() -> (h: Self)
        ensures
            extension_map_view(h.m@) == seq![(ut_metadata_key(), LOCAL_UT_METADATA_ID)],
    {
        let mut m: Vec<(String, u8)> = Vec::new();
        m.push((ut_metadata_name(), LOCAL_UT_METADATA_ID));
        proof {
            assert(extension_map_view(m@) =~= seq![(ut_metadata_key(), LOCAL_UT_METADATA_ID)]);
        }
        LocalExtensionHandshake { m }
    }
}

/// The extension handshake of a remote peer: its extension map and the announced size of
/// the info dictionary.
pub struct RemoteExtensionHandshake {
    pub m: Vec<(String, u8)>,
    pub metadata_size: Option<usize>,
}

impl RemoteExtensionHandshake {
    /// A handshake that offers `ut_metadata` under `ut_metadata_id` with the given size.
    pub fn new(ut_metadata_id: u8, metadata_size: usize) -> (h: Self)
        ensures
            extension_map_view(h.m@) == seq![(ut_metadata_key(), ut_metadata_id)],
            h.metadata_size == Some(metadata_size),
    {
        let mut m: Vec<(String, u8)> = Vec::new();
        m.push((ut_metadata_name(), ut_metadata_id));
        proof {
            assert(extension_map_view(m@) =~= seq![(ut_metadata_key(), ut_metadata_id)]);
        }
        RemoteExtensionHandshake { m, metadata_size: Some(metadata_size) }
    }
}

/// What a peer's extension handshake gives a metadata fetch.
pub struct PeerExtensionHandshake {
    pub ut_metadata_id: u8,
    pub metadata_size: usize,
}

impl PeerExtensionHandshake {
    /// The `ut_metadata` id and metadata size of a remote handshake; refused when the peer
    /// does not offer `ut_metadata`, or, offering it, announces no size.
    pub fn from_remote(remote: &RemoteExtensionHandshake) -> (r: Result<Self, MagnetMetadataError>)
        ensures
            match extension_id_of(extension_map_view(remote.m@), ut_metadata_key()) {
                None => r matches Err(MagnetMetadataError::UtMetadataUnsupported),
                Some(id) => match remote.metadata_size {
                    None => r matches Err(MagnetMetadataError::MetadataSizeMissing),
                    Some(size) => (r matches Ok(h) && h.ut_metadata_id == id && h.metadata_size
                        == size),
                },
            },
            (exists|i: int| 0 <= i < remote.m@.len() && #[trigger] remote.m@[i].0@
                == ut_metadata_key()) ==> match remote.metadata_size {
                None => r matches Err(MagnetMetadataError::MetadataSizeMissing),
                Some(size) => (r matches Ok(h) && h.metadata_size == size && exists|j: int|
                    0 <= j < remote.m@.len() && #[trigger] remote.m@[j].0@ == ut_metadata_key()
                        && remote.m@[j].1 == h.ut_metadata_id),
            },
            (forall|i: int| 0 <= i < remote.m@.len() ==> #[trigger] remote.m@[i].0@
                != ut_metadata_key()) ==> r matches Err(MagnetMetadataError::UtMetadataUnsupported),
    {
        let key = ut_metadata_name();
        let ghost entries = extension_map_view(remote.m@);
        proof {
            let k = ut_metadata_key();
            lemma_extension_id_of(entries, k);
            assert forall|i: int| 0 <= i < entries.len() implies #[trigger] entries[i] == (
            remote.m@[i].0@, remote.m@[i].1) by {}
            if exists|i: int| 0 <= i < remote.m@.len() && #[trigger] remote.m@[i].0@ == k {
                let i = choose|i: int| 0 <= i < remote.m@.len() && #[trigger] remote.m@[i].0@ == k;
                assert(entries[i].0 == k);
            }
            if extension_id_of(entries, k) is Some {
                let id = extension_id_of(entries, k)->0;
                let j = choose|j: int|
                    0 <= j < entries.len() && #[trigger] entries[j].0 == k && entries[j].1 == id
                        && forall|q: int| 0 <= q < j ==> #[trigger] entries[q].0 != k;
                assert(remote.m@[j].0@ == k && remote.m@[j].1 == id);
            }
        }
        assert(entries.skip(0) =~= entries);
        let mut i: usize = 0;
        while i < remote.m.len()
            invariant
                i <= remote.m@.len(),
                entries == extension_map_view(remote.m@),
                key@ == ut_metadata_key(),
                extension_id_of(entries, ut_metadata_key()) == extension_id_of(
                    entries.skip(i as int),
                    ut_metadata_key(),
                ),
            decreases remote.m@.len() - i,
        {
            let ghost rest = entries.skip(i as int);
            assert(rest.drop_first() =~= entries.skip(i + 1));
            assert(rest[0] == (remote.m@[i as int].0@, remote.m@[i as int].1));
            if remote.m[i].0 == key {
                let ut_metadata_id = remote.m[i].1;
                return match remote.metadata_size {
                    Some(metadata_size) => Ok(PeerExtensionHandshake { ut_metadata_id, metadata_size }),
                    None => Err(MagnetMetadataError::MetadataSizeMissing),
                };
            }
            i = i + 1;
        }
        assert(entries.skip(i as int).len() == 0);
        Err(MagnetMetadataError::UtMetadataUnsupported)
    }
}

} // verus!
