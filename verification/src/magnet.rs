//! Magnet links: the fields of a magnet URI, the BTIH info hash it names, and the title a
//! magnet torrent is shown under.
use crate::hash::{sha1, sha1_digest};
use crate::text::starts_with_chars;
use vstd::prelude::*;
use vstd::string::StringSliceAdditionalSpecFns;
use vstd::utf8::encode_utf8;
use vstd::arithmetic::power2::{pow2, lemma_pow2_adds, lemma_pow2_pos, lemma2_to64, lemma_pow2_strictly_increases};
use vstd::arithmetic::div_mod::{lemma_mod_breakdown, lemma_fundamental_div_mod_converse, lemma_div_denominator};
use vstd::arithmetic::mul::lemma_mul_is_commutative;
use vstd::bits::{lemma_u32_shl_is_mul, lemma_u32_shr_is_div};

verus! {

// ---------------------------------------------------------------------------------------------
// Magnet URI fields
// ---------------------------------------------------------------------------------------------

/// Why a magnet URI was refused.
#[derive(Debug)]
pub enum MagnetURIMetaError {
    InvalidURI,
}

/// The parameters of a magnet URI as the `magnet_url` crate reads them.
pub struct MagnetParts {
    pub display_name: Option<String>,
    pub hash_type: Option<String>,
    pub hash: Option<String>,
    pub length: Option<u64>,
    pub source: Option<String>,
    pub trackers: Vec<String>,
    pub search_keywords: Option<String>,
    pub web_seed: Option<String>,
    pub acceptable_source: Option<String>,
    pub manifest: Option<String>,
}

/// Abstract value of [`MagnetParts`]: every text as its characters.
pub struct MagnetPartsView {
    pub display_name: Option<Seq<char>>,
    pub hash_type: Option<Seq<char>>,
    pub hash: Option<Seq<char>>,
    pub length: Option<u64>,
    pub source: Option<Seq<char>>,
    pub trackers: Seq<Seq<char>>,
    pub search_keywords: Option<Seq<char>>,
    pub web_seed: Option<Seq<char>>,
    pub acceptable_source: Option<Seq<char>>,
    pub manifest: Option<Seq<char>>,
}

/// The characters of an optional text.
pub open spec fn opt_text(s: Option<String>) -> Option<Seq<char>> {
    match s {
        Some(t) => Some(t@),
        None => None,
    }
}

/// The characters of each text of a list.
pub open spec fn texts(v: Seq<String>) -> Seq<Seq<char>> {
    v.map_values(|s: String| s@)
}

impl View for MagnetParts {
    type V = MagnetPartsView;

    open spec fn view(&self) -> MagnetPartsView {
        MagnetPartsView {
            display_name: opt_text(self.display_name),
            hash_type: opt_text(self.hash_type),
            hash: opt_text(self.hash),
            length: self.length,
            source: opt_text(self.source),
            trackers: texts(self.trackers@),
            search_keywords: opt_text(self.search_keywords),
            web_seed: opt_text(self.web_seed),
            acceptable_source: opt_text(self.acceptable_source),
            manifest: opt_text(self.manifest),
        }
    }
}

/// The parameters `magnet_url::Magnet::new` reads out of a magnet URI.
pub uninterp spec fn magnet_url_parts(uri: Seq<char>) -> MagnetPartsView;

/// The scheme prefix of a magnet URI, `magnet:?`.
pub open spec fn magnet_prefix() -> Seq<char> {
    seq!['m', 'a', 'g', 'n', 'e', 't', ':', '?']
}

/// Whether `s` starts with `prefix`.
pub open spec fn has_prefix(s: Seq<char>, prefix: Seq<char>) -> bool {
    s.len() >= prefix.len() && s.subrange(0, prefix.len() as int) == prefix
}

/// Calls `magnet_url::Magnet::new` and reads the parameters through its getters. The crate
/// refuses exactly the strings that do not start with `magnet:?`; what it reads out of the
/// others is named [`magnet_url_parts`], a function of the URI alone, and not stated.
#[verifier::external_body]
fn parse_magnet(uri: &str) -> (r: Option<MagnetParts>)
    ensures
        r is Some <==> has_prefix(uri@, magnet_prefix()),
        r matches Some(p) ==> p@ == magnet_url_parts(uri@),
{
    match magnet_url::Magnet::new(uri) {
        Ok(m) => Some(MagnetParts {
            display_name: m.display_name().map(str::to_owned),
            hash_type: m.hash_type().map(str::to_owned),
            hash: m.hash().map(str::to_owned),
            length: m.length(),
            source: m.source().map(str::to_owned),
            trackers: m.trackers().to_vec(),
            search_keywords: m.search_keywords().map(str::to_owned),
            web_seed: m.web_seed().map(str::to_owned),
            acceptable_source: m.acceptable_source().map(str::to_owned),
            manifest: m.manifest().map(str::to_owned),
        }),
        Err(_) => None,
    }
}

/// The fields of a magnet URI (exact topic, display name, length, trackers, web seed,
/// acceptable source, exact source, keywords, manifest).
#[derive(Debug, Clone, PartialEq, Eq)]
pub struct MagnetURIMeta {
    pub xt: Option<String>,
    pub dn: Option<String>,
    pub xl: Option<u64>,
    pub tr: Option<Vec<String>>,
    pub ws: Option<String>,
    pub acceptable_source: Option<String>,
    pub xs: Option<String>,
    pub kt: Option<String>,
    pub mt: Option<String>,
}

/// Abstract value of [`MagnetURIMeta`].
pub struct MagnetURIMetaView {
    pub xt: Option<Seq<char>>,
    pub dn: Option<Seq<char>>,
    pub xl: Option<u64>,
    pub tr: Option<Seq<Seq<char>>>,
    pub ws: Option<Seq<char>>,
    pub acceptable_source: Option<Seq<char>>,
    pub xs: Option<Seq<char>>,
    pub kt: Option<Seq<char>>,
    pub mt: Option<Seq<char>>,
}

impl View for MagnetURIMeta {
    type V = MagnetURIMetaView;

    open spec fn view(&self) -> MagnetURIMetaView {
        MagnetURIMetaView {
            xt: opt_text(self.xt),
            dn: opt_text(self.dn),
            xl: self.xl,
            tr: match self.tr {
                Some(v) => Some(texts(v@)),
                None => None,
            },
            ws: opt_text(self.ws),
            acceptable_source: opt_text(self.acceptable_source),
            xs: opt_text(self.xs),
            kt: opt_text(self.kt),
            mt: opt_text(self.mt),
        }
    }
}

/// The exact topic `urn:<hash type>:<hash>`, present when both parts are.
pub open spec fn exact_topic(hash_type: Option<Seq<char>>, hash: Option<Seq<char>>) -> Option<
    Seq<char>,
> {
    match (hash_type, hash) {
        (Some(t), Some(h)) => Some(seq!['u', 'r', 'n', ':'] + t + seq![':'] + h),
        _ => None,
    }
}

/// The fields of a magnet URI whose parameters are `p`.
pub open spec fn meta_of_parts(p: MagnetPartsView) -> MagnetURIMetaView {
    MagnetURIMetaView {
        xt: exact_topic(p.hash_type, p.hash),
        dn: p.display_name,
        xl: p.length,
        tr: Some(p.trackers),
        ws: p.web_seed,
        acceptable_source: p.acceptable_source,
        xs: p.source,
        kt: p.search_keywords,
        mt: p.manifest,
    }
}

impl MagnetURIMeta {
    /// Reads the fields of a magnet URI; a string that is not a magnet URI is refused.
    pub fn fromMagnetURI(uri: &str) -> (r: Result<MagnetURIMeta, MagnetURIMetaError>)
        ensures
            has_prefix(uri@, magnet_prefix()) ==> (r matches Ok(m) && m@ == meta_of_parts(
                magnet_url_parts(uri@),
            )),
            !has_prefix(uri@, magnet_prefix()) ==> (r matches Err(MagnetURIMetaError::InvalidURI)),
    {
        match parse_magnet(uri) {
            Some(parts) => Ok(Self::from_parts(parts)),
            None => Err(MagnetURIMetaError::InvalidURI),
        }
    }

    /// The fields of a magnet URI whose parameters are `parts`: the exact topic is rebuilt
    /// as `urn:<hash type>:<hash>`, and the trackers are always present.
    pub fn from_parts(parts: MagnetParts) -> (m: MagnetURIMeta)
        ensures
            m@ == meta_of_parts(parts@),
    {
        let xt = match (parts.hash_type, parts.hash) {
            (Some(hash_type), Some(hash)) => {
                let mut topic = String::from_str("urn:");
                topic.append(hash_type.as_str());
                topic.append(":");
                topic.append(hash.as_str());
                proof {
                    reveal_strlit("urn:");
                    reveal_strlit(":");
                    assert(topic@ =~= seq!['u', 'r', 'n', ':'] + hash_type@ + seq![':'] + hash@);
                }
                Some(topic)
            },
            _ => None,
        };
        MagnetURIMeta {
            xt,
            dn: parts.display_name,
            xl: parts.length,
            tr: Some(parts.trackers),
            ws: parts.web_seed,
            acceptable_source: parts.acceptable_source,
            xs: parts.source,
            kt: parts.search_keywords,
            mt: parts.manifest,
        }
    }

    /// Whether `uri` is a magnet URI.
    pub fn checkIfMagnetURIIsValid(uri: &str) -> (b: bool)
        ensures
            b == has_prefix(uri@, magnet_prefix()),
    {
        parse_magnet(uri).is_some()
    }
}


// ---------------------------------------------------------------------------------------------
// BTIH info hashes
// ---------------------------------------------------------------------------------------------

/// Why a magnet torrent could not be set up or its metadata was refused.
#[derive(Debug)]
pub enum MagnetTorrentError {
    MissingBtih,
    UnsupportedBtihLength { len: usize },
    InvalidBtihCharacter,
    Session(crate::torrent::TError),
    MetadataHashMismatch,
    MetadataBencode(serde_bencode::Error),
}

/// Value of a hexadecimal digit (either case).
pub open spec fn hex_digit(b: u8) -> Option<u8> {
    if 48 <= b <= 57 {
        Some((b - 48) as u8)
    } else if 97 <= b <= 102 {
        Some((b - 87) as u8)
    } else if 65 <= b <= 70 {
        Some((b - 55) as u8)
    } else {
        None
    }
}

/// A lower-case hexadecimal letter has the value of its upper-case form (bytes `a`..=`f`
/// against `A`..=`F`): both are digits, worth 10 to 15.
pub proof fn lemma_hex_digit_case(c: u8)
    requires
        97 <= c <= 102,
    ensures
        hex_digit(c) is Some,
        hex_digit(c) == hex_digit((c - 32) as u8),
        hex_digit(c)->0 == c - 87,
{
}

/// Every byte of the complete pairs of `b` is a hexadecimal digit.
pub open spec fn hex_pairs_valid(b: Seq<u8>) -> bool {
    forall|i: int| 0 <= i < 2 * (b.len() / 2) ==> (#[trigger] hex_digit(b[i])) is Some
}

/// The byte that hex pair `i` of `b` encodes.
pub open spec fn hex_pair(b: Seq<u8>, i: int) -> u8 {
    (hex_digit(b[2 * i])->0 * 16 + hex_digit(b[2 * i + 1])->0) as u8
}

/// The 20 bytes that the hex pairs of `b` encode, zero past the last pair.
pub open spec fn hex_decoded(b: Seq<u8>) -> Seq<u8> {
    Seq::new(20, |i: int| if i < b.len() / 2 { hex_pair(b, i) } else { 0u8 })
}

/// Value of a base-32 digit (RFC 4648 alphabet, either case).
pub open spec fn base32_digit(b: u8) -> Option<u8> {
    if 65 <= b <= 90 {
        Some((b - 65) as u8)
    } else if 97 <= b <= 122 {
        Some((b - 97) as u8)
    } else if 50 <= b <= 55 {
        Some((b - 24) as u8)
    } else {
        None
    }
}

/// A lower-case base-32 letter has the value of its upper-case form (bytes `a`..=`z`
/// against `A`..=`Z`): both are digits, of the same value.
pub proof fn lemma_base32_digit_case(c: u8)
    requires
        97 <= c <= 122,
    ensures
        base32_digit(c) is Some,
        base32_digit(c) == base32_digit((c - 32) as u8),
{
}

/// `b` with its ASCII upper-case letters turned to lower case.
pub open spec fn ascii_lowercase_bytes(b: Seq<u8>) -> Seq<u8> {
    Seq::new(b.len(), |i: int| if 65 <= b[i] <= 90 { (b[i] + 32) as u8 } else { b[i] })
}

/// Base-32 decoding does not depend on the case of the letters: a hash and its lower-case
/// form are valid together and decode to the same number and the same bytes.
pub proof fn lemma_base32_case_insensitive(b: Seq<u8>)
    ensures
        base32_valid(ascii_lowercase_bytes(b)) == base32_valid(b),
        base32_number(ascii_lowercase_bytes(b)) == base32_number(b),
        base32_decoded(ascii_lowercase_bytes(b)) == base32_decoded(b),
    decreases b.len(),
{
    let l = ascii_lowercase_bytes(b);
    assert forall|i: int| 0 <= i < b.len() implies #[trigger] base32_digit(l[i]) == base32_digit(
        b[i],
    ) by {
        if 65 <= b[i] <= 90 {
            lemma_base32_digit_case(l[i]);
            assert((l[i] - 32) as u8 == b[i]);
        }
    }
    if b.len() > 0 {
        lemma_base32_case_insensitive(b.drop_last());
        assert(l.drop_last() =~= ascii_lowercase_bytes(b.drop_last()));
        assert(base32_digit(l.last()) == base32_digit(b.last()));
    }
    if base32_valid(b) {
        assert forall|i: int| 0 <= i < l.len() implies (#[trigger] base32_digit(l[i])) is Some by {
            assert(base32_digit(b[i]) is Some);
        }
    }
    if base32_valid(l) {
        assert forall|i: int| 0 <= i < b.len() implies (#[trigger] base32_digit(b[i])) is Some by {
            assert(base32_digit(l[i]) is Some);
        }
    }
    assert(base32_decoded(l) =~= base32_decoded(b));
}

/// Every byte of `b` is a base-32 digit.
pub open spec fn base32_valid(b: Seq<u8>) -> bool {
    forall|i: int| 0 <= i < b.len() ==> (#[trigger] base32_digit(b[i])) is Some
}

/// The number whose base-32 digits, most significant first, are the bytes of `b`.
pub open spec fn base32_number(b: Seq<u8>) -> nat
    decreases b.len(),
{
    if b.len() == 0 {
        0
    } else {
        base32_number(b.drop_last()) * 32 + match base32_digit(b.last()) {
            Some(v) => v as nat,
            None => 0,
        }
    }
}

/// The bytes that the 5-bit groups of the base-32 digits `b` form, most significant bit first:
/// the number they spell cut into whole bytes from the top, with the bits past the last whole
/// byte dropped.
pub open spec fn base32_decoded(b: Seq<u8>) -> Seq<u8> {
    Seq::new(
        (5 * b.len() / 8) as nat,
        |m: int| ((base32_number(b) / pow2((5 * b.len() - 8 * m - 8) as nat)) % 256) as u8,
    )
}

/// The hash part of an exact topic `urn:btih:<hash>` or `btih:<hash>`.
pub open spec fn btih_hash(xt: Seq<char>) -> Option<Seq<char>> {
    let urn = seq!['u', 'r', 'n', ':', 'b', 't', 'i', 'h', ':'];
    let bare = seq!['b', 't', 'i', 'h', ':'];
    if has_prefix(xt, urn) {
        Some(xt.subrange(9, xt.len() as int))
    } else if has_prefix(xt, bare) {
        Some(xt.subrange(5, xt.len() as int))
    } else {
        None
    }
}

/// Decodes a BTIH hash given as 40 hexadecimal digits.
pub struct HexBtih;

impl HexBtih {
    /// Decodes the hex pairs of `hash` into 20 bytes (zero past the last pair).
    pub fn decode(hash: &str) -> (r: Result<[u8; 20], MagnetTorrentError>)
        requires
            hash.spec_bytes().len() <= 41,
        ensures
            hex_pairs_valid(hash.spec_bytes()) ==> (r matches Ok(d) && d@ == hex_decoded(
                hash.spec_bytes(),
            )),
            !hex_pairs_valid(hash.spec_bytes()) ==> (r matches Err(
                MagnetTorrentError::InvalidBtihCharacter,
            )),
    {
        let bytes = hash.as_bytes();
        let pairs = bytes.len() / 2;
        let mut decoded = [0u8; 20];
        let mut index: usize = 0;
        while index < pairs
            invariant
                bytes@ == hash.spec_bytes(),
                pairs == bytes@.len() / 2,
                pairs <= 20,
                index <= pairs,
                forall|i: int| 0 <= i < 2 * index ==> (#[trigger] hex_digit(bytes@[i])) is Some,
                forall|i: int|
                    0 <= i < 20 ==> decoded@[i] == (if i < index {
                        hex_pair(bytes@, i)
                    } else {
                        0u8
                    }),
            decreases pairs - index,
        {
            let high = match Self::hex_value(bytes[2 * index]) {
                Ok(v) => v,
                Err(e) => {
                    return Err(e);
                },
            };
            let low = match Self::hex_value(bytes[2 * index + 1]) {
                Ok(v) => v,
                Err(e) => {
                    return Err(e);
                },
            };
            assert((high << 4u8) | low == high * 16 + low) by (bit_vector)
                requires
                    high < 16,
                    low < 16,
            ;
            decoded[index] = (high << 4) | low;
            index = index + 1;
        }
        assert(decoded@ =~= hex_decoded(bytes@));
        Ok(decoded)
    }

    /// Value of one hexadecimal digit.
    pub fn hex_value(byte: u8) -> (r: Result<u8, MagnetTorrentError>)
        ensures
            match hex_digit(byte) {
                Some(v) => r matches Ok(x) && x == v,
                None => r matches Err(MagnetTorrentError::InvalidBtihCharacter),
            },
            r matches Ok(x) ==> x < 16,
    {
        if 48 <= byte && byte <= 57 {
            Ok(byte - 48)
        } else if 97 <= byte && byte <= 102 {
            Ok(byte - 97 + 10)
        } else if 65 <= byte && byte <= 70 {
            Ok(byte - 65 + 10)
        } else {
            Err(MagnetTorrentError::InvalidBtihCharacter)
        }
    }
}

proof fn lemma_base32_push(b: Seq<u8>, k: int)
    requires
        0 <= k < b.len(),
        base32_digit(b[k]) is Some,
    ensures
        base32_number(b.take(k + 1)) == base32_number(b.take(k)) * 32 + (base32_digit(
            b[k],
        )->0) as nat,
        base32_number(b.take(k + 1)) / 32 == base32_number(b.take(k)),
{
    assert(b.take(k + 1).drop_last() =~= b.take(k));
    let v = base32_digit(b[k])->0;
    assert(v < 32);
    lemma_fundamental_div_mod_converse(
        base32_number(b.take(k + 1)) as int,
        32,
        base32_number(b.take(k)) as int,
        v as int,
    );
}

proof fn lemma_base32_decoded_keeps(b: Seq<u8>, k: int)
    requires
        0 <= k < b.len(),
        base32_digit(b[k]) is Some,
    ensures
        forall|m: int|
            0 <= m < 5 * k / 8 ==> #[trigger] base32_decoded(b.take(k + 1))[m] == base32_decoded(
                b.take(k),
            )[m],
{
    lemma_base32_push(b, k);
    let n = base32_number(b.take(k));
    let n2 = base32_number(b.take(k + 1));
    assert forall|m: int| 0 <= m < 5 * k / 8 implies #[trigger] base32_decoded(b.take(k + 1))[m]
        == base32_decoded(b.take(k))[m] by {
        let e = (5 * k - 8 * m - 8) as nat;
        assert((5 * (k + 1) - 8 * m - 8) as nat == 5 + e);
        lemma_pow2_adds(5, e);
        lemma2_to64();
        lemma_pow2_pos(e);
        lemma_div_denominator(n2 as int, 32, pow2(e) as int);
    }
}

proof fn lemma_base32_buffer(n: nat, v: nat, buffer: nat, bits: nat)
    requires
        v < 32,
        buffer == n % pow2(bits),
    ensures
        buffer * 32 + v == (n * 32 + v) % pow2(bits + 5),
{
    let n2 = n * 32 + v;
    lemma_pow2_pos(bits);
    lemma2_to64();
    lemma_pow2_adds(bits, 5);
    lemma_fundamental_div_mod_converse(n2 as int, 32, n as int, v as int);
    lemma_mod_breakdown(n2 as int, 32, pow2(bits) as int);
    lemma_mul_is_commutative(32, pow2(bits) as int);
}

proof fn lemma_base32_split(n2: nat, grown: nat, s: nat)
    requires
        grown == n2 % pow2(s + 8),
    ensures
        grown / pow2(s) == (n2 / pow2(s)) % 256,
        grown % pow2(s) == n2 % pow2(s),
{
    lemma_pow2_pos(s);
    lemma_pow2_adds(s, 8);
    lemma2_to64();
    lemma_mod_breakdown(n2 as int, pow2(s) as int, 256);
    let q = (n2 / pow2(s)) % 256;
    let r = n2 % pow2(s);
    lemma_mul_is_commutative(pow2(s) as int, q as int);
    lemma_fundamental_div_mod_converse(grown as int, pow2(s) as int, q as int, r as int);
}

/// Decodes a BTIH hash given as 32 base-32 digits.
pub struct Base32Btih;

impl Base32Btih {
    /// Decodes the base-32 digits of `hash` into the bytes their 5-bit groups form, in order;
    /// bits past the last whole byte are dropped. The result must be 20 bytes long.
    pub fn decode(hash: &str) -> (r: Result<[u8; 20], MagnetTorrentError>)
        ensures
            !base32_valid(hash.spec_bytes()) ==> (r matches Err(
                MagnetTorrentError::InvalidBtihCharacter,
            )),
            base32_valid(hash.spec_bytes()) && (5 * hash.spec_bytes().len()) / 8 == 20 ==> (r matches Ok(
                d,
            ) && d@ == base32_decoded(hash.spec_bytes())),
            base32_valid(hash.spec_bytes()) && (5 * hash.spec_bytes().len()) / 8 != 20 ==> (r matches Err(
                MagnetTorrentError::UnsupportedBtihLength { len },
            ) && len == (5 * hash.spec_bytes().len()) / 8),
    {
        let input = hash.as_bytes();
        let mut bytes: Vec<u8> = Vec::new();
        let mut buffer: u32 = 0;
        let mut bits: u8 = 0;
        let mut k: usize = 0;
        assert(0u32 >> 0u32 == 0) by (bit_vector);
        proof {
            lemma2_to64();
            assert(input@.take(0) =~= Seq::<u8>::empty());
            assert(base32_decoded(input@.take(0)) =~= Seq::<u8>::empty());
        }
        while k < input.len()
            invariant
                input@ == hash.spec_bytes(),
                k <= input@.len(),
                forall|i: int| 0 <= i < k ==> (#[trigger] base32_digit(input@[i])) is Some,
                bytes@.len() == (5 * k) / 8,
                bits == 5 * k - 8 * bytes@.len(),
                bits < 8,
                buffer >> (bits as u32) == 0,
                bytes@ == base32_decoded(input@.take(k as int)),
                buffer as nat == base32_number(input@.take(k as int)) % pow2(bits as nat),
            decreases input@.len() - k,
        {
            let value = match Self::base32_value(input[k]) {
                Ok(v) => v as u32,
                Err(e) => {
                    return Err(e);
                },
            };
            let ghost n = base32_number(input@.take(k as int));
            let ghost n2 = base32_number(input@.take(k + 1));
            let ghost old_bytes = bytes@;
            proof {
                lemma_base32_push(input@, k as int);
                lemma_base32_decoded_keeps(input@, k as int);
                lemma_base32_buffer(n, value as nat, buffer as nat, bits as nat);
            }
            let b32 = bits as u32;
            assert((buffer << 5u32) | value == buffer * 32 + value && buffer * 32 + value < 8192)
                by (bit_vector)
                requires
                    buffer >> b32 == 0,
                    b32 < 8,
                    value < 32,
            ;
            let grown = (buffer << 5) | value;
            assert(grown as nat == n2 % pow2((bits + 5) as nat));
            assert(grown >> (b32 + 5) == 0) by (bit_vector)
                requires
                    grown == buffer * 32 + value,
                    buffer >> b32 == 0,
                    b32 < 8,
                    value < 32,
            ;
            bits = bits + 5;
            if bits >= 8 {
                bits = bits - 8;
                let shift = bits as u32;
                assert((grown >> shift) < 256 && 1u32 << shift >= 1 && 1u32 << shift <= 128)
                    by (bit_vector)
                    requires
                        grown < 8192,
                        shift == b32 - 3,
                        b32 < 8,
                        grown >> (b32 + 5) == 0,
                ;
                proof {
                    lemma_base32_split(n2, grown as nat, shift as nat);
                    lemma_u32_shr_is_div(grown, shift);
                    lemma_pow2_strictly_increases(shift as nat, 8);
                    lemma2_to64();
                    assert(1 * pow2(shift as nat) <= u32::MAX);
                    lemma_u32_shl_is_mul(1, shift);
                }
                let byte = (grown >> shift) as u8;
                assert(byte == (n2 / pow2(shift as nat)) % 256);
                bytes.push(byte);
                let p = 1u32 << shift;
                let mask = p - 1;
                assert((grown & mask) >> shift == 0 && (grown & mask) == grown % p) by (bit_vector)
                    requires
                        mask == (1u32 << shift) - 1,
                        p == 1u32 << shift,
                        shift < 8,
                ;
                buffer = grown & mask;
                assert(bytes@ =~= base32_decoded(input@.take(k + 1)));
            } else {
                buffer = grown;
                assert(bytes@ =~= base32_decoded(input@.take(k + 1)));
            }
            k = k + 1;
        }
        assert(input@.take(k as int) =~= input@);
        if bytes.len() != 20 {
            return Err(MagnetTorrentError::UnsupportedBtihLength { len: bytes.len() });
        }
        let mut decoded = [0u8; 20];
        let mut i: usize = 0;
        while i < 20
            invariant
                i <= 20,
                bytes@.len() == 20,
                decoded@.len() == 20,
                forall|j: int| 0 <= j < i ==> decoded@[j] == bytes@[j],
            decreases 20 - i,
        {
            decoded[i] = bytes[i];
            i = i + 1;
        }
        assert(decoded@ =~= bytes@);
        Ok(decoded)
    }

    /// Value of one base-32 digit.
    pub fn base32_value(byte: u8) -> (r: Result<u8, MagnetTorrentError>)
        ensures
            match base32_digit(byte) {
                Some(v) => r matches Ok(x) && x == v,
                None => r matches Err(MagnetTorrentError::InvalidBtihCharacter),
            },
            r matches Ok(x) ==> x < 32,
    {
        if 65 <= byte && byte <= 90 {
            Ok(byte - 65)
        } else if 97 <= byte && byte <= 122 {
            Ok(byte - 97)
        } else if 50 <= byte && byte <= 55 {
            Ok(byte - 50 + 26)
        } else {
            Err(MagnetTorrentError::InvalidBtihCharacter)
        }
    }
}

/// The 20-byte info hash a magnet URI names.
pub struct MagnetInfoHash;

impl MagnetInfoHash {
    /// The info hash of the exact topic of `meta`, which must be a BTIH topic.
    pub fn from_meta(meta: &MagnetURIMeta) -> (r: Result<[u8; 20], MagnetTorrentError>)
        ensures
            match meta@.xt {
                None => r matches Err(MagnetTorrentError::MissingBtih),
                Some(xt) => match btih_hash(xt) {
                    None => r matches Err(MagnetTorrentError::MissingBtih),
                    Some(h) => btih_decoding(encode_utf8(h), r),
                },
            },
    {
        let exact_topic = match &meta.xt {
            Some(xt) => xt.as_str(),
            None => {
                return Err(MagnetTorrentError::MissingBtih);
            },
        };
        let n = exact_topic.unicode_len();
        if starts_with_chars(exact_topic, &['u', 'r', 'n', ':', 'b', 't', 'i', 'h', ':']) {
            let hash = exact_topic.substring_char(9, n);
            Self::decode(hash)
        } else if starts_with_chars(exact_topic, &['b', 't', 'i', 'h', ':']) {
            let hash = exact_topic.substring_char(5, n);
            Self::decode(hash)
        } else {
            Err(MagnetTorrentError::MissingBtih)
        }
    }

    /// Decodes a BTIH hash: 40 hexadecimal or 32 base-32 digits.
    pub fn decode(hash: &str) -> (r: Result<[u8; 20], MagnetTorrentError>)
        ensures
            btih_decoding(hash.spec_bytes(), r),
    {
        let len = hash.as_bytes().len();
        if len == 40 {
            HexBtih::decode(hash)
        } else if len == 32 {
            Base32Btih::decode(hash)
        } else {
            Err(MagnetTorrentError::UnsupportedBtihLength { len })
        }
    }
}

/// What decoding the BTIH hash with bytes `b` gives: hex for 40 bytes, base 32 for 32, and a
/// length error otherwise.
pub open spec fn btih_decoding(b: Seq<u8>, r: Result<[u8; 20], MagnetTorrentError>) -> bool {
    if b.len() == 40 {
        &&& hex_pairs_valid(b) ==> (r matches Ok(d) && d@ == hex_decoded(b))
        &&& !hex_pairs_valid(b) ==> (r matches Err(MagnetTorrentError::InvalidBtihCharacter))
    } else if b.len() == 32 {
        &&& base32_valid(b) ==> (r matches Ok(d) && d@ == base32_decoded(b))
        &&& !base32_valid(b) ==> (r matches Err(MagnetTorrentError::InvalidBtihCharacter))
    } else {
        r matches Err(MagnetTorrentError::UnsupportedBtihLength { len }) && len == b.len()
    }
}

/// Checks fetched metadata against the info hash of the magnet URI.
pub fn validate_metadata_hash(metadata: &[u8], info_hash: &[u8; 20]) -> (r: Result<
    (),
    MagnetTorrentError,
>)
    ensures
        sha1(metadata@) == info_hash@ ==> r is Ok,
        sha1(metadata@) != info_hash@ ==> (r matches Err(MagnetTorrentError::MetadataHashMismatch)),
{
    let actual = sha1_digest(metadata);
    let mut i: usize = 0;
    while i < 20
        invariant
            i <= 20,
            actual@ == sha1(metadata@),
            actual@.subrange(0, i as int) == info_hash@.subrange(0, i as int),
        decreases 20 - i,
    {
        if actual[i] != info_hash[i] {
            return Err(MagnetTorrentError::MetadataHashMismatch);
        }
        assert(actual@.subrange(0, i + 1) =~= actual@.subrange(0, i as int).push(actual@[i as int]));
        assert(info_hash@.subrange(0, i + 1) =~= info_hash@.subrange(0, i as int).push(info_hash@[i as int]));
        i = i + 1;
    }
    assert(actual@ =~= actual@.subrange(0, 20));
    assert(info_hash@ =~= info_hash@.subrange(0, 20));
    Ok(())
}


// ---------------------------------------------------------------------------------------------
// What a magnet torrent shows
// ---------------------------------------------------------------------------------------------

/// The status of a magnet torrent: without trackers nothing can be fetched; otherwise the
/// metadata is being fetched or has been.
pub open spec fn spec_magnet_status(tracker_count: nat, metadata_fetched: bool) -> Seq<char> {
    if tracker_count == 0 {
        "No magnet trackers"@
    } else if metadata_fetched {
        "Metadata fetched"@
    } else {
        "Fetching metadata"@
    }
}

/// The status of a magnet torrent with `tracker_count` trackers.
pub fn magnet_status_label(tracker_count: usize, metadata_fetched: bool) -> (s: String)
    ensures
        s@ == spec_magnet_status(tracker_count as nat, metadata_fetched),
{
    if tracker_count == 0 {
        String::from_str("No magnet trackers")
    } else if metadata_fetched {
        String::from_str("Metadata fetched")
    } else {
        String::from_str("Fetching metadata")
    }
}

/// The name a magnet torrent is logged under: its display name, or `Magnet torrent`.
pub fn magnet_display_name(meta: &MagnetURIMeta) -> (s: String)
    ensures
        s@ == match meta@.dn {
            Some(d) => d,
            None => "Magnet torrent"@,
        },
{
    match &meta.dn {
        Some(d) => d.clone(),
        None => String::from_str("Magnet torrent"),
    }
}

/// The size of a magnet torrent: the total length of the fetched metadata (at least 0), or
/// else the length the URI announces.
pub fn magnet_bytes_total(fetched_total: Option<i64>, announced: Option<u64>) -> (r: Option<usize>)
    ensures
        match fetched_total {
            Some(t) => r == Some((if t < 0 { 0 } else { t }) as usize),
            None => match announced {
                Some(l) => r == Some(l as usize),
                None => r is None,
            },
        },
{
    match fetched_total {
        Some(t) => Some(
            if t < 0 {
                0
            } else {
                t as usize
            },
        ),
        None => match announced {
            Some(l) => Some(l as usize),
            None => None,
        },
    }
}

} // verus!
