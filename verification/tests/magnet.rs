use hyperblow::magnet::{
    magnet_bytes_total, magnet_display_name, magnet_status_label, validate_metadata_hash, Base32Btih, HexBtih,
    MagnetInfoHash, MagnetTorrentError, MagnetURIMeta, MagnetURIMetaError,
};
use sha1::{Digest, Sha1};

#[test]
fn decodes_uppercase_hex_btih() {
    let decoded = MagnetInfoHash::decode("0123456789ABCDEF0123456789ABCDEF01234567").expect("hex BTIH should decode");

    assert_eq!(&decoded[..4], &[0x01, 0x23, 0x45, 0x67]);
    assert_eq!(decoded.len(), 20);
}

#[test]
fn parses_magnet_metadata_with_trackers() {
    let magnet = MagnetURIMeta::fromMagnetURI(
        "magnet:?xt=urn:btih:08ada5a7a6183aae1e09d831df6748d566095a10&dn=Sintel&xl=123&tr=udp://tracker.example.com:6969",
    )
    .expect("magnet should parse");

    assert_eq!(magnet.xt.as_deref(), Some("urn:btih:08ada5a7a6183aae1e09d831df6748d566095a10"));
    assert_eq!(magnet.dn.as_deref(), Some("Sintel"));
    assert_eq!(magnet.xl, Some(123));
    assert_eq!(magnet.tr.unwrap(), vec!["udp://tracker.example.com:6969"]);
}

#[test]
fn refuses_text_that_is_not_a_magnet_uri() {
    assert!(matches!(
        MagnetURIMeta::fromMagnetURI("https://example.com/?xt=urn:btih:abc"),
        Err(MagnetURIMetaError::InvalidURI)
    ));
    assert!(!MagnetURIMeta::checkIfMagnetURIIsValid("magnet:xt=urn:btih:abc"));
    assert!(MagnetURIMeta::checkIfMagnetURIIsValid("magnet:?"));
}

#[test]
fn lower_and_upper_case_hex_decode_alike() {
    let lower = HexBtih::decode("08ada5a7a6183aae1e09d831df6748d566095a10").expect("lower");
    let upper = HexBtih::decode("08ADA5A7A6183AAE1E09D831DF6748D566095A10").expect("upper");
    assert_eq!(lower, upper);
    assert_eq!(lower[0], 0x08);
    assert_eq!(lower[19], 0x10);
}

#[test]
fn hex_digits_have_their_values() {
    assert_eq!(HexBtih::hex_value(b'0').ok(), Some(0));
    assert_eq!(HexBtih::hex_value(b'f').ok(), Some(15));
    assert_eq!(HexBtih::hex_value(b'A').ok(), Some(10));
    assert!(matches!(HexBtih::hex_value(b'g'), Err(MagnetTorrentError::InvalidBtihCharacter)));
}

#[test]
fn rejects_invalid_hex_and_lengths() {
    assert!(matches!(
        MagnetInfoHash::decode("zz23456789ABCDEF0123456789ABCDEF01234567"),
        Err(MagnetTorrentError::InvalidBtihCharacter)
    ));
    assert!(matches!(
        MagnetInfoHash::decode("0123"),
        Err(MagnetTorrentError::UnsupportedBtihLength { len: 4 })
    ));
}

#[test]
fn decodes_base32_btih() {
    // 20 bytes of 0x00 are 32 'A's in base 32.
    let zeros = Base32Btih::decode("AAAAAAAAAAAAAAAAAAAAAAAAAAAAAAAA").expect("base32 decodes");
    assert_eq!(zeros, [0u8; 20]);
    // The base-32 form of the hex hash 08ada5a7a6183aae1e09d831df6748d566095a10.
    let decoded = MagnetInfoHash::decode("BCW2LJ5GDA5K4HQJ3AY56Z2I2VTASWQQ").expect("base32 decodes");
    let hex = MagnetInfoHash::decode("08ada5a7a6183aae1e09d831df6748d566095a10").expect("hex decodes");
    assert_eq!(decoded, hex);
    assert_eq!(Base32Btih::base32_value(b'7').ok(), Some(31));
    assert!(matches!(Base32Btih::decode("AAAA"), Err(MagnetTorrentError::UnsupportedBtihLength { len: 2 })));
    assert!(matches!(
        Base32Btih::decode("AAAAAAAAAAAAAAAAAAAAAAAAAAAAAAA1"),
        Err(MagnetTorrentError::InvalidBtihCharacter)
    ));
}

#[test]
fn info_hash_comes_from_the_btih_exact_topic() {
    let meta = MagnetURIMeta::fromMagnetURI("magnet:?xt=urn:btih:0123456789ABCDEF0123456789ABCDEF01234567").expect("parses");
    let hash = MagnetInfoHash::from_meta(&meta).expect("BTIH");
    assert_eq!(&hash[..4], &[0x01, 0x23, 0x45, 0x67]);

    let no_topic = MagnetURIMeta::fromMagnetURI("magnet:?dn=x").expect("parses");
    assert!(matches!(MagnetInfoHash::from_meta(&no_topic), Err(MagnetTorrentError::MissingBtih)));

    let other = MagnetURIMeta::fromMagnetURI("magnet:?xt=urn:sha1:0123").expect("parses");
    assert!(matches!(MagnetInfoHash::from_meta(&other), Err(MagnetTorrentError::MissingBtih)));
}

#[test]
fn fetched_metadata_must_hash_to_the_info_hash() {
    let metadata = b"d4:name4:teste".to_vec();
    let hash: [u8; 20] = Sha1::digest(&metadata).into();
    assert!(validate_metadata_hash(&metadata, &hash).is_ok());
    assert!(matches!(
        validate_metadata_hash(&metadata, &[0u8; 20]),
        Err(MagnetTorrentError::MetadataHashMismatch)
    ));
}

#[test]
fn magnet_torrent_labels() {
    assert_eq!(magnet_status_label(0, false), "No magnet trackers");
    assert_eq!(magnet_status_label(1, false), "Fetching metadata");
    assert_eq!(magnet_status_label(1, true), "Metadata fetched");
    let named = MagnetURIMeta::fromMagnetURI("magnet:?dn=Example").expect("parses");
    assert_eq!(magnet_display_name(&named), "Example");
    let unnamed = MagnetURIMeta::fromMagnetURI("magnet:?").expect("parses");
    assert_eq!(magnet_display_name(&unnamed), "Magnet torrent");
    assert_eq!(magnet_bytes_total(Some(-5), Some(3)), Some(0));
    assert_eq!(magnet_bytes_total(None, Some(3)), Some(3));
    assert_eq!(magnet_bytes_total(None, None), None);
}
