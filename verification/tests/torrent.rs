use hyperblow::magnet::MagnetURIMeta;
use hyperblow::torrent::{File, FileMeta, FileMetaError, Info, MagnetFileMeta};
use sha1::{Digest, Sha1};

fn meta(info: Info) -> FileMeta {
    FileMeta {
        announce: "udp://tracker.example.com:6969".to_string(),
        announce_list: None,
        info,
        creation_data: None,
        comment: None,
        encoding: None,
        created_by: None,
        acceptable_source: None,
    }
}

#[test]
fn parses_single_file_torrent_metadata() {
    let meta = meta(Info {
        name: Some("sample.bin".to_string()),
        length: Some(12345),
        files: None,
        piece_length: Some(16384),
        pieces: b"abcdefghijklmnopqrst".to_vec(),
    });
    let info_bytes = b"d6:lengthi12345e4:name10:sample.bin12:piece lengthi16384e6:pieces20:abcdefghijklmnopqrste";

    assert_eq!(meta.announce, "udp://tracker.example.com:6969");
    assert_eq!(meta.info.name.as_deref(), Some("sample.bin"));
    assert_eq!(meta.total_length(), 12_345);
    assert_eq!(meta.piece_count(), 1);
    assert_eq!(meta.getPiecesHash().expect("pieces should be valid")[0], *b"abcdefghijklmnopqrst");
    assert_eq!(FileMeta::info_hash_of(info_bytes).len(), 20);
    assert_eq!(FileMeta::info_hash_of(info_bytes), Sha1::digest(info_bytes).to_vec());
}

#[test]
fn rejects_piece_hashes_that_are_not_twenty_byte_chunks() {
    let meta = meta(Info {
        name: Some("x".to_string()),
        length: Some(1),
        files: None,
        piece_length: Some(1),
        pieces: b"abc".to_vec(),
    });

    assert!(meta.getPiecesHash().is_err());
    assert!(matches!(meta.getPiecesHash(), Err(FileMetaError::InvalidPieces { length: 3 })));
}

#[test]
fn multi_file_lengths_and_piece_lengths() {
    let meta = meta(Info {
        name: Some("dir".to_string()),
        length: None,
        files: Some(vec![
            File { length: 10, path: vec!["a".to_string()], md5sum: None },
            File { length: 15, path: vec!["b".to_string(), "c".to_string()], md5sum: None },
        ]),
        piece_length: Some(10),
        pieces: vec![0; 60],
    });
    assert_eq!(meta.total_length(), 25);
    assert_eq!(meta.piece_count(), 3);
    assert_eq!(meta.piece_length(), Some(10));
    assert_eq!(meta.piece_length_at(0), Some(10));
    assert_eq!(meta.piece_length_at(2), Some(5));
    assert_eq!(meta.piece_length_at(3), None);
    assert_eq!(meta.piece_hash(2), Some([0; 20]));
    assert_eq!(meta.piece_hash(3), None);
}

#[test]
fn magnet_metadata_stands_in_for_a_torrent_file() {
    let magnet = MagnetURIMeta::fromMagnetURI("magnet:?dn=Name&xl=7&tr=udp://a&tr=udp://b").expect("parses");
    let pending = MagnetFileMeta::from_magnet(&magnet);
    assert_eq!(pending.announce, "udp://a");
    assert_eq!(pending.announce_list, Some(vec![vec!["udp://a".to_string(), "udp://b".to_string()]]));
    assert_eq!(pending.info.name.as_deref(), Some("Name"));
    assert_eq!(pending.info.length, Some(7));
    assert_eq!(pending.comment.as_deref(), Some("magnet metadata pending"));

    let bare = MagnetURIMeta::fromMagnetURI("magnet:?").expect("parses");
    let fetched = MagnetFileMeta::from_info(
        &bare,
        Info { name: None, length: Some(3), files: None, piece_length: Some(3), pieces: vec![1; 20] },
    );
    assert_eq!(fetched.announce, "");
    assert!(fetched.announce_list.is_none());
    assert_eq!(fetched.comment.as_deref(), Some("magnet metadata fetched"));
    assert_eq!(fetched.total_length(), 3);
}
