use hyperblow::piece_storage::{FileWrite, OutputFile, PieceStorage, PieceStorageError, SafePath, TorrentOutputFiles};
use hyperblow::torrent::{File, FileMeta, Info};

fn meta(info: Info) -> FileMeta {
    FileMeta {
        announce: String::new(),
        announce_list: None,
        info,
        creation_data: None,
        comment: None,
        encoding: None,
        created_by: None,
        acceptable_source: None,
    }
}

#[test]
fn path_components_cannot_leave_the_directory() {
    assert_eq!(SafePath::join("/out", "a"), "/out/a");
    assert_eq!(SafePath::join("/out/", "a/b"), "/out/a/b");
    assert_eq!(SafePath::join("/out", ".."), "/out/unsafe_path_component");
    assert_eq!(SafePath::join("/out", "a/../b"), "/out/unsafe_path_component");
    assert_eq!(SafePath::join("/out", "/etc"), "/out/unsafe_path_component");
    assert_eq!(SafePath::join("/out", "./a"), "/out/unsafe_path_component");
    assert_eq!(SafePath::join("/out", "a/."), "/out/a/.");
}

#[test]
fn writes_multi_file_piece_without_trusting_metadata_paths() {
    let escaped_file = "hyperblow-piece-storage-escaped-file.bin".to_string();
    let m = meta(Info {
        name: Some("../escaped-root".to_string()),
        length: None,
        files: Some(vec![File { length: 4, path: vec!["..".to_string(), escaped_file.clone()], md5sum: None }]),
        piece_length: Some(4),
        pieces: vec![0; 20],
    });
    let files = TorrentOutputFiles::from_meta(&m, "/out");
    assert_eq!(files.len(), 1);
    assert_eq!(files[0].path, format!("/out/unsafe_path_component/unsafe_path_component/{escaped_file}"));
    assert_eq!(files[0].start_offset, 0);
    assert_eq!(files[0].length, 4);
}

#[test]
fn writes_single_file_piece_to_download_directory() {
    let m = meta(Info {
        name: Some("piece-test.bin".to_string()),
        length: Some(5),
        files: None,
        piece_length: Some(5),
        pieces: vec![0; 20],
    });
    let files = TorrentOutputFiles::from_meta(&m, "/out");
    assert_eq!(files.len(), 1);
    assert_eq!(files[0].path, "/out/piece-test.bin");
    let plan = PieceStorage::plan_writes(m.piece_length(), 0, 5, &files);
    assert!(plan.outcome.is_ok());
    assert_eq!(plan.writes, vec![FileWrite { file_index: 0, offset_in_file: 0, start: 0, len: 5 }]);
}

#[test]
fn a_piece_can_span_files() {
    let files = vec![
        OutputFile { path: "a".to_string(), start_offset: 0, length: 3 },
        OutputFile { path: "b".to_string(), start_offset: 3, length: 10 },
    ];
    assert_eq!(files[1].end_offset(), 13);
    let plan = PieceStorage::plan_writes(Some(4), 0, 4, &files);
    assert!(plan.outcome.is_ok());
    assert_eq!(
        plan.writes,
        vec![
            FileWrite { file_index: 0, offset_in_file: 0, start: 0, len: 3 },
            FileWrite { file_index: 1, offset_in_file: 0, start: 3, len: 1 },
        ]
    );
    let second = PieceStorage::plan_writes(Some(4), 1, 4, &files);
    assert!(second.outcome.is_ok());
    assert_eq!(second.writes, vec![FileWrite { file_index: 1, offset_in_file: 1, start: 0, len: 4 }]);
    let missing = PieceStorage::plan_writes(None, 0, 4, &files);
    assert!(missing.writes.is_empty());
    assert!(matches!(missing.outcome, Err(PieceStorageError::MissingPieceLength)));
    let outside = PieceStorage::plan_writes(Some(4), 5, 4, &files);
    assert!(outside.writes.is_empty());
    assert!(matches!(outside.outcome, Err(PieceStorageError::PieceOutOfRange { piece_index: 5 })));
    let too_long = PieceStorage::plan_writes(Some(4), 3, 4, &files);
    assert_eq!(too_long.writes, vec![FileWrite { file_index: 1, offset_in_file: 9, start: 0, len: 1 }]);
    assert!(matches!(too_long.outcome, Err(PieceStorageError::PieceDataTooLong)));
    assert!(PieceStorage::plan_writes(Some(4), 9, 0, &files).outcome.is_ok());
}
