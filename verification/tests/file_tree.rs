use hyperblow::file_tree::File as TreeFile;
use hyperblow::torrent::{File, FileMeta, FileType, Info};

fn meta(name: Option<&str>, length: Option<i64>, files: Option<Vec<File>>) -> FileMeta {
    FileMeta {
        announce: "udp://tracker.example.com:6969".to_string(),
        announce_list: None,
        info: Info {
            name: name.map(|n| n.to_string()),
            length,
            files,
            piece_length: Some(16384),
            pieces: vec![0; 20],
        },
        creation_data: None,
        comment: None,
        encoding: None,
        created_by: None,
        acceptable_source: None,
    }
}

fn file(path: &[&str], length: i64) -> File {
    File { length, path: path.iter().map(|p| p.to_string()).collect(), md5sum: None }
}

#[test]
fn builds_tree_of_multi_file_torrent() {
    let meta = meta(
        Some("album"),
        None,
        Some(vec![file(&["a", "x.txt"], 10), file(&["a", "y.txt"], 20), file(&["b.txt"], 30)]),
    );
    let tree = TreeFile::new(&meta, &"/downloads".to_string());
    assert_eq!(tree.name, "/downloads");
    assert_eq!(tree.file_type, FileType::Directory);
    assert_eq!(tree.size, None);
    let entries = tree.inner_files.as_ref().unwrap();
    assert_eq!(entries.len(), 2);
    assert_eq!(entries[0].name, "a");
    assert_eq!(entries[0].file_type, FileType::Directory);
    assert_eq!(entries[0].size, None);
    let inner = entries[0].inner_files.as_ref().unwrap();
    assert_eq!(inner.len(), 2);
    assert_eq!(inner[0].name, "x.txt");
    assert_eq!(inner[0].file_type, FileType::Regular);
    assert_eq!(inner[0].size, Some(10));
    assert!(inner[0].inner_files.is_none());
    assert_eq!(inner[1].name, "y.txt");
    assert_eq!(inner[1].size, Some(20));
    assert_eq!(entries[1].name, "b.txt");
    assert_eq!(entries[1].file_type, FileType::Regular);
    assert_eq!(entries[1].size, Some(30));
    assert!(entries[1].should_download);
    assert!(!entries[1].is_downloaded);
}

#[test]
fn lists_tree_names_with_indentation() {
    let meta = meta(
        Some("album"),
        None,
        Some(vec![file(&["a", "x.txt"], 10), file(&["b.txt"], 30), file(&["a", "y.txt"], 20)]),
    );
    let tree = TreeFile::new(&meta, &"dl".to_string());
    assert_eq!(tree.tabs_traverse_names(0), vec!["dl", " a", "  x.txt", "  y.txt", " b.txt"]);
    assert_eq!(tree.tabs_traverse_names(2)[0], "  dl");
}

#[test]
fn single_file_torrent_is_one_regular_file() {
    let single = meta(Some("movie.mkv"), Some(4096), None);
    let tree = TreeFile::new(&single, &"/downloads".to_string());
    assert_eq!(tree.name, "movie.mkv");
    assert_eq!(tree.file_type, FileType::Regular);
    assert_eq!(tree.size, Some(4096));
    assert!(tree.inner_files.is_none());
    assert_eq!(tree.tabs_traverse_names(1), vec![" movie.mkv"]);

    let unnamed = meta(None, Some(7), None);
    assert_eq!(TreeFile::new(&unnamed, &"/d".to_string()).name, "/d");
}

#[test]
fn repeated_file_path_adds_nothing() {
    let meta = meta(None, None, Some(vec![file(&["a", "b"], 1), file(&["a", "b"], 2)]));
    let tree = TreeFile::new(&meta, &"r".to_string());
    let a = &tree.inner_files.as_ref().unwrap()[0];
    assert_eq!(a.inner_files.as_ref().unwrap().len(), 1);
    assert_eq!(a.inner_files.as_ref().unwrap()[0].size, Some(1));
}

#[test]
fn file_inside_a_file_cannot_be_built() {
    let meta = meta(None, None, Some(vec![file(&["a"], 1), file(&["a", "b"], 2)]));
    assert!(TreeFile::try_new(&meta, &"r".to_string()).is_none());
    let ok = meta_ok();
    assert!(TreeFile::try_new(&ok, &"r".to_string()).is_some());
}

fn meta_ok() -> FileMeta {
    meta(None, None, Some(vec![file(&["a", "b"], 2), file(&["a"], 1)]))
}

#[test]
fn lookup_one_level_down() {
    let meta = meta(None, None, Some(vec![file(&["a"], 1), file(&["b"], 2)]));
    let tree = TreeFile::new(&meta, &"r".to_string());
    assert_eq!(tree.containsAtDepthOne(&"b".to_string()), Some(1));
    assert_eq!(tree.containsAtDepthOne(&"c".to_string()), None);
    let leaf = &tree.inner_files.as_ref().unwrap()[0];
    assert_eq!(leaf.containsAtDepthOne(&"a".to_string()), Some(0));
    assert_eq!(leaf.containsAtDepthOne(&"z".to_string()), None);
}
