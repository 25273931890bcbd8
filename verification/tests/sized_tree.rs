use hyperblow::sized_tree::File;
use hyperblow::torrent::{File as MetaFile, FileType};

fn meta_file(path: &[&str], length: i64) -> MetaFile {
    MetaFile { length, path: path.iter().map(|p| p.to_string()).collect(), md5sum: None }
}

fn leaf(name: &str, size: i64) -> File {
    File { name: name.to_string(), file_type: FileType::Regular, inner_files: None, size, should_download: true }
}

#[test]
fn root_is_an_empty_directory() {
    let root = File::createRoot();
    assert_eq!(root.name, "/");
    assert_eq!(root.file_type, FileType::Directory);
    assert_eq!(root.inner_files.as_ref().map(|v| v.len()), Some(0));
    assert_eq!(root.size, 0);
    assert!(root.should_download);
    assert_eq!(root.size(), 0);
}

#[test]
fn builds_tree_and_sums_sizes() {
    let mut root = File::createRoot();
    let files = vec![meta_file(&["a", "x"], 10), meta_file(&["a", "y"], 20), meta_file(&["b"], 5)];
    File::createFileTree(&mut root, &files);
    let entries = root.inner_files.as_ref().unwrap();
    assert_eq!(entries.len(), 2);
    assert_eq!(entries[0].name, "a");
    assert_eq!(entries[0].file_type, FileType::Directory);
    assert_eq!(entries[0].size, 0);
    let inner = entries[0].inner_files.as_ref().unwrap();
    assert_eq!(inner.len(), 2);
    assert_eq!((inner[0].name.as_str(), inner[0].size), ("x", 10));
    assert_eq!((inner[1].name.as_str(), inner[1].size), ("y", 20));
    assert_eq!(entries[1].name, "b");
    assert_eq!(entries[1].file_type, FileType::Regular);
    assert_eq!(root.size(), 35);
    assert_eq!(entries[0].size(), 30);
}

#[test]
fn nothing_is_added_below_a_regular_file() {
    let mut root = File::createRoot();
    File::createFileTree(&mut root, &vec![meta_file(&["a"], 1), meta_file(&["a", "b"], 2)]);
    let entries = root.inner_files.as_ref().unwrap();
    assert_eq!(entries.len(), 1);
    assert!(entries[0].inner_files.is_none());
}

#[test]
fn lookup_finds_last_entry_of_a_name() {
    let mut root = File::createRoot();
    assert_eq!(root.add_file(leaf("a", 1)), 0);
    assert_eq!(root.add_file(leaf("b", 2)), 1);
    assert_eq!(root.add_file(leaf("a", 3)), 2);
    assert_eq!(root.contains(&"a".to_string()), (Some(2), true));
    assert_eq!(root.contains(&"c".to_string()), (None, false));
    let mut file = leaf("x", 4);
    assert_eq!(file.add_file(leaf("y", 1)), 0);
    assert!(file.inner_files.is_none());
    assert_eq!(file.contains(&"x".to_string()), (None, false));
}

#[test]
fn toggles_download_choice() {
    let mut file = leaf("x", 4);
    file.changeShouldDownload();
    assert!(!file.should_download);
    file.changeShouldDownload();
    assert!(file.should_download);
}

#[test]
fn a_directory_is_as_large_as_the_files_below_it() {
    let mut root = File::createRoot();
    File::createFileTree(&mut root, &vec![meta_file(&["a", "b"], 3)]);
    assert_eq!(root.size(), 3);
    assert_eq!(root.inner_files.as_ref().unwrap()[0].size(), 3);
}
