use hyperblow::command::FileCompletionQuery;
use hyperblow::completion::{lex_less, FileCompletion, FilePathSuggester, ListedEntry};

fn query(parent: &str, prefix: &str) -> FileCompletionQuery {
    FileCompletionQuery { directory: "/tmp".to_string(), display_parent: parent.to_string(), prefix: prefix.to_string() }
}

fn entries(list: &[(&str, bool)]) -> Vec<ListedEntry> {
    list.iter().map(|(name, is_dir)| ListedEntry { name: name.to_string(), is_dir: *is_dir }).collect()
}

fn listing() -> Vec<ListedEntry> {
    entries(&[
        ("zeta.txt", false),
        ("Alpha", true),
        ("b.torrent", false),
        ("a.torrent", false),
        ("beta", true),
        ("other", false),
    ])
}

#[test]
fn ranks_directories_then_torrents_then_names() {
    let r = FilePathSuggester::suggestions_from(&query("dl/", ""), &listing(), 10);
    assert_eq!(
        r,
        vec!["file dl/Alpha/", "file dl/beta/", "file dl/a.torrent", "file dl/b.torrent", "file dl/other", "file dl/zeta.txt"]
    );
}

#[test]
fn keeps_at_most_limit_completions() {
    let r = FilePathSuggester::suggestions_from(&query("dl/", ""), &listing(), 3);
    assert_eq!(r, vec!["file dl/Alpha/", "file dl/beta/", "file dl/a.torrent"]);
    assert!(FilePathSuggester::suggestions_from(&query("dl/", ""), &listing(), 0).is_empty());
}

#[test]
fn offers_only_names_with_the_typed_prefix() {
    let r = FilePathSuggester::suggestions_from(&query("", "b"), &listing(), 10);
    assert_eq!(r, vec!["file beta/", "file b.torrent"]);
    assert!(FilePathSuggester::suggestions_from(&query("", "q"), &listing(), 10).is_empty());
}

#[test]
fn names_that_rank_alike_keep_listing_order() {
    let r = FilePathSuggester::suggestions_from(&query("", ""), &entries(&[("b", false), ("B", false), ("a", false)]), 5);
    assert_eq!(r, vec!["file a", "file b", "file B"]);
}

#[test]
fn completion_of_an_entry() {
    let c = FileCompletion::from_entry(&ListedEntry { name: "Show.Torrent".to_string(), is_dir: false }, "x/");
    assert_eq!(c.command, "file x/Show.Torrent");
    assert!(!c.is_torrent);
    assert_eq!(c.sort_name, "show.torrent");
    let d = FileCompletion::from_entry(&ListedEntry { name: "dir".to_string(), is_dir: true }, "");
    assert_eq!(d.command, "file dir/");
}

#[test]
fn lexicographic_order_of_text() {
    assert!(lex_less("abc", "abd"));
    assert!(lex_less("ab", "abc"));
    assert!(!lex_less("abc", "abc"));
    assert!(!lex_less("b", "abc"));
    assert!(lex_less("", "a"));
}
