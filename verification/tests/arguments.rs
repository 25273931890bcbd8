use hyperblow::arguments::{ArgumentError, Arguments, TorrentInput};

#[test]
fn no_source_starts_idle() {
    let args = Arguments::default();

    assert_eq!(args.source().expect("no source should be valid"), None);
}

#[test]
fn rejects_file_and_magnet_together() {
    let args = Arguments {
        torrent_file: Some("test.torrent".to_string()),
        magnet_uri: Some("magnet:?xt=urn:btih:08ada5a7a6183aae1e09d831df6748d566095a10".to_string()),
    };

    assert!(matches!(args.source(), Err(ArgumentError::MultipleSources)));
}

#[test]
fn accepts_valid_magnet_source() {
    let uri = "magnet:?xt=urn:btih:08ada5a7a6183aae1e09d831df6748d566095a10".to_string();
    let args = Arguments {
        torrent_file: None,
        magnet_uri: Some(uri.clone()),
    };

    assert_eq!(args.source().expect("magnet should be valid"), Some(TorrentInput::MagnetUri(uri)));
}

#[test]
fn refuses_a_string_that_is_not_a_magnet_uri() {
    let args = Arguments {
        torrent_file: None,
        magnet_uri: Some("https://example.com".to_string()),
    };

    assert!(matches!(args.source(), Err(ArgumentError::InvalidMagnetUri)));
}

#[test]
fn missing_torrent_file_is_refused() {
    let args = Arguments {
        torrent_file: Some("no such file.torrent".to_string()),
        magnet_uri: None,
    };

    assert!(matches!(args.source_given(false), Err(ArgumentError::InvalidTorrentFile(path)) if path == "no such file.torrent"));
    assert_eq!(
        args.source_given(true).expect("existing file is accepted"),
        Some(TorrentInput::FilePath("no such file.torrent".to_string()))
    );
}

#[test]
fn argument_presence_checks() {
    let none = Arguments::default();
    assert!(none.none_arguments_provided());
    assert!(!none.is_both_argument_provided());

    let both = Arguments {
        torrent_file: Some("a".to_string()),
        magnet_uri: Some("b".to_string()),
    };
    assert!(both.is_file_argument_provided());
    assert!(both.is_magnet_uri_provided());
    assert!(both.is_both_argument_provided());
    assert!(!both.none_arguments_provided());
}
