use hyperblow::download_directory::DownloadDirectory;
use hyperblow::engine::{progress_percent, MagnetTitle, TorrentSource, TorrentStatus, TrackerRow, TrackerSnapshotList};
use hyperblow::tracker::TrackerState;
use hyperblow::magnet::MagnetURIMeta;
use hyperblow::text::trim;
use hyperblow::torrent::parsing_thread_main;

#[test]
fn magnet_title_is_readable_without_display_name() {
    let meta = MagnetURIMeta::fromMagnetURI("magnet:?xt=urn:btih:08ada5a7a6183aae1e09d831df6748d566095a10").expect("parses");
    assert_eq!(MagnetTitle::from_meta(&meta).display(), "Magnet 08ada5a7a618");
}

#[test]
fn magnet_title_prefers_the_display_name() {
    let meta = MagnetURIMeta::fromMagnetURI(
        "magnet:?xt=urn:btih:08ada5a7a6183aae1e09d831df6748d566095a10&dn=Sintel&tr=udp://tracker.example.com:6969",
    )
    .expect("parses");
    assert_eq!(MagnetTitle::from_meta(&meta).display(), "Sintel");
    let blank = MagnetURIMeta::fromMagnetURI("magnet:?dn=%20").expect("parses");
    assert_eq!(MagnetTitle::from_meta(&blank).display(), "%20");
    let empty = MagnetURIMeta::fromMagnetURI("magnet:?dn=").expect("parses");
    assert_eq!(MagnetTitle::from_meta(&empty).display(), "Magnet torrent");
    assert_eq!(MagnetTitle::hash_from_exact_topic("urn:btih:"), None);
    assert_eq!(MagnetTitle::hash_from_exact_topic("a:b:c"), Some("c"));
    assert_eq!(MagnetTitle::short_hash("abc"), "abc");
}

#[test]
fn sources_rows_and_progress() {
    assert_eq!(TorrentSource::MagnetURI(String::new()).kind(), "magnet");
    assert_eq!(TorrentSource::FilePath(String::new()).kind(), "file");
    let rows = TrackerSnapshotList::queued(vec!["udp://a".to_string()]);
    assert_eq!(rows.len(), 1);
    assert_eq!(rows[0].url, "udp://a");
    assert_eq!(rows[0].status, "Queued");
    assert!(!rows[0].is_error);
    assert_eq!(progress_percent(50, Some(200)), 25);
    assert_eq!(progress_percent(500, Some(200)), 100);
    assert_eq!(progress_percent(5, None), 0);
    assert_eq!(progress_percent(5, Some(0)), 0);
    assert_eq!(progress_percent(usize::MAX, Some(usize::MAX)), 1);
}

#[test]
fn download_directory_and_text() {
    let directory = DownloadDirectory::from_path("/home/me/hyperblow_downloads".to_string());
    assert_eq!(directory.path(), "/home/me/hyperblow_downloads");
    assert_eq!(directory.display_path(), "/home/me/hyperblow_downloads");
    assert_eq!(trim("  a b \t"), "a b");
    assert_eq!(trim("\u{3000}x\u{85}"), "x");
    parsing_thread_main();
}

#[test]
fn tracker_rows_follow_tiers_or_fall_back_to_queued() {
    let row = |address: &str, state: TrackerState| TrackerRow { address: address.to_string(), state, elapsed_secs: 7 };
    let tiers = vec![
        vec![row("udp://a:1", TrackerState::Idle), row("udp://b:2", TrackerState::DNSResolved)],
        vec![],
        vec![row("udp://c:3", TrackerState::DNSUnresolved { retry_time: std::time::Instant::now() })],
    ];
    let rows = TrackerSnapshotList::from_trackers(&tiers, vec!["ignored".to_string()]);
    assert_eq!(rows.len(), 3);
    assert_eq!((rows[0].url.as_str(), rows[0].status.as_str(), rows[0].is_error), ("udp://a:1", "Idle", true));
    assert_eq!((rows[1].url.as_str(), rows[1].status.as_str(), rows[1].is_error), ("udp://b:2", "DNS Resolved", false));
    assert_eq!((rows[2].status.as_str(), rows[2].is_error), ("DNSUnresolved (7/30 sec)", true));

    let fallback = TrackerSnapshotList::from_trackers(&vec![vec![]], vec!["udp://q:4".to_string()]);
    assert_eq!(fallback.len(), 1);
    assert_eq!((fallback[0].url.as_str(), fallback[0].status.as_str(), fallback[0].is_error), ("udp://q:4", "Queued", false));
}

#[test]
fn torrent_status_labels() {
    assert_eq!(TorrentStatus::Downloading.label(), "Downloading");
    assert_eq!(TorrentStatus::Seeding.label(), "Seeding");
    assert_eq!(TorrentStatus::Paused.label(), "Paused");
}
