use ndownloader::cache::Cache;
use ndownloader::listing::VideoMetadata;
use ndownloader::scanner::{ListingOutput, ScanError, ScanStep, VideoScanner};
use std::path::PathBuf;

fn scanner_with(roots: &[&str], ttl_ms: u64) -> VideoScanner {
    let cache = Cache::with_ttl_millis(PathBuf::from("scan.json"), ttl_ms);
    VideoScanner::with_config(roots.iter().map(|r| r.to_string()).collect(), cache)
}

fn listing(stdout: &[u8]) -> ListingOutput {
    ListingOutput { success: true, stdout: stdout.to_vec(), stderr: String::new() }
}

#[test]
fn default_scanner_roots() {
    let s = VideoScanner::new();
    assert_eq!(
        s.storage_paths(),
        &vec![
            "/run/mount/ve_stock_1".to_string(),
            "/run/mount/ve_stock_2".to_string(),
            "/run/mount/ve_ext_1".to_string()
        ]
    );
    assert_eq!(s.cache().ttl_millis(), 300_000);
}

#[test]
fn second_scan_within_ttl_is_served_from_cache() {
    let mut s = scanner_with(&["/a"], 300_000);
    let url = match s.begin_scan_at("https://www.twitch.tv/chan", 1_000) {
        ScanStep::Fetch(u) => u,
        other => panic!("expected a fetch, got {:?}", other),
    };
    assert_eq!(url, "https://www.twitch.tv/chan/videos");
    let out = b"{\"id\":\"1\",\"title\":\"T\",\"url\":\"U\",\"duration\":10}\n";
    let first = s.finish_scan_at(url, listing(out), 1_000).unwrap();
    assert_eq!(first.len(), 1);
    match s.begin_scan_at("https://www.twitch.tv/chan", 200_000) {
        ScanStep::Cached(v) => assert_eq!(v, first),
        other => panic!("expected the cached listing, got {:?}", other),
    }
    match s.begin_scan_at("https://www.twitch.tv/chan/", 200_000) {
        ScanStep::Cached(v) => assert_eq!(v, first),
        other => panic!("expected the cached listing, got {:?}", other),
    }
}

#[test]
fn scan_after_ttl_fetches_again() {
    let mut s = scanner_with(&["/a"], 1_000);
    s.finish_scan_at("https://www.youtube.com/@c".to_string(), listing(b""), 0).unwrap();
    assert!(matches!(s.begin_scan_at("https://www.youtube.com/@c", 999), ScanStep::Cached(_)));
    assert_eq!(
        s.begin_scan_at("https://www.youtube.com/@c", 1_000),
        ScanStep::Fetch("https://www.youtube.com/@c".to_string())
    );
}

#[test]
fn failed_listing_reports_diagnostics_and_caches_nothing() {
    let mut s = scanner_with(&["/a"], 1_000);
    let out = ListingOutput { success: false, stdout: Vec::new(), stderr: "ERROR: no such channel".to_string() };
    let err = s.finish_scan_at("u".to_string(), out, 0).unwrap_err();
    assert_eq!(err, ScanError::ListingFailed("ERROR: no such channel".to_string()));
    assert_eq!(err.message(), "listing tool failed: ERROR: no such channel");
    assert_eq!(s.begin_scan_at("u", 0), ScanStep::Fetch("u".to_string()));
}

#[test]
fn duration_within_tolerance_matches() {
    let mut s = scanner_with(&["/a"], 1_000);
    s.record_duration("/a/c/near.mp4".to_string(), 124_900_000);
    let files = vec!["/a/c/near.mp4".to_string()];
    assert_eq!(s.is_video_downloaded(&files, Some(120_000_000)), Some("/a/c/near.mp4".to_string()));
}

#[test]
fn duration_outside_tolerance_does_not_match() {
    let mut s = scanner_with(&["/a"], 1_000);
    s.record_duration("/a/c/far.mp4".to_string(), 125_100_000);
    s.record_duration("/a/c/edge.mp4".to_string(), 125_000_000);
    s.record_duration("/a/c/below.mp4".to_string(), 115_000_000);
    let files = vec!["/a/c/far.mp4".to_string(), "/a/c/edge.mp4".to_string(), "/a/c/below.mp4".to_string()];
    assert_eq!(s.is_video_downloaded(&files, Some(120_000_000)), None);
}

#[test]
fn first_match_in_order_wins_and_unmeasured_files_are_skipped() {
    let mut s = scanner_with(&["/a", "/b"], 1_000);
    s.record_duration("/a/c/x.mp4".to_string(), 300_000_000);
    s.record_duration("/b/c/y.mp4".to_string(), 61_000_000);
    s.record_duration("/b/c/z.mp4".to_string(), 60_000_000);
    let files = vec![
        "/a/c/unprobed.mp4".to_string(),
        "/a/c/x.mp4".to_string(),
        "/b/c/y.mp4".to_string(),
        "/b/c/z.mp4".to_string(),
    ];
    assert_eq!(s.is_video_downloaded(&files, Some(60_000_000)), Some("/b/c/y.mp4".to_string()));
}

#[test]
fn unknown_target_duration_never_matches() {
    let mut s = scanner_with(&["/a"], 1_000);
    s.record_duration("/a/c/x.mp4".to_string(), 0);
    assert_eq!(s.is_video_downloaded(&vec!["/a/c/x.mp4".to_string()], None), None);
}

#[test]
fn durations_are_remembered() {
    let mut s = scanner_with(&["/a"], 1_000);
    assert_eq!(s.known_duration("/a/c/x.mp4"), None);
    s.record_duration("/a/c/x.mp4".to_string(), 42);
    assert_eq!(s.known_duration("/a/c/x.mp4"), Some(42));
}

#[test]
fn channel_dirs_under_each_root() {
    let s = scanner_with(&["/a", "/b"], 1_000);
    assert_eq!(s.channel_dirs("chan"), vec!["/a/chan".to_string(), "/b/chan".to_string()]);
}

#[test]
fn no_storage_root_present_fails() {
    let s = scanner_with(&["/a", "/b", "/c"], 1_000);
    let err = s.find_best_storage_path(&vec![false, false, false]).unwrap_err();
    assert_eq!(err, ScanError::NoStorage);
    assert_eq!(err.message(), "no storage root is available");
    assert_eq!(s.find_best_storage_path(&vec![]), Err(ScanError::NoStorage));
}

#[test]
fn single_present_root_is_chosen() {
    let s = scanner_with(&["/a", "/b", "/c"], 1_000);
    assert_eq!(s.find_best_storage_path(&vec![false, true, false]), Ok("/b".to_string()));
    assert_eq!(s.find_best_storage_path(&vec![false, false, true]), Ok("/c".to_string()));
    assert_eq!(s.find_best_storage_path(&vec![true, true, true]), Ok("/a".to_string()));
}

#[test]
fn video_metadata_clone_is_equal() {
    let v = VideoMetadata {
        id: "i".to_string(),
        title: "t".to_string(),
        url: "u".to_string(),
        duration_us: Some(1),
        upload_date: Some("d".to_string()),
        uploader: None,
    };
    assert_eq!(v.clone(), v);
}

#[test]
fn scan_channel_videos_runs_listing_tool_once_within_ttl() {
    let mut s = scanner_with(&["/a"], 300_000);
    let calls = std::cell::Cell::new(0);
    let out = b"{\"id\":\"1\",\"title\":\"T\",\"url\":\"U\",\"duration\":10}\nnot json\n";
    let first = s
        .scan_channel_videos("https://www.twitch.tv/chan", |u| {
            calls.set(calls.get() + 1);
            assert_eq!(u, "https://www.twitch.tv/chan/videos");
            listing(out)
        })
        .unwrap();
    let second = s
        .scan_channel_videos("https://www.twitch.tv/chan", |_| {
            calls.set(calls.get() + 1);
            listing(b"")
        })
        .unwrap();
    assert_eq!(calls.get(), 1);
    assert_eq!(first, second);
    assert_eq!(first.len(), 1);
}

#[test]
fn scan_channel_videos_reports_listing_failure() {
    let mut s = scanner_with(&["/a"], 300_000);
    let r = s.scan_channel_videos("https://www.youtube.com/@x", |_| ListingOutput {
        success: false,
        stdout: Vec::new(),
        stderr: "boom".to_string(),
    });
    assert_eq!(r, Err(ScanError::ListingFailed("boom".to_string())));
}

#[test]
fn scan_skips_malformed_line_and_caches_the_two_valid_records() {
    let mut s = scanner_with(&["/a"], 300_000);
    let out = b"{\"id\":\"1\",\"title\":\"One\",\"url\":\"https://v/1\",\"duration\":61.5}\n\
{\"id\":\"2\",\"title\":oops}\n\
{\"id\":\"3\",\"title\":\"Three\",\"url\":\"https://v/3\"}\n";
    let r1 = VideoMetadata {
        id: "1".to_string(),
        title: "One".to_string(),
        url: "https://v/1".to_string(),
        duration_us: Some(61_500_000),
        upload_date: None,
        uploader: None,
    };
    let r2 = VideoMetadata {
        id: "3".to_string(),
        title: "Three".to_string(),
        url: "https://v/3".to_string(),
        duration_us: None,
        upload_date: None,
        uploader: None,
    };
    let result = s.scan_channel_videos("https://www.youtube.com/@chan", |_| listing(out));
    assert_eq!(result, Ok(vec![r1.clone(), r2.clone()]));
    assert_eq!(s.cache().get("https://www.youtube.com/@chan"), Some(vec![r1, r2]));
}

#[test]
fn cleared_listings_are_fetched_again() {
    let mut s = scanner_with(&["/a"], 300_000);
    s.finish_scan_at("u".to_string(), listing(b""), 0).unwrap();
    assert!(matches!(s.begin_scan_at("u", 10), ScanStep::Cached(_)));
    s.clear_listings();
    assert_eq!(s.begin_scan_at("u", 10), ScanStep::Fetch("u".to_string()));
    assert!(s.cache().snapshot_at(10).is_empty());
}
