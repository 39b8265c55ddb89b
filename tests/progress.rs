use ndownloader::progress::parse_progress_line;
use ndownloader::queue::{DownloadQueue, TaskState};

#[test]
fn full_progress_line() {
    let p = parse_progress_line("[download]  45.3% of   10.00MiB at    1.23MiB/s ETA 00:05").unwrap();
    assert_eq!(p.permille, 453);
    assert_eq!(p.speed, Some("1.23MiB/s".to_string()));
    assert_eq!(p.eta, Some("00:05".to_string()));
}

#[test]
fn finished_line_without_eta() {
    let p = parse_progress_line("[download] 100% of   10.00MiB in 00:00:05 at 2.00MiB/s").unwrap();
    assert_eq!(p.permille, 1000);
    assert_eq!(p.speed, Some("2.00MiB/s".to_string()));
    assert_eq!(p.eta, None);
}

#[test]
fn second_decimal_is_dropped_and_large_percentages_capped() {
    assert_eq!(parse_progress_line("[download] 7.89%").unwrap().permille, 78);
    assert_eq!(parse_progress_line("[download] 250%").unwrap().permille, 1000);
    assert_eq!(parse_progress_line("[download] 0.%").unwrap().permille, 0);
}

#[test]
fn other_lines_are_not_progress() {
    assert_eq!(parse_progress_line(""), None);
    assert_eq!(parse_progress_line("[download] Destination: /s/c/a.mp4"), None);
    assert_eq!(parse_progress_line("[info] 45.3%"), None);
    assert_eq!(parse_progress_line("[download] %"), None);
    assert_eq!(parse_progress_line("[download] 4.5.6%"), None);
    assert_eq!(parse_progress_line("[download]"), None);
}

#[test]
fn queue_reads_progress_lines() {
    let mut q = DownloadQueue::new();
    q.add_download("n".to_string(), "u".to_string(), "f".to_string(), "/d".to_string()).unwrap();
    assert!(q.apply_progress_line("u", "[download]  12.0% of 1.00GiB at 3.00MiB/s ETA 05:00"));
    assert!(!q.apply_progress_line("u", "[Merger] Merging formats"));
    let t = q.task("u").unwrap();
    assert_eq!(t.progress_permille, 120);
    assert_eq!(t.eta, Some("05:00".to_string()));
    assert_eq!(t.state, TaskState::Running);
    assert!(!q.apply_progress_line("other", "[download]  12.0%"));
}
