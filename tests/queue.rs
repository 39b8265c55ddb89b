use ndownloader::queue::{DownloadQueue, DownloadTask, JobOutcome, Progress, QueueError, TaskState};

fn add(q: &mut DownloadQueue, url: &str, dest: &str) -> Result<(), QueueError> {
    q.add_download("name".to_string(), url.to_string(), "file".to_string(), dest.to_string())
}

#[test]
fn accepted_request_runs() {
    let mut q = DownloadQueue::new();
    assert_eq!(add(&mut q, "https://v/1", "/s/c/one.mp4"), Ok(()));
    assert_eq!(
        q.get_tasks(),
        vec![DownloadTask {
            id: "https://v/1".to_string(),
            display_name: "name".to_string(),
            filename: "file".to_string(),
            destination: "/s/c/one.mp4".to_string(),
            state: TaskState::Running,
            progress_permille: 0,
            speed: None,
            eta: None,
        }]
    );
}

#[test]
fn second_request_for_running_video_is_refused() {
    let mut q = DownloadQueue::new();
    add(&mut q, "https://v/1", "/s/c/one.mp4").unwrap();
    assert_eq!(add(&mut q, "https://v/1", "/s/c/other.mp4"), Err(QueueError::AlreadyActive));
    assert_eq!(q.get_tasks().len(), 1);
    assert_eq!(q.get_tasks()[0].destination, "/s/c/one.mp4");
}

#[test]
fn request_for_busy_destination_is_refused() {
    let mut q = DownloadQueue::new();
    add(&mut q, "https://v/1", "/s/c/one.mp4").unwrap();
    assert_eq!(add(&mut q, "https://v/2", "/s/c/one.mp4"), Err(QueueError::DestinationBusy));
    assert_eq!(add(&mut q, "https://v/2", "/s/c/two.mp4"), Ok(()));
}

#[test]
fn ended_job_is_replaced_by_new_request() {
    let mut q = DownloadQueue::new();
    add(&mut q, "https://v/1", "/s/c/one.mp4").unwrap();
    add(&mut q, "https://v/2", "/s/c/two.mp4").unwrap();
    assert!(q.finish("https://v/1", JobOutcome { success: false, destination_exists: false, diagnostics: "boom".to_string() }));
    assert_eq!(q.task("https://v/1").unwrap().state, TaskState::Failed("boom".to_string()));
    assert_eq!(add(&mut q, "https://v/1", "/s/c/one.mp4"), Ok(()));
    let tasks = q.get_tasks();
    assert_eq!(tasks.len(), 2);
    assert_eq!(tasks[0].id, "https://v/1");
    assert_eq!(tasks[0].state, TaskState::Running);
}

#[test]
fn success_needs_exit_and_file() {
    let mut q = DownloadQueue::new();
    add(&mut q, "a", "/a").unwrap();
    add(&mut q, "b", "/b").unwrap();
    assert!(q.finish("a", JobOutcome { success: true, destination_exists: true, diagnostics: String::new() }));
    assert!(q.finish("b", JobOutcome { success: true, destination_exists: false, diagnostics: "missing".to_string() }));
    assert_eq!(q.task("a").unwrap().state, TaskState::Succeeded);
    assert_eq!(q.task("b").unwrap().state, TaskState::Failed("missing".to_string()));
}

#[test]
fn ended_job_never_runs_again() {
    let mut q = DownloadQueue::new();
    add(&mut q, "a", "/a").unwrap();
    assert!(q.finish("a", JobOutcome { success: true, destination_exists: true, diagnostics: String::new() }));
    assert!(!q.finish("a", JobOutcome { success: false, destination_exists: false, diagnostics: "late".to_string() }));
    assert!(!q.cancel("a"));
    assert_eq!(q.task("a").unwrap().state, TaskState::Succeeded);
}

#[test]
fn cancel_running_job() {
    let mut q = DownloadQueue::new();
    add(&mut q, "a", "/a").unwrap();
    assert!(q.cancel("a"));
    assert_eq!(q.task("a").unwrap().state, TaskState::Cancelled);
    assert!(!q.cancel("a"));
    assert!(!q.finish("a", JobOutcome { success: true, destination_exists: true, diagnostics: String::new() }));
    assert_eq!(q.task("a").unwrap().state, TaskState::Cancelled);
    assert!(!q.cancel("unknown"));
    assert_eq!(q.task("unknown"), None);
}

#[test]
fn progress_is_recorded_for_running_job_only() {
    let mut q = DownloadQueue::new();
    add(&mut q, "a", "/a").unwrap();
    let p = Progress { permille: 453, speed: Some("1.23MiB/s".to_string()), eta: Some("00:05".to_string()) };
    assert!(q.report_progress("a", p));
    let t = q.task("a").unwrap();
    assert_eq!(t.progress_permille, 453);
    assert_eq!(t.speed, Some("1.23MiB/s".to_string()));
    assert_eq!(t.eta, Some("00:05".to_string()));
    assert!(q.report_progress("a", Progress { permille: 5000, speed: None, eta: None }));
    assert_eq!(q.task("a").unwrap().progress_permille, 1000);
    q.cancel("a");
    assert!(!q.report_progress("a", Progress { permille: 10, speed: None, eta: None }));
    assert_eq!(q.task("a").unwrap().progress_permille, 1000);
}
