use recense::dom::Attribute;
use recense::dom::Node;
use recense::dom::NodeKind;
use recense::downloader::DownloadRequest;
use recense::downloader::Frame;
use recense::worker::continue_job;
use recense::worker::succeeded;
use recense::worker::Action;
use recense::worker::Job;
use recense::worker::Outcome;
use recense::worker::Stage;
use recense::worker::Worker;

fn unsafe_request(username: &str, pin_id: &str) -> DownloadRequest {
    DownloadRequest {
        url: String::from("http://a.example"),
        pin_id: String::from(pin_id),
        username: String::from(username),
    }
}

fn request(url: &str, pin_id: &str) -> DownloadRequest {
    DownloadRequest {
        url: String::from(url),
        pin_id: String::from(pin_id),
        username: String::from("alice"),
    }
}

fn page() -> Node {
    Node {
        kind: NodeKind::Other,
        children: vec![Node {
            kind: NodeKind::Element {
                name: String::from("a"),
                attrs: vec![Attribute { name: String::from("href"), value: String::from("/next") }],
            },
            children: vec![],
        }],
    }
}

/// A short name for an action, with the file or address that shows whose
/// it is.
fn label(action: &Action) -> String {
    match action {
        Action::Wait => String::from("wait"),
        Action::CreateDirectory { path } => format!("mkdir {}", path),
        Action::RemoveFile { path } => format!("rm {}", path),
        Action::Capture { command } => format!("capture {} {}", command.program, command.args[4]),
        Action::Thumbnail { target, .. } => format!("thumbnail {}", target),
        Action::Dump { command } => format!("dump {} {}", command.program, command.args[3]),
        Action::WritePage { path, .. } => format!("write {}", path),
    }
}

/// Runs a worker until it waits, reporting success for every action and a
/// document for every dump.
fn run_to_rest(worker: &mut Worker) -> Vec<String> {
    let mut labels = vec![];
    let mut outcome = Outcome::Done;
    loop {
        let action = worker.step(outcome);
        labels.push(label(&action));
        outcome = match action {
            Action::Wait => return labels,
            Action::Capture { .. } => Outcome::Exited { code: Some(0) },
            Action::Dump { .. } => Outcome::Dumped { code: Some(0), document: page() },
            _ => Outcome::Done,
        };
    }
}

#[test]
fn a_new_worker_waits() {
    let mut worker = Worker::new(Some(String::from("/usr/bin/chromium")));
    assert!(worker.job.is_none());
    assert!(worker.queue.is_empty());
    assert!(matches!(worker.step(Outcome::Done), Action::Wait));
    assert!(matches!(worker.step(Outcome::Failed), Action::Wait));
    assert!(worker.job.is_none());
}

#[test]
fn a_request_runs_through_both_branches() {
    let mut worker = Worker::new(Some(String::from("/usr/bin/chromium")));
    worker.enqueue(request("http://a.example/x", "A"));
    assert_eq!(
        run_to_rest(&mut worker),
        vec![
            "mkdir cache/alice",
            "rm screenshot.png",
            "capture /usr/bin/chromium http://a.example/x",
            "thumbnail cache/alice/A.jpg",
            "dump /usr/bin/chromium http://a.example/x",
            "write cache/alice/A.html",
            "wait",
        ]
    );
    assert!(worker.job.is_none());
}

#[test]
fn the_first_request_runs_through_before_the_second_starts() {
    let mut worker = Worker::new(Some(String::from("/usr/bin/chromium")));
    worker.enqueue(request("http://a.example", "A"));
    worker.enqueue(request("http://b.example", "B"));
    let labels = run_to_rest(&mut worker);
    assert_eq!(
        labels,
        vec![
            "mkdir cache/alice",
            "rm screenshot.png",
            "capture /usr/bin/chromium http://a.example",
            "thumbnail cache/alice/A.jpg",
            "dump /usr/bin/chromium http://a.example",
            "write cache/alice/A.html",
            "mkdir cache/alice",
            "rm screenshot.png",
            "capture /usr/bin/chromium http://b.example",
            "thumbnail cache/alice/B.jpg",
            "dump /usr/bin/chromium http://b.example",
            "write cache/alice/B.html",
            "wait",
        ]
    );
}

#[test]
fn a_request_that_arrives_during_work_waits_its_turn() {
    let mut worker = Worker::new(Some(String::from("/usr/bin/chromium")));
    worker.enqueue(request("http://a.example", "A"));
    assert_eq!(label(&worker.step(Outcome::Done)), "mkdir cache/alice");
    worker.enqueue(request("http://b.example", "B"));
    worker.enqueue(request("http://c.example", "C"));
    assert_eq!(label(&worker.step(Outcome::Done)), "rm screenshot.png");
    assert_eq!(worker.job.as_ref().unwrap().request.pin_id, "A");
    assert_eq!(worker.queue.len(), 2);
    let rest = run_to_rest(&mut worker);
    let writes: Vec<&String> = rest.iter().filter(|label| label.starts_with("write")).collect();
    assert_eq!(writes, vec!["write cache/alice/A.html", "write cache/alice/B.html", "write cache/alice/C.html"]);
}

#[test]
fn two_requests_for_one_pin_both_run() {
    let mut worker = Worker::new(Some(String::from("/usr/bin/chromium")));
    worker.enqueue(request("http://a.example", "A"));
    worker.enqueue(request("http://a.example", "A"));
    let labels = run_to_rest(&mut worker);
    assert_eq!(labels.iter().filter(|label| label.starts_with("write")).count(), 2);
    assert_eq!(labels.len(), 13);
}

#[test]
fn a_failed_screenshot_does_not_stop_the_document() {
    let mut worker = Worker::new(Some(String::from("/usr/bin/chromium")));
    worker.enqueue(request("http://a.example", "A"));
    assert_eq!(label(&worker.step(Outcome::Done)), "mkdir cache/alice");
    assert_eq!(label(&worker.step(Outcome::Done)), "rm screenshot.png");
    assert_eq!(label(&worker.step(Outcome::Failed)), "capture /usr/bin/chromium http://a.example");
    assert_eq!(label(&worker.step(Outcome::Failed)), "dump /usr/bin/chromium http://a.example");
    assert_eq!(label(&worker.step(Outcome::Dumped { code: Some(0), document: page() })), "write cache/alice/A.html");
    assert!(matches!(worker.step(Outcome::Failed), Action::Wait));
}

#[test]
fn a_failed_directory_skips_to_the_document() {
    let mut worker = Worker::new(Some(String::from("/usr/bin/chromium")));
    worker.enqueue(request("http://a.example", "A"));
    assert_eq!(label(&worker.step(Outcome::Done)), "mkdir cache/alice");
    assert_eq!(label(&worker.step(Outcome::Failed)), "dump /usr/bin/chromium http://a.example");
}

#[test]
fn a_failed_thumbnail_does_not_stop_the_document() {
    let job = Job { request: request("http://a.example", "A"), stage: Stage::Thumbnail };
    let (job, action) = continue_job(&Some(String::from("/usr/bin/chromium")), job, Outcome::Failed).unwrap();
    assert_eq!(job.stage, Stage::Document);
    assert_eq!(label(&action), "dump /usr/bin/chromium http://a.example");
}

#[test]
fn a_failed_dump_ends_the_request() {
    let mut worker = Worker::new(Some(String::from("/usr/bin/chromium")));
    worker.enqueue(request("http://a.example", "A"));
    worker.enqueue(request("http://b.example", "B"));
    for _ in 0..3 {
        worker.step(Outcome::Done);
    }
    worker.step(Outcome::Exited { code: Some(0) });
    worker.step(Outcome::Done);
    assert_eq!(worker.job.as_ref().unwrap().stage, Stage::Document);
    assert_eq!(label(&worker.step(Outcome::Failed)), "mkdir cache/alice");
    assert_eq!(worker.job.as_ref().unwrap().request.pin_id, "B");
    let job = Job { request: request("http://a.example", "A"), stage: Stage::Document };
    assert!(continue_job(&Some(String::from("/usr/bin/chromium")), job, Outcome::Done).is_none());
}

#[test]
fn an_address_without_server_gets_no_document() {
    let mut worker = Worker::new(Some(String::from("/usr/bin/chromium")));
    worker.enqueue(request("", "A"));
    assert_eq!(
        run_to_rest(&mut worker),
        vec!["mkdir cache/alice", "rm screenshot.png", "capture /usr/bin/chromium ", "thumbnail cache/alice/A.jpg", "wait"]
    );
}

#[test]
fn the_thumbnail_is_cut_and_scaled_as_planned() {
    let job = Job { request: request("http://a.example", "A"), stage: Stage::Screenshot };
    let (job, action) = continue_job(
        &Some(String::from("/usr/bin/chromium")),
        job,
        Outcome::Exited { code: Some(0) },
    )
    .unwrap();
    assert_eq!(job.stage, Stage::Thumbnail);
    match action {
        Action::Thumbnail { source, crop, size, target } => {
            assert_eq!(source, "screenshot.png");
            assert_eq!(crop, Frame { width: 1260, height: 640 });
            assert_eq!(size, Frame { width: 252, height: 128 });
            assert_eq!(target, "cache/alice/A.jpg");
        }
        other => panic!("unexpected action {:?}", other),
    }
}

#[test]
fn the_document_is_written_with_absolute_links() {
    let job = Job { request: request("https://a.example:8443/deep/page?q", "A"), stage: Stage::Document };
    let (job, action) = continue_job(&Some(String::from("/usr/bin/chromium")), job, Outcome::Dumped { code: Some(0), document: page() }).unwrap();
    assert_eq!(job.stage, Stage::Page);
    match action {
        Action::WritePage { path, document } => {
            assert_eq!(path, "cache/alice/A.html");
            match &document.children[0].kind {
                NodeKind::Element { attrs, .. } => {
                    assert_eq!(attrs[0].value, "https://a.example:8443/next");
                }
                NodeKind::Other => panic!("the anchor is an element"),
            }
        }
        other => panic!("unexpected action {:?}", other),
    }
    let job = Job { request: request("http://a.example", "A"), stage: Stage::Page };
    assert!(continue_job(&Some(String::from("/usr/bin/chromium")), job, Outcome::Done).is_none());
}

#[test]
fn a_run_succeeds_with_the_exit_code_zero_only() {
    assert!(succeeded(Some(0)));
    assert!(!succeeded(Some(1)));
    assert!(!succeeded(Some(-1)));
    assert!(!succeeded(Some(255)));
    assert!(!succeeded(None));
}

#[test]
fn a_browser_that_ends_in_failure_leaves_no_thumbnail() {
    let browser = Some(String::from("/usr/bin/chromium"));
    for outcome in [
        Outcome::Exited { code: Some(1) },
        Outcome::Exited { code: None },
        Outcome::Failed,
        Outcome::Done,
    ] {
        let job = Job { request: request("http://a.example", "A"), stage: Stage::Screenshot };
        let (job, action) = continue_job(&browser, job, outcome).unwrap();
        assert_eq!(job.stage, Stage::Document);
        assert_eq!(label(&action), "dump /usr/bin/chromium http://a.example");
    }
}

#[test]
fn a_dump_that_ends_in_failure_leaves_no_document() {
    let browser = Some(String::from("/usr/bin/chromium"));
    for outcome in [
        Outcome::Dumped { code: Some(1), document: page() },
        Outcome::Dumped { code: None, document: page() },
        Outcome::Exited { code: Some(0) },
        Outcome::Failed,
    ] {
        let job = Job { request: request("http://a.example", "A"), stage: Stage::Document };
        assert!(continue_job(&browser, job, outcome).is_none());
    }
}

#[test]
fn the_screenshot_is_taken_with_the_browser_that_was_found() {
    for browser in ["/usr/bin/google-chrome", "/usr/bin/chromium-browser"] {
        let mut worker = Worker::new(Some(String::from(browser)));
        worker.enqueue(request("http://a.example", "A"));
        worker.step(Outcome::Done);
        worker.step(Outcome::Done);
        match worker.step(Outcome::Done) {
            Action::Capture { command } => {
                assert_eq!(command.program, browser);
                assert_eq!(
                    command.args,
                    vec!["--headless", "--window-size=1280,640", "--screenshot", "screenshot.png", "http://a.example"]
                );
            }
            other => panic!("unexpected action {:?}", other),
        }
    }
}

#[test]
fn a_worker_without_a_browser_goes_on_and_runs_nothing() {
    let mut worker = Worker::new(None);
    assert!(matches!(worker.step(Outcome::Done), Action::Wait));
    worker.enqueue(request("http://a.example", "A"));
    worker.enqueue(request("http://b.example", "B"));
    assert_eq!(
        run_to_rest(&mut worker),
        vec!["mkdir cache/alice", "rm screenshot.png", "mkdir cache/alice", "rm screenshot.png", "wait"]
    );
    assert!(worker.job.is_none());
    assert!(worker.queue.is_empty());
    worker.enqueue(request("http://c.example", "C"));
    assert_eq!(label(&worker.step(Outcome::Failed)), "mkdir cache/alice");
    assert!(matches!(worker.step(Outcome::Failed), Action::Wait));
}

#[test]
fn a_request_with_an_unsafe_name_is_dropped() {
    let mut worker = Worker::new(Some(String::from("/usr/bin/chromium")));
    assert!(!worker.enqueue(unsafe_request("../alice", "A")));
    assert!(!worker.enqueue(unsafe_request("alice", "../A")));
    assert!(!worker.enqueue(unsafe_request("", "A")));
    assert!(!worker.enqueue(unsafe_request("alice", "a/b")));
    assert!(worker.queue.is_empty());
    assert!(matches!(worker.step(Outcome::Done), Action::Wait));
    assert!(worker.enqueue(request("http://a.example", "A")));
    assert_eq!(worker.queue.len(), 1);
}
