use sid::path::FilePath;
use sid::preview::FilePreview;
use sid::sed::{filter_output, SedExit};
use sid::styled::{Color, Style};
use sid::worker::{
    preview_request, Worker, WorkerAction, WorkerEvent, WorkerInput, WorkerRequest,
};

fn preview(generation: u64, expression: &str, files: Vec<FilePreview>) -> WorkerInput {
    WorkerInput::Request(WorkerRequest::Preview {
        generation,
        expression: expression.to_string(),
        files,
    })
}

fn apply(generation: u64, expression: &str, files: &[&str]) -> WorkerInput {
    WorkerInput::Request(WorkerRequest::Apply {
        generation,
        expression: expression.to_string(),
        files: files.iter().map(|f| FilePath::from_text(f)).collect(),
        backup_suffix: None,
    })
}

fn file(name: &str, content: &str, truncated: bool) -> FilePreview {
    FilePreview { path: FilePath::from_text(name), content: content.to_string(), truncated }
}

fn exited(code: i32, stdout: &[u8], stderr: &[u8]) -> WorkerInput {
    WorkerInput::Exited(SedExit {
        success: code == 0,
        code: Some(code),
        stdout: stdout.to_vec(),
        stderr: stderr.to_vec(),
    })
}

fn worker() -> Worker {
    Worker::new(FilePath::from_text("/usr/bin/sed"))
}

/// Hands the answers over, and gives the last action.
fn feed(w: &mut Worker, inputs: Vec<WorkerInput>) -> WorkerAction {
    let mut last = WorkerAction::Receive;
    for input in inputs {
        last = w.worker_loop(input);
    }
    last
}

/// Brings a worker to where sed runs on the first file.
fn running(w: &mut Worker) -> WorkerAction {
    feed(
        w,
        vec![
            preview(1, "s/a/b/", vec![file("f", "a\n", false)]),
            WorkerInput::Empty,
            WorkerInput::Empty,
            WorkerInput::Spawned,
            WorkerInput::Fed,
        ],
    )
}

fn told(event: WorkerEvent) -> (u64, Vec<String>, bool, Vec<usize>, Option<String>) {
    match event {
        WorkerEvent::PreviewReady {
            generation,
            lines,
            truncated,
            changed,
            shown,
            scanned,
            done,
            error,
        } => {
            assert!(done);
            let lines = lines
                .iter()
                .map(|l| l.spans.iter().map(|s| s.content.as_str()).collect::<String>())
                .collect();
            (generation, lines, truncated, vec![changed, shown, scanned], error)
        }
        WorkerEvent::ApplyFinished { .. } => panic!("not a preview"),
    }
}

fn sent(action: WorkerAction) -> WorkerEvent {
    match action {
        WorkerAction::Send(event) => event,
        other => panic!("{other:?}"),
    }
}

fn words(args: &[Vec<u8>]) -> Vec<String> {
    args.iter().map(|a| String::from_utf8(a.clone()).unwrap()).collect()
}

#[test]
fn sed_substitution_via_system_binary() {
    let mut w = worker();
    let input = "hello world\n";
    w.worker_loop(preview(1, "s/world/rust/", vec![file("f", input, false)]));
    w.worker_loop(WorkerInput::Empty);
    match w.worker_loop(WorkerInput::Empty) {
        WorkerAction::SpawnSed(args) => assert_eq!(words(&args), vec!["-e", "s/world/rust/"]),
        other => panic!("{other:?}"),
    }
    match w.worker_loop(WorkerInput::Spawned) {
        WorkerAction::FeedSed(content) => assert_eq!(content, input),
        other => panic!("{other:?}"),
    }
    let out = filter_output(SedExit {
        success: true,
        code: Some(0),
        stdout: b"hello rust\n".to_vec(),
        stderr: Vec::new(),
    })
    .unwrap();
    assert_eq!(out, "hello rust\n");
    let action = feed(
        &mut w,
        vec![WorkerInput::Fed, WorkerInput::Empty, exited(0, b"hello rust\n", b"")],
    );
    assert_eq!(
        told(sent(action)),
        (
            1,
            vec![
                "--- f".to_string(),
                "+++ f".to_string(),
                "@@ -1,1 +1,1 @@".to_string(),
                "-hello world".to_string(),
                "+hello rust".to_string(),
            ],
            false,
            vec![1, 1, 1],
            None
        )
    );
}

#[test]
fn apply_runs_sed_on_the_files() {
    let mut w = worker();
    w.worker_loop(apply(7, "s/foo/baz/", &["sample.txt"]));
    match w.worker_loop(WorkerInput::Empty) {
        WorkerAction::RunSed(args) => {
            assert_eq!(words(&args), vec!["-i", "-e", "s/foo/baz/", "--", "sample.txt"])
        }
        other => panic!("{other:?}"),
    }
    let action = w.worker_loop(exited(0, b"", b""));
    assert!(matches!(
        sent(action),
        WorkerEvent::ApplyFinished { generation: 7, error: None }
    ));
    assert!(matches!(w.worker_loop(WorkerInput::Sent), WorkerAction::Receive));
}

#[test]
fn apply_that_fails() {
    let cases = vec![
        (exited(1, b"", b"bad\n"), "sed apply failed (1): bad"),
        (WorkerInput::SpawnFailed, "failed to spawn /usr/bin/sed"),
    ];
    for (input, told) in cases {
        let mut w = worker();
        feed(&mut w, vec![apply(2, "p", &["f"]), WorkerInput::Empty]);
        match sent(w.worker_loop(input)) {
            WorkerEvent::ApplyFinished { generation, error } => {
                assert_eq!(generation, 2);
                assert_eq!(error, Some(told.to_string()));
            }
            other => panic!("{other:?}"),
        }
    }
    for (expression, files, told) in
        [(" ", vec!["f"], "empty sed expression"), ("p", vec![], "no files to apply")]
    {
        let mut w = worker();
        let action = feed(&mut w, vec![apply(3, expression, &files), WorkerInput::Closed]);
        match sent(action) {
            WorkerEvent::ApplyFinished { generation, error } => {
                assert_eq!(generation, 3);
                assert_eq!(error, Some(told.to_string()));
            }
            other => panic!("{other:?}"),
        }
    }
}

#[test]
fn remarks_in_place_of_a_preview() {
    let mut w = worker();
    let action = feed(&mut w, vec![preview(1, " \t", vec![]), WorkerInput::Empty]);
    assert_eq!(
        told(sent(action)),
        (
            1,
            vec![" Type a sed expression to preview changes".to_string()],
            false,
            vec![0, 0, 0],
            None
        )
    );
    w.worker_loop(WorkerInput::Sent);
    let action = feed(&mut w, vec![preview(2, "p", vec![]), WorkerInput::Empty]);
    assert_eq!(
        told(sent(action)),
        (
            2,
            vec![" No files found under . (or pass FILE args)".to_string()],
            false,
            vec![0, 0, 0],
            None
        )
    );
}

#[test]
fn quiet_preview_of_two_files() {
    let mut w = worker();
    let files = vec![file("one", "a\n", true), file("two", "same\n", false)];
    feed(&mut w, vec![preview(5, "s/a/b/", files), WorkerInput::Empty]);
    let action = feed(
        &mut w,
        vec![
            WorkerInput::Empty,
            WorkerInput::Spawned,
            WorkerInput::Fed,
            WorkerInput::Empty,
            WorkerInput::Running,
            WorkerInput::Rested,
            WorkerInput::Empty,
            exited(0, b"b\n", b""),
        ],
    );
    assert!(matches!(action, WorkerAction::Poll));
    let action = feed(
        &mut w,
        vec![
            WorkerInput::Empty,
            WorkerInput::Spawned,
            WorkerInput::Fed,
            WorkerInput::Empty,
            exited(0, b"same\n", b""),
        ],
    );
    let event = sent(action);
    if let WorkerEvent::PreviewReady { lines, .. } = &event {
        assert_eq!(
            lines[0].spans[0].style,
            Style { fg: Some(Color::Yellow), bg: None, bold: true }
        );
        assert!(lines[5].spans.is_empty());
    }
    let shown: Vec<String> = [
        "--- one",
        "+++ one",
        "@@ -1,1 +1,1 @@",
        "-a",
        "+b",
        "",
        "--- two",
        "+++ two",
    ]
    .iter()
    .map(|s| s.to_string())
    .collect();
    assert_eq!(told(event), (5, shown, true, vec![1, 1, 2], None));
}

#[test]
fn latest_request_wins() {
    let mut w = worker();
    let action = feed(
        &mut w,
        vec![preview(1, "p", vec![]), apply(2, "p", &["f"]), preview(3, "", vec![])],
    );
    assert!(matches!(action, WorkerAction::Poll));
    assert_eq!(told(sent(w.worker_loop(WorkerInput::Empty))).0, 3);
}

#[test]
fn overtaken_preview_reports_nothing() {
    let mut w = worker();
    assert!(matches!(running(&mut w), WorkerAction::Poll));
    assert!(matches!(w.worker_loop(preview(2, "p", vec![])), WorkerAction::Poll));
    assert!(matches!(w.worker_loop(preview(3, " ", vec![])), WorkerAction::Poll));
    assert!(matches!(w.worker_loop(WorkerInput::Empty), WorkerAction::KillSed));
    assert!(matches!(w.worker_loop(WorkerInput::Killed), WorkerAction::Poll));
    assert_eq!(told(sent(w.worker_loop(WorkerInput::Empty))).0, 3);

    let mut w = worker();
    feed(&mut w, vec![preview(1, "p", vec![file("f", "", false)]), WorkerInput::Empty]);
    assert!(matches!(w.worker_loop(preview(2, " ", vec![])), WorkerAction::Poll));
    assert!(matches!(w.worker_loop(WorkerInput::Empty), WorkerAction::Poll));
    assert_eq!(told(sent(w.worker_loop(WorkerInput::Empty))).0, 2);
}

#[test]
fn preview_that_fails() {
    let cases = vec![
        (exited(2, b"b\n", b" oh\n"), "sed exited 2: oh"),
        (exited(0, &[0xff], b""), "sed stdout was not valid UTF-8"),
    ];
    for (input, error) in cases {
        let mut w = worker();
        running(&mut w);
        w.worker_loop(WorkerInput::Empty);
        assert_eq!(
            told(sent(w.worker_loop(input))),
            (1, vec![], false, vec![0, 0, 0], Some(error.to_string()))
        );
    }

    let mut w = worker();
    running(&mut w);
    w.worker_loop(WorkerInput::Empty);
    assert!(matches!(
        w.worker_loop(WorkerInput::WaitFailed("no child".to_string())),
        WorkerAction::KillSed
    ));
    assert_eq!(
        told(sent(w.worker_loop(WorkerInput::Killed))).4,
        Some("failed waiting for sed: no child".to_string())
    );
}

#[test]
fn sed_that_takes_no_input() {
    let start = || {
        let mut w = worker();
        feed(
            &mut w,
            vec![
                preview(1, "p", vec![file("f", "a\n", false)]),
                WorkerInput::Empty,
                WorkerInput::Empty,
            ],
        );
        w
    };
    let mut w = start();
    assert_eq!(
        told(sent(w.worker_loop(WorkerInput::SpawnFailed))).4,
        Some("failed to spawn /usr/bin/sed".to_string())
    );
    let mut w = start();
    w.worker_loop(WorkerInput::Spawned);
    assert!(matches!(
        w.worker_loop(WorkerInput::FeedFailed("broken pipe".to_string())),
        WorkerAction::KillSed
    ));
    assert_eq!(
        told(sent(w.worker_loop(WorkerInput::Killed))).4,
        Some("failed writing to sed stdin: broken pipe".to_string())
    );
    let mut w = start();
    w.worker_loop(WorkerInput::Spawned);
    assert_eq!(
        told(sent(w.worker_loop(WorkerInput::NoStdout))).4,
        Some("sed stdout missing".to_string())
    );
    let mut w = start();
    w.worker_loop(WorkerInput::Spawned);
    assert_eq!(
        told(sent(w.worker_loop(WorkerInput::NoStderr))).4,
        Some("sed stderr missing".to_string())
    );
}

#[test]
fn worker_ends() {
    let mut w = worker();
    assert!(matches!(w.worker_loop(WorkerInput::Closed), WorkerAction::Stop));

    let mut w = worker();
    w.worker_loop(WorkerInput::Request(WorkerRequest::Shutdown));
    assert!(matches!(w.worker_loop(WorkerInput::Empty), WorkerAction::Stop));

    let mut w = worker();
    running(&mut w);
    assert!(matches!(w.worker_loop(WorkerInput::Closed), WorkerAction::KillSed));
    assert!(matches!(w.worker_loop(WorkerInput::Killed), WorkerAction::Poll));
    assert!(matches!(w.worker_loop(WorkerInput::Closed), WorkerAction::Stop));

    let mut w = worker();
    feed(&mut w, vec![preview(1, "p", vec![file("f", "", false)]), WorkerInput::Empty]);
    assert!(matches!(w.worker_loop(WorkerInput::Closed), WorkerAction::Poll));
    assert!(matches!(w.worker_loop(WorkerInput::Closed), WorkerAction::Stop));

    let mut w = worker();
    feed(&mut w, vec![preview(1, "", vec![]), WorkerInput::Empty]);
    assert!(matches!(w.worker_loop(WorkerInput::NotSent), WorkerAction::Stop));
}

#[test]
fn preview_request_from_contents() {
    let paths = vec![FilePath::from_text("a"), FilePath::from_text("b")];
    let contents = vec![Some(b"x\r\n".to_vec()), Some(vec![0xff])];
    match preview_request(9, "p".to_string(), paths, contents) {
        Ok(WorkerRequest::Preview { generation, expression, files }) => {
            assert_eq!(generation, 9);
            assert_eq!(expression, "p");
            assert_eq!(files.len(), 2);
            assert_eq!(files[0].content, "x\r\n");
            assert!(!files[0].truncated);
            assert_eq!(files[1].path, FilePath::from_text("b"));
            assert_eq!(files[1].content, "\u{FFFD}");
            assert!(files[1].truncated);
        }
        other => panic!("{other:?}"),
    }
}

#[test]
fn preview_request_with_an_unreadable_file() {
    let paths = vec![
        FilePath::from_text("a"),
        FilePath::from_text("b"),
        FilePath::from_text("c"),
    ];
    let contents = vec![Some(Vec::new()), None, None];
    let event = preview_request(4, "p".to_string(), paths, contents).unwrap_err();
    assert_eq!(
        told(event),
        (4, vec![], false, vec![0, 0, 0], Some("reading b".to_string()))
    );
}

#[test]
fn reports_come_in_the_order_of_requests() {
    let mut w = worker();
    let mut numbers = Vec::new();
    let inputs = vec![
        preview(1, " ", vec![]),
        WorkerInput::Empty,
        WorkerInput::Sent,
        preview(2, "p", vec![file("f", "a\n", false)]),
        WorkerInput::Empty,
        apply(3, "p", &["f"]),
        apply(4, "p", &["f"]),
        WorkerInput::Empty,
        WorkerInput::Empty,
        exited(0, b"", b""),
        WorkerInput::Sent,
        preview(5, "p", vec![]),
        preview(6, "p", vec![]),
        WorkerInput::Empty,
        WorkerInput::Sent,
    ];
    for input in inputs {
        if let WorkerAction::Send(event) = w.worker_loop(input) {
            numbers.push(match event {
                WorkerEvent::PreviewReady { generation, .. } => ("preview", generation),
                WorkerEvent::ApplyFinished { generation, .. } => ("apply", generation),
            });
        }
    }
    assert_eq!(numbers, vec![("preview", 1), ("apply", 4), ("preview", 6)]);
}

#[test]
fn ends_of_sed_that_can_be_taken() {
    let mut w = worker();
    running(&mut w);
    w.worker_loop(WorkerInput::Empty);
    for (success, stdout) in [(true, b"b\n".to_vec()), (true, vec![0xff]), (false, Vec::new())] {
        let exit = SedExit { success, code: Some(0), stdout, stderr: Vec::new() };
        assert!(w.takes(&exit));
    }
}
