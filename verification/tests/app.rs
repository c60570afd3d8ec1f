use sid::app::{
    App, AppCommand, Focus, KeyCode, KeyEvent, Mode, TerminalEvent, DEBOUNCE, PAGE, POLL,
};
use sid::cli::Args;
use sid::path::FilePath;
use sid::sed::SedExit;
use sid::styled::{Line, Style};
use sid::worker::{
    preview_request, Worker, WorkerAction, WorkerEvent, WorkerInput, WorkerRequest,
};

fn app_with(expression: Option<&str>, files: &[&str]) -> App {
    let args = Args {
        expression: expression.map(|e| e.to_string()),
        sed_bin: FilePath::from_text("sed"),
        in_place: Some(".bak".to_string()),
        files: Vec::new(),
    };
    let files = files.iter().map(|f| FilePath::from_text(f)).collect();
    App::new(args, FilePath::from_text("/bin/sed"), files, 0)
}

fn key(code: KeyCode) -> KeyEvent {
    KeyEvent { code, control: false }
}

fn ctrl(c: char) -> KeyEvent {
    KeyEvent { code: KeyCode::Char(c), control: true }
}

fn press(app: &mut App, codes: &[KeyCode]) {
    for code in codes {
        assert!(app.handle_key(key(*code), 0).is_none());
    }
}

fn lines(n: usize) -> Vec<Line> {
    (0..n)
        .map(|i| Line::styled(format!("{i}"), Style { fg: None, bg: None, bold: false }))
        .collect()
}

fn ready(generation: u64, n: usize) -> WorkerEvent {
    WorkerEvent::PreviewReady {
        generation,
        lines: lines(n),
        truncated: true,
        changed: 3,
        shown: 2,
        scanned: 5,
        done: true,
        error: None,
    }
}

fn failed(generation: u64) -> WorkerEvent {
    WorkerEvent::PreviewReady {
        generation,
        lines: Vec::new(),
        truncated: false,
        changed: 0,
        shown: 0,
        scanned: 0,
        done: true,
        error: Some("bad".to_string()),
    }
}

#[test]
fn starts_with_a_preview_due() {
    assert_eq!(DEBOUNCE, 120_000_000);
    assert_eq!(POLL, 16_000_000);
    let mut app = app_with(Some("s/é/b/"), &["f"]);
    assert_eq!(app.cursor, 7);
    assert_eq!(app.focus, Focus::Expression);
    assert_eq!(app.mode, Mode::Editing);
    assert_eq!(app.sed_bin, FilePath::from_text("/bin/sed"));
    assert_eq!(app.backup_suffix, Some(".bak".to_string()));
    assert!(app.loading);
    assert!(app.maybe_flush_debounce(DEBOUNCE - 1).is_none());
    match app.maybe_flush_debounce(DEBOUNCE) {
        Some(AppCommand::Preview { generation, expression, paths }) => {
            assert_eq!(generation, 1);
            assert_eq!(expression, "s/é/b/");
            assert_eq!(paths, vec![FilePath::from_text("f")]);
        }
        other => panic!("{other:?}"),
    }
    assert!(app.maybe_flush_debounce(u64::MAX).is_none());
    assert_eq!(app_with(None, &[]).expression, "");
}

#[test]
fn editing() {
    let mut app = app_with(None, &[]);
    press(&mut app, &[KeyCode::Char('a'), KeyCode::Char('é'), KeyCode::Char('c')]);
    assert_eq!((app.expression.as_str(), app.cursor), ("aéc", 4));
    press(&mut app, &[KeyCode::Left, KeyCode::Left]);
    assert_eq!(app.cursor, 1);
    press(&mut app, &[KeyCode::Delete]);
    assert_eq!((app.expression.as_str(), app.cursor), ("ac", 1));
    press(&mut app, &[KeyCode::Right, KeyCode::Right]);
    assert_eq!(app.cursor, 2);
    press(&mut app, &[KeyCode::Backspace, KeyCode::Char('😀'), KeyCode::Home]);
    assert_eq!((app.expression.as_str(), app.cursor), ("a😀", 0));
    press(&mut app, &[KeyCode::Backspace, KeyCode::Left, KeyCode::End, KeyCode::Delete]);
    assert_eq!((app.expression.as_str(), app.cursor), ("a😀", 5));
    press(&mut app, &[KeyCode::Up, KeyCode::PageDown, KeyCode::Other]);
    assert_eq!((app.expression.as_str(), app.cursor), ("a😀", 5));
}

#[test]
fn backspace_and_delete_undo_typing() {
    let mut app = app_with(Some("xé"), &[]);
    press(&mut app, &[KeyCode::Left, KeyCode::Char('€'), KeyCode::Backspace]);
    assert_eq!((app.expression.as_str(), app.cursor), ("xé", 1));
    press(&mut app, &[KeyCode::Char('€'), KeyCode::Left, KeyCode::Delete]);
    assert_eq!((app.expression.as_str(), app.cursor), ("xé", 1));
    press(&mut app, &[KeyCode::Left, KeyCode::Right]);
    assert_eq!(app.cursor, 1);
}

#[test]
fn edits_clear_messages_and_restart_the_wait() {
    let mut app = app_with(None, &[]);
    app.error = Some("e".to_string());
    app.status_message = Some("m".to_string());
    app.loading = false;
    app.handle_key(key(KeyCode::Char('p')), 50);
    assert_eq!(app.error, None);
    assert_eq!(app.status_message, None);
    assert!(app.loading);
    assert_eq!(app.pending_preview_at, Some(50 + DEBOUNCE));
    app.handle_key(key(KeyCode::Left), 60);
    assert_eq!(app.pending_preview_at, Some(50 + DEBOUNCE));
    app.handle_key(key(KeyCode::Delete), 70);
    assert_eq!(app.pending_preview_at, Some(70 + DEBOUNCE));
}

#[test]
fn control_characters_are_not_typed() {
    let mut app = app_with(None, &["f"]);
    app.handle_key(ctrl('a'), 0);
    assert_eq!(app.expression, "");
    assert!(!app.should_quit);
    for c in ['c', 'q'] {
        let mut app = app_with(None, &[]);
        app.handle_key(ctrl(c), 0);
        assert!(app.should_quit);
    }
    press(&mut app, &[KeyCode::Esc]);
    assert!(app.should_quit);
}

#[test]
fn tab_moves_the_focus() {
    let mut app = app_with(Some("p"), &[]);
    press(&mut app, &[KeyCode::Tab]);
    assert_eq!(app.focus, Focus::Diff);
    press(&mut app, &[KeyCode::Char('x'), KeyCode::Backspace]);
    assert_eq!(app.expression, "p");
    press(&mut app, &[KeyCode::Tab]);
    assert_eq!(app.focus, Focus::Expression);
}

#[test]
fn scrolling() {
    assert_eq!(PAGE, 20);
    let mut app = app_with(Some("p"), &[]);
    app.diff_lines = lines(50);
    press(&mut app, &[KeyCode::Tab, KeyCode::Up]);
    assert_eq!(app.scroll, 0);
    press(&mut app, &[KeyCode::Down, KeyCode::Char('j')]);
    assert_eq!(app.scroll, 2);
    press(&mut app, &[KeyCode::Char('k')]);
    assert_eq!(app.scroll, 1);
    press(&mut app, &[KeyCode::PageDown]);
    assert_eq!(app.scroll, 21);
    press(&mut app, &[KeyCode::PageDown, KeyCode::PageDown, KeyCode::Down]);
    assert_eq!(app.scroll, 49);
    press(&mut app, &[KeyCode::PageUp]);
    assert_eq!(app.scroll, 29);
    press(&mut app, &[KeyCode::PageUp, KeyCode::PageUp]);
    assert_eq!(app.scroll, 0);
    app.handle_key(ctrl('j'), 0);
    assert_eq!(app.scroll, 1);
    app.diff_lines = Vec::new();
    app.scroll = 0;
    press(&mut app, &[KeyCode::PageDown, KeyCode::Down]);
    assert_eq!(app.scroll, 0);
}

#[test]
fn pasting() {
    let mut app = app_with(Some("s///"), &[]);
    press(&mut app, &[KeyCode::Left, KeyCode::Left, KeyCode::Tab]);
    app.handle_paste("a/b\n".to_string(), 7);
    assert_eq!(app.expression, r"s/a\/b\n//");
    assert_eq!(app.cursor, 8);
    assert_eq!(app.focus, Focus::Expression);
    assert_eq!(app.pending_preview_at, Some(7 + DEBOUNCE));
    press(&mut app, &[KeyCode::Tab]);
    app.handle_paste("\r".to_string(), 9);
    assert_eq!(app.focus, Focus::Expression);
    assert_eq!(app.pending_preview_at, Some(7 + DEBOUNCE));
}

#[test]
fn saving_asks_first() {
    let mut app = app_with(Some("s/a/b/"), &["f", "g"]);
    app.error = Some("old".to_string());
    assert!(app.handle_key(ctrl('s'), 0).is_none());
    assert_eq!(app.mode, Mode::ConfirmApply);
    assert_eq!(app.error, None);
    app.handle_paste("x".to_string(), 0);
    assert!(app.handle_key(key(KeyCode::Char('x')), 0).is_none());
    assert!(app.handle_key(ctrl('c'), 0).is_none());
    assert_eq!(app.expression, "s/a/b/");
    assert!(!app.should_quit);
    match app.handle_key(key(KeyCode::Char('y')), 0) {
        Some(AppCommand::Send(WorkerRequest::Apply {
            generation,
            expression,
            files,
            backup_suffix,
        })) => {
            assert_eq!(generation, 1);
            assert_eq!(expression, "s/a/b/");
            assert_eq!(files, vec![FilePath::from_text("f"), FilePath::from_text("g")]);
            assert_eq!(backup_suffix, Some(".bak".to_string()));
        }
        other => panic!("{other:?}"),
    }
    assert_eq!(app.mode, Mode::Editing);
    assert_eq!(app.status_message, Some("applying…".to_string()));
    assert!(app.loading);
}

#[test]
fn saving_can_be_called_off() {
    for code in [KeyCode::Char('n'), KeyCode::Char('N'), KeyCode::Esc] {
        let mut app = app_with(Some("p"), &["f"]);
        app.handle_key(ctrl('s'), 0);
        assert!(app.handle_key(key(code), 0).is_none());
        assert_eq!(app.mode, Mode::Editing);
        assert_eq!(app.status_message, Some("apply cancelled".to_string()));
        assert!(!app.should_quit);
    }
}

#[test]
fn nothing_to_save() {
    let mut app = app_with(Some("p"), &[]);
    app.handle_key(ctrl('s'), 0);
    assert_eq!(app.error, Some("no files to apply".to_string()));
    assert_eq!(app.mode, Mode::Editing);
    let mut app = app_with(Some(" \t"), &["f"]);
    app.handle_key(ctrl('s'), 0);
    assert_eq!(app.error, Some("empty sed expression".to_string()));
    assert_eq!(app.mode, Mode::Editing);
}

#[test]
fn reports_are_shown() {
    let mut app = app_with(Some("p"), &["f"]);
    app.maybe_flush_debounce(DEBOUNCE);
    assert!(app.drain_worker(vec![ready(1, 30)]).is_empty());
    assert!(!app.loading);
    assert!(app.truncated);
    assert_eq!(app.diff_lines.len(), 30);
    assert_eq!((app.preview_changed, app.preview_shown, app.preview_scanned), (3, 2, 5));
    app.scroll = 25;
    app.drain_worker(vec![ready(1, 26)]);
    assert_eq!(app.scroll, 25);
    app.drain_worker(vec![ready(1, 10)]);
    assert_eq!(app.scroll, 9);
    app.drain_worker(vec![ready(1, 0)]);
    assert_eq!(app.scroll, 0);
}

#[test]
fn failed_preview_keeps_the_last_diff() {
    let mut app = app_with(Some("p"), &["f"]);
    app.maybe_flush_debounce(DEBOUNCE);
    app.drain_worker(vec![ready(1, 3), failed(1)]);
    assert_eq!(app.error, Some("bad".to_string()));
    assert_eq!(app.diff_lines.len(), 3);
    assert!(app.truncated);
    app.drain_worker(vec![ready(1, 4)]);
    assert_eq!(app.error, None);
    assert_eq!(app.diff_lines.len(), 4);
}

#[test]
fn stale_reports_are_passed_over() {
    let mut app = app_with(Some("p"), &["f"]);
    app.maybe_flush_debounce(DEBOUNCE);
    app.handle_key(key(KeyCode::Char('p')), DEBOUNCE);
    app.maybe_flush_debounce(2 * DEBOUNCE);
    assert_eq!(app.generation, 2);
    let stale = vec![
        ready(1, 3),
        failed(1),
        WorkerEvent::ApplyFinished { generation: 1, error: None },
    ];
    assert!(app.drain_worker(stale).is_empty());
    assert!(app.loading);
    assert!(app.diff_lines.is_empty());
    assert_eq!(app.error, None);
    assert_eq!(app.generation, 2);
}

#[test]
fn an_apply_is_followed_by_a_preview() {
    let mut app = app_with(Some("p"), &["f"]);
    app.handle_key(ctrl('s'), 0);
    app.handle_key(key(KeyCode::Char('Y')), 0);
    let commands =
        app.drain_worker(vec![WorkerEvent::ApplyFinished { generation: 1, error: None }]);
    assert_eq!(app.status_message, Some("applied".to_string()));
    assert!(app.loading);
    assert_eq!(commands.len(), 1);
    assert!(matches!(&commands[0], AppCommand::Preview { generation: 2, .. }));

    let mut app = app_with(Some("p"), &["f"]);
    app.handle_key(ctrl('s'), 0);
    app.handle_key(key(KeyCode::Char('Y')), 0);
    let error = Some("sed apply failed (1): x".to_string());
    let commands = app
        .drain_worker(vec![WorkerEvent::ApplyFinished { generation: 1, error: error.clone() }]);
    assert!(commands.is_empty());
    assert_eq!(app.error, error);
    assert_eq!(app.status_message, None);
    assert!(!app.loading);
}

#[test]
fn a_round_of_the_loop() {
    let mut app = app_with(Some("p"), &["f"]);
    app.handle_key(ctrl('s'), 0);
    app.handle_key(key(KeyCode::Char('y')), 0);
    let commands = app.event_loop(
        vec![WorkerEvent::ApplyFinished { generation: 1, error: None }],
        DEBOUNCE,
    );
    assert_eq!(commands.len(), 2);
    assert!(matches!(&commands[0], AppCommand::Preview { generation: 2, .. }));
    assert!(matches!(&commands[1], AppCommand::Preview { generation: 3, .. }));
    assert!(app.event_loop(Vec::new(), 2 * DEBOUNCE).is_empty());
}

#[test]
fn events_of_the_terminal() {
    let mut app = app_with(None, &[]);
    let released = TerminalEvent::Key { key: key(KeyCode::Char('a')), pressed: false };
    assert!(app.handle_event(released, 0).is_none());
    assert!(app.handle_event(TerminalEvent::Other, 0).is_none());
    assert_eq!(app.expression, "");
    let pressed = TerminalEvent::Key { key: key(KeyCode::Char('a')), pressed: true };
    app.handle_event(pressed, 0);
    app.handle_event(TerminalEvent::Paste("/".to_string()), 0);
    assert_eq!(app.expression, r"a\/");
}

#[test]
fn a_preview_from_end_to_end() {
    let mut app = app_with(Some("s/a/b/"), &["f"]);
    let command = app.maybe_flush_debounce(DEBOUNCE);
    let request = match command {
        Some(AppCommand::Preview { generation, expression, paths }) => {
            preview_request(generation, expression, paths, vec![Some(b"a\n".to_vec())]).unwrap()
        }
        other => panic!("{other:?}"),
    };
    let mut worker = Worker::new(app.sed_bin.clone());
    let mut last = WorkerAction::Receive;
    for input in [
        WorkerInput::Request(request),
        WorkerInput::Empty,
        WorkerInput::Empty,
        WorkerInput::Spawned,
        WorkerInput::Fed,
        WorkerInput::Empty,
        WorkerInput::Exited(SedExit {
            success: true,
            code: Some(0),
            stdout: b"b\n".to_vec(),
            stderr: Vec::new(),
        }),
    ] {
        last = worker.worker_loop(input);
    }
    match last {
        WorkerAction::Send(event) => assert!(app.drain_worker(vec![event]).is_empty()),
        other => panic!("{other:?}"),
    }
    let shown: Vec<&str> = app.diff_lines.iter().map(|l| l.spans[0].content.as_str()).collect();
    assert_eq!(shown, vec!["--- f", "+++ f", "@@ -1,1 +1,1 @@", "-a", "+b"]);
    assert!(!app.loading);
    assert_eq!(app.error, None);
}

#[test]
fn keys_that_leave_the_expression() {
    let mut app = app_with(Some("é"), &["f"]);
    app.error = Some("e".to_string());
    app.status_message = Some("m".to_string());
    let due = app.pending_preview_at;
    app.handle_expression_key(key(KeyCode::Delete), 9);
    app.handle_expression_key(ctrl('x'), 9);
    for code in [KeyCode::Left, KeyCode::Left, KeyCode::Backspace, KeyCode::Right, KeyCode::Home] {
        app.handle_expression_key(key(code), 9);
    }
    assert_eq!((app.expression.as_str(), app.cursor), ("é", 0));
    assert_eq!(app.error, Some("e".to_string()));
    assert_eq!(app.status_message, Some("m".to_string()));
    assert_eq!(app.pending_preview_at, due);
}

#[test]
fn keys_in_the_diff_leave_the_expression() {
    let mut app = app_with(Some("pé"), &["f"]);
    app.focus = Focus::Diff;
    app.diff_lines = lines(3);
    let due = app.pending_preview_at;
    for code in [
        KeyCode::Char('j'),
        KeyCode::Char('x'),
        KeyCode::Backspace,
        KeyCode::Left,
        KeyCode::Home,
        KeyCode::PageDown,
    ] {
        app.handle_editing_key(key(code), 9);
    }
    assert_eq!((app.expression.as_str(), app.cursor, app.scroll), ("pé", 3, 2));
    assert_eq!(app.pending_preview_at, due);
}
