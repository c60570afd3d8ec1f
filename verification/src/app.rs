//! The state of the program on the screen, and what keys, pastes, reports and time do to it.
use vstd::prelude::*;
use vstd::utf8::encode_utf8;

use crate::cli::Args;
use crate::cursor::{
    at_boundary, byte_len, chars_before, lemma_boundary_is_offset, lemma_chars_before_offset,
    lemma_next, lemma_offset_at_boundary, lemma_prev, next_char_boundary, prev_char_boundary,
    split_text,
};
use crate::escape::{escape_sed_paste, escaped};
use crate::path::{clone_paths, path_views, FilePath};
use crate::preview::{preview_paths, shown_files};
use crate::styled::{line_views, Line, LineView};
use crate::text::{blank, copy_opt, is_blank, opt_text, text};
use crate::worker::{EventView, RequestView, WorkerEvent, WorkerRequest};

verus! {

/// How long the expression has to rest before a preview is asked for, in nanoseconds.
pub const DEBOUNCE: u64 = 120_000_000;

/// How long to wait for a key before the screen is drawn again, in nanoseconds.
pub const POLL: u64 = 16_000_000;

/// How many lines a page of the diff has.
pub const PAGE: usize = 20;

/// Which part of the screen takes the keys.
#[derive(Debug, Clone, Copy, PartialEq, Eq, Structural)]
pub enum Focus {
    Expression,
    Diff,
}

/// What the keys do.
#[derive(Debug, Clone, Copy, PartialEq, Eq, Structural)]
pub enum Mode {
    Editing,
    ConfirmApply,
}

/// A key.
#[derive(Debug, Clone, Copy, PartialEq, Eq, Structural)]
pub enum KeyCode {
    Char(char),
    Esc,
    Tab,
    Up,
    Down,
    PageUp,
    PageDown,
    Backspace,
    Delete,
    Left,
    Right,
    Home,
    End,
    Other,
}

/// A key, and whether the control key was held.
#[derive(Debug, Clone, Copy, PartialEq, Eq, Structural)]
pub struct KeyEvent {
    pub code: KeyCode,
    pub control: bool,
}

/// What the terminal tells.
#[derive(Debug)]
pub enum TerminalEvent {
    /// A key was pressed, or was let go or repeated.
    Key { key: KeyEvent, pressed: bool },
    Paste(String),
    Other,
}

/// What the program wants done.
#[derive(Debug)]
pub enum AppCommand {
    /// Read these files, and make a preview request of what they hold.
    Preview { generation: u64, expression: String, paths: Vec<FilePath> },
    /// Hand this to the worker.
    Send(WorkerRequest),
}

/// The model of [`AppCommand`].
#[verifier::ext_equal]
pub enum CommandView {
    Preview { generation: u64, expression: Seq<char>, paths: Seq<Seq<u8>> },
    Send(RequestView),
}

impl View for AppCommand {
    type V = CommandView;

    open spec fn view(&self) -> CommandView {
        match self {
            AppCommand::Preview { generation, expression, paths } => CommandView::Preview {
                generation: *generation,
                expression: expression@,
                paths: path_views(paths@),
            },
            AppCommand::Send(r) => CommandView::Send(r@),
        }
    }
}

/// The view of an optional command.
pub open spec fn opt_command(c: Option<AppCommand>) -> Option<CommandView> {
    match c {
        Some(c) => Some(c@),
        None => None,
    }
}

/// The views of commands in a row.
pub open spec fn command_views(v: Seq<AppCommand>) -> Seq<CommandView> {
    v.map_values(|c: AppCommand| c@)
}

/// The state of the program.
#[derive(Debug)]
pub struct App {
    pub expression: String,
    pub cursor: usize,
    pub focus: Focus,
    pub mode: Mode,
    pub files: Vec<FilePath>,
    pub sed_bin: FilePath,
    /// `Some("")` means `-i` with no backup; `None` also means no backup suffix (same apply).
    pub backup_suffix: Option<String>,
    pub diff_lines: Vec<Line>,
    pub scroll: usize,
    pub loading: bool,
    pub truncated: bool,
    pub preview_changed: usize,
    pub preview_shown: usize,
    pub preview_scanned: usize,
    pub error: Option<String>,
    pub status_message: Option<String>,
    pub generation: u64,
    pub pending_preview_at: Option<u64>,
    pub should_quit: bool,
}

/// The model of [`App`]. The expression stands in two parts, before and after the cursor. A
/// cursor beyond the end counts as one at the end.
#[verifier::ext_equal]
pub struct AppView {
    pub before: Seq<char>,
    pub after: Seq<char>,
    pub focus: Focus,
    pub mode: Mode,
    pub files: Seq<Seq<u8>>,
    pub sed_bin: Seq<u8>,
    pub backup_suffix: Option<Seq<char>>,
    pub diff_lines: Seq<LineView>,
    pub scroll: nat,
    pub loading: bool,
    pub truncated: bool,
    pub preview_changed: nat,
    pub preview_shown: nat,
    pub preview_scanned: nat,
    pub error: Option<Seq<char>>,
    pub status_message: Option<Seq<char>>,
    pub generation: u64,
    pub pending_preview_at: Option<u64>,
    pub should_quit: bool,
}

impl View for App {
    type V = AppView;

    open spec fn view(&self) -> AppView {
        AppView {
            before: self.expression@.take(chars_before(self.expression@, self.place()) as int),
            after: self.expression@.skip(chars_before(self.expression@, self.place()) as int),
            focus: self.focus,
            mode: self.mode,
            files: path_views(self.files@),
            sed_bin: self.sed_bin@,
            backup_suffix: opt_text(self.backup_suffix),
            diff_lines: line_views(self.diff_lines@),
            scroll: self.scroll as nat,
            loading: self.loading,
            truncated: self.truncated,
            preview_changed: self.preview_changed as nat,
            preview_shown: self.preview_shown as nat,
            preview_scanned: self.preview_scanned as nat,
            error: opt_text(self.error),
            status_message: opt_text(self.status_message),
            generation: self.generation,
            pending_preview_at: self.pending_preview_at,
            should_quit: self.should_quit,
        }
    }
}

/// The last line that the diff can be scrolled to.
pub open spec fn last_line(lines: Seq<LineView>) -> nat {
    if lines.len() == 0 {
        0
    } else {
        (lines.len() - 1) as nat
    }
}

impl AppView {
    /// The whole expression.
    pub open spec fn expression(self) -> Seq<char> {
        self.before + self.after
    }

    /// The scroll position lies in the diff, and an apply is confirmed only where there is
    /// something to apply.
    pub open spec fn wf(self) -> bool {
        &&& self.scroll <= last_line(self.diff_lines)
        &&& self.mode == Mode::ConfirmApply ==> self.files.len() > 0 && !blank(self.expression())
    }

    /// A preview is due once the expression has rested.
    pub open spec fn scheduled(self, now: u64) -> AppView {
        AppView { pending_preview_at: Some((now + DEBOUNCE) as u64), loading: true, ..self }
    }

    /// The expression is now `before` and `after`, with the cursor between them.
    pub open spec fn edited(self, before: Seq<char>, after: Seq<char>, now: u64) -> AppView {
        AppView { before, after, error: None, status_message: None, ..self }.scheduled(now)
    }

    /// A preview is asked for.
    pub open spec fn requesting(self) -> (AppView, CommandView) {
        let generation = (self.generation + 1) as u64;
        (
            AppView { generation, loading: true, ..self },
            CommandView::Preview {
                generation,
                expression: self.expression(),
                paths: shown_files(self.files),
            },
        )
    }

    /// An apply is asked for.
    pub open spec fn applying(self) -> (AppView, CommandView) {
        let generation = (self.generation + 1) as u64;
        (
            AppView {
                generation,
                loading: true,
                status_message: Some("applying…"@),
                ..self
            },
            CommandView::Send(
                RequestView::Apply {
                    generation,
                    expression: self.expression(),
                    files: self.files,
                    backup_suffix: self.backup_suffix,
                },
            ),
        )
    }

    /// A key in the expression.
    pub open spec fn expression_key(self, key: KeyEvent, now: u64) -> AppView {
        match key.code {
            KeyCode::Char(c) => if key.control {
                self
            } else {
                self.edited(self.before.push(c), self.after, now)
            },
            KeyCode::Backspace => if self.before.len() > 0 {
                self.edited(self.before.drop_last(), self.after, now)
            } else {
                self
            },
            KeyCode::Delete => if self.after.len() > 0 {
                self.edited(self.before, self.after.skip(1), now)
            } else {
                self
            },
            KeyCode::Left => if self.before.len() > 0 {
                AppView {
                    before: self.before.drop_last(),
                    after: seq![self.before.last()] + self.after,
                    ..self
                }
            } else {
                self
            },
            KeyCode::Right => if self.after.len() > 0 {
                AppView {
                    before: self.before.push(self.after[0]),
                    after: self.after.skip(1),
                    ..self
                }
            } else {
                self
            },
            KeyCode::Home => AppView { before: seq![], after: self.expression(), ..self },
            KeyCode::End => AppView { before: self.expression(), after: seq![], ..self },
            _ => self,
        }
    }

    /// A key in the diff.
    pub open spec fn diff_key(self, code: KeyCode) -> AppView {
        let last = last_line(self.diff_lines);
        let scroll = match code {
            KeyCode::Up | KeyCode::Char('k') => if self.scroll > 0 {
                (self.scroll - 1) as nat
            } else {
                0
            },
            KeyCode::Down | KeyCode::Char('j') => if self.scroll < last {
                self.scroll + 1
            } else {
                self.scroll
            },
            KeyCode::PageUp => if self.scroll > PAGE {
                (self.scroll - PAGE) as nat
            } else {
                0
            },
            KeyCode::PageDown => if self.scroll + PAGE < last {
                (self.scroll + PAGE) as nat
            } else {
                last
            },
            _ => self.scroll,
        };
        AppView { scroll, ..self }
    }

    /// Ctrl+S: an apply is to be confirmed, or it is told why there is nothing to apply.
    pub open spec fn saving(self) -> AppView {
        if self.files.len() == 0 {
            AppView { error: Some("no files to apply"@), ..self }
        } else if blank(self.expression()) {
            AppView { error: Some("empty sed expression"@), ..self }
        } else {
            AppView { error: None, status_message: None, mode: Mode::ConfirmApply, ..self }
        }
    }

    /// A key while the expression is edited.
    pub open spec fn editing_key(self, key: KeyEvent, now: u64) -> AppView {
        if key.control && (key.code == KeyCode::Char('c') || key.code == KeyCode::Char('q')) {
            AppView { should_quit: true, ..self }
        } else if key.control && key.code == KeyCode::Char('s') {
            self.saving()
        } else if key.code == KeyCode::Esc {
            AppView { should_quit: true, ..self }
        } else if key.code == KeyCode::Tab {
            AppView {
                focus: match self.focus {
                    Focus::Expression => Focus::Diff,
                    Focus::Diff => Focus::Expression,
                },
                ..self
            }
        } else {
            match self.focus {
                Focus::Expression => self.expression_key(key, now),
                Focus::Diff => self.diff_key(key.code),
            }
        }
    }

    /// A key while an apply is to be confirmed.
    pub open spec fn confirm_key(self, key: KeyEvent) -> (AppView, Option<CommandView>) {
        match key.code {
            KeyCode::Char('y') | KeyCode::Char('Y') => {
                let (next, command) = AppView { mode: Mode::Editing, ..self }.applying();
                (next, Some(command))
            },
            KeyCode::Char('n') | KeyCode::Char('N') | KeyCode::Esc => (
                AppView {
                    mode: Mode::Editing,
                    status_message: Some("apply cancelled"@),
                    ..self
                },
                None,
            ),
            _ => (self, None),
        }
    }

    /// A key.
    pub open spec fn keyed(self, key: KeyEvent, now: u64) -> (AppView, Option<CommandView>) {
        match self.mode {
            Mode::ConfirmApply => self.confirm_key(key),
            Mode::Editing => (self.editing_key(key, now), None),
        }
    }

    /// A paste: it goes into the expression, escaped, whatever has the focus.
    pub open spec fn pasted(self, pasted: Seq<char>, now: u64) -> AppView {
        if self.mode != Mode::Editing {
            self
        } else {
            let there = AppView { focus: Focus::Expression, ..self };
            if escaped(pasted).len() == 0 {
                there
            } else {
                there.edited(self.before + escaped(pasted), self.after, now)
            }
        }
    }

    /// Time passes: a preview that is due is asked for.
    pub open spec fn flushed(self, now: u64) -> (AppView, Option<CommandView>) {
        match self.pending_preview_at {
            Some(at) if now >= at => {
                let (next, command) = AppView { pending_preview_at: None, ..self }.requesting();
                (next, Some(command))
            },
            _ => (self, None),
        }
    }

    /// A report of the worker. One that answers an earlier request is passed over.
    pub open spec fn received(self, event: EventView) -> (AppView, Option<CommandView>) {
        match event {
            EventView::PreviewReady {
                generation,
                lines,
                truncated,
                changed,
                shown,
                scanned,
                done,
                error,
            } => if generation != self.generation {
                (self, None)
            } else if error is Some {
                (AppView { loading: !done, error, ..self }, None)
            } else {
                (
                    AppView {
                        loading: !done,
                        error: None,
                        diff_lines: lines,
                        truncated,
                        preview_changed: changed,
                        preview_shown: shown,
                        preview_scanned: scanned,
                        scroll: if self.scroll >= lines.len() {
                            last_line(lines)
                        } else {
                            self.scroll
                        },
                        ..self
                    },
                    None,
                )
            },
            EventView::ApplyFinished { generation, error } => if generation != self.generation {
                (self, None)
            } else if error is Some {
                (AppView { loading: false, error, status_message: None, ..self }, None)
            } else {
                let (next, command) = AppView {
                    loading: false,
                    error: None,
                    status_message: Some("applied"@),
                    ..self
                }.requesting();
                (next, Some(command))
            },
        }
    }

    /// Reports of the worker, one after the other.
    pub open spec fn drained(self, events: Seq<EventView>) -> (AppView, Seq<CommandView>)
        decreases events.len(),
    {
        if events.len() == 0 {
            (self, seq![])
        } else {
            let (before, commands) = self.drained(events.drop_last());
            let (next, command) = before.received(events.last());
            (next, with_command(commands, command))
        }
    }
}

/// Commands with one more, if there is one.
pub open spec fn with_command(commands: Seq<CommandView>, command: Option<CommandView>) -> Seq<
    CommandView,
> {
    match command {
        Some(c) => commands.push(c),
        None => commands,
    }
}

/// The views of reports in a row.
pub open spec fn event_views(v: Seq<WorkerEvent>) -> Seq<EventView> {
    v.map_values(|e: WorkerEvent| e@)
}

/// The state at the start.
pub open spec fn new_app(
    expression: Option<Seq<char>>,
    backup_suffix: Option<Seq<char>>,
    sed_bin: Seq<u8>,
    files: Seq<Seq<u8>>,
    now: u64,
) -> AppView {
    AppView {
        before: match expression {
            Some(e) => e,
            None => seq![],
        },
        after: seq![],
        focus: Focus::Expression,
        mode: Mode::Editing,
        files,
        sed_bin,
        backup_suffix,
        diff_lines: seq![],
        scroll: 0,
        loading: false,
        truncated: false,
        preview_changed: 0,
        preview_shown: 0,
        preview_scanned: 0,
        error: None,
        status_message: None,
        generation: 0,
        pending_preview_at: None,
        should_quit: false,
    }.scheduled(now)
}

proof fn lemma_at(s: Seq<char>, before: Seq<char>, after: Seq<char>, cursor: int)
    requires
        s == before + after,
        cursor == encode_utf8(before).len(),
    ensures
        at_boundary(s, cursor),
        cursor <= encode_utf8(s).len(),
        s.take(chars_before(s, cursor) as int) == before,
        s.skip(chars_before(s, cursor) as int) == after,
{
    assert(s.take(before.len() as int) == before);
    assert(s.skip(before.len() as int) == after);
    lemma_offset_at_boundary(s, before.len() as int);
    lemma_chars_before_offset(s, before.len() as int);
}

impl App {
    /// Where the cursor counts: at the end where it lies beyond it.
    pub open spec fn place(self) -> int {
        if self.cursor <= encode_utf8(self.expression@).len() {
            self.cursor as int
        } else {
            encode_utf8(self.expression@).len() as int
        }
    }

    /// The cursor does not lie within a character, so that the screen can be drawn.
    pub open spec fn drawable(self) -> bool {
        at_boundary(self.expression@, self.place())
    }

    /// The cursor lies between two characters of the expression, or at one of its ends.
    pub open spec fn placed(self) -> bool {
        at_boundary(self.expression@, self.cursor as int)
    }

    /// The cursor is in its place, and the rest is in order.
    pub open spec fn wf(self) -> bool {
        &&& self.placed()
        &&& self@.wf()
    }

    /// The expression and the cursor, from the parts of the model.
    pub proof fn lemma_expression(self)
        requires
            self.placed(),
        ensures
            self.place() == self.cursor,
            self.drawable(),
            self.expression@ == self@.expression(),
            self.cursor == encode_utf8(self@.before).len(),
            encode_utf8(self.expression@).len() == self.cursor + encode_utf8(self@.after).len(),
            self@.before.len() > 0 <==> self.cursor > 0,
            self@.after.len() > 0 <==> self.cursor < encode_utf8(self.expression@).len(),
    {
        lemma_boundary_is_offset(self.expression@, self.cursor as int);
        let k = chars_before(self.expression@, self.cursor as int) as int;
        assert(self.expression@ == self@.before + self@.after);
        crate::cursor::lemma_encode_concat(self@.before, self@.after);
    }

    /// The state at the start, with what was found of the sed binary and of the files.
    pub fn new(args: Args, sed_bin: FilePath, files: Vec<FilePath>, now: u64) -> (app: App)
        requires
            now + DEBOUNCE <= u64::MAX,
        ensures
            app.wf(),
            app@ == new_app(
                opt_text(args.expression),
                opt_text(args.in_place),
                sed_bin@,
                path_views(files@),
                now,
            ),
    {
        let expression = match args.expression {
            Some(e) => e,
            None => String::new(),
        };
        let cursor: usize = byte_len(expression.as_str());
        let diff_lines: Vec<Line> = Vec::new();
        assert(line_views(diff_lines@) == Seq::<LineView>::empty());
        proof {
            lemma_at(expression@, expression@, seq![], cursor as int);
        }
        let mut app = App {
            expression,
            cursor,
            focus: Focus::Expression,
            mode: Mode::Editing,
            files,
            sed_bin,
            backup_suffix: args.in_place,
            diff_lines,
            scroll: 0,
            loading: false,
            truncated: false,
            preview_changed: 0,
            preview_shown: 0,
            preview_scanned: 0,
            error: None,
            status_message: None,
            generation: 0,
            pending_preview_at: None,
            should_quit: false,
        };
        app.schedule_preview(now);
        app
    }

    fn schedule_preview(&mut self, now: u64)
        requires
            old(self).placed(),
            now + DEBOUNCE <= u64::MAX,
        ensures
            final(self).placed(),
            old(self).wf() ==> final(self).wf(),
            final(self)@ == old(self)@.scheduled(now),
    {
        self.pending_preview_at = Some(now + DEBOUNCE);
        self.loading = true;
    }

    fn on_expression_changed(&mut self, now: u64)
        requires
            old(self).placed(),
            now + DEBOUNCE <= u64::MAX,
        ensures
            final(self).placed(),
            old(self).wf() ==> final(self).wf(),
            final(self)@ == old(self)@.edited(old(self)@.before, old(self)@.after, now),
    {
        self.error = None;
        self.status_message = None;
        self.schedule_preview(now);
    }

    /// Takes a key in the expression.
    pub fn handle_expression_key(&mut self, key: KeyEvent, now: u64)
        requires
            old(self).placed(),
            now + DEBOUNCE <= u64::MAX,
        ensures
            final(self).placed(),
            old(self).wf() && old(self)@.mode == Mode::Editing ==> final(self).wf(),
            final(self)@ == old(self)@.expression_key(key, now),
    {
        let ghost was = self@;
        let ghost s = self.expression@;
        let ghost k = was.before.len() as int;
        proof {
            self.lemma_expression();
            lemma_boundary_is_offset(s, self.cursor as int);
            assert(s.take(k) == was.before);
        }
        match key.code {
            KeyCode::Char(c) => {
                if !key.control {
                    let (before, after) = split_text(self.expression.as_str(), self.cursor);
                    let mut e = text(before);
                    e.push(c);
                    let cursor: usize = byte_len(e.as_str());
                    e.append(after);
                    proof {
                        lemma_at(e@, was.before.push(c), was.after, cursor as int);
                    }
                    self.expression = e;
                    self.cursor = cursor;
                    self.on_expression_changed(now);
                }
            },
            KeyCode::Backspace => {
                if self.cursor > 0 {
                    let prev: usize = prev_char_boundary(self.expression.as_str(), self.cursor);
                    proof {
                        lemma_prev(s, k, prev as int);
                        assert(s.take(k - 1) == was.before.drop_last());
                    }
                    let (before, _) = split_text(self.expression.as_str(), prev);
                    let (_, after) = split_text(self.expression.as_str(), self.cursor);
                    let mut e = text(before);
                    e.append(after);
                    proof {
                        lemma_at(e@, was.before.drop_last(), was.after, prev as int);
                    }
                    self.expression = e;
                    self.cursor = prev;
                    self.on_expression_changed(now);
                }
            },
            KeyCode::Delete => {
                if self.cursor < byte_len(self.expression.as_str()) {
                    let next: usize = next_char_boundary(self.expression.as_str(), self.cursor);
                    proof {
                        lemma_next(s, k, next as int);
                        assert(s.skip(k + 1) == was.after.skip(1));
                    }
                    let (before, _) = split_text(self.expression.as_str(), self.cursor);
                    let (_, after) = split_text(self.expression.as_str(), next);
                    let mut e = text(before);
                    e.append(after);
                    proof {
                        lemma_at(e@, was.before, was.after.skip(1), self.cursor as int);
                    }
                    self.expression = e;
                    self.on_expression_changed(now);
                }
            },
            KeyCode::Left => {
                if self.cursor > 0 {
                    let prev: usize = prev_char_boundary(self.expression.as_str(), self.cursor);
                    proof {
                        lemma_prev(s, k, prev as int);
                        assert(s.take(k - 1) == was.before.drop_last());
                        assert(s.skip(k - 1) == seq![was.before.last()] + was.after);
                    }
                    self.cursor = prev;
                }
            },
            KeyCode::Right => {
                if self.cursor < byte_len(self.expression.as_str()) {
                    let next: usize = next_char_boundary(self.expression.as_str(), self.cursor);
                    proof {
                        lemma_next(s, k, next as int);
                        lemma_boundary_is_offset(s, next as int);
                        assert(s.take(k + 1) == was.before.push(was.after[0]));
                        assert(s.skip(k + 1) == was.after.skip(1));
                    }
                    self.cursor = next;
                }
            },
            KeyCode::Home => {
                proof {
                    lemma_at(s, seq![], s, 0);
                }
                self.cursor = 0;
            },
            KeyCode::End => {
                let cursor: usize = byte_len(self.expression.as_str());
                proof {
                    lemma_at(s, s, seq![], cursor as int);
                }
                self.cursor = cursor;
            },
            _ => {},
        }
    }

    /// Takes a key while the expression is edited.
    pub fn handle_editing_key(&mut self, key: KeyEvent, now: u64)
        requires
            old(self).placed(),
            now + DEBOUNCE <= u64::MAX,
        ensures
            final(self).placed(),
            old(self).wf() && old(self)@.mode == Mode::Editing ==> final(self).wf(),
            final(self)@ == old(self)@.editing_key(key, now),
    {
        proof {
            self.lemma_expression();
        }
        if key.control {
            match key.code {
                KeyCode::Char('c') | KeyCode::Char('q') => {
                    self.should_quit = true;
                    return ;
                },
                KeyCode::Char('s') => {
                    if self.files.len() == 0 {
                        self.error = Some(text("no files to apply"));
                    } else if is_blank(self.expression.as_str()) {
                        self.error = Some(text("empty sed expression"));
                    } else {
                        self.error = None;
                        self.status_message = None;
                        self.mode = Mode::ConfirmApply;
                    }
                    return ;
                },
                _ => {},
            }
        }
        match key.code {
            KeyCode::Esc => {
                self.should_quit = true;
            },
            KeyCode::Tab => {
                self.focus = match self.focus {
                    Focus::Expression => Focus::Diff,
                    Focus::Diff => Focus::Expression,
                };
            },
            _ => match self.focus {
                Focus::Expression => self.handle_expression_key(key, now),
                Focus::Diff => self.handle_diff_key(key.code),
            },
        }
    }

    /// Takes a key in the diff.
    fn handle_diff_key(&mut self, code: KeyCode)
        requires
            old(self).placed(),
        ensures
            final(self).placed(),
            old(self).wf() ==> final(self).wf(),
            final(self)@ == old(self)@.diff_key(code),
    {
        let n: usize = self.diff_lines.len();
        let last: usize = if n == 0 {
            0
        } else {
            n - 1
        };
        match code {
            KeyCode::Up | KeyCode::Char('k') => {
                self.scroll = self.scroll.saturating_sub(1);
            },
            KeyCode::Down | KeyCode::Char('j') => {
                if self.scroll < last {
                    self.scroll = self.scroll + 1;
                }
            },
            KeyCode::PageUp => {
                self.scroll = self.scroll.saturating_sub(PAGE);
            },
            KeyCode::PageDown => {
                self.scroll = if self.scroll < last && last - self.scroll > PAGE {
                    self.scroll + PAGE
                } else {
                    last
                };
            },
            _ => {},
        }
    }

    /// Takes a key while an apply is to be confirmed.
    pub fn handle_confirm_key(&mut self, key: KeyEvent) -> (command: Option<AppCommand>)
        requires
            old(self).placed(),
            old(self)@.generation < u64::MAX,
        ensures
            final(self).placed(),
            old(self).wf() ==> final(self).wf(),
            (final(self)@, opt_command(command)) == old(self)@.confirm_key(key),
    {
        match key.code {
            KeyCode::Char('y') | KeyCode::Char('Y') => {
                self.mode = Mode::Editing;
                Some(self.request_apply())
            },
            KeyCode::Char('n') | KeyCode::Char('N') | KeyCode::Esc => {
                self.mode = Mode::Editing;
                self.status_message = Some(text("apply cancelled"));
                None
            },
            _ => None,
        }
    }

    /// Takes a key.
    pub fn handle_key(&mut self, key: KeyEvent, now: u64) -> (command: Option<AppCommand>)
        requires
            old(self).placed(),
            old(self)@.mode == Mode::ConfirmApply ==> old(self)@.generation < u64::MAX,
            now + DEBOUNCE <= u64::MAX,
        ensures
            final(self).placed(),
            old(self).wf() ==> final(self).wf(),
            (final(self)@, opt_command(command)) == old(self)@.keyed(key, now),
    {
        match self.mode {
            Mode::ConfirmApply => self.handle_confirm_key(key),
            Mode::Editing => {
                self.handle_editing_key(key, now);
                None
            },
        }
    }

    /// Takes a paste.
    pub fn handle_paste(&mut self, pasted: String, now: u64)
        requires
            old(self).placed(),
            now + DEBOUNCE <= u64::MAX,
        ensures
            final(self).placed(),
            old(self).wf() ==> final(self).wf(),
            final(self)@ == old(self)@.pasted(pasted@, now),
    {
        let ghost was = self@;
        proof {
            self.lemma_expression();
        }
        if self.mode != Mode::Editing {
            return ;
        }
        self.focus = Focus::Expression;
        let more = escape_sed_paste(pasted.as_str());
        if more.as_str().is_empty() {
            return ;
        }
        let (before, after) = split_text(self.expression.as_str(), self.cursor);
        let mut e = text(before);
        e.append(more.as_str());
        let cursor: usize = byte_len(e.as_str());
        e.append(after);
        proof {
            lemma_at(e@, was.before + escaped(pasted@), was.after, cursor as int);
        }
        self.expression = e;
        self.cursor = cursor;
        self.on_expression_changed(now);
    }

    /// Takes what the terminal tells: keys that are pressed, and pastes.
    pub fn handle_event(&mut self, event: TerminalEvent, now: u64) -> (command: Option<AppCommand>)
        requires
            old(self).placed(),
            old(self)@.mode == Mode::ConfirmApply ==> old(self)@.generation < u64::MAX,
            now + DEBOUNCE <= u64::MAX,
        ensures
            final(self).placed(),
            old(self).wf() ==> final(self).wf(),
            (final(self)@, opt_command(command)) == match event {
                TerminalEvent::Key { key, pressed } => if pressed {
                    old(self)@.keyed(key, now)
                } else {
                    (old(self)@, None)
                },
                TerminalEvent::Paste(pasted) => (old(self)@.pasted(pasted@, now), None),
                TerminalEvent::Other => (old(self)@, None),
            },
    {
        match event {
            TerminalEvent::Key { key, pressed } => {
                if pressed {
                    self.handle_key(key, now)
                } else {
                    None
                }
            },
            TerminalEvent::Paste(pasted) => {
                self.handle_paste(pasted, now);
                None
            },
            TerminalEvent::Other => None,
        }
    }

    /// Asks for a preview where one is due.
    pub fn maybe_flush_debounce(&mut self, now: u64) -> (command: Option<AppCommand>)
        requires
            old(self).placed(),
            old(self)@.generation < u64::MAX,
        ensures
            final(self).placed(),
            old(self).wf() ==> final(self).wf(),
            (final(self)@, opt_command(command)) == old(self)@.flushed(now),
    {
        match self.pending_preview_at {
            Some(at) => {
                if now < at {
                    return None;
                }
                self.pending_preview_at = None;
                Some(self.request_preview())
            },
            None => None,
        }
    }

    /// Asks for a preview.
    fn request_preview(&mut self) -> (command: AppCommand)
        requires
            old(self).placed(),
            old(self)@.generation < u64::MAX,
        ensures
            final(self).placed(),
            old(self).wf() ==> final(self).wf(),
            (final(self)@, command@) == old(self)@.requesting(),
    {
        proof {
            self.lemma_expression();
        }
        self.generation = self.generation + 1;
        self.loading = true;
        AppCommand::Preview {
            generation: self.generation,
            expression: self.expression.clone(),
            paths: preview_paths(&self.files),
        }
    }

    /// Asks for an apply.
    fn request_apply(&mut self) -> (command: AppCommand)
        requires
            old(self).placed(),
            old(self)@.generation < u64::MAX,
        ensures
            final(self).placed(),
            old(self).wf() ==> final(self).wf(),
            (final(self)@, command@) == old(self)@.applying(),
    {
        proof {
            self.lemma_expression();
        }
        self.generation = self.generation + 1;
        self.loading = true;
        self.status_message = Some(text("applying…"));
        AppCommand::Send(
            WorkerRequest::Apply {
                generation: self.generation,
                expression: self.expression.clone(),
                files: clone_paths(&self.files),
                backup_suffix: copy_opt(&self.backup_suffix),
            },
        )
    }

    /// Takes a report of the worker.
    fn receive(&mut self, event: WorkerEvent) -> (command: Option<AppCommand>)
        requires
            old(self).placed(),
            old(self)@.generation < u64::MAX,
        ensures
            final(self).placed(),
            old(self).wf() ==> final(self).wf(),
            (final(self)@, opt_command(command)) == old(self)@.received(event@),
    {
        match event {
            WorkerEvent::PreviewReady {
                generation,
                lines,
                truncated,
                changed,
                shown,
                scanned,
                done,
                error,
            } => {
                if generation != self.generation {
                    return None;
                }
                self.loading = !done;
                match error {
                    Some(e) => {
                        self.error = Some(e);
                    },
                    None => {
                        let n: usize = lines.len();
                        self.error = None;
                        self.diff_lines = lines;
                        self.truncated = truncated;
                        self.preview_changed = changed;
                        self.preview_shown = shown;
                        self.preview_scanned = scanned;
                        if self.scroll >= n {
                            self.scroll = n.saturating_sub(1);
                        }
                    },
                }
                None
            },
            WorkerEvent::ApplyFinished { generation, error } => {
                if generation != self.generation {
                    return None;
                }
                self.loading = false;
                match error {
                    Some(e) => {
                        self.error = Some(e);
                        self.status_message = None;
                        None
                    },
                    None => {
                        self.error = None;
                        self.status_message = Some(text("applied"));
                        Some(self.request_preview())
                    },
                }
            },
        }
    }

    /// Takes the reports of the worker, in order.
    pub fn drain_worker(&mut self, events: Vec<WorkerEvent>) -> (commands: Vec<AppCommand>)
        requires
            old(self).placed(),
            old(self)@.generation + events@.len() <= u64::MAX,
        ensures
            final(self).placed(),
            old(self).wf() ==> final(self).wf(),
            final(self)@.generation <= old(self)@.generation + events@.len(),
            (final(self)@, command_views(commands@)) == old(self)@.drained(event_views(events@)),
    {
        let ghost started = *self;
        let ghost was = self@;
        let ghost all = event_views(events@);
        let mut commands: Vec<AppCommand> = Vec::new();
        let mut rest = events;
        let n: usize = rest.len();
        let mut k: usize = 0;
        assert(command_views(commands@) == Seq::<CommandView>::empty());
        assert(all.take(0) == Seq::<EventView>::empty());
        assert(all.skip(0) == all);
        while k < n
            invariant
                k <= n == all.len(),
                self.placed(),
                started.wf() ==> self.wf(),
                was.generation + n <= u64::MAX,
                self@.generation <= was.generation + k,
                event_views(rest@) == all.skip(k as int),
                (self@, command_views(commands@)) == was.drained(all.take(k as int)),
            decreases n - k,
        {
            assert(event_views(rest@).len() == rest@.len());
            assert(event_views(rest@)[0] == all[k as int]);
            assert(event_views(rest@.remove(0)) == all.skip(k + 1)) by {
                assert(event_views(rest@.remove(0)) == event_views(rest@).skip(1));
            }
            let event = rest.remove(0);
            assert(event@ == all[k as int]);
            assert(all.take(k + 1).drop_last() == all.take(k as int));
            let ghost before = command_views(commands@);
            match self.receive(event) {
                Some(c) => {
                    commands.push(c);
                    assert(command_views(commands@) == before.push(c@));
                },
                None => {},
            }
            k = k + 1;
        }
        assert(all.take(n as int) == all);
        commands
    }

    /// One round between two drawings of the screen: takes the reports of the worker and asks
    /// for a preview where one is due. Whether to go on is told by `should_quit`.
    pub fn event_loop(&mut self, events: Vec<WorkerEvent>, now: u64) -> (commands: Vec<AppCommand>)
        requires
            old(self).placed(),
            old(self)@.generation + events@.len() < u64::MAX,
        ensures
            final(self).placed(),
            old(self).wf() ==> final(self).wf(),
            ({
                let (drained, first) = old(self)@.drained(event_views(events@));
                let (flushed, then_command) = drained.flushed(now);
                &&& final(self)@ == flushed
                &&& command_views(commands@) == with_command(first, then_command)
            }),
    {
        let mut commands = self.drain_worker(events);
        let ghost before = command_views(commands@);
        match self.maybe_flush_debounce(now) {
            Some(c) => {
                commands.push(c);
                assert(command_views(commands@) == before.push(c@));
            },
            None => {},
        }
        commands
    }
}

} // verus!
