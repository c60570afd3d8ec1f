//! What every key, paste, report and moment does to the program.
use vstd::prelude::*;
use vstd::utf8::encode_utf8;

use crate::app::{
    command_views, event_views, new_app, opt_command, App, AppCommand, AppView, CommandView, Focus,
    KeyCode, KeyEvent, Mode,
};
use crate::cursor::{
    at_boundary, chars_before, lemma_boundary_is_offset, lemma_encode_concat,
    lemma_offset_at_boundary,
};
use crate::escape::{escaped, escaped_char};
use crate::path::path_views;
use crate::styled::{line_views, LineView};
use crate::text::{blank, opt_text};
use crate::worker::{EventView, RequestView, WorkerEvent};

verus! {

/// A key with the control key.
pub open spec fn control(c: char) -> KeyEvent {
    KeyEvent { code: KeyCode::Char(c), control: true }
}

/// The program with another expression: what was told of the last one is gone, and a preview is
/// due 120 milliseconds after `now`.
pub open spec fn changed(app: AppView, before: Seq<char>, after: Seq<char>, now: u64) -> AppView {
    AppView {
        before,
        after,
        error: None,
        status_message: None,
        loading: true,
        pending_preview_at: Some((now + 120_000_000) as u64),
        ..app
    }
}

/// Ctrl+S asks for confirmation whenever there is something to apply, whatever else goes on, and
/// changes nothing but the question and what was told before. Without files or without an
/// expression it tells so instead.
pub proof fn law_save_asks(app: AppView, now: u64)
    requires
        app.mode == Mode::Editing,
    ensures
        app.files.len() > 0 && !blank(app.before + app.after) ==> app.keyed(control('s'), now) == (
            AppView { mode: Mode::ConfirmApply, error: None, status_message: None, ..app },
            None::<CommandView>,
        ),
        app.files.len() == 0 ==> app.keyed(control('s'), now) == (
            AppView { error: Some("no files to apply"@), ..app },
            None::<CommandView>,
        ),
        app.files.len() > 0 && blank(app.before + app.after) ==> app.keyed(control('s'), now) == (
            AppView { error: Some("empty sed expression"@), ..app },
            None::<CommandView>,
        ),
{
}

/// Ctrl+S and a yes apply the expression to the files, whatever else goes on: the request names
/// that expression, all those files and the backup suffix.
pub proof fn law_save_and_yes_apply(app: AppView, yes: KeyEvent, first: u64, second: u64)
    requires
        app.mode == Mode::Editing,
        app.files.len() > 0,
        !blank(app.before + app.after),
        yes.code == KeyCode::Char('y') || yes.code == KeyCode::Char('Y'),
        app.generation < u64::MAX,
    ensures
        app.keyed(control('s'), first).0.keyed(yes, second) == (
            AppView {
                error: None,
                status_message: Some("applying…"@),
                loading: true,
                generation: (app.generation + 1) as u64,
                ..app
            },
            Some(
                CommandView::Send(
                    RequestView::Apply {
                        generation: (app.generation + 1) as u64,
                        expression: app.before + app.after,
                        files: app.files,
                        backup_suffix: app.backup_suffix,
                    },
                ),
            ),
        ),
{
}

/// The answers to the question: yes applies, no and Esc give it up, and nothing else is taken.
pub proof fn law_answers(app: AppView, key: KeyEvent, now: u64)
    requires
        app.mode == Mode::ConfirmApply,
    ensures
        ({
            let yes = key.code == KeyCode::Char('y') || key.code == KeyCode::Char('Y');
            let no = key.code == KeyCode::Char('n') || key.code == KeyCode::Char('N') || key.code
                == KeyCode::Esc;
            &&& yes ==> app.keyed(key, now) == (
                AppView {
                    mode: Mode::Editing,
                    status_message: Some("applying…"@),
                    loading: true,
                    generation: (app.generation + 1) as u64,
                    ..app
                },
                Some(
                    CommandView::Send(
                        RequestView::Apply {
                            generation: (app.generation + 1) as u64,
                            expression: app.before + app.after,
                            files: app.files,
                            backup_suffix: app.backup_suffix,
                        },
                    ),
                ),
            )
            &&& no ==> app.keyed(key, now) == (
                AppView {
                    mode: Mode::Editing,
                    status_message: Some("apply cancelled"@),
                    ..app
                },
                None::<CommandView>,
            )
            &&& !yes && !no ==> app.keyed(key, now) == (app, None::<CommandView>)
        }),
{
}

/// Ctrl+C, Ctrl+Q and Esc quit and do nothing else; Tab moves the focus and does nothing else.
pub proof fn law_quit_and_tab(app: AppView, key: KeyEvent, now: u64)
    requires
        app.mode == Mode::Editing,
    ensures
        key == control('c') || key == control('q') || key.code == KeyCode::Esc ==> app.keyed(
            key,
            now,
        ) == (AppView { should_quit: true, ..app }, None::<CommandView>),
        key.code == KeyCode::Tab && app.focus == Focus::Expression ==> app.keyed(key, now) == (
            AppView { focus: Focus::Diff, ..app },
            None::<CommandView>,
        ),
        key.code == KeyCode::Tab && app.focus == Focus::Diff ==> app.keyed(key, now) == (
            AppView { focus: Focus::Expression, ..app },
            None::<CommandView>,
        ),
        key.code != KeyCode::Esc && key != control('c') && key != control('q') ==> app.keyed(
            key,
            now,
        ).0.should_quit == app.should_quit,
{
}

/// A typed character goes in at the cursor, which comes behind it, wherever the cursor stands
/// and whatever the character is.
pub proof fn law_typed(app: AppView, c: char, now: u64)
    requires
        app.mode == Mode::Editing,
        app.focus == Focus::Expression,
    ensures
        app.keyed(KeyEvent { code: KeyCode::Char(c), control: false }, now) == (
            changed(app, app.before + seq![c], app.after, now),
            None::<CommandView>,
        ),
        c != 'c' && c != 'q' && c != 's' ==> app.keyed(control(c), now) == (
            app,
            None::<CommandView>,
        ),
{
    assert(app.before.push(c) == app.before + seq![c]);
}

/// Backspace takes away the character before the cursor and Delete the one after it; at an end
/// they do nothing.
pub proof fn law_erased(
    app: AppView,
    before: Seq<char>,
    after: Seq<char>,
    c: char,
    held: bool,
    now: u64,
)
    requires
        app.mode == Mode::Editing,
        app.focus == Focus::Expression,
    ensures
        app.before == before + seq![c] ==> app.keyed(
            KeyEvent { code: KeyCode::Backspace, control: held },
            now,
        ) == (changed(app, before, app.after, now), None::<CommandView>),
        app.before.len() == 0 ==> app.keyed(
            KeyEvent { code: KeyCode::Backspace, control: held },
            now,
        ) == (app, None::<CommandView>),
        app.after == seq![c] + after ==> app.keyed(
            KeyEvent { code: KeyCode::Delete, control: held },
            now,
        ) == (changed(app, app.before, after, now), None::<CommandView>),
        app.after.len() == 0 ==> app.keyed(
            KeyEvent { code: KeyCode::Delete, control: held },
            now,
        ) == (app, None::<CommandView>),
{
    assert((before + seq![c]).drop_last() == before);
    assert((seq![c] + after).skip(1) == after);
}

/// Left and Right take the cursor over one character, Home and End to the ends, and nothing else
/// changes; at an end they do nothing.
pub proof fn law_moved(
    app: AppView,
    before: Seq<char>,
    after: Seq<char>,
    c: char,
    held: bool,
    now: u64,
)
    requires
        app.mode == Mode::Editing,
        app.focus == Focus::Expression,
    ensures
        app.before == before + seq![c] ==> app.keyed(
            KeyEvent { code: KeyCode::Left, control: held },
            now,
        ) == (AppView { before, after: seq![c] + app.after, ..app }, None::<CommandView>),
        app.before.len() == 0 ==> app.keyed(
            KeyEvent { code: KeyCode::Left, control: held },
            now,
        ) == (app, None::<CommandView>),
        app.after == seq![c] + after ==> app.keyed(
            KeyEvent { code: KeyCode::Right, control: held },
            now,
        ) == (AppView { before: app.before + seq![c], after, ..app }, None::<CommandView>),
        app.after.len() == 0 ==> app.keyed(
            KeyEvent { code: KeyCode::Right, control: held },
            now,
        ) == (app, None::<CommandView>),
        app.keyed(KeyEvent { code: KeyCode::Home, control: held }, now) == (
            AppView { before: Seq::empty(), after: app.before + app.after, ..app },
            None::<CommandView>,
        ),
        app.keyed(KeyEvent { code: KeyCode::End, control: held }, now) == (
            AppView { before: app.before + app.after, after: Seq::empty(), ..app },
            None::<CommandView>,
        ),
{
    assert((before + seq![c]).drop_last() == before);
    assert((before + seq![c]).last() == c);
    assert((seq![c] + after).skip(1) == after);
    assert(app.before.push(c) == app.before + seq![c]);
}

/// Keys that mean nothing in the expression do nothing there.
pub proof fn law_idle_keys(app: AppView, key: KeyEvent, now: u64)
    requires
        app.mode == Mode::Editing,
        app.focus == Focus::Expression,
        !(key.code is Char),
        key.code != KeyCode::Backspace,
        key.code != KeyCode::Delete,
        key.code != KeyCode::Left,
        key.code != KeyCode::Right,
        key.code != KeyCode::Home,
        key.code != KeyCode::End,
        key.code != KeyCode::Tab,
        key.code != KeyCode::Esc,
    ensures
        app.keyed(key, now) == (app, None::<CommandView>),
{
}

/// A place within the diff: neither above its first line nor below its last.
pub open spec fn clamped(to: int, lines: Seq<LineView>) -> nat {
    if to < 0 || lines.len() == 0 {
        0
    } else if to < lines.len() {
        to as nat
    } else {
        (lines.len() - 1) as nat
    }
}

/// In the diff Up, Down and their letters scroll by one line and the page keys by 20, as far as
/// there are lines, and nothing else changes. Other keys do nothing there.
pub proof fn law_scrolled(app: AppView, key: KeyEvent, now: u64)
    requires
        app.mode == Mode::Editing,
        app.focus == Focus::Diff,
        app.scroll == 0 || app.scroll < app.diff_lines.len(),
        key.code != KeyCode::Tab,
        key.code != KeyCode::Esc,
        key != control('c'),
        key != control('q'),
        key != control('s'),
    ensures
        ({
            let up = key.code == KeyCode::Up || key.code == KeyCode::Char('k');
            let down = key.code == KeyCode::Down || key.code == KeyCode::Char('j');
            let by: int = if up {
                -1
            } else if down {
                1
            } else if key.code == KeyCode::PageUp {
                -20
            } else if key.code == KeyCode::PageDown {
                20
            } else {
                0
            };
            app.keyed(key, now) == (
                AppView { scroll: clamped(app.scroll + by, app.diff_lines), ..app },
                None::<CommandView>,
            )
        }),
{
}

/// A paste goes in at the cursor as escaped text, and the focus to the expression. While the
/// question stands it is passed over.
pub proof fn law_pasted(app: AppView, pasted: Seq<char>, now: u64)
    ensures
        app.mode == Mode::Editing && escaped(pasted).len() > 0 ==> app.pasted(pasted, now)
            == changed(
            AppView { focus: Focus::Expression, ..app },
            app.before + escaped(pasted),
            app.after,
            now,
        ),
        app.mode == Mode::Editing && escaped(pasted).len() == 0 ==> app.pasted(pasted, now) == (
        AppView { focus: Focus::Expression, ..app }),
        app.mode == Mode::ConfirmApply ==> app.pasted(pasted, now) == app,
{
}

/// What each character is pasted as: a newline as `\n`, a backslash, a slash or an ampersand
/// with a backslash before it, a carriage return as nothing, and any other as it is.
pub proof fn law_escaped_char(c: char)
    ensures
        c == '\n' ==> escaped_char(c) == seq!['\\', 'n'],
        c == '\\' || c == '/' || c == '&' ==> escaped_char(c) == seq!['\\', c],
        c == '\r' ==> escaped_char(c) == Seq::<char>::empty(),
        c != '\n' && c != '\\' && c != '/' && c != '&' && c != '\r' ==> escaped_char(c) == seq![c],
        escaped(seq![c]) == escaped_char(c),
        escaped(Seq::empty()) == Seq::<char>::empty(),
{
    reveal_with_fuel(escaped, 2);
    assert(seq![c].drop_last() == Seq::<char>::empty());
    assert(seq![c].skip(1) == Seq::<char>::empty());
}

/// A preview that is due is asked for, once, for the expression and the first 40 files, under a
/// new number; before it is due nothing happens.
pub proof fn law_due_preview(app: AppView, at: u64, now: u64)
    ensures
        app.pending_preview_at == Some(at) && now >= at ==> app.flushed(now) == (
            AppView {
                pending_preview_at: None,
                loading: true,
                generation: (app.generation + 1) as u64,
                ..app
            },
            Some(
                CommandView::Preview {
                    generation: (app.generation + 1) as u64,
                    expression: app.before + app.after,
                    paths: if app.files.len() > 40 {
                        app.files.subrange(0, 40)
                    } else {
                        app.files
                    },
                },
            ),
        ),
        app.pending_preview_at == Some(at) && now < at ==> app.flushed(now) == (
            app,
            None::<CommandView>,
        ),
        app.pending_preview_at is None ==> app.flushed(now) == (app, None::<CommandView>),
{
}

/// A report on the latest request is taken up: a failed preview leaves the lines, any other one
/// brings its own, and the place in the diff stays unless it is past the last line.
pub proof fn law_preview_report(
    app: AppView,
    generation: u64,
    rows: Seq<LineView>,
    truncated: bool,
    counts: (nat, nat, nat),
    done: bool,
    error: Option<Seq<char>>,
)
    ensures
        ({
            let event = EventView::PreviewReady {
                generation,
                lines: rows,
                truncated,
                changed: counts.0,
                shown: counts.1,
                scanned: counts.2,
                done,
                error,
            };
            &&& generation != app.generation ==> app.received(event) == (app, None::<CommandView>)
            &&& generation == app.generation && error is Some ==> app.received(event) == (
                AppView { loading: !done, error, ..app },
                None::<CommandView>,
            )
            &&& generation == app.generation && error is None ==> app.received(event) == (
                AppView {
                    loading: !done,
                    error: None,
                    diff_lines: rows,
                    truncated,
                    preview_changed: counts.0,
                    preview_shown: counts.1,
                    preview_scanned: counts.2,
                    scroll: clamped(app.scroll as int, rows),
                    ..app
                },
                None::<CommandView>,
            )
        }),
{
}

/// An apply that failed is told; one that went well is told too, and a preview of the files as
/// they are now is asked for. A report on an earlier request is passed over.
pub proof fn law_apply_report(app: AppView, generation: u64, error: Option<Seq<char>>)
    ensures
        ({
            let event = EventView::ApplyFinished { generation, error };
            &&& generation != app.generation ==> app.received(event) == (app, None::<CommandView>)
            &&& generation == app.generation && error is Some ==> app.received(event) == (
                AppView { loading: false, error, status_message: None, ..app },
                None::<CommandView>,
            )
            &&& generation == app.generation && error is None ==> app.received(event) == (
                AppView {
                    loading: true,
                    error: None,
                    status_message: Some("applied"@),
                    generation: (app.generation + 1) as u64,
                    ..app
                },
                Some(
                    CommandView::Preview {
                        generation: (app.generation + 1) as u64,
                        expression: app.before + app.after,
                        paths: if app.files.len() > 40 {
                            app.files.subrange(0, 40)
                        } else {
                            app.files
                        },
                    },
                ),
            )
        }),
{
}

/// Reports are taken up one after the other, and their commands come in the same order.
pub proof fn law_reports_one_by_one(app: AppView, a: Seq<EventView>, b: Seq<EventView>)
    ensures
        app.drained(a + b) == (
            app.drained(a).0.drained(b).0,
            app.drained(a).1 + app.drained(a).0.drained(b).1,
        ),
        app.drained(Seq::empty()) == (app, Seq::<CommandView>::empty()),
    decreases b.len(),
{
    if b.len() == 0 {
        assert(a + b == a);
        assert(app.drained(a).1 + Seq::<CommandView>::empty() == app.drained(a).1);
    } else {
        law_reports_one_by_one(app, a, b.drop_last());
        assert((a + b).drop_last() == a + b.drop_last());
        let (next, command) = app.drained(a + b.drop_last()).0.received(b.last());
        let first = app.drained(a).1;
        let more = app.drained(a).0.drained(b.drop_last()).1;
        match command {
            Some(c) => {
                assert((first + more).push(c) == first + more.push(c));
            },
            None => {},
        }
    }
}

/// One report is what it is taken up as.
pub proof fn law_one_report(app: AppView, event: EventView)
    ensures
        app.drained(seq![event]).0 == app.received(event).0,
        app.received(event).1 is None ==> app.drained(seq![event]).1.len() == 0,
        app.received(event).1 matches Some(c) ==> app.drained(seq![event]).1 == seq![c],
{
    assert(seq![event].drop_last() == Seq::<EventView>::empty());
    assert(app.drained(seq![event].drop_last()) == (app, Seq::<CommandView>::empty()));
}

/// The program starts with the expression that it was given and the cursor at its end, in the
/// expression, with nothing to show, and with a preview due after 120 milliseconds.
pub proof fn law_start(
    expression: Option<Seq<char>>,
    suffix: Option<Seq<char>>,
    sed_bin: Seq<u8>,
    files: Seq<Seq<u8>>,
    now: u64,
)
    ensures
        new_app(expression, suffix, sed_bin, files, now) == (AppView {
            before: if expression is Some {
                expression->Some_0
            } else {
                Seq::empty()
            },
            after: Seq::empty(),
            focus: Focus::Expression,
            mode: Mode::Editing,
            files,
            sed_bin,
            backup_suffix: suffix,
            diff_lines: Seq::empty(),
            scroll: 0,
            loading: true,
            truncated: false,
            preview_changed: 0,
            preview_shown: 0,
            preview_scanned: 0,
            error: None,
            status_message: None,
            generation: 0,
            pending_preview_at: Some((now + 120_000_000) as u64),
            should_quit: false,
        }),
{
}

/// The view of the program is what it holds: the expression is cut where the cursor stands.
pub proof fn law_app_view(app: App)
    requires
        app.drawable(),
    ensures
        app@.before + app@.after == app.expression@,
        app.cursor <= encode_utf8(app.expression@).len() ==> encode_utf8(app@.before).len()
            == app.cursor,
        app.cursor > encode_utf8(app.expression@).len() ==> app@.after.len() == 0,
        app@.focus == app.focus,
        app@.mode == app.mode,
        app@.files == path_views(app.files@),
        app@.sed_bin == app.sed_bin.bytes@,
        app@.backup_suffix == opt_text(app.backup_suffix),
        app@.diff_lines == line_views(app.diff_lines@),
        app@.scroll == app.scroll,
        app@.loading == app.loading,
        app@.truncated == app.truncated,
        app@.preview_changed == app.preview_changed,
        app@.preview_shown == app.preview_shown,
        app@.preview_scanned == app.preview_scanned,
        app@.error == opt_text(app.error),
        app@.status_message == opt_text(app.status_message),
        app@.generation == app.generation,
        app@.pending_preview_at == app.pending_preview_at,
        app@.should_quit == app.should_quit,
{
    let at = app.place();
    lemma_boundary_is_offset(app.expression@, at);
    if app.cursor > encode_utf8(app.expression@).len() {
        lemma_encode_concat(app@.before, app@.after);
        if app@.after.len() > 0 {
            lemma_some_bytes(app@.after);
        }
    }
}

proof fn lemma_some_bytes(s: Seq<char>)
    requires
        s.len() > 0,
    ensures
        encode_utf8(s).len() > 0,
{
}

/// The views of commands and reports are what these hold.
pub proof fn law_command_views(
    command: AppCommand,
    maybe: Option<AppCommand>,
    commands: Seq<AppCommand>,
    events: Seq<WorkerEvent>,
)
    ensures
        command matches AppCommand::Preview { generation, expression, paths } ==> command@ == (
        CommandView::Preview {
            generation,
            expression: expression@,
            paths: path_views(paths@),
        }),
        command matches AppCommand::Send(r) ==> command@ == CommandView::Send(r@),
        maybe is None <==> opt_command(maybe) is None,
        maybe matches Some(c) ==> opt_command(maybe) == Some(c@),
        command_views(commands).len() == commands.len(),
        forall|i: int|
            0 <= i < commands.len() ==> #[trigger] command_views(commands)[i] == commands[i]@,
        event_views(events).len() == events.len(),
        forall|i: int| 0 <= i < events.len() ==> #[trigger] event_views(events)[i] == events[i]@,
{
}

/// Wherever the diff stands, Up and PageUp take it up by 1 and 20 lines, to the top at most, and
/// Down and PageDown down, to the last line at most; Down leaves it where it is past that.
pub proof fn law_scrolled_from_anywhere(app: AppView, held: bool, now: u64)
    requires
        app.mode == Mode::Editing,
        app.focus == Focus::Diff,
    ensures
        ({
            let n = app.diff_lines.len();
            let up = app.keyed(KeyEvent { code: KeyCode::Up, control: held }, now).0.scroll;
            let down = app.keyed(KeyEvent { code: KeyCode::Down, control: held }, now).0.scroll;
            let far_up = app.keyed(KeyEvent { code: KeyCode::PageUp, control: held }, now).0.scroll;
            let far_down = app.keyed(
                KeyEvent { code: KeyCode::PageDown, control: held },
                now,
            ).0.scroll;
            &&& app.scroll >= 1 ==> up == app.scroll - 1
            &&& app.scroll == 0 ==> up == 0
            &&& app.scroll + 1 < n ==> down == app.scroll + 1
            &&& app.scroll + 1 >= n ==> down == app.scroll
            &&& app.scroll >= 20 ==> far_up == app.scroll - 20
            &&& app.scroll < 20 ==> far_up == 0
            &&& app.scroll + 20 < n ==> far_down == app.scroll + 20
            &&& app.scroll + 20 >= n > 0 ==> far_down == n - 1
            &&& n == 0 ==> far_down == 0
        }),
{
}

/// The places of a cursor in a text are the offsets at which its characters start, and its end;
/// how many characters lie before one is the number of those it is the offset of.
pub proof fn law_places(s: Seq<char>, i: int)
    ensures
        at_boundary(s, i) <==> exists|k: int|
            0 <= k <= s.len() && i == encode_utf8(#[trigger] s.take(k)).len(),
        at_boundary(s, i) ==> chars_before(s, i) <= s.len() && encode_utf8(
            s.take(chars_before(s, i) as int),
        ).len() == i,
{
    if at_boundary(s, i) {
        lemma_boundary_is_offset(s, i);
        let k = chars_before(s, i) as int;
        assert(i == encode_utf8(s.take(k)).len());
    }
    if exists|k: int| 0 <= k <= s.len() && i == encode_utf8(#[trigger] s.take(k)).len() {
        let k = choose|k: int| 0 <= k <= s.len() && i == encode_utf8(#[trigger] s.take(k)).len();
        lemma_offset_at_boundary(s, k);
    }
}

/// A key handed to the expression does what it does while the expression is edited there,
/// whatever has the focus; the keys that quit, save and move the focus do nothing.
pub proof fn law_expression_key(app: AppView, key: KeyEvent, now: u64)
    ensures
        ({
            let there = AppView { mode: Mode::Editing, focus: Focus::Expression, ..app };
            let general = key == control('c') || key == control('q') || key == control('s')
                || key.code == KeyCode::Esc || key.code == KeyCode::Tab;
            &&& general ==> app.expression_key(key, now) == app
            &&& !general ==> app.expression_key(key, now) == (AppView {
                mode: app.mode,
                focus: app.focus,
                ..there.keyed(key, now).0
            })
        }),
{
}

/// A key handed to the editor does what it does while the expression is edited, and leaves the
/// mode as it is unless it saves.
pub proof fn law_editing_key(app: AppView, key: KeyEvent, now: u64)
    ensures
        ({
            let there = AppView { mode: Mode::Editing, ..app };
            let asks = key == control('s') && app.files.len() > 0 && !blank(app.before + app.after);
            &&& asks ==> app.editing_key(key, now) == there.keyed(key, now).0
            &&& !asks ==> app.editing_key(key, now) == (AppView {
                mode: app.mode,
                ..there.keyed(key, now).0
            })
        }),
{
}

/// A key handed to the question does what it does while the question stands, and a key that is no
/// answer nothing.
pub proof fn law_confirm_key(app: AppView, key: KeyEvent, now: u64)
    ensures
        ({
            let there = AppView { mode: Mode::ConfirmApply, ..app };
            let answers = key.code == KeyCode::Char('y') || key.code == KeyCode::Char('Y')
                || key.code == KeyCode::Char('n') || key.code == KeyCode::Char('N') || key.code
                == KeyCode::Esc;
            &&& answers ==> app.confirm_key(key) == there.keyed(key, now)
            &&& !answers ==> app.confirm_key(key) == (app, None::<CommandView>)
        }),
{
}

} // verus!
