//! What holds of the program over several keys, reports and moments.
use vstd::prelude::*;
use vstd::utf8::encode_utf8;

use crate::app::{
    last_line, App, AppView, CommandView, Focus, KeyCode, KeyEvent, Mode, DEBOUNCE, PAGE,
};
use crate::cursor::lemma_encode_concat;
use crate::escape::escaped;
use crate::preview::{shown_files, PREVIEW_MAX_FILES};
use crate::text::blank;
use crate::worker::{preview_lines, preview_order, ready_event, EventView, RequestView};

verus! {

/// A key without the control key.
pub open spec fn plain(code: KeyCode) -> KeyEvent {
    KeyEvent { code, control: false }
}

/// The keys go into the expression.
pub open spec fn typing(app: AppView) -> bool {
    app.mode == Mode::Editing && app.focus == Focus::Expression
}

/// Backspace takes back the character typed before it: the expression and the cursor are as
/// they were.
pub proof fn law_backspace_undoes_typing(app: AppView, c: char, first: u64, second: u64)
    requires
        typing(app),
    ensures
        app.keyed(plain(KeyCode::Char(c)), first).0.keyed(plain(KeyCode::Backspace), second) == (
            app.edited(app.before, app.after, second),
            None::<CommandView>,
        ),
{
    assert(app.before.push(c).drop_last() == app.before);
}

/// Delete takes back the character typed before it once the cursor is moved left over it.
pub proof fn law_delete_undoes_typing(app: AppView, c: char, first: u64, second: u64, third: u64)
    requires
        typing(app),
    ensures
        app.keyed(plain(KeyCode::Char(c)), first).0.keyed(plain(KeyCode::Left), second).0.keyed(
            plain(KeyCode::Delete),
            third,
        ) == (app.edited(app.before, app.after, third), None::<CommandView>),
{
    assert(app.before.push(c).drop_last() == app.before);
    assert((seq![c] + app.after).skip(1) == app.after);
}

/// Right undoes Left, and Left undoes Right.
pub proof fn law_left_and_right_undo_each_other(app: AppView, first: u64, second: u64)
    requires
        typing(app),
    ensures
        app.before.len() > 0 ==> app.keyed(plain(KeyCode::Left), first).0.keyed(
            plain(KeyCode::Right),
            second,
        ) == (app, None::<CommandView>),
        app.after.len() > 0 ==> app.keyed(plain(KeyCode::Right), first).0.keyed(
            plain(KeyCode::Left),
            second,
        ) == (app, None::<CommandView>),
{
    if app.before.len() > 0 {
        assert(app.before.drop_last().push(app.before.last()) == app.before);
        assert((seq![app.before.last()] + app.after).skip(1) == app.after);
    }
    if app.after.len() > 0 {
        assert(app.before.push(app.after[0]).drop_last() == app.before);
        assert(seq![app.after[0]] + app.after.skip(1) == app.after);
    }
}

/// Moving the cursor leaves the expression as it is.
pub proof fn law_moves_keep_expression(app: AppView, code: KeyCode, now: u64)
    requires
        typing(app),
        code == KeyCode::Left || code == KeyCode::Right || code == KeyCode::Home || code
            == KeyCode::End,
    ensures
        app.keyed(plain(code), now).0.expression() == app.expression(),
        app.keyed(plain(code), now).0.pending_preview_at == app.pending_preview_at,
{
    let next = app.keyed(plain(code), now).0;
    assert(next.expression() == app.expression());
}

/// Tab twice gives the focus back.
pub proof fn law_tab_twice(app: AppView, first: u64, second: u64)
    requires
        app.mode == Mode::Editing,
    ensures
        app.keyed(plain(KeyCode::Tab), first).0.keyed(plain(KeyCode::Tab), second) == (
            app,
            None::<CommandView>,
        ),
{
}

/// The program stays in order whatever comes: a key, a paste, a report, or time.
pub proof fn law_stays_in_order(
    app: AppView,
    key: KeyEvent,
    pasted: Seq<char>,
    event: EventView,
    now: u64,
)
    requires
        app.wf(),
    ensures
        app.keyed(key, now).0.wf(),
        app.pasted(pasted, now).wf(),
        app.received(event).0.wf(),
        app.flushed(now).0.wf(),
{
}

/// Files are changed only after a yes to the question: an apply request comes of a key `y`
/// while the question stands, and of nothing else. It then has files and an expression, those
/// that the question was about.
pub proof fn law_apply_only_after_yes(app: AppView, key: KeyEvent, event: EventView, now: u64)
    requires
        app.wf(),
    ensures
        app.keyed(key, now).1 matches Some(CommandView::Send(r)) ==> {
            &&& app.mode == Mode::ConfirmApply
            &&& key.code == KeyCode::Char('y') || key.code == KeyCode::Char('Y')
            &&& r matches RequestView::Apply { generation, expression, files, backup_suffix }
            &&& generation == app.keyed(key, now).0.generation
            &&& expression == app.expression() && !blank(expression)
            &&& files == app.files && files.len() > 0
            &&& backup_suffix == app.backup_suffix
        },
        !(app.received(event).1 matches Some(CommandView::Send(_))),
        !(app.flushed(now).1 matches Some(CommandView::Send(_))),
        app.mode == Mode::ConfirmApply && (key.code == KeyCode::Char('y') || key.code
            == KeyCode::Char('Y')) ==> app.keyed(key, now).1 matches Some(CommandView::Send(_)),
{
}

/// While the question stands, nothing changes the expression, the files or the backup suffix.
pub proof fn law_question_is_about_what_is_applied(
    app: AppView,
    key: KeyEvent,
    pasted: Seq<char>,
    event: EventView,
    now: u64,
)
    requires
        app.mode == Mode::ConfirmApply,
    ensures
        app.pasted(pasted, now) == app,
        ({
            let keyed = app.keyed(key, now).0;
            let received = app.received(event).0;
            let flushed = app.flushed(now).0;
            &&& keyed.expression() == app.expression() && keyed.files == app.files
                && keyed.backup_suffix == app.backup_suffix
            &&& received.expression() == app.expression() && received.files == app.files
                && received.backup_suffix == app.backup_suffix && received.mode == app.mode
            &&& flushed.expression() == app.expression() && flushed.files == app.files
                && flushed.backup_suffix == app.backup_suffix && flushed.mode == app.mode
        }),
{
}

/// A report on an earlier request is passed over.
pub proof fn law_stale_reports_are_passed_over(app: AppView, event: EventView)
    requires
        event.generation() != app.generation,
    ensures
        app.received(event) == (app, None::<CommandView>),
{
}

/// Once a newer request is made, no report on the one before counts any more: every request
/// has a number of its own.
pub proof fn law_newer_request_outdates(app: AppView, event: EventView)
    requires
        app.generation < u64::MAX,
        event.generation() <= app.generation,
    ensures
        app.requesting().0.received(event) == (app.requesting().0, None::<CommandView>),
        app.applying().0.received(event) == (app.applying().0, None::<CommandView>),
{
}

/// A preview that failed leaves the last good diff in place, and its error is told.
pub proof fn law_failed_preview_keeps_diff(app: AppView, event: EventView)
    requires
        event matches EventView::PreviewReady { error, .. } && error is Some,
    ensures
        event.generation() == app.generation ==> app.received(event).0.error
            == event->PreviewReady_error,
        app.received(event).0.diff_lines == app.diff_lines,
        app.received(event).0.scroll == app.scroll,
        app.received(event).0.truncated == app.truncated,
{
}

/// What becomes of a preview that is asked for and not overtaken: where the files can be read,
/// the report on them, which are no more than the cap, is shown as it is; where one cannot, that
/// is told, and the diff stays.
pub proof fn law_preview_is_shown(
    app: AppView,
    contents: Seq<Option<Seq<u8>>>,
    outputs: Seq<Seq<char>>,
)
    requires
        app.generation < u64::MAX,
        contents.len() == shown_files(app.files).len(),
    ensures
        ({
            let (asked, command) = app.requesting();
            &&& command matches CommandView::Preview { generation, expression, paths }
            &&& match preview_order(generation, expression, paths, contents) {
                Ok(request) => {
                    &&& request matches RequestView::Preview {
                        generation: number,
                        expression: asked_for,
                        files,
                    }
                    &&& asked_for == app.expression()
                    &&& files.len() == shown_files(app.files).len()
                    &&& files.len() <= PREVIEW_MAX_FILES
                    &&& ({
                        let seen = asked.received(ready_event(number, files, outputs)).0;
                        &&& seen.diff_lines == preview_lines(files, outputs)
                        &&& seen.error is None
                        &&& !seen.loading
                    })
                },
                Err(event) => {
                    let seen = asked.received(event).0;
                    &&& seen.diff_lines == app.diff_lines
                    &&& seen.error is Some
                    &&& !seen.loading
                },
            }
        }),
{
}

/// The preview waits until the expression has rested: none is asked for before, and then one is
/// asked for, once, of the expression as it is then.
pub proof fn law_preview_waits(app: AppView, pasted: Seq<char>, edit: u64, now: u64, later: u64)
    requires
        app.mode == Mode::Editing,
        escaped(pasted).len() > 0,
        edit + DEBOUNCE <= u64::MAX,
        now <= later,
    ensures
        ({
            let edited = app.pasted(pasted, edit);
            let (asked, command) = edited.flushed(now);
            &&& now < edit + DEBOUNCE ==> asked == edited && command is None
            &&& now >= edit + DEBOUNCE ==> {
                &&& command == Some(
                    CommandView::Preview {
                        generation: asked.generation,
                        expression: app.before + escaped(pasted) + app.after,
                        paths: shown_files(app.files),
                    },
                )
                &&& asked.flushed(later) == (asked, None::<CommandView>)
            }
        }),
{
}

/// Every edit starts the wait anew.
pub proof fn law_edits_restart_the_wait(app: AppView, key: KeyEvent, now: u64)
    requires
        typing(app),
        now + DEBOUNCE <= u64::MAX,
        app.keyed(key, now).0.expression() != app.expression(),
    ensures
        app.keyed(key, now).0.pending_preview_at == Some((now + DEBOUNCE) as u64),
        app.keyed(key, now).0.loading,
        app.keyed(key, now).0.error is None,
{
    let next = app.keyed(key, now).0;
    match key.code {
        KeyCode::Left => {
            assert(next.expression() == app.expression());
        },
        KeyCode::Right => {
            assert(next.expression() == app.expression());
        },
        KeyCode::Home => {
            assert(next.expression() == app.expression());
        },
        KeyCode::End => {
            assert(next.expression() == app.expression());
        },
        _ => {},
    }
}

/// The keys in the diff: they scroll by a line or by a page, and stay within the diff. No key
/// there changes the expression or the cursor, nor is a preview scheduled. (With the focus on
/// the expression, `j` and `k` are typed.)
pub proof fn law_diff_keys(app: AppView, code: KeyCode, now: u64)
    requires
        app.mode == Mode::Editing,
        app.focus == Focus::Diff,
        app.scroll <= last_line(app.diff_lines),
    ensures
        ({
            let last = last_line(app.diff_lines) as int;
            let old = app.scroll as int;
            let next = app.keyed(plain(code), now).0;
            &&& next.scroll == match code {
                KeyCode::Up | KeyCode::Char('k') => if old - 1 > 0 {
                    old - 1
                } else {
                    0
                },
                KeyCode::Down | KeyCode::Char('j') => if old + 1 < last {
                    old + 1
                } else {
                    last
                },
                KeyCode::PageUp => if old - PAGE > 0 {
                    old - PAGE
                } else {
                    0
                },
                KeyCode::PageDown => if old + PAGE < last {
                    old + PAGE
                } else {
                    last
                },
                _ => old,
            }
            &&& next.scroll <= last
            &&& next.before == app.before && next.after == app.after
            &&& next.pending_preview_at == app.pending_preview_at
            &&& next.loading == app.loading
            &&& app.keyed(plain(code), now).1 is None
        }),
{
}

/// Keys in the expression that change nothing in it, with nothing else than the cursor moved: the
/// cursor keys, characters with the control key, Backspace at the start and Delete at the end.
pub open spec fn leaves_expression(app: AppView, key: KeyEvent) -> bool {
    match key.code {
        KeyCode::Char(_) => key.control,
        KeyCode::Backspace => app.before.len() == 0,
        KeyCode::Delete => app.after.len() == 0,
        _ => true,
    }
}

/// A key in the expression either leaves the expression, the messages and the scheduled preview
/// as they were, or it changes the expression, clears the messages and schedules a preview.
pub proof fn law_expression_keys(app: AppView, key: KeyEvent, now: u64)
    requires
        now + DEBOUNCE <= u64::MAX,
    ensures
        ({
            let next = app.expression_key(key, now);
            if leaves_expression(app, key) {
                &&& next.expression() == app.expression()
                &&& next.error == app.error
                &&& next.status_message == app.status_message
                &&& next.pending_preview_at == app.pending_preview_at
                &&& next.loading == app.loading
            } else {
                &&& next.expression() != app.expression()
                &&& next.error is None
                &&& next.status_message is None
                &&& next.pending_preview_at == Some((now + DEBOUNCE) as u64)
                &&& next.loading
            }
        }),
{
    let next = app.expression_key(key, now);
    if leaves_expression(app, key) {
        assert(next.expression() == app.expression());
    } else {
        assert(next.expression().len() != app.expression().len());
    }
}

/// Typing puts the character at the cursor, and the cursor behind it; Backspace then gives the
/// expression and the byte position of the cursor back, and so do Left and then Delete. Here of
/// the strings themselves: `typed` and `undone` are the program after the keys.
pub proof fn law_typing_is_undone(app: App, typed: App, undone: App, c: char, now: u64)
    requires
        app.placed(),
        typed.placed(),
        undone.placed(),
        typed@ == app@.expression_key(plain(KeyCode::Char(c)), now),
        undone@ == typed@.expression_key(plain(KeyCode::Backspace), now) || undone@
            == typed@.expression_key(plain(KeyCode::Left), now).expression_key(
            plain(KeyCode::Delete),
            now,
        ),
    ensures
        typed.expression@ == app@.before + seq![c] + app@.after,
        typed.cursor == app.cursor + encode_utf8(seq![c]).len(),
        undone.expression@ == app.expression@,
        undone.cursor == app.cursor,
{
    app.lemma_expression();
    typed.lemma_expression();
    undone.lemma_expression();
    let before = app@.before;
    assert(typed@.before == before.push(c));
    assert(before.push(c) == before + seq![c]);
    lemma_encode_concat(before, seq![c]);
    assert(before.push(c).drop_last() == before);
    assert((seq![c] + app@.after).skip(1) == app@.after);
    assert(undone@.before == before);
    assert(undone@.after == app@.after);
}

} // verus!
