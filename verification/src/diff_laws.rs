//! What holds of the diff view, line by line.
use vstd::prelude::*;

use crate::diff_view::{
    change_line, change_lines, change_views, diff_view, diffable, equal_lines, group_lines,
    group_views, header_numbers, header_text, hunk_views, joined_up, law_hunk_shows_both,
    line_tokens, new_run, old_run, op_changes, op_lines, shown_line, side, similar_grouped_ops,
    slices, terminated, token_len, within, ChangeTag, ChangeView, DiffOp,
};
use crate::styled::{line_views, raw_line, Color, Line, LineView, Span, SpanView, Style};
use crate::text::{decimal, lines};

verus! {

/// The shown text of a changed line, without its mark, is the whole line without its line end,
/// however long it is; the mark and the colours tell what became of it.
pub proof fn law_shown_change(tag: ChangeTag, body: Seq<char>, end: Seq<char>)
    requires
        end == seq!['\n'] && !(body.len() > 0 && body.last() == '\r') || end == seq!['\r', '\n']
            || end == Seq::<char>::empty() && !(body.len() > 0 && body.last() == '\n'),
    ensures
        tag is Delete ==> change_line(ChangeView { tag, content: body + end }) == seq![
            SpanView {
                content: seq!['-'] + body,
                style: Style { fg: Some(Color::Red), bg: Some(Color::Rgb(40, 0, 0)), bold: false },
            },
        ],
        tag is Insert ==> change_line(ChangeView { tag, content: body + end }) == seq![
            SpanView {
                content: seq!['+'] + body,
                style: Style {
                    fg: Some(Color::Green),
                    bg: Some(Color::Rgb(0, 40, 0)),
                    bold: false,
                },
            },
        ],
        tag is Equal ==> change_line(ChangeView { tag, content: body + end }) == seq![
            SpanView {
                content: seq![' '] + body,
                style: Style { fg: Some(Color::DarkGray), bg: None, bold: false },
            },
        ],
{
    let s = body + end;
    if end == seq!['\n'] {
        assert(s.drop_last() == body);
    } else if end == seq!['\r', '\n'] {
        assert(s.drop_last() == body.push('\r'));
        assert(s.drop_last().drop_last() == body);
    } else {
        assert(s == body);
    }
}

/// A line of a text is shown whole, without its newline and the carriage return before it.
pub proof fn law_shown_line(line: Seq<char>)
    requires
        forall|i: int| 0 <= i < line.len() ==> line[i] != '\n' && line[i] != '\r',
    ensures
        shown_line(line) == line,
        shown_line(line.push('\n')) == line,
        shown_line(line + seq!['\r', '\n']) == line,
        shown_line(line.push('\r')) == line.push('\r'),
{
    assert(line.push('\n').drop_last() == line);
    let both = line + seq!['\r', '\n'];
    assert(both.drop_last() == line.push('\r'));
    assert(both.drop_last().drop_last() == line);
}

/// A newline is added to a line that has no terminator, and to no other.
pub proof fn law_terminated(line: Seq<char>)
    ensures
        line.len() > 0 && (line.last() == '\n' || line.last() == '\r') ==> terminated(line) == line,
        !(line.len() > 0 && (line.last() == '\n' || line.last() == '\r')) ==> terminated(line)
            == line + seq!['\n'],
{
    assert(line.push('\n') == line + seq!['\n']);
}

proof fn lemma_token(line: Seq<char>, rest: Seq<char>)
    requires
        forall|i: int| 0 <= i < line.len() ==> line[i] != '\n' && line[i] != '\r',
    ensures
        token_len(line + seq!['\n'] + rest) == line.len() + 1,
        token_len(line + seq!['\r', '\n'] + rest) == line.len() + 2,
        !(rest.len() > 0 && rest[0] == '\n') ==> token_len(line + seq!['\r'] + rest) == line.len()
            + 1,
        token_len(line) == line.len(),
    decreases line.len(),
{
    if line.len() > 0 {
        let more = line.skip(1);
        assert forall|i: int| 0 <= i < more.len() implies more[i] != '\n' && more[i] != '\r' by {
            assert(more[i] == line[i + 1]);
        }
        lemma_token(more, rest);
        assert((line + seq!['\n'] + rest).skip(1) == more + seq!['\n'] + rest);
        assert((line + seq!['\r', '\n'] + rest).skip(1) == more + seq!['\r', '\n'] + rest);
        assert((line + seq!['\r'] + rest).skip(1) == more + seq!['\r'] + rest);
        assert(line[0] == (line + seq!['\n'] + rest)[0]);
        assert(line[0] == (line + seq!['\r', '\n'] + rest)[0]);
        assert(line[0] == (line + seq!['\r'] + rest)[0]);
    }
}

/// A text is compared by its lines, each with its terminator, one after the other.
pub proof fn law_line_tokens(line: Seq<char>, rest: Seq<char>)
    requires
        forall|i: int| 0 <= i < line.len() ==> line[i] != '\n' && line[i] != '\r',
    ensures
        line_tokens(line + seq!['\n'] + rest) == seq![line + seq!['\n']] + line_tokens(rest),
        line_tokens(line + seq!['\r', '\n'] + rest) == seq![line + seq!['\r', '\n']] + line_tokens(
            rest,
        ),
        !(rest.len() > 0 && rest[0] == '\n') ==> line_tokens(line + seq!['\r'] + rest) == seq![
            line + seq!['\r'],
        ] + line_tokens(rest),
        line.len() > 0 ==> line_tokens(line) == seq![line],
        line_tokens(Seq::<char>::empty()) == Seq::<Seq<char>>::empty(),
{
    lemma_token(line, rest);
    let n = line.len() as int;
    let a = line + seq!['\n'] + rest;
    assert(a.take(n + 1) == line + seq!['\n']);
    assert(a.skip(n + 1) == rest);
    let b = line + seq!['\r', '\n'] + rest;
    assert(b.take(n + 2) == line + seq!['\r', '\n']);
    assert(b.skip(n + 2) == rest);
    let c = line + seq!['\r'] + rest;
    assert(c.take(n + 1) == line + seq!['\r']);
    assert(c.skip(n + 1) == rest);
    assert(line.take(n) == line);
    assert(line_tokens(line.skip(n)) == Seq::<Seq<char>>::empty());
}

/// The steps of a group are shown one after the other.
pub proof fn law_steps_in_order(
    a: Seq<DiffOp>,
    b: Seq<DiffOp>,
    old: Seq<Seq<char>>,
    new: Seq<Seq<char>>,
)
    ensures
        op_lines(a + b, old, new) == op_lines(a, old, new) + op_lines(b, old, new),
    decreases b.len(),
{
    if b.len() == 0 {
        assert(a + b == a);
    } else {
        law_steps_in_order(a, b.drop_last(), old, new);
        assert((a + b).drop_last() == a + b.drop_last());
    }
}

/// The line is shown unmarked.
pub open spec fn kept(line: Seq<char>) -> LineView {
    change_line(ChangeView { tag: ChangeTag::Equal, content: terminated(line) })
}

/// The line is shown as gone.
pub open spec fn gone(line: Seq<char>) -> LineView {
    change_line(ChangeView { tag: ChangeTag::Delete, content: terminated(line) })
}

/// The line is shown as new.
pub open spec fn came(line: Seq<char>) -> LineView {
    change_line(ChangeView { tag: ChangeTag::Insert, content: terminated(line) })
}

/// What a step shows: the lines that it keeps, those that it takes away, and those that it
/// brings, each of them once, in their order, the lines gone before the lines new.
pub proof fn law_step_lines(op: DiffOp, old: Seq<Seq<char>>, new: Seq<Seq<char>>)
    requires
        within(op, old.len() as int, new.len() as int),
    ensures
        ({
            let shown = op_lines(seq![op], old, new);
            match op {
                DiffOp::Equal { old_index, len, .. } => {
                    &&& shown.len() == len
                    &&& forall|k: int|
                        0 <= k < len ==> #[trigger] shown[k] == kept(old[old_index + k])
                },
                DiffOp::Delete { old_index, old_len, .. } => {
                    &&& shown.len() == old_len
                    &&& forall|k: int|
                        0 <= k < old_len ==> #[trigger] shown[k] == gone(old[old_index + k])
                },
                DiffOp::Insert { new_index, new_len, .. } => {
                    &&& shown.len() == new_len
                    &&& forall|k: int|
                        0 <= k < new_len ==> #[trigger] shown[k] == came(new[new_index + k])
                },
                DiffOp::Replace { old_index, old_len, new_index, new_len } => {
                    &&& shown.len() == old_len + new_len
                    &&& forall|k: int|
                        0 <= k < old_len ==> #[trigger] shown[k] == gone(old[old_index + k])
                    &&& forall|k: int|
                        old_len <= k < old_len + new_len ==> #[trigger] shown[k] == came(
                            new[new_index + k - old_len],
                        )
                },
            }
        }),
{
    assert(seq![op].drop_last() == Seq::<DiffOp>::empty());
    assert(op_lines(seq![op].drop_last(), old, new) == Seq::<LineView>::empty());
    let shown = op_lines(seq![op], old, new);
    assert(shown == change_lines(op_changes(op, old, new)));
}

/// Where a step starts and how many lines it has, on the old side and on the new one.
pub open spec fn extent(op: DiffOp) -> (int, int, int, int) {
    match op {
        DiffOp::Equal { old_index, new_index, len } => (
            old_index as int,
            len as int,
            new_index as int,
            len as int,
        ),
        DiffOp::Delete { old_index, old_len, new_index } => (
            old_index as int,
            old_len as int,
            new_index as int,
            0,
        ),
        DiffOp::Insert { old_index, new_index, new_len } => (
            old_index as int,
            0,
            new_index as int,
            new_len as int,
        ),
        DiffOp::Replace { old_index, old_len, new_index, new_len } => (
            old_index as int,
            old_len as int,
            new_index as int,
            new_len as int,
        ),
    }
}

/// The larger of a count and one.
pub open spec fn at_least_one(n: int) -> int {
    if n >= 1 {
        n
    } else {
        1
    }
}

/// The header of a group names its first old and new line, counted from one, and how many lines
/// there are from the start of its first step to the end of its last.
pub proof fn law_header(group: Seq<DiffOp>)
    requires
        group.len() > 0,
    ensures
        ({
            let first = extent(group[0]);
            let last = extent(group[group.len() - 1]);
            header_text(group) == "@@ -"@ + decimal(first.0 + 1) + ","@ + decimal(
                at_least_one(last.0 + last.1 - first.0),
            ) + " +"@ + decimal(first.2 + 1) + ","@ + decimal(
                at_least_one(last.2 + last.3 - first.2),
            ) + " @@"@
        }),
{
}

proof fn lemma_runs_reach(ops: Seq<DiffOp>)
    requires
        ops.len() > 0,
    ensures
        !(ops[0] is Insert) ==> (old_run(ops) matches Some((from, _)) && from == extent(
            ops[0],
        ).0),
        !(ops[0] is Delete) ==> (new_run(ops) matches Some((from, _)) && from == extent(
            ops[0],
        ).2),
    decreases ops.len(),
{
    if ops.len() > 1 {
        lemma_runs_reach(ops.drop_last());
    }
    reveal_with_fuel(old_run, 2);
    reveal_with_fuel(new_run, 2);
}

/// The counts in a header are those of the lines under it: where a group starts and ends with
/// steps that have old lines, the old count is the number of its lines without those marked `+`,
/// and likewise for the new ones.
pub proof fn law_header_counts(group: Seq<DiffOp>, old: Seq<Seq<char>>, new: Seq<Seq<char>>)
    requires
        group.len() > 0,
        joined_up(group),
        forall|k: int|
            0 <= k < group.len() ==> within(
                #[trigger] group[k],
                old.len() as int,
                new.len() as int,
            ) && equal_lines(group[k], old, new),
    ensures
        ({
            let first = extent(group[0]);
            let last = extent(group[group.len() - 1]);
            let shown = op_lines(group, old, new);
            &&& !(group[0] is Insert) && !(group.last() is Insert) ==> last.0 + last.1 - first.0
                == side(shown, '+').len()
            &&& !(group[0] is Delete) && !(group.last() is Delete) ==> last.2 + last.3 - first.2
                == side(shown, '-').len()
        }),
{
    law_hunk_shows_both(group, old, new);
    lemma_runs_reach(group);
    lemma_runs_stay(group, old.len() as int, new.len() as int);
    assert(group.last() == group[group.len() - 1]);
}

/// The lines in a row as they are shown.
pub open spec fn shown_lines(lines: Seq<Seq<char>>) -> Seq<Seq<char>> {
    lines.map_values(|l: Seq<char>| shown_line(l))
}

/// The lines of a group that are not marked `+` are a stretch of the old lines, and those not
/// marked `-` a stretch of the new ones.
pub proof fn law_hunk_stretches(group: Seq<DiffOp>, old: Seq<Seq<char>>, new: Seq<Seq<char>>)
    requires
        joined_up(group),
        forall|k: int|
            0 <= k < group.len() ==> within(
                #[trigger] group[k],
                old.len() as int,
                new.len() as int,
            ) && equal_lines(group[k], old, new),
    ensures
        exists|from: int, to: int|
            0 <= from <= to <= old.len() && side(op_lines(group, old, new), '+') == shown_lines(
                #[trigger] old.subrange(from, to),
            ),
        exists|from: int, to: int|
            0 <= from <= to <= new.len() && side(op_lines(group, old, new), '-') == shown_lines(
                #[trigger] new.subrange(from, to),
            ),
{
    law_hunk_shows_both(group, old, new);
    lemma_runs_stay(group, old.len() as int, new.len() as int);
    let shown = op_lines(group, old, new);
    match old_run(group) {
        Some((from, to)) => {
            assert(side(shown, '+') == shown_lines(old.subrange(from, to)));
        },
        None => {
            assert(side(shown, '+') == shown_lines(old.subrange(0, 0)));
        },
    }
    match new_run(group) {
        Some((from, to)) => {
            assert(side(shown, '-') == shown_lines(new.subrange(from, to)));
        },
        None => {
            assert(side(shown, '-') == shown_lines(new.subrange(0, 0)));
        },
    }
}

proof fn lemma_runs_stay(ops: Seq<DiffOp>, old: int, new: int)
    requires
        joined_up(ops),
        forall|k: int| 0 <= k < ops.len() ==> within(#[trigger] ops[k], old, new),
    ensures
        old_run(ops) matches Some((from, to)) ==> 0 <= from <= to <= old,
        new_run(ops) matches Some((from, to)) ==> 0 <= from <= to <= new,
    decreases ops.len(),
{
    if ops.len() > 0 {
        let front = ops.drop_last();
        assert forall|k: int| 0 <= k < front.len() implies within(#[trigger] front[k], old, new) by {
            assert(front[k] == ops[k]);
        }
        lemma_runs_stay(front, old, new);
        assert(within(ops[ops.len() - 1], old, new));
    }
}

/// A group is shown under its header, and groups one after the other with an empty line between.
pub proof fn law_hunks_in_order(
    group: Seq<DiffOp>,
    a: Seq<Seq<DiffOp>>,
    b: Seq<Seq<DiffOp>>,
    old: Seq<Seq<char>>,
    new: Seq<Seq<char>>,
)
    ensures
        group.len() > 0 ==> hunk_views(seq![group], old, new) == seq![
            seq![
                SpanView {
                    content: header_text(group),
                    style: Style { fg: Some(Color::Cyan), bg: None, bold: true },
                },
            ],
        ] + op_lines(group, old, new),
        group.len() == 0 ==> hunk_views(seq![group], old, new) == Seq::<LineView>::empty(),
        a.len() > 0 && b.len() > 0 ==> hunk_views(a + b, old, new) == hunk_views(a, old, new)
            + seq![Seq::<SpanView>::empty()] + hunk_views(b, old, new),
        hunk_views(Seq::<Seq<DiffOp>>::empty(), old, new) == Seq::<LineView>::empty(),
    decreases b.len(),
{
    assert(seq![group][0] == group);
    if a.len() > 0 && b.len() > 0 {
        assert((a + b).drop_last() == a + b.drop_last());
        let last = group_lines(b.last(), old, new);
        let before = hunk_views(a, old, new);
        assert(before.push(seq![]) == before + seq![Seq::<SpanView>::empty()]);
        if b.len() == 1 {
            assert(a + b.drop_last() == a);
        } else {
            law_hunks_in_order(group, a, b.drop_last(), old, new);
            let middle = hunk_views(b.drop_last(), old, new);
            assert(hunk_views(a + b, old, new) == hunk_views(a + b.drop_last(), old, new).push(
                seq![],
            ) + last);
            assert(hunk_views(b, old, new) == middle.push(seq![]) + last);
        }
    }
}

/// The diff of two texts is that of their lines by the steps found from the first to the second;
/// where the texts are the same there is none.
pub proof fn law_diff(old: Seq<char>, new: Seq<char>, context: nat)
    ensures
        old == new ==> diff_view(old, new, context) == Seq::<LineView>::empty(),
        old != new ==> diff_view(old, new, context) == hunk_views(
            similar_grouped_ops(old, new, context),
            line_tokens(old),
            line_tokens(new),
        ),
{
}

/// The views of lines, spans, steps and changes are what these hold.
pub proof fn law_line_views(
    span: Span,
    line: Line,
    rows: Seq<Line>,
    parts: Seq<&str>,
    groups: Seq<Vec<DiffOp>>,
    changes: Seq<(ChangeTag, String)>,
)
    ensures
        span@ == (SpanView { content: span.content@, style: span.style }),
        line@.len() == line.spans@.len(),
        forall|i: int| 0 <= i < line.spans@.len() ==> #[trigger] line@[i] == line.spans@[i]@,
        line_views(rows).len() == rows.len(),
        forall|i: int| 0 <= i < rows.len() ==> #[trigger] line_views(rows)[i] == rows[i]@,
        slices(parts).len() == parts.len(),
        forall|i: int| 0 <= i < parts.len() ==> #[trigger] slices(parts)[i] == parts[i]@,
        group_views(groups).len() == groups.len(),
        forall|i: int| 0 <= i < groups.len() ==> #[trigger] group_views(groups)[i] == groups[i]@,
        change_views(changes).len() == changes.len(),
        forall|i: int|
            0 <= i < changes.len() ==> #[trigger] change_views(changes)[i] == (ChangeView {
                tag: changes[i].0,
                content: changes[i].1@,
            }),
{
}

/// A plain text makes a line of one plain span for each of its lines.
pub proof fn law_raw_line(content: Seq<char>)
    ensures
        raw_line(content).len() == lines(content).len(),
        forall|i: int|
            0 <= i < lines(content).len() ==> #[trigger] raw_line(content)[i] == (SpanView {
                content: lines(content)[i],
                style: Style { fg: None, bg: None, bold: false },
            }),
{
}

/// The numbers of a header: its first old and new line, counted from one, and the counts.
pub proof fn law_header_numbers(group: Seq<DiffOp>)
    requires
        group.len() > 0,
    ensures
        ({
            let first = extent(group[0]);
            let last = extent(group[group.len() - 1]);
            header_numbers(group) == (
                first.0 + 1,
                first.2 + 1,
                at_least_one(last.0 + last.1 - first.0),
                at_least_one(last.2 + last.3 - first.2),
            )
        }),
{
}

/// Two texts can be compared where they have fewer than 4294967295 lines between them.
pub proof fn law_diffable(old: Seq<char>, new: Seq<char>)
    ensures
        diffable(old, new) <==> line_tokens(old).len() + line_tokens(new).len() < 4294967295,
{
}

} // verus!
