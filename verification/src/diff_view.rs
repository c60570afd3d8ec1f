//! The git-style view of the difference between two texts.
use vstd::prelude::*;

use crate::styled::{
    append_lines, bold_style, fg_bg_style, fg_style, line_views, push_line, styled_line, Color,
    Line, LineView, SpanView, Style,
};
use crate::text::{chars_of, decimal, ends_with, push_decimal, same_text, string_of, text};

verus! {

/// One step from the old lines to the new ones, by line positions counted from zero.
#[derive(Debug, Clone, Copy, PartialEq, Eq, Structural)]
pub enum DiffOp {
    /// A run of lines that both sides share.
    Equal { old_index: usize, new_index: usize, len: usize },
    /// A run of old lines that is gone.
    Delete { old_index: usize, old_len: usize, new_index: usize },
    /// A run of new lines that came in.
    Insert { old_index: usize, new_index: usize, new_len: usize },
    /// A run of old lines that gave way to a run of new lines.
    Replace { old_index: usize, old_len: usize, new_index: usize, new_len: usize },
}

/// What a shown line is: shared, gone or new.
#[derive(Debug, Clone, Copy, PartialEq, Eq, Structural)]
pub enum ChangeTag {
    Equal,
    Delete,
    Insert,
}

/// Where the old lines of a step start.
pub open spec fn old_start(op: DiffOp) -> int {
    match op {
        DiffOp::Equal { old_index, .. } => old_index as int,
        DiffOp::Delete { old_index, .. } => old_index as int,
        DiffOp::Insert { old_index, .. } => old_index as int,
        DiffOp::Replace { old_index, .. } => old_index as int,
    }
}

/// Where the old lines of a step end.
pub open spec fn old_end(op: DiffOp) -> int {
    match op {
        DiffOp::Equal { old_index, len, .. } => old_index + len,
        DiffOp::Delete { old_index, old_len, .. } => old_index + old_len,
        DiffOp::Insert { old_index, .. } => old_index as int,
        DiffOp::Replace { old_index, old_len, .. } => old_index + old_len,
    }
}

/// Where the new lines of a step start.
pub open spec fn new_start(op: DiffOp) -> int {
    match op {
        DiffOp::Equal { new_index, .. } => new_index as int,
        DiffOp::Delete { new_index, .. } => new_index as int,
        DiffOp::Insert { new_index, .. } => new_index as int,
        DiffOp::Replace { new_index, .. } => new_index as int,
    }
}

/// Where the new lines of a step end.
pub open spec fn new_end(op: DiffOp) -> int {
    match op {
        DiffOp::Equal { new_index, len, .. } => new_index + len,
        DiffOp::Delete { new_index, .. } => new_index as int,
        DiffOp::Insert { new_index, new_len, .. } => new_index + new_len,
        DiffOp::Replace { new_index, new_len, .. } => new_index + new_len,
    }
}

/// The step stays within `old` old lines and `new` new lines.
pub open spec fn within(op: DiffOp, old: int, new: int) -> bool {
    old_end(op) <= old && new_end(op) <= new
}

/// Every step of every group stays within the lines.
pub open spec fn all_within(groups: Seq<Seq<DiffOp>>, old: int, new: int) -> bool {
    forall|g: int, k: int|
        0 <= g < groups.len() && 0 <= k < groups[g].len() ==> within(
            #[trigger] groups[g][k],
            old,
            new,
        )
}

/// The lines that an equal step keeps are the same on both sides.
pub open spec fn equal_lines(op: DiffOp, old: Seq<Seq<char>>, new: Seq<Seq<char>>) -> bool {
    op is Equal ==> old.subrange(old_start(op), old_end(op)) == new.subrange(
        new_start(op),
        new_end(op),
    )
}

/// How many characters the first line has, its terminator (`\n`, `\r` or `\r\n`) included.
pub open spec fn token_len(s: Seq<char>) -> nat
    decreases s.len(),
{
    if s.len() == 0 {
        0
    } else if s[0] == '\n' {
        1
    } else if s[0] == '\r' {
        if s.len() > 1 && s[1] == '\n' {
            2
        } else {
            1
        }
    } else {
        1 + token_len(s.skip(1))
    }
}

/// A text that is not empty has a first line.
pub proof fn lemma_token_len(s: Seq<char>)
    requires
        s.len() > 0,
    ensures
        1 <= token_len(s) <= s.len(),
    decreases s.len(),
{
    if s.len() > 1 {
        lemma_token_len(s.skip(1));
    } else {
        assert(token_len(s.skip(1)) == 0);
    }
}

/// The lines that a text is compared by: each with its terminator, which the last one may lack.
pub open spec fn line_tokens(s: Seq<char>) -> Seq<Seq<char>>
    decreases s.len(),
{
    if s.len() == 0 {
        seq![]
    } else {
        proof {
            lemma_token_len(s);
        }
        seq![s.take(token_len(s) as int)] + line_tokens(s.skip(token_len(s) as int))
    }
}

/// The two texts have few enough lines to be numbered with 32 bits.
pub open spec fn diffable(old: Seq<char>, new: Seq<char>) -> bool {
    line_tokens(old).len() + line_tokens(new).len() < u32::MAX
}

/// Texts with so few characters can be compared, as each line has at least one of them.
pub proof fn law_short_texts_diffable(old: Seq<char>, new: Seq<char>)
    requires
        old.len() + new.len() < u32::MAX,
    ensures
        diffable(old, new),
{
    lemma_token_count(old);
    lemma_token_count(new);
}

proof fn lemma_token_count(s: Seq<char>)
    ensures
        line_tokens(s).len() <= s.len(),
    decreases s.len(),
{
    if s.len() > 0 {
        lemma_token_len(s);
        lemma_token_count(s.skip(token_len(s) as int));
    }
}

/// The views of string slices in a row.
pub open spec fn slices(v: Seq<&str>) -> Seq<Seq<char>> {
    v.map_values(|s: &str| s@)
}

/// The views of groups of steps.
pub open spec fn group_views(v: Seq<Vec<DiffOp>>) -> Seq<Seq<DiffOp>> {
    v.map_values(|g: Vec<DiffOp>| g@)
}

/// The model of a shown line.
#[verifier::ext_equal]
pub struct ChangeView {
    pub tag: ChangeTag,
    pub content: Seq<char>,
}

/// The views of changes in a row.
pub open spec fn change_views(v: Seq<(ChangeTag, String)>) -> Seq<ChangeView> {
    v.map_values(|c: (ChangeTag, String)| ChangeView { tag: c.0, content: c.1@ })
}

/// A line with its terminator, or with a newline where it has none.
pub open spec fn terminated(l: Seq<char>) -> Seq<char> {
    if ends_with(l, '\n') || ends_with(l, '\r') {
        l
    } else {
        l.push('\n')
    }
}

/// The lines, all with one tag.
pub open spec fn tagged(tag: ChangeTag, lines: Seq<Seq<char>>) -> Seq<ChangeView> {
    lines.map_values(|l: Seq<char>| ChangeView { tag, content: terminated(l) })
}

/// The changes that a step stands for: the shared old lines, or the lines gone and then the
/// lines new.
pub open spec fn op_changes(op: DiffOp, old: Seq<Seq<char>>, new: Seq<Seq<char>>) -> Seq<
    ChangeView,
> {
    let gone = old.subrange(old_start(op), old_end(op));
    let came = new.subrange(new_start(op), new_end(op));
    match op {
        DiffOp::Equal { .. } => tagged(ChangeTag::Equal, gone),
        DiffOp::Delete { .. } => tagged(ChangeTag::Delete, gone),
        DiffOp::Insert { .. } => tagged(ChangeTag::Insert, came),
        DiffOp::Replace { .. } => tagged(ChangeTag::Delete, gone) + tagged(ChangeTag::Insert, came),
    }
}

/// The lines so far and the place in the old lines, once a step is made: the old lines up to the
/// step are kept, those that it takes away are passed over, and those that it brings are added.
pub open spec fn made(
    so_far: (Seq<Seq<char>>, int),
    op: DiffOp,
    old: Seq<Seq<char>>,
    new: Seq<Seq<char>>,
) -> (Seq<Seq<char>>, int) {
    let (lines, at) = so_far;
    let came = new.subrange(new_start(op), new_end(op));
    match op {
        DiffOp::Equal { .. } => (lines + old.subrange(at, old_end(op)), old_end(op)),
        DiffOp::Delete { .. } => (lines + old.subrange(at, old_start(op)), old_end(op)),
        DiffOp::Insert { .. } => (lines + came, at),
        DiffOp::Replace { .. } => (lines + old.subrange(at, old_start(op)) + came, old_end(op)),
    }
}

/// The lines so far and the place in the old lines, once the steps of a group are made.
pub open spec fn made_group(
    so_far: (Seq<Seq<char>>, int),
    ops: Seq<DiffOp>,
    old: Seq<Seq<char>>,
    new: Seq<Seq<char>>,
) -> (Seq<Seq<char>>, int)
    decreases ops.len(),
{
    if ops.len() == 0 {
        so_far
    } else {
        made(made_group(so_far, ops.drop_last(), old, new), ops.last(), old, new)
    }
}

/// The lines so far and the place in the old lines, once the steps of all groups are made.
pub open spec fn made_groups(
    groups: Seq<Seq<DiffOp>>,
    old: Seq<Seq<char>>,
    new: Seq<Seq<char>>,
) -> (Seq<Seq<char>>, int)
    decreases groups.len(),
{
    if groups.len() == 0 {
        (seq![], 0)
    } else {
        made_group(made_groups(groups.drop_last(), old, new), groups.last(), old, new)
    }
}

/// The old lines with the steps of all groups made. What no group holds is kept.
pub open spec fn patched(
    groups: Seq<Seq<DiffOp>>,
    old: Seq<Seq<char>>,
    new: Seq<Seq<char>>,
) -> Seq<Seq<char>> {
    let (lines, at) = made_groups(groups, old, new);
    lines + old.skip(at)
}

/// The old lines that the steps of a group have between them, from the start of the first step
/// that has old lines to the end of the last one; `None` where no step has any.
pub open spec fn old_run(ops: Seq<DiffOp>) -> Option<(int, int)>
    decreases ops.len(),
{
    if ops.len() == 0 {
        None
    } else if ops.last() is Insert {
        old_run(ops.drop_last())
    } else {
        match old_run(ops.drop_last()) {
            Some((from, _)) => Some((from, old_end(ops.last()))),
            None => Some((old_start(ops.last()), old_end(ops.last()))),
        }
    }
}

/// The new lines that the steps of a group have between them, in the same way.
pub open spec fn new_run(ops: Seq<DiffOp>) -> Option<(int, int)>
    decreases ops.len(),
{
    if ops.len() == 0 {
        None
    } else if ops.last() is Delete {
        new_run(ops.drop_last())
    } else {
        match new_run(ops.drop_last()) {
            Some((from, _)) => Some((from, new_end(ops.last()))),
            None => Some((new_start(ops.last()), new_end(ops.last()))),
        }
    }
}

/// The steps of a group join up: on either side the lines of each step start where those of the
/// one before end. A step without lines on a side does not count there.
pub open spec fn joined_up(ops: Seq<DiffOp>) -> bool
    decreases ops.len(),
{
    ops.len() == 0 || {
        &&& joined_up(ops.drop_last())
        &&& ops.last() is Insert || (old_run(ops.drop_last()) matches Some((_, to)) ==> old_start(
            ops.last(),
        ) == to)
        &&& ops.last() is Delete || (new_run(ops.drop_last()) matches Some((_, to)) ==> new_start(
            ops.last(),
        ) == to)
    }
}

/// The step has lines to show under its mark or marks.
pub open spec fn busy(op: DiffOp) -> bool {
    match op {
        DiffOp::Equal { .. } => false,
        DiffOp::Delete { old_len, .. } => old_len > 0,
        DiffOp::Insert { new_len, .. } => new_len > 0,
        DiffOp::Replace { old_len, new_len, .. } => old_len > 0 && new_len > 0,
    }
}

/// How many shared lines a step has.
pub open spec fn shared(op: DiffOp) -> int {
    if op is Equal {
        old_end(op) - old_start(op)
    } else {
        0
    }
}

/// A group is about changes: it has a step that changes something, each such step has lines, no
/// two shared steps follow each other, and a shared step has no more than twice `context`
/// lines, at an end of the group no more than `context`.
pub open spec fn trimmed(ops: Seq<DiffOp>, context: nat) -> bool {
    &&& exists|k: int| 0 <= k < ops.len() && !((#[trigger] ops[k]) is Equal)
    &&& forall|k: int| 0 <= k < ops.len() ==> (#[trigger] ops[k]) is Equal || busy(ops[k])
    &&& forall|k: int|
        0 <= k < ops.len() - 1 ==> !((#[trigger] ops[k]) is Equal) || !(ops[k + 1] is Equal)
    &&& forall|k: int| 0 <= k < ops.len() ==> shared(#[trigger] ops[k]) <= 2 * context
    &&& ops.len() > 0 ==> shared(ops.first()) <= context && shared(ops.last()) <= context
}

/// Two groups that follow each other end and start with `context` shared lines, and something is
/// left out between them.
pub open spec fn parted(a: Seq<DiffOp>, b: Seq<DiffOp>, context: nat) -> bool {
    &&& a.len() > 0 && a.last() is Equal && shared(a.last()) == context
    &&& b.len() > 0 && b.first() is Equal && shared(b.first()) == context
    &&& old_end(a.last()) < old_start(b.first())
    &&& new_end(a.last()) < new_start(b.first())
}

/// The groups of steps that `similar` finds between two texts, compared line by line.
pub uninterp spec fn similar_grouped_ops(old: Seq<char>, new: Seq<char>, context: nat) -> Seq<
    Seq<DiffOp>,
>;

/// `similar::TextDiff::from_lines` and `TextDiff::grouped_ops`: the steps from the old lines to
/// the new ones, in groups that keep `context` shared lines around each change. The steps stay
/// within the lines of the two texts, an equal step keeps lines that are the same on both
/// sides, the steps of a group join up, and the old lines with the steps made are the new lines.
/// Every group has a change, with `context` shared lines at most at its ends and twice as many
/// at most inside; between two groups shared lines are left out. Which steps are found, among
/// those that lead from one text to the other, is left to the name.
#[verifier::external_body]
fn grouped_ops(old: &str, new: &str, context: usize) -> (groups: Vec<Vec<DiffOp>>)
    requires
        2 * context <= usize::MAX,
        diffable(old@, new@),
    ensures
        group_views(groups@) == similar_grouped_ops(old@, new@, context as nat),
        all_within(
            group_views(groups@),
            line_tokens(old@).len() as int,
            line_tokens(new@).len() as int,
        ),
        forall|g: int, k: int|
            0 <= g < groups@.len() && 0 <= k < groups@[g]@.len() ==> equal_lines(
                #[trigger] groups@[g]@[k],
                line_tokens(old@),
                line_tokens(new@),
            ),
        forall|g: int|
            0 <= g < groups@.len() ==> joined_up(#[trigger] groups@[g]@) && trimmed(
                groups@[g]@,
                context as nat,
            ),
        forall|g: int|
            0 <= g < groups@.len() - 1 ==> parted(
                #[trigger] groups@[g]@,
                groups@[g + 1]@,
                context as nat,
            ),
        patched(group_views(groups@), line_tokens(old@), line_tokens(new@)) == line_tokens(new@),
{
    let ops = similar::TextDiff::from_lines(old, new).grouped_ops(context);
    let plain = |op: similar::DiffOp| match op {
        similar::DiffOp::Equal { old_index, new_index, len } => DiffOp::Equal { old_index, new_index, len },
        similar::DiffOp::Delete { old_index, old_len, new_index } => DiffOp::Delete { old_index, old_len, new_index },
        similar::DiffOp::Insert { old_index, new_index, new_len } => DiffOp::Insert { old_index, new_index, new_len },
        similar::DiffOp::Replace { old_index, old_len, new_index, new_len } => {
            DiffOp::Replace { old_index, old_len, new_index, new_len }
        },
    };
    ops.into_iter().map(|group| group.into_iter().map(plain).collect()).collect()
}

/// `similar::DiffableStr::tokenize_lines`: the text cut after each line terminator, where a
/// `\r` that a `\n` follows makes one terminator with it.
#[verifier::external_body]
fn tokenize_lines<'a>(content: &'a str) -> (tokens: Vec<&'a str>)
    ensures
        slices(tokens@) == line_tokens(content@),
{
    similar::DiffableStr::tokenize_lines(content)
}

/// `similar::DiffOp::iter_changes`, with `Change::tag` and the `Display` of each `Change`: the
/// lines of the step, tagged, each with a newline added where it has no terminator.
#[verifier::external_body]
fn iter_changes(op: &DiffOp, old: &Vec<&str>, new: &Vec<&str>) -> (changes: Vec<(ChangeTag, String)>)
    requires
        within(*op, old@.len() as int, new@.len() as int),
    ensures
        change_views(changes@) == op_changes(*op, slices(old@), slices(new@)),
{
    let op = match *op {
        DiffOp::Equal { old_index, new_index, len } => similar::DiffOp::Equal { old_index, new_index, len },
        DiffOp::Delete { old_index, old_len, new_index } => similar::DiffOp::Delete { old_index, old_len, new_index },
        DiffOp::Insert { old_index, new_index, new_len } => similar::DiffOp::Insert { old_index, new_index, new_len },
        DiffOp::Replace { old_index, old_len, new_index, new_len } => {
            similar::DiffOp::Replace { old_index, old_len, new_index, new_len }
        },
    };
    let tag = |tag: similar::ChangeTag| match tag {
        similar::ChangeTag::Equal => ChangeTag::Equal,
        similar::ChangeTag::Delete => ChangeTag::Delete,
        similar::ChangeTag::Insert => ChangeTag::Insert,
    };
    op.iter_changes(old.as_slice(), new.as_slice()).map(|c| (tag(c.tag()), c.to_string())).collect()
}

/// A line of a change as it is shown: without the newline, and without the carriage return
/// before it.
pub open spec fn chomped(s: Seq<char>) -> Seq<char> {
    if ends_with(s, '\n') {
        if ends_with(s.drop_last(), '\r') {
            s.drop_last().drop_last()
        } else {
            s.drop_last()
        }
    } else {
        s
    }
}

/// The mark in front of a shown line.
pub open spec fn mark(tag: ChangeTag) -> char {
    match tag {
        ChangeTag::Delete => '-',
        ChangeTag::Insert => '+',
        ChangeTag::Equal => ' ',
    }
}

/// The colours of a shown line.
pub open spec fn mark_style(tag: ChangeTag) -> Style {
    match tag {
        ChangeTag::Delete => fg_bg_style(Color::Red, Color::Rgb(40, 0, 0)),
        ChangeTag::Insert => fg_bg_style(Color::Green, Color::Rgb(0, 40, 0)),
        ChangeTag::Equal => fg_style(Color::DarkGray),
    }
}

/// The line that shows a change.
pub open spec fn change_line(c: ChangeView) -> LineView {
    styled_line(seq![mark(c.tag)] + chomped(c.content), mark_style(c.tag))
}

/// The lines that show changes.
pub open spec fn change_lines(cs: Seq<ChangeView>) -> Seq<LineView> {
    cs.map_values(|c: ChangeView| change_line(c))
}

/// The lines that show the steps of a group.
pub open spec fn op_lines(ops: Seq<DiffOp>, old: Seq<Seq<char>>, new: Seq<Seq<char>>) -> Seq<
    LineView,
>
    decreases ops.len(),
{
    if ops.len() == 0 {
        seq![]
    } else {
        op_lines(ops.drop_last(), old, new) + change_lines(op_changes(ops.last(), old, new))
    }
}

/// The numbers in the header of a group: where its old and its new lines start, counted from
/// one, and how many there are, at least one.
pub open spec fn header_numbers(group: Seq<DiffOp>) -> (int, int, int, int) {
    let old_count = old_end(group.last()) - old_start(group.first());
    let new_count = new_end(group.last()) - new_start(group.first());
    (
        old_start(group.first()) + 1,
        new_start(group.first()) + 1,
        if old_count < 1 { 1 } else { old_count },
        if new_count < 1 { 1 } else { new_count },
    )
}

/// The header of a group.
pub open spec fn header_text(group: Seq<DiffOp>) -> Seq<char> {
    let (old_from, new_from, old_count, new_count) = header_numbers(group);
    "@@ -"@ + decimal(old_from) + ","@ + decimal(old_count) + " +"@ + decimal(new_from) + ","@
        + decimal(new_count) + " @@"@
}

/// The lines that show a group: its header and its changes.
pub open spec fn group_lines(group: Seq<DiffOp>, old: Seq<Seq<char>>, new: Seq<Seq<char>>) -> Seq<
    LineView,
> {
    if group.len() == 0 {
        seq![]
    } else {
        seq![styled_line(header_text(group), bold_style(Color::Cyan))] + op_lines(group, old, new)
    }
}

/// The lines that show groups, with an empty line between each two.
pub open spec fn hunk_views(
    groups: Seq<Seq<DiffOp>>,
    old: Seq<Seq<char>>,
    new: Seq<Seq<char>>,
) -> Seq<LineView>
    decreases groups.len(),
{
    if groups.len() == 0 {
        seq![]
    } else if groups.len() == 1 {
        group_lines(groups[0], old, new)
    } else {
        hunk_views(groups.drop_last(), old, new).push(seq![]) + group_lines(
            groups.last(),
            old,
            new,
        )
    }
}

/// The lines that show the difference between two texts.
pub open spec fn diff_view(old: Seq<char>, new: Seq<char>, context: nat) -> Seq<LineView> {
    if old == new {
        seq![]
    } else {
        hunk_views(similar_grouped_ops(old, new, context), line_tokens(old), line_tokens(new))
    }
}

/// The shown line is `line`, under the mark of `tag`.
pub open spec fn shows(l: LineView, tag: ChangeTag, line: Seq<char>) -> bool {
    l == change_line(ChangeView { tag, content: terminated(line) })
}

/// The shown line separates groups, heads one, or shows a line that is gone from the old text,
/// new in the new text, or in both.
pub open spec fn faithful(l: LineView, old: Seq<Seq<char>>, new: Seq<Seq<char>>) -> bool {
    ||| l.len() == 0
    ||| exists|t: Seq<char>| l == #[trigger] styled_line(t, bold_style(Color::Cyan))
    ||| exists|i: int| 0 <= i < old.len() && shows(l, ChangeTag::Delete, #[trigger] old[i])
    ||| exists|j: int| 0 <= j < new.len() && shows(l, ChangeTag::Insert, #[trigger] new[j])
    ||| exists|i: int, j: int|
        0 <= i < old.len() && 0 <= j < new.len() && #[trigger] old[i] == #[trigger] new[j] && shows(
            l,
            ChangeTag::Equal,
            old[i],
        )
}

/// Every shown line is faithful.
pub open spec fn all_faithful(ls: Seq<LineView>, old: Seq<Seq<char>>, new: Seq<Seq<char>>) -> bool {
    forall|k: int| 0 <= k < ls.len() ==> faithful(#[trigger] ls[k], old, new)
}

proof fn lemma_faithful_concat(
    a: Seq<LineView>,
    b: Seq<LineView>,
    old: Seq<Seq<char>>,
    new: Seq<Seq<char>>,
)
    requires
        all_faithful(a, old, new),
        all_faithful(b, old, new),
    ensures
        all_faithful(a + b, old, new),
{
    assert forall|k: int| 0 <= k < (a + b).len() implies faithful(
        #[trigger] (a + b)[k],
        old,
        new,
    ) by {
        if k < a.len() {
            assert((a + b)[k] == a[k]);
        } else {
            assert((a + b)[k] == b[k - a.len()]);
        }
    }
}

proof fn lemma_faithful_op(op: DiffOp, old: Seq<Seq<char>>, new: Seq<Seq<char>>)
    requires
        within(op, old.len() as int, new.len() as int),
        equal_lines(op, old, new),
    ensures
        all_faithful(change_lines(op_changes(op, old, new)), old, new),
{
    let cs = op_changes(op, old, new);
    let gone = old.subrange(old_start(op), old_end(op));
    let came = new.subrange(new_start(op), new_end(op));
    assert forall|k: int| 0 <= k < change_lines(cs).len() implies faithful(
        #[trigger] change_lines(cs)[k],
        old,
        new,
    ) by {
        let l = change_lines(cs)[k];
        assert(l == change_line(cs[k]));
        match op {
            DiffOp::Equal { .. } => {
                assert(gone[k] == came[k]);
                assert(gone[k] == old[old_start(op) + k]);
                assert(came[k] == new[new_start(op) + k]);
                assert(shows(l, ChangeTag::Equal, old[old_start(op) + k]));
            },
            DiffOp::Delete { .. } => {
                assert(shows(l, ChangeTag::Delete, old[old_start(op) + k]));
            },
            DiffOp::Insert { .. } => {
                assert(shows(l, ChangeTag::Insert, new[new_start(op) + k]));
            },
            DiffOp::Replace { .. } => {
                if k < gone.len() {
                    assert(shows(l, ChangeTag::Delete, old[old_start(op) + k]));
                } else {
                    assert(shows(l, ChangeTag::Insert, new[new_start(op) + k - gone.len()]));
                }
            },
        }
    }
}

proof fn lemma_faithful_ops(ops: Seq<DiffOp>, old: Seq<Seq<char>>, new: Seq<Seq<char>>)
    requires
        forall|k: int|
            0 <= k < ops.len() ==> within(#[trigger] ops[k], old.len() as int, new.len() as int)
                && equal_lines(ops[k], old, new),
    ensures
        all_faithful(op_lines(ops, old, new), old, new),
    decreases ops.len(),
{
    if ops.len() > 0 {
        assert forall|k: int| 0 <= k < ops.drop_last().len() implies within(
            #[trigger] ops.drop_last()[k],
            old.len() as int,
            new.len() as int,
        ) && equal_lines(ops.drop_last()[k], old, new) by {
            assert(ops.drop_last()[k] == ops[k]);
        }
        lemma_faithful_ops(ops.drop_last(), old, new);
        assert(ops.last() == ops[ops.len() - 1]);
        lemma_faithful_op(ops.last(), old, new);
        lemma_faithful_concat(
            op_lines(ops.drop_last(), old, new),
            change_lines(op_changes(ops.last(), old, new)),
            old,
            new,
        );
    }
}

proof fn lemma_faithful_group(group: Seq<DiffOp>, old: Seq<Seq<char>>, new: Seq<Seq<char>>)
    requires
        forall|k: int|
            0 <= k < group.len() ==> within(#[trigger] group[k], old.len() as int, new.len() as int)
                && equal_lines(group[k], old, new),
    ensures
        all_faithful(group_lines(group, old, new), old, new),
{
    if group.len() > 0 {
        lemma_faithful_ops(group, old, new);
        lemma_faithful_concat(
            seq![styled_line(header_text(group), bold_style(Color::Cyan))],
            op_lines(group, old, new),
            old,
            new,
        );
    }
}

/// A diff never shows a line that is not there: what it marks as gone is a line of the old
/// text, what it marks as new is a line of the new text, and what it shows unmarked is a line
/// of both.
pub proof fn law_hunks_faithful(
    groups: Seq<Seq<DiffOp>>,
    old: Seq<Seq<char>>,
    new: Seq<Seq<char>>,
)
    requires
        all_within(groups, old.len() as int, new.len() as int),
        forall|g: int, k: int|
            0 <= g < groups.len() && 0 <= k < groups[g].len() ==> equal_lines(
                #[trigger] groups[g][k],
                old,
                new,
            ),
    ensures
        all_faithful(hunk_views(groups, old, new), old, new),
    decreases groups.len(),
{
    if groups.len() > 0 {
        let front = groups.drop_last();
        assert forall|g: int, k: int|
            0 <= g < front.len() && 0 <= k < front[g].len() implies within(
            #[trigger] front[g][k],
            old.len() as int,
            new.len() as int,
        ) && equal_lines(front[g][k], old, new) by {
            assert(front[g][k] == groups[g][k]);
        }
        law_hunks_faithful(front, old, new);
        let last = groups.last();
        assert forall|k: int| 0 <= k < last.len() implies within(
            #[trigger] last[k],
            old.len() as int,
            new.len() as int,
        ) && equal_lines(last[k], old, new) by {
            assert(last[k] == groups[groups.len() - 1][k]);
        }
        lemma_faithful_group(last, old, new);
        if groups.len() > 1 {
            let before = hunk_views(front, old, new).push(seq![]);
            assert(before == hunk_views(front, old, new) + seq![Seq::<SpanView>::empty()]);
            lemma_faithful_concat(
                hunk_views(front, old, new),
                seq![Seq::<SpanView>::empty()],
                old,
                new,
            );
            lemma_faithful_concat(before, group_lines(last, old, new), old, new);
        }
    }
}

fn old_range(op: &DiffOp) -> (r: (usize, usize))
    requires
        old_end(*op) <= usize::MAX,
    ensures
        r.0 == old_start(*op),
        r.1 == old_end(*op),
{
    match *op {
        DiffOp::Equal { old_index, len, .. } => (old_index, old_index + len),
        DiffOp::Delete { old_index, old_len, .. } => (old_index, old_index + old_len),
        DiffOp::Insert { old_index, .. } => (old_index, old_index),
        DiffOp::Replace { old_index, old_len, .. } => (old_index, old_index + old_len),
    }
}

fn new_range(op: &DiffOp) -> (r: (usize, usize))
    requires
        new_end(*op) <= usize::MAX,
    ensures
        r.0 == new_start(*op),
        r.1 == new_end(*op),
{
    match *op {
        DiffOp::Equal { new_index, len, .. } => (new_index, new_index + len),
        DiffOp::Delete { new_index, .. } => (new_index, new_index),
        DiffOp::Insert { new_index, new_len, .. } => (new_index, new_index + new_len),
        DiffOp::Replace { new_index, new_len, .. } => (new_index, new_index + new_len),
    }
}

/// The numbers in the header of a group, and `None` for an empty group.
pub fn hunk_header(group: &Vec<DiffOp>) -> (r: Option<(usize, usize, usize, usize)>)
    requires
        forall|k: int|
            0 <= k < group@.len() ==> within(
                #[trigger] group@[k],
                usize::MAX as int,
                usize::MAX as int,
            ),
        group@.len() > 0 ==> old_start(group@.first()) < usize::MAX && new_start(group@.first())
            < usize::MAX,
    ensures
        r is None <==> group@.len() == 0,
        r matches Some(h) ==> (h.0 as int, h.1 as int, h.2 as int, h.3 as int) == header_numbers(
            group@,
        ),
{
    if group.len() == 0 {
        return None;
    }
    let first = &group[0];
    let last = &group[group.len() - 1];
    assert(within(group@[0], usize::MAX as int, usize::MAX as int));
    assert(within(group@[group@.len() - 1], usize::MAX as int, usize::MAX as int));
    let (old_from, _) = old_range(first);
    let (new_from, _) = new_range(first);
    let (_, old_to) = old_range(last);
    let (_, new_to) = new_range(last);
    let old_count: usize = if old_to > old_from {
        old_to - old_from
    } else {
        1
    };
    let new_count: usize = if new_to > new_from {
        new_to - new_from
    } else {
        1
    };
    Some((old_from + 1, new_from + 1, old_count, new_count))
}

/// The header line of a group that is not empty.
fn header_line(h: (usize, usize, usize, usize)) -> (l: Line)
    ensures
        l@ == styled_line(
            "@@ -"@ + decimal(h.0 as int) + ","@ + decimal(h.2 as int) + " +"@ + decimal(
                h.1 as int,
            ) + ","@ + decimal(h.3 as int) + " @@"@,
            bold_style(Color::Cyan),
        ),
{
    let mut s = text("@@ -");
    push_decimal(&mut s, h.0 as u64);
    s.append(",");
    push_decimal(&mut s, h.2 as u64);
    s.append(" +");
    push_decimal(&mut s, h.1 as u64);
    s.append(",");
    push_decimal(&mut s, h.3 as u64);
    s.append(" @@");
    Line::styled(s, Style::bold(Color::Cyan))
}

/// The line that shows one change.
fn shown_change(tag: ChangeTag, content: &str) -> (l: Line)
    ensures
        l@ == change_line(ChangeView { tag, content: content@ }),
{
    let (c, style) = match tag {
        ChangeTag::Delete => ('-', Style::fg_bg(Color::Red, Color::Rgb(40, 0, 0))),
        ChangeTag::Insert => ('+', Style::fg_bg(Color::Green, Color::Rgb(0, 40, 0))),
        ChangeTag::Equal => (' ', Style::fg(Color::DarkGray)),
    };
    let v = chars_of(content);
    let mut n: usize = v.len();
    if n > 0 && v[n - 1] == '\n' {
        n = n - 1;
        if n > 0 && v[n - 1] == '\r' {
            n = n - 1;
        }
    }
    let body = string_of(&v, 0, n);
    assert(body@ == chomped(content@));
    let mut s = String::new();
    s.push(c);
    s.append(body.as_str());
    assert(s@ == seq![mark(tag)] + chomped(content@));
    Line::styled(s, style)
}

/// The lines that show one step.
fn shown_op(op: &DiffOp, old: &Vec<&str>, new: &Vec<&str>) -> (r: Vec<Line>)
    requires
        within(*op, old@.len() as int, new@.len() as int),
    ensures
        line_views(r@) == change_lines(op_changes(*op, slices(old@), slices(new@))),
{
    let changes = iter_changes(op, old, new);
    let ghost cs = change_views(changes@);
    let mut r: Vec<Line> = Vec::new();
    let mut i: usize = 0;
    while i < changes.len()
        invariant
            i <= changes@.len(),
            cs == change_views(changes@),
            line_views(r@) == change_lines(cs).take(i as int),
        decreases changes@.len() - i,
    {
        push_line(&mut r, shown_change(changes[i].0, changes[i].1.as_str()));
        assert(change_lines(cs)[i as int] == change_line(cs[i as int]));
        assert(change_lines(cs).take(i + 1) == change_lines(cs).take(i as int).push(
            change_line(cs[i as int]),
        ));
        i = i + 1;
    }
    assert(change_lines(cs).take(i as int) == change_lines(cs));
    r
}

/// The lines that show one group.
fn shown_group(group: &Vec<DiffOp>, old: &Vec<&str>, new: &Vec<&str>) -> (r: Vec<Line>)
    requires
        forall|k: int|
            0 <= k < group@.len() ==> within(
                #[trigger] group@[k],
                old@.len() as int,
                new@.len() as int,
            ),
        old@.len() < usize::MAX,
        new@.len() < usize::MAX,
    ensures
        line_views(r@) == group_lines(group@, slices(old@), slices(new@)),
{
    let ghost o = slices(old@);
    let ghost n = slices(new@);
    let mut r: Vec<Line> = Vec::new();
    assert forall|k: int| 0 <= k < group@.len() implies within(
        #[trigger] group@[k],
        usize::MAX as int,
        usize::MAX as int,
    ) by {
        assert(within(group@[k], old@.len() as int, new@.len() as int));
    }
    if let Some(h) = hunk_header(group) {
        push_line(&mut r, header_line(h));
    }
    let ghost head = line_views(r@);
    let mut i: usize = 0;
    assert(head + op_lines(group@.take(0), o, n) == head);
    while i < group.len()
        invariant
            i <= group@.len(),
            forall|k: int|
                0 <= k < group@.len() ==> within(
                    #[trigger] group@[k],
                    old@.len() as int,
                    new@.len() as int,
                ),
            o == slices(old@),
            n == slices(new@),
            line_views(r@) == head + op_lines(group@.take(i as int), o, n),
        decreases group@.len() - i,
    {
        proof {
            assert(group@.take(i + 1).drop_last() == group@.take(i as int));
            assert(group@.take(i + 1).last() == group@[i as int]);
        }
        append_lines(&mut r, shown_op(&group[i], old, new));
        i = i + 1;
    }
    assert(group@.take(i as int) == group@);
    r
}

/// The lines that show the groups of steps from some old lines to some new ones.
pub fn hunk_lines(groups: &Vec<Vec<DiffOp>>, old: &Vec<&str>, new: &Vec<&str>) -> (r: Vec<Line>)
    requires
        all_within(group_views(groups@), old@.len() as int, new@.len() as int),
        old@.len() < usize::MAX,
        new@.len() < usize::MAX,
    ensures
        line_views(r@) == hunk_views(group_views(groups@), slices(old@), slices(new@)),
{
    let ghost gs = group_views(groups@);
    let ghost o = slices(old@);
    let ghost n = slices(new@);
    let mut r: Vec<Line> = Vec::new();
    let mut i: usize = 0;
    while i < groups.len()
        invariant
            i <= groups@.len(),
            gs == group_views(groups@),
            o == slices(old@),
            n == slices(new@),
            all_within(gs, old@.len() as int, new@.len() as int),
            old@.len() < usize::MAX,
            new@.len() < usize::MAX,
            line_views(r@) == hunk_views(gs.take(i as int), o, n),
        decreases groups@.len() - i,
    {
        proof {
            assert(gs.take(i + 1).drop_last() == gs.take(i as int));
            assert(gs.take(i + 1).last() == groups@[i as int]@);
            assert forall|k: int| 0 <= k < groups@[i as int]@.len() implies within(
                #[trigger] groups@[i as int]@[k],
                old@.len() as int,
                new@.len() as int,
            ) by {
                assert(within(gs[i as int][k], old@.len() as int, new@.len() as int));
            }
        }
        if i > 0 {
            push_line(&mut r, Line::empty());
        }
        append_lines(&mut r, shown_group(&groups[i], old, new));
        proof {
            if i == 0 {
                assert(line_views(r@) == group_lines(gs[0], o, n));
            }
        }
        i = i + 1;
    }
    assert(gs.take(i as int) == gs);
    r
}

/// The lines, put together again.
pub open spec fn rejoined(lines: Seq<Seq<char>>) -> Seq<char>
    decreases lines.len(),
{
    if lines.len() == 0 {
        seq![]
    } else {
        lines[0] + rejoined(lines.skip(1))
    }
}

/// Cutting a text into lines loses nothing: put together again, they are the text. So texts
/// with the same lines are the same.
pub proof fn law_lines_rejoined(s: Seq<char>)
    ensures
        rejoined(line_tokens(s)) == s,
    decreases s.len(),
{
    if s.len() > 0 {
        lemma_token_len(s);
        let n = token_len(s) as int;
        law_lines_rejoined(s.skip(n));
        assert(line_tokens(s).skip(1) == line_tokens(s.skip(n)));
        assert(s.take(n) + s.skip(n) == s);
    }
}

proof fn lemma_nothing_shown(
    groups: Seq<Seq<DiffOp>>,
    old: Seq<Seq<char>>,
    new: Seq<Seq<char>>,
)
    requires
        hunk_views(groups, old, new).len() == 0,
    ensures
        made_groups(groups, old, new) == (Seq::<Seq<char>>::empty(), 0int),
    decreases groups.len(),
{
    if groups.len() == 1 {
        assert(groups.drop_last() == Seq::<Seq<DiffOp>>::empty());
        assert(groups.last() == groups[0]);
        reveal_with_fuel(made_groups, 2);
    }
}

/// A line as it is shown: without its terminator.
pub open spec fn shown_line(l: Seq<char>) -> Seq<char> {
    chomped(terminated(l))
}

/// The lines that a run stands for, as they are shown.
pub open spec fn shown_run(lines: Seq<Seq<char>>, run: Option<(int, int)>) -> Seq<Seq<char>> {
    match run {
        Some((from, to)) => lines.subrange(from, to).map_values(|l: Seq<char>| shown_line(l)),
        None => seq![],
    }
}

/// The texts of the shown lines that are not under the mark `other`, each without its mark.
pub open spec fn side(ls: Seq<LineView>, other: char) -> Seq<Seq<char>>
    decreases ls.len(),
{
    if ls.len() == 0 {
        seq![]
    } else {
        let content = ls.last()[0].content;
        let before = side(ls.drop_last(), other);
        if content[0] == other {
            before
        } else {
            before.push(content.skip(1))
        }
    }
}

/// The lines of a group show both texts: without those marked as new they are the old lines that
/// the group has, one after the other, and without those marked as gone the new ones.
pub open spec fn shows_both(ops: Seq<DiffOp>, old: Seq<Seq<char>>, new: Seq<Seq<char>>) -> bool {
    &&& side(op_lines(ops, old, new), '+') == shown_run(old, old_run(ops))
    &&& side(op_lines(ops, old, new), '-') == shown_run(new, new_run(ops))
}

proof fn lemma_side_concat(a: Seq<LineView>, b: Seq<LineView>, other: char)
    ensures
        side(a + b, other) == side(a, other) + side(b, other),
    decreases b.len(),
{
    if b.len() == 0 {
        assert(a + b == a);
        assert(side(a, other) + side(b, other) == side(a, other));
    } else {
        lemma_side_concat(a, b.drop_last(), other);
        assert((a + b).drop_last() == a + b.drop_last());
        assert((a + b).last() == b.last());
        assert(side(a + b, other) == side(a, other) + side(b, other));
    }
}

proof fn lemma_side_tagged(tag: ChangeTag, lines: Seq<Seq<char>>, other: char)
    ensures
        side(change_lines(tagged(tag, lines)), other) == if mark(tag) == other {
            seq![]
        } else {
            lines.map_values(|l: Seq<char>| shown_line(l))
        },
    decreases lines.len(),
{
    let ls = change_lines(tagged(tag, lines));
    let f = |l: Seq<char>| shown_line(l);
    if lines.len() > 0 {
        let front = lines.drop_last();
        lemma_side_tagged(tag, front, other);
        assert(ls.drop_last() == change_lines(tagged(tag, front)));
        let text = chomped(terminated(lines.last()));
        assert(ls.last()[0].content == seq![mark(tag)] + text);
        assert((seq![mark(tag)] + text).skip(1) == text);
        assert(lines.map_values(f) == front.map_values(f).push(text));
    } else {
        assert(lines.map_values(f) == Seq::<Seq<char>>::empty());
    }
}

proof fn lemma_runs(ops: Seq<DiffOp>, old: int, new: int)
    requires
        joined_up(ops),
        forall|k: int| 0 <= k < ops.len() ==> within(#[trigger] ops[k], old, new),
    ensures
        old_run(ops) matches Some((from, to)) ==> 0 <= from <= to <= old,
        new_run(ops) matches Some((from, to)) ==> 0 <= from <= to <= new,
    decreases ops.len(),
{
    if ops.len() > 0 {
        let front = ops.drop_last();
        assert forall|k: int| 0 <= k < front.len() implies within(#[trigger] front[k], old, new) by {
            assert(front[k] == ops[k]);
        }
        lemma_runs(front, old, new);
        assert(within(ops[ops.len() - 1], old, new));
    }
}

/// Lines of a run, and then those up to a later place.
proof fn lemma_run_grows(lines: Seq<Seq<char>>, run: Option<(int, int)>, from: int, to: int)
    requires
        0 <= from <= to <= lines.len(),
        run matches Some((a, b)) ==> 0 <= a <= b && b == from,
    ensures
        shown_run(lines, run) + shown_run(lines, Some((from, to))) == shown_run(
            lines,
            match run {
                Some((a, _)) => Some((a, to)),
                None => Some((from, to)),
            },
        ),
{
    match run {
        Some((a, b)) => {
            assert(lines.subrange(a, b) + lines.subrange(b, to) == lines.subrange(a, to));
            assert(shown_run(lines, run) + shown_run(lines, Some((from, to))) =~= shown_run(
                lines,
                Some((a, to)),
            ));
        },
        None => {
            assert(shown_run(lines, run) + shown_run(lines, Some((from, to))) =~= shown_run(
                lines,
                Some((from, to)),
            ));
        },
    }
}

/// A hunk shows both texts: its shared and its gone lines, in a row, are a stretch of the old
/// lines, and its shared and its new lines are a stretch of the new lines.
pub proof fn law_hunk_shows_both(ops: Seq<DiffOp>, old: Seq<Seq<char>>, new: Seq<Seq<char>>)
    requires
        joined_up(ops),
        forall|k: int|
            0 <= k < ops.len() ==> within(
                #[trigger] ops[k],
                old.len() as int,
                new.len() as int,
            ) && equal_lines(ops[k], old, new),
    ensures
        shows_both(ops, old, new),
    decreases ops.len(),
{
    if ops.len() > 0 {
        let front = ops.drop_last();
        let op = ops[ops.len() - 1];
        assert(ops.last() == op);
        assert forall|k: int| 0 <= k < front.len() implies within(
            #[trigger] front[k],
            old.len() as int,
            new.len() as int,
        ) && equal_lines(front[k], old, new) by {
            assert(front[k] == ops[k]);
        }
        law_hunk_shows_both(front, old, new);
        lemma_runs(front, old.len() as int, new.len() as int);
        let gone = old.subrange(old_start(op), old_end(op));
        let came = new.subrange(new_start(op), new_end(op));
        let before = op_lines(front, old, new);
        let here = change_lines(op_changes(op, old, new));
        lemma_side_concat(before, here, '+');
        lemma_side_concat(before, here, '-');
        match op {
            DiffOp::Equal { .. } => {
                lemma_side_tagged(ChangeTag::Equal, gone, '+');
                lemma_side_tagged(ChangeTag::Equal, gone, '-');
                lemma_run_grows(old, old_run(front), old_start(op), old_end(op));
                lemma_run_grows(new, new_run(front), new_start(op), new_end(op));
            },
            DiffOp::Delete { .. } => {
                lemma_side_tagged(ChangeTag::Delete, gone, '+');
                lemma_side_tagged(ChangeTag::Delete, gone, '-');
                lemma_run_grows(old, old_run(front), old_start(op), old_end(op));
                assert(side(before, '-') + Seq::<Seq<char>>::empty() == side(before, '-'));
            },
            DiffOp::Insert { .. } => {
                lemma_side_tagged(ChangeTag::Insert, came, '+');
                lemma_side_tagged(ChangeTag::Insert, came, '-');
                lemma_run_grows(new, new_run(front), new_start(op), new_end(op));
                assert(side(before, '+') + Seq::<Seq<char>>::empty() == side(before, '+'));
            },
            DiffOp::Replace { .. } => {
                let out = change_lines(tagged(ChangeTag::Delete, gone));
                let into = change_lines(tagged(ChangeTag::Insert, came));
                assert(here == out + into);
                lemma_side_concat(out, into, '+');
                lemma_side_concat(out, into, '-');
                lemma_side_tagged(ChangeTag::Delete, gone, '+');
                lemma_side_tagged(ChangeTag::Delete, gone, '-');
                lemma_side_tagged(ChangeTag::Insert, came, '+');
                lemma_side_tagged(ChangeTag::Insert, came, '-');
                lemma_run_grows(old, old_run(front), old_start(op), old_end(op));
                lemma_run_grows(new, new_run(front), new_start(op), new_end(op));
                assert(side(out, '+') + Seq::<Seq<char>>::empty() == side(out, '+'));
                assert(Seq::<Seq<char>>::empty() + side(into, '-') == side(into, '-'));
            },
        }
    } else {
        assert(shows_both(ops, old, new));
    }
}

/// The shown line is shared: it is under no mark but the blank.
pub open spec fn unmarked(l: LineView) -> bool {
    l[0].content[0] == ' '
}

/// All lines from `i` up to `j` are shared.
pub open spec fn stretch(ls: Seq<LineView>, i: int, j: int) -> bool {
    0 <= i <= j <= ls.len() && forall|k: int| i <= k < j ==> unmarked(#[trigger] ls[k])
}

/// The lines are about changes: some line is marked, no more than twice `context` shared lines
/// follow each other, and no more than `context` stand before the first marked line or after
/// the last one.
pub open spec fn changes_only(ls: Seq<LineView>, context: nat) -> bool {
    &&& exists|k: int| 0 <= k < ls.len() && !unmarked(#[trigger] ls[k])
    &&& forall|i: int, j: int| #[trigger]
        stretch(ls, i, j) ==> {
            &&& j - i <= 2 * context
            &&& i == 0 ==> j <= context
            &&& j == ls.len() ==> j - i <= context
        }
}

proof fn lemma_block(op: DiffOp, old: Seq<Seq<char>>, new: Seq<Seq<char>>)
    requires
        within(op, old.len() as int, new.len() as int),
        op is Equal || busy(op),
    ensures
        ({
            let block = change_lines(op_changes(op, old, new));
            if op is Equal {
                &&& block.len() == shared(op)
                &&& forall|k: int| 0 <= k < block.len() ==> unmarked(#[trigger] block[k])
            } else {
                &&& block.len() > 0
                &&& forall|k: int| 0 <= k < block.len() ==> !unmarked(#[trigger] block[k])
            }
        }),
{
    let changes = op_changes(op, old, new);
    let block = change_lines(changes);
    assert forall|k: int| 0 <= k < block.len() implies unmarked(#[trigger] block[k]) == (
    changes[k].tag == ChangeTag::Equal) by {
        assert(block[k] == change_line(changes[k]));
    }
}

/// The bounds on stretches of shared lines, over the first steps of a group.
proof fn lemma_stretches(
    ops: Seq<DiffOp>,
    old: Seq<Seq<char>>,
    new: Seq<Seq<char>>,
    context: nat,
)
    requires
        forall|k: int|
            0 <= k < ops.len() ==> within(
                #[trigger] ops[k],
                old.len() as int,
                new.len() as int,
            ) && (ops[k] is Equal || busy(ops[k])) && shared(ops[k]) <= 2 * context,
        forall|k: int|
            0 <= k < ops.len() - 1 ==> !((#[trigger] ops[k]) is Equal) || !(ops[k + 1] is Equal),
        ops.len() > 0 ==> shared(ops.first()) <= context,
    ensures
        ({
            let ls = op_lines(ops, old, new);
            &&& ops.len() > 0 && !(ops.last() is Equal) ==> ls.len() > 0 && !unmarked(ls.last())
            &&& forall|i: int, j: int| #[trigger]
                stretch(ls, i, j) ==> {
                    &&& j - i <= 2 * context
                    &&& i == 0 ==> j <= context
                    &&& j == ls.len() && ops.len() > 0 ==> j - i <= shared(ops.last())
                }
        }),
    decreases ops.len(),
{
    let ls = op_lines(ops, old, new);
    if ops.len() > 0 {
        let front = ops.drop_last();
        let op = ops[ops.len() - 1];
        assert forall|k: int| 0 <= k < front.len() implies within(
            #[trigger] front[k],
            old.len() as int,
            new.len() as int,
        ) && (front[k] is Equal || busy(front[k])) && shared(front[k]) <= 2 * context by {
            assert(front[k] == ops[k]);
        }
        assert forall|k: int| 0 <= k < front.len() - 1 implies !((#[trigger] front[k]) is Equal)
            || !(front[k + 1] is Equal) by {
            assert(front[k] == ops[k] && front[k + 1] == ops[k + 1]);
        }
        lemma_stretches(front, old, new, context);
        lemma_block(op, old, new);
        let before = op_lines(front, old, new);
        let block = change_lines(op_changes(op, old, new));
        let n = before.len() as int;
        assert(ls == before + block);
        if !(op is Equal) {
            assert(ls.last() == block[block.len() - 1]);
        }
        if op is Equal && front.len() > 0 {
            assert(!(ops[ops.len() - 2] is Equal) || !(ops[ops.len() - 2 + 1] is Equal));
            assert(front.last() == ops[ops.len() - 2]);
        }
        assert forall|i: int, j: int| #[trigger] stretch(ls, i, j) implies {
            &&& j - i <= 2 * context
            &&& i == 0 ==> j <= context
            &&& j == ls.len() ==> j - i <= shared(op)
        } by {
            if j > n && i < j {
                assert(ls[j - 1] == block[j - 1 - n]);
                assert(unmarked(ls[j - 1]));
                if i < n {
                    assert(ls[n - 1] == before[n - 1]);
                    assert(unmarked(ls[n - 1]));
                }
                assert(i >= n);
            } else if i < j {
                assert(stretch(before, i, j)) by {
                    assert forall|k: int| i <= k < j implies unmarked(#[trigger] before[k]) by {
                        assert(ls[k] == before[k]);
                    }
                }
                if j == ls.len() {
                    assert(block.len() == 0);
                }
            }
        }
    }
}

/// A hunk shows changed regions only: the lines of a group that is about changes are.
pub proof fn law_hunk_changes_only(
    ops: Seq<DiffOp>,
    old: Seq<Seq<char>>,
    new: Seq<Seq<char>>,
    context: nat,
)
    requires
        trimmed(ops, context),
        forall|k: int|
            0 <= k < ops.len() ==> within(#[trigger] ops[k], old.len() as int, new.len() as int),
    ensures
        changes_only(op_lines(ops, old, new), context),
{
    lemma_stretches(ops, old, new, context);
    let m = choose|k: int| 0 <= k < ops.len() && !((#[trigger] ops[k]) is Equal);
    lemma_marked(ops, old, new, m);
}

proof fn lemma_marked(ops: Seq<DiffOp>, old: Seq<Seq<char>>, new: Seq<Seq<char>>, m: int)
    requires
        0 <= m < ops.len(),
        busy(ops[m]),
        within(ops[m], old.len() as int, new.len() as int),
    ensures
        exists|k: int|
            0 <= k < op_lines(ops, old, new).len() && !unmarked(
                #[trigger] op_lines(ops, old, new)[k],
            ),
    decreases ops.len(),
{
    let ls = op_lines(ops, old, new);
    let before = op_lines(ops.drop_last(), old, new);
    let block = change_lines(op_changes(ops.last(), old, new));
    assert(ls == before + block);
    if m == ops.len() - 1 {
        lemma_block(ops[m], old, new);
        assert(ls[before.len() as int] == block[0]);
    } else {
        assert(ops.drop_last()[m] == ops[m]);
        lemma_marked(ops.drop_last(), old, new, m);
        let k = choose|k: int| 0 <= k < before.len() && !unmarked(#[trigger] before[k]);
        assert(ls[k] == before[k]);
    }
}

/// Where twice the context covers all lines of one of the texts, there is one hunk at most.
pub proof fn law_wide_context_gives_one_hunk(
    groups: Seq<Seq<DiffOp>>,
    old: int,
    new: int,
    context: nat,
)
    requires
        all_within(groups, old, new),
        forall|g: int|
            0 <= g < groups.len() - 1 ==> parted(#[trigger] groups[g], groups[g + 1], context),
        old <= 2 * context || new <= 2 * context,
    ensures
        groups.len() <= 1,
{
    if groups.len() > 1 {
        let a = groups[0];
        let b = groups[1];
        assert(parted(a, b, context));
        assert(within(groups[1][0], old, new));
        assert(within(groups[0][a.len() - 1], old, new));
    }
}

/// Whether two texts have few enough lines to be compared.
pub fn comparable(old: &str, new: &str) -> (b: bool)
    ensures
        b == diffable(old@, new@),
{
    let a = tokenize_lines(old);
    let b = tokenize_lines(new);
    assert(slices(a@).len() == a@.len());
    assert(slices(b@).len() == b@.len());
    let most: usize = u32::MAX as usize;
    a.len() < most && b.len() < most - a.len()
}

/// Build lines for a git-style unified hunk view (changed regions only).
/// Returns an empty vec when `old` and `new` are identical.
pub fn diff_lines(old: &str, new: &str, context: usize) -> (r: Vec<Line>)
    requires
        2 * context <= usize::MAX,
        diffable(old@, new@),
    ensures
        line_views(r@) == diff_view(old@, new@, context as nat),
        r@.len() == 0 <==> old@ == new@,
        all_faithful(line_views(r@), line_tokens(old@), line_tokens(new@)),
        old@ != new@ ==> patched(
            similar_grouped_ops(old@, new@, context as nat),
            line_tokens(old@),
            line_tokens(new@),
        ) == line_tokens(new@),
        forall|g: int|
            0 <= g < similar_grouped_ops(old@, new@, context as nat).len() && old@ != new@
                ==> shows_both(
                #[trigger] similar_grouped_ops(old@, new@, context as nat)[g],
                line_tokens(old@),
                line_tokens(new@),
            ) && changes_only(
                op_lines(
                    similar_grouped_ops(old@, new@, context as nat)[g],
                    line_tokens(old@),
                    line_tokens(new@),
                ),
                context as nat,
            ),
        old@ != new@ && (line_tokens(old@).len() <= 2 * context || line_tokens(new@).len() <= 2
            * context) ==> similar_grouped_ops(old@, new@, context as nat).len() == 1,
{
    if same_text(old, new) {
        return Vec::new();
    }
    let groups = grouped_ops(old, new, context);
    let old_lines = tokenize_lines(old);
    let new_lines = tokenize_lines(new);
    proof {
        let gs = group_views(groups@);
        assert forall|g: int, k: int| 0 <= g < gs.len() && 0 <= k < gs[g].len() implies equal_lines(
            #[trigger] gs[g][k],
            line_tokens(old@),
            line_tokens(new@),
        ) by {
            assert(gs[g][k] == groups@[g]@[k]);
        }
        law_hunks_faithful(gs, line_tokens(old@), line_tokens(new@));
        assert forall|g: int| 0 <= g < gs.len() implies shows_both(
            #[trigger] gs[g],
            line_tokens(old@),
            line_tokens(new@),
        ) && changes_only(
            op_lines(gs[g], line_tokens(old@), line_tokens(new@)),
            context as nat,
        ) by {
            assert(gs[g] == groups@[g]@);
            assert forall|k: int| 0 <= k < gs[g].len() implies within(
                #[trigger] gs[g][k],
                line_tokens(old@).len() as int,
                line_tokens(new@).len() as int,
            ) && equal_lines(gs[g][k], line_tokens(old@), line_tokens(new@)) by {}
            law_hunk_shows_both(gs[g], line_tokens(old@), line_tokens(new@));
            law_hunk_changes_only(gs[g], line_tokens(old@), line_tokens(new@), context as nat);
        }
        assert forall|g: int| 0 <= g < gs.len() - 1 implies parted(
            #[trigger] gs[g],
            gs[g + 1],
            context as nat,
        ) by {
            assert(gs[g] == groups@[g]@ && gs[g + 1] == groups@[g + 1]@);
        }
        if line_tokens(old@).len() <= 2 * context || line_tokens(new@).len() <= 2 * context {
            law_wide_context_gives_one_hunk(
                gs,
                line_tokens(old@).len() as int,
                line_tokens(new@).len() as int,
                context as nat,
            );
        }
        if hunk_views(gs, line_tokens(old@), line_tokens(new@)).len() == 0 {
            lemma_nothing_shown(gs, line_tokens(old@), line_tokens(new@));
            assert(patched(gs, line_tokens(old@), line_tokens(new@)) == line_tokens(old@));
            law_lines_rejoined(old@);
            law_lines_rejoined(new@);
        }
    }
    let r = hunk_lines(&groups, &old_lines, &new_lines);
    assert(line_views(r@).len() == r@.len());
    r
}

} // verus!
