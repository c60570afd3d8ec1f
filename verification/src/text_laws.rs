//! What holds of texts, lines and numbers.
use vstd::prelude::*;

use crate::text::{
    blank, decimal, ends_with, lemma_line_len, lines, opt_text, texts, trimmed, trimmed_end,
    trimmed_start, white_space,
};

verus! {

/// The code points that Unicode counts as white space.
pub open spec fn space_code(u: int) -> bool {
    0x9 <= u <= 0xd || u == 0x20 || u == 0x85 || u == 0xa0 || u == 0x1680 || 0x2000 <= u <= 0x200a
        || u == 0x2028 || u == 0x2029 || u == 0x202f || u == 0x205f || u == 0x3000
}

/// Every character of the text is white space.
pub open spec fn all_space(s: Seq<char>) -> bool {
    forall|i: int| 0 <= i < s.len() ==> space_code(#[trigger] s[i] as int)
}

/// A text is blank where all its characters are white space, and only there.
pub proof fn law_blank(s: Seq<char>)
    ensures
        blank(s) <==> all_space(s),
{
    assert forall|i: int| 0 <= i < s.len() implies white_space(#[trigger] s[i]) == space_code(
        s[i] as int,
    ) by {}
}

proof fn lemma_trim_start(before: Seq<char>, rest: Seq<char>)
    requires
        all_space(before),
    ensures
        trimmed_start(before + rest) == trimmed_start(rest),
    decreases before.len(),
{
    if before.len() == 0 {
        assert(before + rest == rest);
    } else {
        let more = before.skip(1);
        assert forall|i: int| 0 <= i < more.len() implies space_code(#[trigger] more[i] as int) by {
            assert(more[i] == before[i + 1]);
        }
        lemma_trim_start(more, rest);
        assert(space_code(before[0] as int));
        assert((before + rest).skip(1) == more + rest);
    }
}

proof fn lemma_trim_end(rest: Seq<char>, after: Seq<char>)
    requires
        all_space(after),
    ensures
        trimmed_end(rest + after) == trimmed_end(rest),
    decreases after.len(),
{
    if after.len() == 0 {
        assert(rest + after == rest);
    } else {
        let more = after.drop_last();
        assert forall|i: int| 0 <= i < more.len() implies space_code(#[trigger] more[i] as int) by {
            assert(more[i] == after[i]);
        }
        lemma_trim_end(rest, more);
        assert(space_code(after[after.len() - 1] as int));
        assert((rest + after).drop_last() == rest + more);
    }
}

/// Trimming takes the white space from both ends and nothing else.
pub proof fn law_trim(before: Seq<char>, core: Seq<char>, after: Seq<char>)
    requires
        all_space(before),
        all_space(after),
        core.len() > 0 ==> !space_code(core[0] as int) && !space_code(core.last() as int),
    ensures
        trimmed(before + core + after) == core,
{
    assert(before + core + after == before + (core + after));
    lemma_trim_start(before, core + after);
    if core.len() > 0 {
        assert(trimmed_start(core + after) == core + after);
        lemma_trim_end(core, after);
    } else {
        assert(core + after == after + core);
        lemma_trim_start(after, core);
        assert(trimmed(before + core + after) == core);
    }
}

/// The last character of a text is the one put there last.
pub proof fn law_ends_with(s: Seq<char>, c: char, d: char)
    ensures
        ends_with(s.push(c), d) <==> c == d,
        !ends_with(Seq::<char>::empty(), d),
{
}

/// A text is its first line, the line end and the other lines; without a line end it is one
/// line, and an empty text has none. A carriage return before the newline belongs to the line
/// end.
pub proof fn law_lines(line: Seq<char>, rest: Seq<char>)
    requires
        forall|i: int| 0 <= i < line.len() ==> line[i] != '\n',
    ensures
        lines(line + seq!['\r', '\n'] + rest) == seq![line] + lines(rest),
        !(line.len() > 0 && line.last() == '\r') ==> lines(line + seq!['\n'] + rest) == seq![line]
            + lines(rest),
        line.len() > 0 ==> lines(line) == seq![line],
        lines(Seq::<char>::empty()) == Seq::<Seq<char>>::empty(),
{
    let n = line.len() as int;
    let a = line + seq!['\r', '\n'] + rest;
    lemma_line_len(a, n + 1);
    assert(a.take(n + 1) == line.push('\r'));
    assert(line.push('\r').drop_last() == line);
    assert(a.skip(n + 2) == rest);
    let b = line + seq!['\n'] + rest;
    lemma_line_len(b, n);
    assert(b.take(n) == line);
    assert(b.skip(n + 1) == rest);
    lemma_line_len(line, n);
}

/// The number that decimal digits stand for.
pub open spec fn value(digits: Seq<char>) -> int
    decreases digits.len(),
{
    if digits.len() == 0 {
        0
    } else {
        value(digits.drop_last()) * 10 + (digits.last() as int - 0x30)
    }
}

/// Every character is a decimal digit.
pub open spec fn all_digits(s: Seq<char>) -> bool {
    forall|i: int| 0 <= i < s.len() ==> 0x30 <= (#[trigger] s[i]) as int <= 0x39
}

/// A number is written with the digits that stand for it, with no zero before them, and a
/// negative one with a minus sign before those of its opposite.
pub proof fn law_decimal(n: int)
    ensures
        n >= 0 ==> {
            &&& decimal(n).len() > 0
            &&& all_digits(decimal(n))
            &&& value(decimal(n)) == n
            &&& n > 0 ==> decimal(n)[0] as int != 0x30
            &&& n == 0 ==> decimal(n).len() == 1
        },
        n < 0 ==> decimal(n) == seq!['-'] + decimal(-n),
    decreases (if n < 0 { 1 - n } else { n }),
{
    if n >= 10 {
        law_decimal(n / 10);
        let front = decimal(n / 10);
        let all = decimal(n);
        assert(all.drop_last() == front);
        assert forall|i: int| 0 <= i < all.len() implies 0x30 <= (#[trigger] all[i]) as int
            <= 0x39 by {
            if i < front.len() {
                assert(all[i] == front[i]);
            }
        }
    } else if n >= 0 {
        let all = decimal(n);
        assert(all.drop_last() == Seq::<char>::empty());
        assert(value(all.drop_last()) == 0);
    }
}

/// The views of texts are the texts.
pub proof fn law_text_views(v: Seq<String>, s: Option<String>)
    ensures
        texts(v).len() == v.len(),
        forall|i: int| 0 <= i < v.len() ==> #[trigger] texts(v)[i] == v[i]@,
        s is None <==> opt_text(s) is None,
        s matches Some(t) ==> opt_text(s) == Some(t@),
{
}

/// White space is what Unicode counts as such.
pub proof fn law_white_space(c: char)
    ensures
        white_space(c) <==> space_code(c as int),
{
}

} // verus!
