//! Escaping of pasted text for the sed expression line.
use vstd::prelude::*;

verus! {

/// What one pasted character becomes in the expression.
pub open spec fn escaped_char(c: char) -> Seq<char> {
    if c == '\\' {
        seq!['\\', '\\']
    } else if c == '/' {
        seq!['\\', '/']
    } else if c == '&' {
        seq!['\\', '&']
    } else if c == '\n' {
        seq!['\\', 'n']
    } else if c == '\r' {
        seq![]
    } else {
        seq![c]
    }
}

/// What a pasted text becomes: its characters escaped one by one, in order.
pub open spec fn escaped(raw: Seq<char>) -> Seq<char>
    decreases raw.len(),
{
    if raw.len() == 0 {
        seq![]
    } else {
        escaped(raw.drop_last()) + escaped_char(raw.last())
    }
}

/// Escape pasted text so it can sit safely inside a sed `s///` (or similar) expression.
///
/// Escapes `\`, `/` (default delimiter), and `&` (replacement metacharacter), and turns
/// newlines into `\n` so a multi-line paste stays on the single-line expression bar.
pub fn escape_sed_paste(raw: &str) -> (out: String)
    ensures
        out@ == escaped(raw@),
{
    let mut out = String::new();
    for ch in it: raw.chars()
        invariant
            it.seq() == raw@,
            out@ == escaped(raw@.take(it.index() as int)),
    {
        let ghost i: int = it.index() as int;
        proof {
            assert(raw@.take(i + 1).drop_last() == raw@.take(i));
            assert(raw@.take(i + 1).last() == ch);
        }
        if ch == '\\' {
            out.push('\\');
            out.push('\\');
        } else if ch == '/' {
            out.push('\\');
            out.push('/');
        } else if ch == '&' {
            out.push('\\');
            out.push('&');
        } else if ch == '\n' {
            out.push('\\');
            out.push('n');
        } else if ch == '\r' {
        } else {
            out.push(ch);
        }
        assert(out@ == escaped(raw@.take(i)) + escaped_char(ch));
    }
    assert(raw@.take(raw@.len() as int) == raw@);
    out
}

/// The text that an escaped expression fragment stands for: a backslash takes the next
/// character with it, `\n` is a newline, and every other character stands for itself.
pub open spec fn unescaped(s: Seq<char>) -> Seq<char>
    decreases s.len(),
{
    if s.len() == 0 {
        seq![]
    } else if s[0] == '\\' && s.len() >= 2 {
        seq![if s[1] == 'n' { '\n' } else { s[1] }] + unescaped(s.skip(2))
    } else {
        seq![s[0]] + unescaped(s.skip(1))
    }
}

/// Reading from the left, where a backslash takes the next character with it, no delimiter
/// and no replacement metacharacter is met bare, and every backslash has a character to take:
/// a backslash, a delimiter, a replacement metacharacter or an `n`.
pub open spec fn sits_safely(s: Seq<char>) -> bool
    decreases s.len(),
{
    if s.len() == 0 {
        true
    } else if s[0] == '\\' {
        s.len() >= 2 && (s[1] == '\\' || s[1] == '/' || s[1] == '&' || s[1] == 'n') && sits_safely(
            s.skip(2),
        )
    } else {
        s[0] != '/' && s[0] != '&' && sits_safely(s.skip(1))
    }
}

/// Pasting in two pieces inserts the same text as pasting at once.
pub proof fn law_escape_concat(a: Seq<char>, b: Seq<char>)
    ensures
        escaped(a + b) == escaped(a) + escaped(b),
    decreases b.len(),
{
    if b.len() == 0 {
        assert(a + b == a);
    } else {
        law_escape_concat(a, b.drop_last());
        assert((a + b).drop_last() == a + b.drop_last());
        assert((a + b).last() == b.last());
    }
}

proof fn lemma_escape_first(raw: Seq<char>)
    requires
        raw.len() > 0,
    ensures
        escaped(raw) == escaped_char(raw[0]) + escaped(raw.skip(1)),
{
    let head = seq![raw[0]];
    assert(raw == head + raw.skip(1));
    law_escape_concat(head, raw.skip(1));
    assert(head.drop_last() == Seq::<char>::empty());
    assert(escaped(head.drop_last()) == Seq::<char>::empty());
    assert(escaped(head) == escaped_char(raw[0]));
}

/// An escaped paste stays on one line.
pub proof fn law_escape_single_line(raw: Seq<char>)
    ensures
        !escaped(raw).contains('\n'),
        !escaped(raw).contains('\r'),
    decreases raw.len(),
{
    if raw.len() > 0 {
        law_escape_single_line(raw.drop_last());
        let front = escaped(raw.drop_last());
        let back = escaped_char(raw.last());
        assert forall|i: int| 0 <= i < (front + back).len() implies (front + back)[i] != '\n' && (
        front + back)[i] != '\r' by {
            if i < front.len() {
                assert(front.contains(front[i]));
            }
        }
    }
}

/// An escaped paste can sit inside `s///`: it holds no bare delimiter, no bare replacement
/// metacharacter, no dangling backslash and no escape but those that escaping makes.
pub proof fn law_escape_sits_safely(raw: Seq<char>)
    ensures
        sits_safely(escaped(raw)),
    decreases raw.len(),
{
    if raw.len() > 0 {
        law_escape_sits_safely(raw.skip(1));
        lemma_escape_first(raw);
        let rest = escaped(raw.skip(1));
        let s = escaped_char(raw[0]) + rest;
        if escaped_char(raw[0]).len() == 2 {
            assert(s.skip(2) == rest);
        } else if escaped_char(raw[0]).len() == 1 {
            assert(s.skip(1) == rest);
        } else {
            assert(s == rest);
        }
    }
}

/// Escaping loses nothing but carriage returns: read back, the escaped paste is the pasted
/// text without them.
pub proof fn law_escape_lossless(raw: Seq<char>)
    ensures
        unescaped(escaped(raw)) == raw.filter(|c: char| c != '\r'),
    decreases raw.len(),
{
    let keep = |c: char| c != '\r';
    reveal(Seq::filter);
    if raw.len() > 0 {
        law_escape_lossless(raw.skip(1));
        lemma_escape_first(raw);
        let rest = escaped(raw.skip(1));
        let s = escaped_char(raw[0]) + rest;
        let head = seq![raw[0]];
        assert(raw == head + raw.skip(1));
        Seq::filter_distributes_over_add(head, raw.skip(1), keep);
        assert(head.drop_last() == Seq::<char>::empty());
        assert(head.drop_last().filter(keep) == Seq::<char>::empty());
        if raw[0] == '\r' {
            assert(head.filter(keep) == Seq::<char>::empty());
            assert(s == rest);
        } else if escaped_char(raw[0]).len() == 2 {
            assert(head.filter(keep) == head);
            assert(s.skip(2) == rest);
        } else {
            assert(head.filter(keep) == head);
            assert(s.skip(1) == rest);
        }
    }
}

} // verus!
