//! What holds of previews, with the caps in figures.
use vstd::prelude::*;

use crate::preview::{
    capped_bytes, capped_content, first_lines, law_preview_is_prefix, lemma_first_lines,
    lemma_line_len_reaches, lemma_newlines_concat, lemma_no_newlines, line_end, loaded,
    newlines, preview_of, shown_files,
};
use crate::text::{line_len, lines, utf8_lossy_text};

verus! {

/// Of a file the first 524288 bytes are read, and all of them; of the files the first 40 are
/// shown, and all of those.
pub proof fn law_caps(raw: Seq<u8>, files: Seq<Seq<u8>>)
    ensures
        raw.len() <= 524288 ==> capped_bytes(raw) == raw,
        raw.len() > 524288 ==> capped_bytes(raw) == raw.subrange(0, 524288),
        files.len() <= 40 ==> shown_files(files) == files,
        files.len() > 40 ==> shown_files(files) == files.subrange(0, 40),
{
}

/// A text of up to 2000 lines is shown as it is. Of a longer one exactly the first 2000 lines
/// are: what is shown is a part from its start on, with a newline after each line but the last,
/// and the last one reaches to its line end, which is shown too where the whole text ends with a
/// newline.
pub proof fn law_line_cap(t: Seq<char>)
    ensures
        lines(t).len() <= 2000 ==> capped_content(t) == t,
        lines(t).len() > 2000 ==> {
            let shown = capped_content(t);
            let n = shown.len() as int;
            &&& n <= t.len()
            &&& shown == t.take(n)
            &&& t.last() == '\n' ==> newlines(shown) == 2000 && shown.last() == '\n'
            &&& t.last() != '\n' ==> {
                &&& newlines(shown) == 1999
                &&& n < t.len()
                &&& t[n] == '\n' || (n + 1 < t.len() && t[n] == '\r' && t[n + 1] == '\n')
                &&& t[n] == '\n' ==> n == 0 || t[n - 1] != '\r'
            }
        },
{
    if lines(t).len() > 2000 {
        let body = first_lines(t, 2000);
        let end = body.len() as int;
        lemma_first_lines(t, 2000);
        lemma_no_return(t, 2000);
        let to = end + line_end(t, end);
        let tail = t.subrange(end, to);
        assert(t.take(to) == body + tail);
        lemma_newlines_concat(body, tail);
        assert(tail.last() == '\n');
        lemma_no_newlines(tail.drop_last());
        law_preview_is_prefix(t);
    }
}

/// The first lines of a longer text do not end with a carriage return that belongs to the line
/// end after them.
proof fn lemma_no_return(t: Seq<char>, n: nat)
    requires
        0 < n < lines(t).len(),
    ensures
        ({
            let end = first_lines(t, n).len() as int;
            &&& end < t.len()
            &&& t[end] == '\n' && end > 0 ==> t[end - 1] != '\r'
        }),
    decreases n,
{
    lemma_line_len_reaches(t);
    let k = line_len(t) as int;
    let head = t.take(k);
    if n == 1 {
        if k > 0 {
            assert(head.last() == t[k - 1]);
        }
    } else {
        let rest = t.skip(k + 1);
        lemma_no_return(rest, (n - 1) as nat);
        let more = first_lines(rest, (n - 1) as nat).len() as int;
        assert(rest[more] == t[k + 1 + more]);
        if more > 0 {
            assert(rest[more - 1] == t[k + more]);
        }
    }
}

/// The preview of a file has its path, the first lines of the text that its first bytes make, and
/// a flag that tells whether bytes or lines were left out or the text is broken.
pub proof fn law_loaded(path: Seq<u8>, raw: Seq<u8>)
    ensures
        ({
            let t = utf8_lossy_text(capped_bytes(raw));
            let p = loaded(path, raw);
            &&& p.path == path
            &&& p.content == capped_content(t)
            &&& p.truncated <==> raw.len() > 524288 || lines(t).len() > 2000 || exists|i: int|
                0 <= i < t.len() && #[trigger] t[i] == '\u{FFFD}'
        }),
{
}

/// The preview of a text has the path, the text within its cap, and a flag that tells whether
/// something was cut before, is cut now or is broken.
pub proof fn law_preview_of(path: Seq<u8>, t: Seq<char>, cut: bool)
    ensures
        preview_of(path, t, cut).path == path,
        preview_of(path, t, cut).content == capped_content(t),
        preview_of(path, t, cut).truncated <==> cut || lines(t).len() > 2000 || exists|i: int|
            0 <= i < t.len() && #[trigger] t[i] == '\u{FFFD}',
{
}

} // verus!
