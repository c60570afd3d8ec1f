//! File contents, capped for the live preview.
use vstd::prelude::*;
use vstd::utf8::{decode_utf8, valid_utf8};

use crate::path::{clone_paths, path_views, FilePath};
use crate::text::{
    chars_of, ends_with, lemma_line_len, line_len, lines, string_of, text, utf8_lossy,
    utf8_lossy_text, without_cr,
};

verus! {

/// Max lines of one file included in the live preview.
pub const PREVIEW_MAX_LINES: usize = 2_000;

/// Max bytes of one file included in the live preview.
pub const PREVIEW_MAX_BYTES: usize = 524_288;

/// Max files included in the live preview (apply still uses the full list).
pub const PREVIEW_MAX_FILES: usize = 40;

/// What the preview shows of a file.
#[derive(Debug)]
pub struct FilePreview {
    pub path: FilePath,
    pub content: String,
    pub truncated: bool,
}

/// The model of [`FilePreview`].
#[verifier::ext_equal]
pub struct FilePreviewView {
    pub path: Seq<u8>,
    pub content: Seq<char>,
    pub truncated: bool,
}

impl View for FilePreview {
    type V = FilePreviewView;

    open spec fn view(&self) -> FilePreviewView {
        FilePreviewView { path: self.path@, content: self.content@, truncated: self.truncated }
    }
}

impl Clone for FilePreview {
    fn clone(&self) -> (p: FilePreview)
        ensures
            p@ == self@,
    {
        FilePreview {
            path: self.path.clone(),
            content: self.content.clone(),
            truncated: self.truncated,
        }
    }
}

/// The views of previews in a row.
pub open spec fn preview_views(v: Seq<FilePreview>) -> Seq<FilePreviewView> {
    v.map_values(|p: FilePreview| p@)
}

/// The first bytes of a file, as many as a preview may have.
pub open spec fn capped_bytes(raw: Seq<u8>) -> Seq<u8> {
    if raw.len() > PREVIEW_MAX_BYTES {
        raw.take(PREVIEW_MAX_BYTES as int)
    } else {
        raw
    }
}

/// The first `n` lines of a text as they stand there, but for the end of the last of them.
pub open spec fn first_lines(t: Seq<char>, n: nat) -> Seq<char>
    decreases n,
{
    let k = line_len(t) as int;
    if n == 0 {
        seq![]
    } else if k >= t.len() {
        t
    } else if n == 1 {
        without_cr(t.take(k))
    } else {
        t.take(k + 1) + first_lines(t.skip(k + 1), (n - 1) as nat)
    }
}

/// How many characters the line end at a place has: `\r\n` or `\n`.
pub open spec fn line_end(t: Seq<char>, at: int) -> int {
    if t[at] == '\r' {
        2
    } else {
        1
    }
}

/// The content of a preview: the text as it is where it has no more lines than a preview may
/// have. Else the first lines of it, with the end of the last one where the text ends with a
/// newline.
pub open spec fn capped_content(t: Seq<char>) -> Seq<char> {
    let body = first_lines(t, PREVIEW_MAX_LINES as nat);
    if lines(t).len() <= PREVIEW_MAX_LINES {
        t
    } else if ends_with(t, '\n') {
        t.take(body.len() + line_end(t, body.len() as int))
    } else {
        body
    }
}

/// The preview of a file whose bytes, cut short or not, make the text `t`.
pub open spec fn preview_of(path: Seq<u8>, t: Seq<char>, cut: bool) -> FilePreviewView {
    FilePreviewView {
        path,
        content: capped_content(t),
        truncated: cut || t.contains('\u{FFFD}') || lines(t).len() > PREVIEW_MAX_LINES,
    }
}

/// The preview of a file, from the text that its bytes make.
pub fn preview_text(path: FilePath, t: &str, cut: bool) -> (p: FilePreview)
    ensures
        p@ == preview_of(path@, t@, cut),
{
    let v = chars_of(t);
    let mut lossy: bool = false;
    let mut i: usize = 0;
    while i < v.len()
        invariant
            i <= v@.len(),
            v@ == t@,
            lossy == t@.take(i as int).contains('\u{FFFD}'),
        decreases v@.len() - i,
    {
        let ghost seen = t@.take(i as int);
        assert(t@.take(i + 1) == seen.push(v@[i as int]));
        if v[i] == '\u{FFFD}' {
            lossy = true;
            assert(t@.take(i + 1)[i as int] == '\u{FFFD}');
        } else {
            assert(seen.push(v@[i as int]).contains('\u{FFFD}') ==> seen.contains('\u{FFFD}')) by {
                if seen.push(v@[i as int]).contains('\u{FFFD}') {
                    let k = choose|k: int|
                        0 <= k < seen.len() + 1 && seen.push(v@[i as int])[k] == '\u{FFFD}';
                    assert(seen[k] == '\u{FFFD}');
                }
            }
            assert(seen.contains('\u{FFFD}') ==> seen.push(v@[i as int]).contains('\u{FFFD}')) by {
                if seen.contains('\u{FFFD}') {
                    let k = choose|k: int| 0 <= k < seen.len() && seen[k] == '\u{FFFD}';
                    assert(seen.push(v@[i as int])[k] == '\u{FFFD}');
                }
            }
        }
        i = i + 1;
    }
    assert(t@.take(i as int) == t@);
    let end = cut_lines(&v, PREVIEW_MAX_LINES);
    let content = match end {
        None => text(t),
        Some(end) => {
            let to: usize = if v[v.len() - 1] != '\n' {
                end
            } else if v[end] == '\r' {
                end + 2
            } else {
                end + 1
            };
            assert(v@.subrange(0, to as int) == v@.take(to as int));
            string_of(&v, 0, to)
        },
    };
    FilePreview { path, content, truncated: cut || lossy || end.is_some() }
}

/// Where the first `n` lines of a text end, before the end of the last of them; `None` where the
/// text has no more than `n` lines.
fn cut_lines(v: &Vec<char>, n: usize) -> (r: Option<usize>)
    requires
        n > 0,
    ensures
        r is Some <==> lines(v@).len() > n,
        r matches Some(end) ==> {
            &&& end < v@.len()
            &&& v@.take(end as int) == first_lines(v@, n as nat)
            &&& v@[end as int] == '\n' || (v@[end as int] == '\r' && end + 1 < v@.len()
                && v@[end + 1] == '\n')
        },
{
    let mut count: usize = 0;
    let mut start: usize = 0;
    let mut i: usize = 0;
    assert(v@.skip(0) == v@);
    assert(v@.take(0) + first_lines(v@, n as nat) == first_lines(v@, n as nat));
    while i < v.len()
        invariant
            count < n,
            start <= i <= v@.len(),
            forall|k: int| start <= k < i ==> v@[k] != '\n',
            lines(v@).len() == count + lines(v@.skip(start as int)).len(),
            first_lines(v@, n as nat) == v@.take(start as int) + first_lines(
                v@.skip(start as int),
                (n - count) as nat,
            ),
        decreases v@.len() - i,
    {
        if v[i] == '\n' {
            let ghost rest = v@.skip(start as int);
            let ghost left = (n - count) as nat;
            proof {
                lemma_line_len(rest, i - start);
                assert(rest.skip(i - start + 1) == v@.skip(i + 1));
                lemma_line_count(v@.skip(i + 1));
            }
            if count + 1 == n {
                if i + 1 == v.len() {
                    assert(v@.skip(i + 1).len() == 0);
                    return None;
                }
                let end: usize = if i > start && v[i - 1] == '\r' {
                    i - 1
                } else {
                    i
                };
                proof {
                    let head = rest.take(i - start);
                    assert(i > start ==> head.last() == v@[i - 1]);
                    assert(v@.take(start as int) + without_cr(head) == v@.take(end as int));
                    lemma_some_line(v@.skip(i + 1));
                }
                return Some(end);
            }
            proof {
                assert(v@.take(start as int) + (rest.take(i - start + 1) + first_lines(
                    v@.skip(i + 1),
                    (left - 1) as nat,
                )) == v@.take(i + 1) + first_lines(v@.skip(i + 1), (left - 1) as nat));
            }
            start = i + 1;
            count = count + 1;
        }
        i = i + 1;
    }
    proof {
        let rest = v@.skip(start as int);
        lemma_line_len(rest, rest.len() as int);
        assert(lines(rest).len() <= 1);
    }
    None
}

/// The preview of a file, from its bytes.
pub open spec fn loaded(path: Seq<u8>, raw: Seq<u8>) -> FilePreviewView {
    preview_of(path, utf8_lossy_text(capped_bytes(raw)), raw.len() > PREVIEW_MAX_BYTES)
}

/// Load file content capped for preview, from the bytes of the file.
pub fn load_preview_file(path: FilePath, raw: Vec<u8>) -> (p: FilePreview)
    ensures
        p@ == loaded(path@, raw@),
        valid_utf8(capped_bytes(raw@)) ==> p@ == preview_of(
            path@,
            decode_utf8(capped_bytes(raw@)),
            raw@.len() > PREVIEW_MAX_BYTES,
        ),
        !valid_utf8(capped_bytes(raw@)) ==> p@.truncated,
        lines(p@.content).len() <= PREVIEW_MAX_LINES,
        capped_bytes(raw@).len() > 0 && capped_bytes(raw@).last() == 0x0a ==> ends_with(
            p@.content,
            '\n',
        ),
{
    let cut: bool = raw.len() > PREVIEW_MAX_BYTES;
    let mut kept = raw;
    kept.truncate(PREVIEW_MAX_BYTES);
    assert(kept@ == capped_bytes(raw@));
    let t = utf8_lossy(&kept);
    proof {
        law_preview_line_cap(t@);
        law_preview_keeps_last_newline(t@);
    }
    preview_text(path, t.as_str(), cut)
}

/// What went wrong when a file could not be read.
pub fn unreadable(path: &FilePath) -> (e: String)
    ensures
        e@ == "reading "@ + utf8_lossy_text(path@),
{
    let mut e = text("reading ");
    e.append(path.display().as_str());
    e
}

/// The files that the preview shows: the first, as many as it may have.
pub open spec fn shown_files(files: Seq<Seq<u8>>) -> Seq<Seq<u8>> {
    if files.len() > PREVIEW_MAX_FILES {
        files.take(PREVIEW_MAX_FILES as int)
    } else {
        files
    }
}

/// The files that the preview shows.
pub fn preview_paths(files: &Vec<FilePath>) -> (r: Vec<FilePath>)
    ensures
        path_views(r@) == shown_files(path_views(files@)),
{
    let mut r = clone_paths(files);
    assert(r@.len() == path_views(r@).len());
    r.truncate(PREVIEW_MAX_FILES);
    assert(path_views(r@) == shown_files(path_views(files@)));
    r
}

/// The preview shows no more files than the cap, the first ones, and all of them where there are
/// no more.
pub proof fn law_preview_file_cap(files: Seq<Seq<u8>>)
    ensures
        shown_files(files).len() <= PREVIEW_MAX_FILES,
        shown_files(files).is_prefix_of(files),
        files.len() <= PREVIEW_MAX_FILES ==> shown_files(files) == files,
{
    assert(files.take(files.len() as int) == files);
}

/// How many newlines a text has.
pub open spec fn newlines(s: Seq<char>) -> nat
    decreases s.len(),
{
    if s.len() == 0 {
        0
    } else {
        newlines(s.drop_last()) + (if s.last() == '\n' {
            1nat
        } else {
            0nat
        })
    }
}

pub proof fn lemma_newlines_concat(a: Seq<char>, b: Seq<char>)
    ensures
        newlines(a + b) == newlines(a) + newlines(b),
    decreases b.len(),
{
    if b.len() == 0 {
        assert(a + b == a);
    } else {
        lemma_newlines_concat(a, b.drop_last());
        assert((a + b).drop_last() == a + b.drop_last());
        assert((a + b).last() == b.last());
    }
}

pub proof fn lemma_no_newlines(s: Seq<char>)
    requires
        forall|i: int| 0 <= i < s.len() ==> s[i] != '\n',
    ensures
        newlines(s) == 0,
    decreases s.len(),
{
    if s.len() > 0 {
        assert(s.last() != '\n');
        assert forall|i: int| 0 <= i < s.drop_last().len() implies s.drop_last()[i] != '\n' by {
            assert(s.drop_last()[i] == s[i]);
        }
        lemma_no_newlines(s.drop_last());
    }
}

/// Before `line_len` there is no newline, and at it there is one or the end.
pub proof fn lemma_line_len_reaches(s: Seq<char>)
    ensures
        line_len(s) <= s.len(),
        forall|i: int| 0 <= i < line_len(s) ==> s[i] != '\n',
        line_len(s) < s.len() ==> s[line_len(s) as int] == '\n',
    decreases s.len(),
{
    if s.len() > 0 && s[0] != '\n' {
        let rest = s.skip(1);
        lemma_line_len_reaches(rest);
        assert forall|i: int| 0 <= i < line_len(s) implies s[i] != '\n' by {
            if i > 0 {
                assert(rest[i - 1] == s[i]);
            }
        }
        if line_len(s) < s.len() {
            assert(rest[line_len(rest) as int] == s[line_len(s) as int]);
        }
    }
}

/// A text has one line for each newline, and one more where it does not end with one.
proof fn lemma_line_count(s: Seq<char>)
    ensures
        lines(s).len() == newlines(s) + (if s.len() == 0 || ends_with(s, '\n') {
            0nat
        } else {
            1nat
        }),
    decreases s.len(),
{
    lemma_line_len_reaches(s);
    let k = line_len(s) as int;
    if s.len() > 0 {
        let head = s.take(k);
        lemma_no_newlines(head);
        if k >= s.len() {
            assert(head == s);
        } else {
            let rest = s.skip(k + 1);
            lemma_line_count(rest);
            let nl = seq!['\n'];
            assert(s == (head + nl) + rest);
            lemma_newlines_concat(head + nl, rest);
            lemma_newlines_concat(head, nl);
            assert(nl.drop_last() == Seq::<char>::empty());
            assert(newlines(nl.drop_last()) == 0);
            assert(newlines(nl) == 1);
            if rest.len() > 0 {
                assert(rest.last() == s.last());
            } else {
                assert(s.last() == '\n');
            }
        }
    }
}

/// A text that is not empty has a line.
proof fn lemma_some_line(s: Seq<char>)
    requires
        s.len() > 0,
    ensures
        lines(s).len() > 0,
{
}

/// What the first lines of a longer text are: a part from its start on, which a line end
/// follows, with a newline after each line but the last.
pub proof fn lemma_first_lines(t: Seq<char>, n: nat)
    requires
        0 < n < lines(t).len(),
    ensures
        ({
            let body = first_lines(t, n);
            let end = body.len() as int;
            &&& body == t.take(end)
            &&& end < t.len()
            &&& newlines(body) == n - 1
            &&& t[end] == '\n' || (t[end] == '\r' && end + 1 < t.len() && t[end + 1] == '\n')
        }),
    decreases n,
{
    lemma_line_len_reaches(t);
    let k = line_len(t) as int;
    let head = t.take(k);
    let body = first_lines(t, n);
    lemma_no_newlines(head);
    if n == 1 {
        assert(ends_with(head, '\r') ==> head.last() == t[k - 1]);
        assert(body == t.take(body.len() as int));
        lemma_no_newlines(body);
    } else {
        let rest = t.skip(k + 1);
        let more = first_lines(rest, (n - 1) as nat);
        lemma_first_lines(rest, (n - 1) as nat);
        let end = more.len() as int;
        assert(body == t.take(k + 1) + rest.take(end));
        assert(body == t.take(k + 1 + end));
        assert(rest[end] == t[k + 1 + end]);
        lemma_newlines_concat(t.take(k + 1), more);
        assert(t.take(k + 1).drop_last() == head);
        assert(t.take(k + 1).last() == '\n');
    }
}

/// A preview never shows more lines than the cap.
pub proof fn law_preview_line_cap(t: Seq<char>)
    ensures
        lines(capped_content(t)).len() <= PREVIEW_MAX_LINES,
{
    if lines(t).len() > PREVIEW_MAX_LINES {
        let body = first_lines(t, PREVIEW_MAX_LINES as nat);
        let end = body.len() as int;
        lemma_first_lines(t, PREVIEW_MAX_LINES as nat);
        lemma_line_count(body);
        let to = end + line_end(t, end);
        let whole = t.take(to);
        lemma_line_count(whole);
        let tail = t.subrange(end, to);
        assert(whole == body + tail);
        lemma_newlines_concat(body, tail);
        assert(whole.last() == '\n');
        assert(tail.drop_last().len() <= 1);
        lemma_no_newlines(tail.drop_last());
    }
}

/// A preview shows nothing but a part of the text from its start on.
pub proof fn law_preview_is_prefix(t: Seq<char>)
    ensures
        capped_content(t).is_prefix_of(t),
{
    if lines(t).len() > PREVIEW_MAX_LINES {
        lemma_first_lines(t, PREVIEW_MAX_LINES as nat);
    }
}

/// A preview ends with a newline where the text does.
pub proof fn law_preview_keeps_last_newline(t: Seq<char>)
    ensures
        ends_with(t, '\n') ==> ends_with(capped_content(t), '\n'),
{
    if lines(t).len() > PREVIEW_MAX_LINES {
        lemma_first_lines(t, PREVIEW_MAX_LINES as nat);
    }
}

/// Nothing past the cap on bytes is shown: files with the same first bytes have the same content
/// in the preview, and whatever more they hold shows in the flag alone.
pub proof fn law_only_first_bytes_count(path: Seq<u8>, a: Seq<u8>, b: Seq<u8>)
    requires
        capped_bytes(a) == capped_bytes(b),
    ensures
        loaded(path, a).content == loaded(path, b).content,
{
}

/// A file within the caps is previewed as it is. Its preview counts as truncated only where it
/// holds the character that stands for broken text.
pub proof fn law_preview_keeps_small_files(path: Seq<u8>, t: Seq<char>)
    requires
        lines(t).len() <= PREVIEW_MAX_LINES,
    ensures
        capped_content(t) == t,
        preview_of(path, t, false) == (FilePreviewView {
            path,
            content: t,
            truncated: t.contains('\u{FFFD}'),
        }),
{
}

} // verus!
