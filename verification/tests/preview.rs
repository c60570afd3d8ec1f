use sid::path::FilePath;
use sid::preview::{
    load_preview_file, preview_paths, preview_text, unreadable, FilePreview, PREVIEW_MAX_BYTES,
    PREVIEW_MAX_FILES, PREVIEW_MAX_LINES,
};

fn load(raw: &[u8]) -> FilePreview {
    load_preview_file(FilePath::from_text("big.txt"), raw.to_vec())
}

#[test]
fn load_truncates_lines() {
    let mut raw = String::new();
    for i in 0..(PREVIEW_MAX_LINES + 50) {
        raw.push_str(&format!("line {i}\n"));
    }
    let preview = load(raw.as_bytes());
    assert!(preview.truncated);
    assert!(preview.content.lines().count() <= PREVIEW_MAX_LINES);
    assert_eq!(preview.content.lines().count(), PREVIEW_MAX_LINES);
    assert!(preview.content.ends_with("line 1999\n"));
    assert_eq!(preview.path, FilePath::from_text("big.txt"));
}

#[test]
fn small_files_are_kept() {
    for t in ["", "a", "a\n", "a\nb", "\n", "a\n\nb\n", "é\r"] {
        let preview = load(t.as_bytes());
        assert_eq!(preview.content, t);
        assert!(!preview.truncated);
    }
}

#[test]
fn line_ends_and_blank_lines_are_kept() {
    for t in ["a\r\nb\r\n", "a\n\n", "\n\n", "\r\n", "a\n\r\n\n"] {
        let preview = load(t.as_bytes());
        assert_eq!(preview.content, t);
        assert!(!preview.truncated);
    }
}

#[test]
fn a_cut_keeps_line_ends() {
    let raw = "x\r\n".repeat(PREVIEW_MAX_LINES + 1);
    let preview = load(raw.as_bytes());
    assert!(preview.truncated);
    assert_eq!(preview.content, "x\r\n".repeat(PREVIEW_MAX_LINES));
    let raw = "x\r\n".repeat(PREVIEW_MAX_LINES) + "y";
    let preview = load(raw.as_bytes());
    assert_eq!(preview.content, "x\r\n".repeat(PREVIEW_MAX_LINES - 1) + "x");
    assert!(raw.starts_with(&preview.content));
}

#[test]
fn a_cut_after_a_blank_line_keeps_it() {
    for end in ["\n", "\r\n"] {
        let kept = format!("x{end}").repeat(PREVIEW_MAX_LINES - 1) + end;
        let preview = load((kept.clone() + "y\n").as_bytes());
        assert!(preview.truncated);
        assert_eq!(preview.content, kept);
        assert_eq!(preview.content.lines().count(), PREVIEW_MAX_LINES);
    }
}

#[test]
fn the_last_newline_stays() {
    let broken: [&[u8]; 4] = [&[0xff], &[0xe2, 0x82], &[0xf0, 0x9f, 0x98], &[b'a', 0xc3]];
    for start in broken {
        let mut raw = start.to_vec();
        raw.push(b'\n');
        let preview = load(&raw);
        assert!(preview.truncated);
        assert!(preview.content.ends_with("\u{FFFD}\n"));
    }
}

#[test]
fn only_the_first_bytes_count() {
    let mut raw = vec![b'a'; PREVIEW_MAX_BYTES];
    let whole = load(&raw);
    raw.extend_from_slice(b"more\n");
    let cut = load(&raw);
    assert_eq!(whole.content, cut.content);
    assert!(!whole.truncated);
    assert!(cut.truncated);
}

#[test]
fn exactly_the_most_lines() {
    let raw = "x\n".repeat(PREVIEW_MAX_LINES);
    let preview = load(raw.as_bytes());
    assert!(!preview.truncated);
    assert_eq!(preview.content, raw);
    let more = raw + "y";
    let preview = load(more.as_bytes());
    assert!(preview.truncated);
    assert_eq!(preview.content.lines().count(), PREVIEW_MAX_LINES);
    assert!(!preview.content.ends_with('\n'));
}

#[test]
fn bytes_are_capped() {
    assert_eq!(PREVIEW_MAX_BYTES, 512 * 1024);
    let raw = vec![b'a'; PREVIEW_MAX_BYTES];
    let preview = load(&raw);
    assert!(!preview.truncated);
    assert_eq!(preview.content.len(), PREVIEW_MAX_BYTES);
    let raw = vec![b'a'; PREVIEW_MAX_BYTES + 1];
    let preview = load(&raw);
    assert!(preview.truncated);
    assert_eq!(preview.content.len(), PREVIEW_MAX_BYTES);
}

#[test]
fn broken_text_counts_as_truncated() {
    let preview = load(&[b'a', 0xff, b'b', b'\n']);
    assert!(preview.truncated);
    assert_eq!(preview.content, "a\u{FFFD}b\n");
    let mut raw = vec![b'a'; PREVIEW_MAX_BYTES - 1];
    raw.extend_from_slice("é".as_bytes());
    let preview = load(&raw);
    assert!(preview.truncated);
    assert!(preview.content.ends_with("a\u{FFFD}"));
}

#[test]
fn text_that_was_cut() {
    let preview = preview_text(FilePath::from_text("f"), "a\n", true);
    assert!(preview.truncated);
    assert_eq!(preview.content, "a\n");
}

#[test]
fn unreadable_file() {
    assert_eq!(unreadable(&FilePath::from_text("a/b")), "reading a/b");
}

#[test]
fn files_are_capped() {
    let files: Vec<FilePath> =
        (0..PREVIEW_MAX_FILES + 5).map(|i| FilePath::from_text(&format!("f{i}"))).collect();
    let shown = preview_paths(&files);
    assert_eq!(shown.len(), 40);
    assert_eq!(shown[..], files[..40]);
    assert_eq!(preview_paths(&shown), shown);
    assert_eq!(preview_paths(&Vec::new()), Vec::new());
}
