use sid::escape::escape_sed_paste;

#[test]
fn escapes_delimiter_backslash_and_ampersand() {
    assert_eq!(escape_sed_paste(r"a/b\c&d"), r"a\/b\\c\&d");
}

#[test]
fn flattens_newlines() {
    assert_eq!(escape_sed_paste("foo\nbar\r\nbaz"), r"foo\nbar\nbaz");
}

#[test]
fn leaves_plain_text_alone() {
    assert_eq!(escape_sed_paste("hello world"), "hello world");
}

#[test]
fn escapes_nothing_to_nothing() {
    assert_eq!(escape_sed_paste(""), "");
    assert_eq!(escape_sed_paste("\r\r"), "");
}

#[test]
fn escapes_in_pieces_as_at_once() {
    let whole = escape_sed_paste("a/\r\n&é\\");
    let pieces = escape_sed_paste("a/\r") + &escape_sed_paste("\n&é\\");
    assert_eq!(whole, pieces);
    assert_eq!(whole, r"a\/\n\&é\\");
}

#[test]
fn escaped_paste_stays_on_one_line() {
    let out = escape_sed_paste("one\ntwo\rthree\r\n");
    assert!(!out.contains('\n'));
    assert!(!out.contains('\r'));
    assert_eq!(out, r"one\ntwothree\n");
}
