use sid::cursor::{byte_len, next_char_boundary, prev_char_boundary, split_text};
use sid::styled::Line;
use sid::text::{
    is_blank, is_white_space, lines_of, push_decimal, push_decimal_signed, same_text, trim,
};

#[test]
fn white_space_is_that_of_the_language() {
    for c in '\0'..='\u{10FFFF}' {
        assert_eq!(is_white_space(c), c.is_whitespace(), "{:?}", c);
    }
}

#[test]
fn lines_are_those_of_the_language() {
    for s in ["", "a", "a\n", "\n", "a\nb", "a\r\nb\r", "\r\n\r\n", "a\r\r\n", "x\n\n", "\r"] {
        let ours = lines_of(s);
        let theirs: Vec<String> = s.lines().map(|l| l.to_string()).collect();
        assert_eq!(ours, theirs, "{:?}", s);
    }
}

#[test]
fn trimming_is_that_of_the_language() {
    for s in ["", " ", " a ", "\u{3000}a b\t\n", "a", "\u{200b}a"] {
        assert_eq!(trim(s), s.trim());
        assert_eq!(is_blank(s), s.trim().is_empty());
    }
}

#[test]
fn decimals() {
    for n in [0, 7, 10, 99, 1234567890, u64::MAX] {
        let mut s = "n=".to_string();
        push_decimal(&mut s, n);
        assert_eq!(s, format!("n={n}"));
    }
    for n in [0, -1, 42, i32::MIN, i32::MAX] {
        let mut s = String::new();
        push_decimal_signed(&mut s, n);
        assert_eq!(s, format!("{n}"));
    }
}

#[test]
fn same_texts() {
    assert!(same_text("é", "é"));
    assert!(!same_text("e", "é"));
    assert!(!same_text("a", "ab"));
}

#[test]
fn boundaries() {
    let s = "aé€😀";
    assert_eq!(byte_len(s), 10);
    assert_eq!(prev_char_boundary(s, 0), 0);
    assert_eq!(prev_char_boundary(s, 1), 0);
    assert_eq!(prev_char_boundary(s, 3), 1);
    assert_eq!(prev_char_boundary(s, 5), 3);
    assert_eq!(prev_char_boundary(s, 10), 6);
    assert_eq!(prev_char_boundary(s, 99), 10);
    assert_eq!(next_char_boundary(s, 0), 1);
    assert_eq!(next_char_boundary(s, 1), 3);
    assert_eq!(next_char_boundary(s, 4), 6);
    assert_eq!(next_char_boundary(s, 6), 10);
    assert_eq!(next_char_boundary(s, 10), 10);
    assert_eq!(next_char_boundary(s, 99), 10);
    assert_eq!(split_text(s, 3), ("aé", "€😀"));
}

#[test]
fn plain_lines_are_cut_at_newlines() {
    let spans = |s: &str| Line::raw(s).spans.iter().map(|s| s.content.clone()).collect::<Vec<_>>();
    for s in ["", "a", "a\nb", "a\r\n"] {
        let theirs: Vec<String> =
            ratatui::text::Line::from(s).spans.iter().map(|s| s.content.to_string()).collect();
        assert_eq!(spans(s), theirs);
    }
}
