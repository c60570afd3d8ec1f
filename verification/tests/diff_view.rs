use sid::diff_view::{comparable, diff_lines, hunk_header, hunk_lines, DiffOp};
use sid::styled::{Color, Line, Style};

fn shown(lines: &[Line]) -> Vec<String> {
    let mut out = Vec::new();
    for l in lines {
        let mut s = String::new();
        for span in &l.spans {
            s.push_str(&span.content);
        }
        out.push(s);
    }
    out
}

#[test]
fn detects_substitution() {
    let lines = diff_lines("hello world\n", "hello rust\n", 3);
    assert!(lines.iter().any(|l| l.spans.iter().any(|s| s.content.contains("-hello world"))));
    assert!(lines.iter().any(|l| l.spans.iter().any(|s| s.content.contains("+hello rust"))));
}

#[test]
fn empty_when_unchanged() {
    assert!(diff_lines("same\n", "same\n", 3).is_empty());
}

#[test]
fn substitution_in_full() {
    let lines = diff_lines("a\nhello world\nz\n", "a\nhello rust\nz\n", 3);
    assert_eq!(
        shown(&lines),
        vec!["@@ -1,3 +1,3 @@", " a", "-hello world", "+hello rust", " z"]
    );
    assert_eq!(
        lines[0].spans[0].style,
        Style { fg: Some(Color::Cyan), bg: None, bold: true }
    );
    assert_eq!(
        lines[1].spans[0].style,
        Style { fg: Some(Color::DarkGray), bg: None, bold: false }
    );
    assert_eq!(
        lines[2].spans[0].style,
        Style { fg: Some(Color::Red), bg: Some(Color::Rgb(40, 0, 0)), bold: false }
    );
    assert_eq!(
        lines[3].spans[0].style,
        Style { fg: Some(Color::Green), bg: Some(Color::Rgb(0, 40, 0)), bold: false }
    );
}

#[test]
fn hunks_stand_apart() {
    let old = "1\n2\n3\n4\n5\n6\n7\n8\n9\n";
    let new = "x\n2\n3\n4\n5\n6\n7\n8\ny\n";
    let lines = diff_lines(old, new, 1);
    assert_eq!(
        shown(&lines),
        vec![
            "@@ -1,2 +1,2 @@",
            "-1",
            "+x",
            " 2",
            "",
            "@@ -8,2 +8,2 @@",
            " 8",
            "-9",
            "+y",
        ]
    );
    assert!(lines[4].spans.is_empty());
}

#[test]
fn no_context_at_all() {
    assert_eq!(
        shown(&diff_lines("a\nb\nc\n", "a\nB\nc\n", 0)),
        vec!["@@ -2,1 +2,1 @@", "-b", "+B"]
    );
}

#[test]
fn insertion_into_nothing() {
    assert_eq!(shown(&diff_lines("", "new\n", 3)), vec!["@@ -1,1 +1,1 @@", "+new"]);
    assert_eq!(shown(&diff_lines("old\n", "", 3)), vec!["@@ -1,1 +1,1 @@", "-old"]);
}

#[test]
fn line_ends_are_cut() {
    assert_eq!(
        shown(&diff_lines("a\r\nb", "a\nb\n", 3)),
        vec!["@@ -1,2 +1,2 @@", "-a", "-b", "+a", "+b"]
    );
}

#[test]
fn header_counts_from_one() {
    assert_eq!(hunk_header(&Vec::new()), None);
    let group = vec![
        DiffOp::Equal { old_index: 4, new_index: 6, len: 2 },
        DiffOp::Replace { old_index: 6, old_len: 3, new_index: 8, new_len: 1 },
    ];
    assert_eq!(hunk_header(&group), Some((5, 7, 5, 3)));
    let group = vec![DiffOp::Insert { old_index: 0, new_index: 0, new_len: 2 }];
    assert_eq!(hunk_header(&group), Some((1, 1, 1, 2)));
    let group = vec![DiffOp::Delete { old_index: 3, old_len: 2, new_index: 3 }];
    assert_eq!(hunk_header(&group), Some((4, 4, 2, 1)));
}

#[test]
fn hunks_from_given_steps() {
    let old = vec!["a\n", "b\n"];
    let new = vec!["a\n", "c"];
    let groups = vec![vec![
        DiffOp::Equal { old_index: 0, new_index: 0, len: 1 },
        DiffOp::Replace { old_index: 1, old_len: 1, new_index: 1, new_len: 1 },
    ]];
    assert_eq!(
        shown(&hunk_lines(&groups, &old, &new)),
        vec!["@@ -1,2 +1,2 @@", " a", "-b", "+c"]
    );
    let groups = vec![
        vec![DiffOp::Delete { old_index: 1, old_len: 1, new_index: 1 }],
        vec![DiffOp::Insert { old_index: 2, new_index: 1, new_len: 1 }],
    ];
    assert_eq!(
        shown(&hunk_lines(&groups, &old, &new)),
        vec!["@@ -2,1 +2,1 @@", "-b", "", "@@ -3,1 +2,1 @@", "+c"]
    );
}

#[test]
fn shows_only_lines_that_are_there() {
    let old = "fn a() {}\nfn b() {}\n\nlet x = 1;\n";
    let new = "fn b() {}\n\nlet x = 2;\nlet y = 3;\n";
    for line in diff_lines(old, new, 2) {
        let s = line.spans.first().map(|s| s.content.as_str()).unwrap_or("");
        if let Some(gone) = s.strip_prefix('-') {
            assert!(old.lines().any(|l| l == gone));
        } else if let Some(came) = s.strip_prefix('+') {
            assert!(new.lines().any(|l| l == came));
        } else if let Some(both) = s.strip_prefix(' ') {
            assert!(old.lines().any(|l| l == both) && new.lines().any(|l| l == both));
        } else {
            assert!(s.is_empty() || s.starts_with("@@ "));
        }
    }
}

/// Numbers that look random.
fn draw(seed: &mut u64) -> u64 {
    *seed = seed.wrapping_mul(6364136223846793005).wrapping_add(1442695040888963407);
    *seed >> 33
}

fn random_lines(seed: &mut u64, most: u64, kinds: u64) -> Vec<String> {
    let n = draw(seed) % (most + 1);
    (0..n).map(|_| format!("l{}", draw(seed) % kinds)).collect()
}

#[test]
fn changes_lead_from_the_old_text_to_the_new() {
    let mut seed = 7;
    for round in 0..400 {
        let most = if round % 20 == 0 { 150 } else { 12 };
        let kinds = 2 + draw(&mut seed) % 6;
        let old = random_lines(&mut seed, most, kinds);
        let new = random_lines(&mut seed, most, kinds);
        let whole = |v: &[String]| v.iter().map(|l| format!("{l}\n")).collect::<String>();
        for context in [1, 3, 1000] {
            let mut rebuilt: Vec<String> = Vec::new();
            let mut at = 0;
            for line in shown(&diff_lines(&whole(&old), &whole(&new), context)) {
                if let Some(head) = line.strip_prefix("@@ -") {
                    let from: usize = head.split(',').next().unwrap().parse().unwrap();
                    while at < from - 1 {
                        rebuilt.push(old[at].clone());
                        at += 1;
                    }
                } else if let Some(gone) = line.strip_prefix('-') {
                    assert_eq!(old[at], gone);
                    at += 1;
                } else if let Some(came) = line.strip_prefix('+') {
                    rebuilt.push(came.to_string());
                } else if let Some(both) = line.strip_prefix(' ') {
                    assert_eq!(old[at], both);
                    rebuilt.push(both.to_string());
                    at += 1;
                } else {
                    assert!(line.is_empty());
                }
            }
            rebuilt.extend_from_slice(&old[at..]);
            assert_eq!(rebuilt, new);
        }
    }
}

#[test]
fn different_texts_differ_on_the_screen() {
    for (old, new) in [("a", "a\n"), ("a\n", "a\r\n"), ("", "\n"), ("a\rb", "a\nb")] {
        assert!(!diff_lines(old, new, 3).is_empty());
        assert!(!diff_lines(new, old, 0).is_empty());
        assert!(diff_lines(old, old, 3).is_empty());
    }
}

#[test]
fn ordinary_texts_can_be_compared() {
    assert!(comparable("", ""));
    assert!(comparable("a\nb", "c\r\n"));
}

#[test]
fn hunks_show_both_texts() {
    let old = "a\nb\nc\nd\ne\n";
    let new = "a\nx\ny\nd\n";
    let lines = shown(&diff_lines(old, new, 1));
    let without = |mark: char| {
        lines[1..].iter().filter(|l| !l.starts_with(mark)).map(|l| &l[1..]).collect::<Vec<_>>()
    };
    assert_eq!(without('+'), vec!["a", "b", "c", "d", "e"]);
    assert_eq!(without('-'), vec!["a", "x", "y", "d"]);
}

#[test]
fn hunks_show_changed_regions_only() {
    let mut seed = 11;
    for round in 0..300 {
        let most = if round % 20 == 0 { 150 } else { 25 };
        let old = random_lines(&mut seed, most, 8);
        let mut new = old.clone();
        for _ in 0..draw(&mut seed) % 5 {
            let at = (draw(&mut seed) as usize) % (new.len() + 1);
            if draw(&mut seed) % 2 == 0 || at == new.len() {
                new.insert(at, "came".to_string());
            } else {
                new.remove(at);
            }
        }
        let whole = |v: &[String]| v.iter().map(|l| format!("{l}\n")).collect::<String>();
        for context in [0, 1, 3, 1000] {
            let lines = shown(&diff_lines(&whole(&old), &whole(&new), context));
            if old == new {
                assert!(lines.is_empty());
                continue;
            }
            let hunks: Vec<&[String]> = lines.split(|l| l.is_empty()).collect();
            if 2 * context >= old.len() || 2 * context >= new.len() {
                assert_eq!(hunks.len(), 1);
            }
            for hunk in hunks {
                assert!(hunk[0].starts_with("@@ "));
                let stretches: Vec<usize> =
                    hunk[1..].split(|l| !l.starts_with(' ')).map(|s| s.len()).collect();
                assert!(stretches.len() > 1);
                assert!(stretches[0] <= context);
                assert!(stretches[stretches.len() - 1] <= context);
                assert!(stretches.iter().all(|n| *n <= 2 * context));
            }
        }
    }
}
