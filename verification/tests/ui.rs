use sid::app::{App, Focus, Mode};
use sid::cli::Args;
use sid::path::FilePath;
use sid::styled::{Color, Line, Rect, Style};
use sid::ui::{draw, draw_confirm, draw_diff, draw_expression, draw_rows, draw_status, Widget};

const PLAIN: Style = Style { fg: None, bg: None, bold: false };

const CURSOR: Style = Style { fg: Some(Color::Black), bg: Some(Color::Cyan), bold: false };

fn app_with(expression: &str, files: usize) -> App {
    let args = Args {
        expression: Some(expression.to_string()),
        sed_bin: FilePath::from_text("sed"),
        in_place: None,
        files: Vec::new(),
    };
    let files = (0..files).map(|i| FilePath::from_text(&format!("f{i}"))).collect();
    App::new(args, FilePath::from_text("/bin/sed"), files, 0)
}

fn fg(color: Color) -> Style {
    Style { fg: Some(color), bg: None, bold: false }
}

fn area() -> Rect {
    Rect { x: 0, y: 0, width: 80, height: 24 }
}

struct Shown {
    area: Rect,
    lines: Vec<Vec<(String, Style)>>,
    border: Option<(String, Style)>,
    wrap: bool,
}

fn shown(w: &Widget) -> Shown {
    match w {
        Widget::Paragraph { area, lines, border, wrap } => Shown {
            area: *area,
            lines: lines
                .iter()
                .map(|l| l.spans.iter().map(|s| (s.content.clone(), s.style)).collect())
                .collect(),
            border: border.as_ref().map(|b| (b.title.clone(), b.style)),
            wrap: *wrap,
        },
        Widget::Clear(_) => panic!("cleared"),
    }
}

#[test]
fn expression_with_the_cursor() {
    let mut app = app_with("aéb", 1);
    let w = shown(&draw_expression(&app, area()));
    assert_eq!(
        w.lines,
        vec![vec![("aéb".to_string(), PLAIN), (" ".to_string(), CURSOR)]]
    );
    assert_eq!(
        w.border,
        Some((
            " expression (Tab: diff, paste escapes / \\ &) ".to_string(),
            Style { fg: Some(Color::Cyan), bg: None, bold: true }
        ))
    );
    assert!(!w.wrap);
    app.cursor = 1;
    assert_eq!(
        shown(&draw_expression(&app, area())).lines,
        vec![vec![
            ("a".to_string(), PLAIN),
            ("é".to_string(), CURSOR),
            ("b".to_string(), PLAIN)
        ]]
    );
    app.focus = Focus::Diff;
    let w = shown(&draw_expression(&app, area()));
    assert_eq!(
        w.lines,
        vec![vec![("a".to_string(), PLAIN), ("éb".to_string(), PLAIN)]]
    );
    assert_eq!(w.border, Some((" expression ".to_string(), fg(Color::DarkGray))));
}

#[test]
fn cursor_beyond_the_end() {
    let mut app = app_with("é", 1);
    app.cursor = 99;
    app.scroll = 99;
    assert_eq!(
        shown(&draw_expression(&app, area())).lines,
        vec![vec![("é".to_string(), PLAIN), (" ".to_string(), CURSOR)]]
    );
    assert_eq!(draw(&app, area()).len(), 3);
}

#[test]
fn no_expression() {
    let mut app = app_with("", 1);
    assert_eq!(
        shown(&draw_expression(&app, area())).lines,
        vec![vec![(" ".to_string(), CURSOR)]]
    );
    app.focus = Focus::Diff;
    assert_eq!(
        shown(&draw_expression(&app, area())).lines,
        vec![vec![("s/foo/bar/".to_string(), fg(Color::DarkGray))]]
    );
}

#[test]
fn diff_before_there_is_one() {
    let app = app_with("", 1);
    let w = shown(&draw_diff(&app, area()));
    assert_eq!(
        w.lines,
        vec![vec![(
            " Type a sed expression to preview changes".to_string(),
            fg(Color::DarkGray)
        )]]
    );
    assert_eq!(w.border, Some((" diff ".to_string(), fg(Color::DarkGray))));
    assert!(w.wrap);
    let app = app_with("", 0);
    assert_eq!(
        shown(&draw_diff(&app, area())).lines,
        vec![vec![(
            " No files found under . (or pass FILE args)".to_string(),
            fg(Color::DarkGray)
        )]]
    );
}

#[test]
fn diff_from_the_scroll_position_on() {
    let mut app = app_with("p", 1);
    app.diff_lines = (0..10).map(|i| Line::styled(format!("{i}"), PLAIN)).collect();
    app.scroll = 4;
    app.focus = Focus::Diff;
    let rows = |height: u16, app: &App| {
        let w = shown(&draw_diff(app, Rect { x: 0, y: 3, width: 80, height }));
        w.lines.iter().map(|l| l[0].0.clone()).collect::<Vec<_>>()
    };
    assert_eq!(rows(5, &app), vec!["4", "5", "6"]);
    assert_eq!(rows(24, &app), vec!["4", "5", "6", "7", "8", "9"]);
    assert_eq!(rows(2, &app), vec!["4"]);
    assert_eq!(rows(0, &app), vec!["4"]);
    app.scroll = 10;
    assert_eq!(rows(24, &app), vec!["9"]);
    app.scroll = usize::MAX;
    assert_eq!(rows(24, &app), vec!["9"]);
    assert_eq!(
        shown(&draw_diff(&app, area())).border,
        Some((
            " diff (j/k scroll, Tab: expression) ".to_string(),
            Style { fg: Some(Color::Cyan), bg: None, bold: true }
        ))
    );
}

#[test]
fn status_in_full() {
    let mut app = app_with("p", 12);
    app.backup_suffix = Some(".bak".to_string());
    app.preview_changed = 3;
    app.preview_shown = 2;
    app.preview_scanned = 10;
    app.truncated = true;
    app.status_message = Some("applied".to_string());
    let w = shown(&draw_status(&app, area()));
    assert_eq!(
        w.lines,
        vec![vec![
            ("… ".to_string(), fg(Color::Yellow)),
            ("applied  ".to_string(), fg(Color::Green)),
            ("changed:2/3 scanned:10  ".to_string(), fg(Color::DarkGray)),
            ("preview truncated  ".to_string(), fg(Color::Yellow)),
            (
                "files:12  sed:/bin/sed  backup:.bak  | Ctrl+S apply  Esc quit".to_string(),
                fg(Color::DarkGray)
            ),
        ]]
    );
    assert!(w.border.is_none());
    app.error = Some("oh".to_string());
    assert_eq!(
        shown(&draw_status(&app, area())).lines[0][1],
        ("error: oh  ".to_string(), fg(Color::Red))
    );
}

#[test]
fn status_at_rest() {
    let mut app = app_with("p", 0);
    app.loading = false;
    for suffix in [None, Some(String::new())] {
        app.backup_suffix = suffix;
        assert_eq!(
            shown(&draw_status(&app, area())).lines,
            vec![vec![(
                "files:0  sed:/bin/sed  backup:off  | Ctrl+S apply  Esc quit".to_string(),
                fg(Color::DarkGray)
            )]]
        );
    }
}

#[test]
fn question_in_the_middle() {
    let mut app = app_with("p", 2);
    app.backup_suffix = Some("~".to_string());
    let v = draw_confirm(&app, area());
    let place = Rect { x: 10, y: 9, width: 60, height: 5 };
    assert_eq!(v.len(), 2);
    assert!(matches!(&v[0], Widget::Clear(r) if *r == place));
    let w = shown(&v[1]);
    assert_eq!(w.area, place);
    assert_eq!(
        w.lines,
        vec![
            vec![("Apply to 2 file(s) with sed -i~ -e … ?".to_string(), PLAIN)],
            vec![],
            vec![("y: yes    n/Esc: cancel".to_string(), fg(Color::Yellow))],
        ]
    );
    assert_eq!(w.border, Some((" confirm apply ".to_string(), fg(Color::Magenta))));
    let small = Rect { x: 3, y: 1, width: 20, height: 4 };
    assert!(matches!(
        draw_confirm(&app, small)[0],
        Widget::Clear(Rect { x: 5, y: 1, width: 16, height: 5 })
    ));
    let narrow = Rect { x: 0, y: 0, width: 3, height: 9 };
    assert!(matches!(
        draw_confirm(&app, narrow)[0],
        Widget::Clear(Rect { x: 1, y: 2, width: 0, height: 5 })
    ));
}

#[test]
fn screen_with_room() {
    let app = app_with("p", 1);
    for (y, height) in [(0u16, 7u16), (0, 8), (0, 24), (5, 50), (0, 300), (100, 1000)] {
        let area = Rect { x: 2, y, width: 80, height };
        let v = draw(&app, area);
        assert_eq!(v.len(), 3);
        assert_eq!(shown(&v[0]).area, Rect { x: 2, y, width: 80, height: 3 });
        assert_eq!(
            shown(&v[1]).area,
            Rect { x: 2, y: y + 3, width: 80, height: height - 4 }
        );
        assert_eq!(
            shown(&v[2]).area,
            Rect { x: 2, y: y + height - 1, width: 80, height: 1 }
        );
    }
}

#[test]
fn screen_rows_fill_every_height() {
    let app = app_with("p", 1);
    for height in 7..400 {
        let v = draw(&app, Rect { x: 0, y: 0, width: 10, height });
        assert_eq!(shown(&v[0]).area.height, 3);
        assert_eq!(shown(&v[1]).area.height, height - 4);
        assert_eq!(shown(&v[1]).area.y, 3);
        assert_eq!(shown(&v[2]).area.y, height - 1);
    }
}

#[test]
fn screen_with_too_little_room() {
    let app = app_with("p", 1);
    for height in 0..7 {
        let area = Rect { x: 1, y: 2, width: 30, height };
        let mut at = 2;
        let mut heights = Vec::new();
        for w in draw(&app, area) {
            let row = shown(&w).area;
            assert_eq!((row.x, row.width), (1, 30));
            assert_eq!(row.y, at);
            at = row.y + row.height;
            heights.push(row.height);
        }
        assert_eq!(at, 2 + height);
        assert_eq!(heights[1], height.min(3));
        assert!(heights[0] <= 3);
        assert!(heights[2] <= 1);
    }
}

#[test]
fn screen_with_the_question() {
    let mut app = app_with("p", 1);
    app.mode = Mode::ConfirmApply;
    let v = draw(&app, area());
    assert_eq!(v.len(), 5);
    assert!(matches!(v[3], Widget::Clear(_)));
    assert_eq!(shown(&v[0]).border, Some((" expression ".to_string(), fg(Color::DarkGray))));
    assert_eq!(shown(&v[1]).border, Some((" diff ".to_string(), fg(Color::DarkGray))));
}

#[test]
fn screen_from_given_rows() {
    let app = app_with("p", 1);
    let rows = vec![
        Rect { x: 0, y: 0, width: 9, height: 1 },
        Rect { x: 1, y: 1, width: 8, height: 2 },
        Rect { x: 2, y: 3, width: 7, height: 3 },
    ];
    let v = draw_rows(&app, area(), &rows);
    for k in 0..3 {
        assert_eq!(shown(&v[k]).area, rows[k]);
    }
}
