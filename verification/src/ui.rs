//! What the screen shows, as widgets in the order in which they are drawn.
use ratatui::layout::{Constraint, Direction, Layout};
use vstd::prelude::*;

use crate::app::{last_line, App, AppView, Focus, Mode};
use crate::cursor::{byte_len, lemma_boundary_is_offset, split_text};
use crate::sed::{in_place_switch, switch_text};
use crate::styled::{
    bold_style, fg_bg_style, fg_style, line_views, plain_style, push_line, raw_line, styled_line,
    Color, Line, LineView, Rect, Span, SpanView, Style,
};
use crate::text::{chars_of, decimal, push_decimal, string_of, text, utf8_lossy_text};
use crate::worker::{no_files_remark, type_remark};

verus! {

/// The height of the row of the expression.
pub const EXPRESSION_ROWS: u16 = 3;

/// The least height of the diff.
pub const DIFF_ROWS: u16 = 3;

/// The height of the status line.
pub const STATUS_ROWS: u16 = 1;

/// The greatest width of the question.
pub const CONFIRM_WIDTH: u16 = 60;

/// The height of the question.
pub const CONFIRM_HEIGHT: u16 = 5;

/// A frame round a text, with a title in it.
#[derive(Debug)]
pub struct Border {
    pub title: String,
    pub style: Style,
}

/// The model of [`Border`].
#[verifier::ext_equal]
pub struct BorderView {
    pub title: Seq<char>,
    pub style: Style,
}

impl View for Border {
    type V = BorderView;

    open spec fn view(&self) -> BorderView {
        BorderView { title: self.title@, style: self.style }
    }
}

/// Something to draw.
#[derive(Debug)]
pub enum Widget {
    /// Blank the area.
    Clear(Rect),
    /// Write the lines into the area, inside the border where there is one. Where `wrap` is set,
    /// a line that is too long goes on below, its spaces kept.
    Paragraph { area: Rect, lines: Vec<Line>, border: Option<Border>, wrap: bool },
}

/// The model of [`Widget`].
#[verifier::ext_equal]
pub enum WidgetView {
    Clear(Rect),
    Paragraph { area: Rect, lines: Seq<LineView>, border: Option<BorderView>, wrap: bool },
}

impl View for Widget {
    type V = WidgetView;

    open spec fn view(&self) -> WidgetView {
        match self {
            Widget::Clear(area) => WidgetView::Clear(*area),
            Widget::Paragraph { area, lines, border, wrap } => WidgetView::Paragraph {
                area: *area,
                lines: line_views(lines@),
                border: match border {
                    Some(b) => Some(b@),
                    None => None,
                },
                wrap: *wrap,
            },
        }
    }
}

/// The models of widgets in a row.
pub open spec fn widget_views(v: Seq<Widget>) -> Seq<WidgetView> {
    v.map_values(|w: Widget| w@)
}

/// The rectangle from row `top` of an area on, over its whole width.
pub open spec fn band(area: Rect, top: int, height: int) -> Rect {
    Rect { x: area.x, y: (area.y + top) as u16, width: area.width, height: height as u16 }
}

/// A row of an area: over its whole width, and between its top and its bottom.
pub open spec fn row_of(area: Rect, row: Rect) -> bool {
    &&& row.x == area.x
    &&& row.width == area.width
    &&& area.y <= row.y
    &&& row.y + row.height <= area.y + area.height
}

/// The three rows of an area, from top to bottom: they cover it, and each starts where the one
/// above it ends.
pub open spec fn rows_of(area: Rect, rows: Seq<Rect>) -> bool {
    &&& rows.len() == 3
    &&& forall|k: int| 0 <= k < 3 ==> row_of(area, #[trigger] rows[k])
    &&& rows[0].y == area.y
    &&& rows[0].y + rows[0].height == rows[1].y
    &&& rows[1].y + rows[1].height == rows[2].y
    &&& rows[2].y + rows[2].height == area.y + area.height
}

/// The rows of an area with too little room: the middle one comes first, and the others share
/// what is left, neither with more than it asks for.
pub open spec fn squeezed(
    area: Rect,
    rows: Seq<Rect>,
    top: u16,
    middle: u16,
    bottom: u16,
) -> bool {
    &&& rows[0].height <= top
    &&& rows[1].height == if middle < area.height {
        middle
    } else {
        area.height
    }
    &&& rows[2].height <= bottom
}

/// The rows of a screen with room for all of them: one at the top, one at the bottom, and
/// between them what is left.
pub open spec fn stacked(area: Rect, top: u16, bottom: u16) -> Seq<Rect> {
    seq![
        band(area, 0, top as int),
        band(area, top as int, area.height - top - bottom),
        band(area, area.height - bottom, bottom as int),
    ]
}

/// `Layout::split` of ratatui, vertically, with the constraints `Length(top)`, `Min(middle)` and
/// `Length(bottom)`. It gives three rectangles as wide as the area, which cover it from top to
/// bottom. Where there is room for all three, the first and the last have their length and the
/// middle one takes the rest. Where there is too little, the middle one has its least height as
/// far as that goes (where that height fits into 15 bits, as the solver reads it), and neither of
/// the others more than its length. How these two share what is left is not said: one way is as
/// good as the other to the solver.
#[verifier::external_body]
fn split_rows(area: Rect, top: u16, middle: u16, bottom: u16) -> (rows: Vec<Rect>)
    requires
        area.x + area.width <= u16::MAX,
        area.y + area.height <= u16::MAX,
    ensures
        rows_of(area, rows@),
        area.height >= top + middle + bottom ==> rows@ == stacked(area, top, bottom),
        area.height < top + middle + bottom && middle <= i16::MAX ==> squeezed(
            area,
            rows@,
            top,
            middle,
            bottom,
        ),
{
    let whole = ratatui::layout::Rect::new(area.x, area.y, area.width, area.height);
    let rows = Layout::default()
        .direction(Direction::Vertical)
        .constraints([
            Constraint::Length(top),
            Constraint::Min(middle),
            Constraint::Length(bottom),
        ])
        .split(whole);
    rows.iter().map(|r| Rect { x: r.x, y: r.y, width: r.width, height: r.height }).collect()
}

/// The style of a border, by whether the keys go there.
pub open spec fn border_style(focused: bool) -> Style {
    if focused {
        bold_style(Color::Cyan)
    } else {
        fg_style(Color::DarkGray)
    }
}

/// The style of the character under the cursor.
pub open spec fn cursor_style() -> Style {
    fg_bg_style(Color::Black, Color::Cyan)
}

/// A span in no style.
pub open spec fn raw_span(content: Seq<char>) -> SpanView {
    SpanView { content, style: plain_style() }
}

/// The expression, with the cursor in it where the keys go there.
pub open spec fn expression_line(app: AppView, focused: bool) -> LineView {
    if app.expression().len() == 0 && !focused {
        styled_line("s/foo/bar/"@, fg_style(Color::DarkGray))
    } else if app.expression().len() == 0 {
        styled_line(" "@, cursor_style())
    } else if !focused {
        seq![raw_span(app.before), raw_span(app.after)]
    } else if app.after.len() == 0 {
        seq![raw_span(app.before), SpanView { content: " "@, style: cursor_style() }]
    } else {
        seq![
            raw_span(app.before),
            SpanView { content: app.after.take(1), style: cursor_style() },
            raw_span(app.after.skip(1)),
        ]
    }
}

/// The widget of the expression.
pub open spec fn expression_widget(app: AppView, area: Rect) -> WidgetView {
    let focused = app.focus == Focus::Expression && app.mode == Mode::Editing;
    WidgetView::Paragraph {
        area,
        lines: seq![expression_line(app, focused)],
        border: Some(
            BorderView {
                title: if focused {
                    " expression (Tab: diff, paste escapes / \\ &) "@
                } else {
                    " expression "@
                },
                style: border_style(focused),
            },
        ),
        wrap: false,
    }
}

/// The lines of the diff from the scroll position on, or from the last line where that lies
/// beyond it: as many as there is room for, but one at least.
pub open spec fn visible(lines: Seq<LineView>, scroll: nat, room: nat) -> Seq<LineView> {
    let most = if room > 1 {
        room
    } else {
        1
    };
    let start = if scroll < last_line(lines) {
        scroll
    } else {
        last_line(lines)
    };
    let end = if start + most < lines.len() {
        start + most
    } else {
        lines.len()
    };
    lines.subrange(start as int, end as int)
}

/// The widget of the diff.
pub open spec fn diff_widget(app: AppView, area: Rect) -> WidgetView {
    let focused = app.focus == Focus::Diff && app.mode == Mode::Editing;
    WidgetView::Paragraph {
        area,
        lines: if app.diff_lines.len() == 0 {
            seq![
                styled_line(
                    if app.files.len() == 0 {
                        no_files_remark()
                    } else {
                        type_remark()
                    },
                    fg_style(Color::DarkGray),
                ),
            ]
        } else {
            visible(
                app.diff_lines,
                app.scroll,
                if area.height >= 2 {
                    (area.height - 2) as nat
                } else {
                    0
                },
            )
        },
        border: Some(
            BorderView {
                title: if focused {
                    " diff (j/k scroll, Tab: expression) "@
                } else {
                    " diff "@
                },
                style: border_style(focused),
            },
        ),
        wrap: true,
    }
}

/// A span if a condition holds.
pub open spec fn span_if(holds: bool, content: Seq<char>, color: Color) -> Seq<SpanView> {
    if holds {
        seq![SpanView { content, style: fg_style(color) }]
    } else {
        seq![]
    }
}

/// What the status line says of an error, or else of what was done last.
pub open spec fn message_spans(app: AppView) -> Seq<SpanView> {
    match (app.error, app.status_message) {
        (Some(e), _) => span_if(true, "error: "@ + e + "  "@, Color::Red),
        (None, Some(m)) => span_if(true, m + "  "@, Color::Green),
        (None, None) => seq![],
    }
}

/// What the status line says of the preview.
pub open spec fn counts_text(app: AppView) -> Seq<char> {
    "changed:"@ + decimal(app.preview_shown as int) + "/"@ + decimal(app.preview_changed as int)
        + " scanned:"@ + decimal(app.preview_scanned as int) + "  "@
}

/// What the status line says of the backup.
pub open spec fn backup_text(suffix: Option<Seq<char>>) -> Seq<char> {
    match suffix {
        Some(s) if s.len() > 0 => "backup:"@ + s,
        _ => "backup:off"@,
    }
}

/// What the status line always says.
pub open spec fn summary_text(app: AppView) -> Seq<char> {
    "files:"@ + decimal(app.files.len() as int) + "  sed:"@ + utf8_lossy_text(app.sed_bin) + "  "@
        + backup_text(app.backup_suffix) + "  | Ctrl+S apply  Esc quit"@
}

/// The status line.
pub open spec fn status_line(app: AppView) -> LineView {
    span_if(app.loading, "… "@, Color::Yellow) + message_spans(app) + span_if(
        app.preview_scanned > 0,
        counts_text(app),
        Color::DarkGray,
    ) + span_if(app.truncated, "preview truncated  "@, Color::Yellow) + span_if(
        true,
        summary_text(app),
        Color::DarkGray,
    )
}

/// The widget of the status line.
pub open spec fn status_widget(app: AppView, area: Rect) -> WidgetView {
    WidgetView::Paragraph { area, lines: seq![status_line(app)], border: None, wrap: false }
}

/// Half of what an extent has left beside a smaller one, rounded down.
pub open spec fn inset(whole: int, part: int) -> int {
    if whole > part {
        (whole - part) / 2
    } else {
        0
    }
}

/// Where the question stands: in the middle of the area.
pub open spec fn popup(area: Rect) -> Rect {
    let room = if area.width > 4 {
        area.width - 4
    } else {
        0
    };
    let width = if room < CONFIRM_WIDTH {
        room
    } else {
        CONFIRM_WIDTH as int
    };
    Rect {
        x: (area.x + inset(area.width as int, width)) as u16,
        y: (area.y + inset(area.height as int, CONFIRM_HEIGHT as int)) as u16,
        width: width as u16,
        height: CONFIRM_HEIGHT,
    }
}

/// The question, with the number of files and the switch of sed.
pub open spec fn question(app: AppView) -> Seq<char> {
    "Apply to "@ + decimal(app.files.len() as int) + " file(s) with sed "@ + in_place_switch(
        app.backup_suffix,
    ) + " -e … ?"@
}

/// The widgets of the question.
pub open spec fn confirm_widgets(app: AppView, area: Rect) -> Seq<WidgetView> {
    seq![
        WidgetView::Clear(popup(area)),
        WidgetView::Paragraph {
            area: popup(area),
            lines: seq![
                raw_line(question(app)),
                raw_line(""@),
                styled_line("y: yes    n/Esc: cancel"@, fg_style(Color::Yellow)),
            ],
            border: Some(
                BorderView {
                    title: " confirm apply "@,
                    style: fg_style(Color::Magenta),
                },
            ),
            wrap: false,
        },
    ]
}

/// The widgets of the whole screen, from its rows.
pub open spec fn screen(app: AppView, area: Rect, rows: Seq<Rect>) -> Seq<WidgetView> {
    let always = seq![
        expression_widget(app, rows[0]),
        diff_widget(app, rows[1]),
        status_widget(app, rows[2]),
    ];
    if app.mode == Mode::ConfirmApply {
        always + confirm_widgets(app, area)
    } else {
        always
    }
}

fn style_of_border(focused: bool) -> (s: Style)
    ensures
        s == border_style(focused),
{
    if focused {
        Style::bold(Color::Cyan)
    } else {
        Style::fg(Color::DarkGray)
    }
}

/// Appends a span.
fn push_span(v: &mut Vec<Span>, content: String, style: Style)
    ensures
        final(v)@.map_values(|s: Span| s@) == old(v)@.map_values(|s: Span| s@).push(
            SpanView { content: content@, style },
        ),
{
    let ghost before = v@.map_values(|s: Span| s@);
    v.push(Span::styled(content, style));
    assert(v@.map_values(|s: Span| s@) == before.push(SpanView { content: content@, style }));
}

/// A row of widgets with one more.
fn push_widget(v: &mut Vec<Widget>, w: Widget)
    ensures
        widget_views(final(v)@) == widget_views(old(v)@).push(w@),
{
    let ghost before = widget_views(v@);
    v.push(w);
    assert(widget_views(v@) == before.push(w@));
}

/// A paragraph of one line.
fn paragraph(area: Rect, line: Line, border: Option<Border>) -> (w: Widget)
    ensures
        w@ == (WidgetView::Paragraph {
            area,
            lines: seq![line@],
            border: match border {
                Some(b) => Some(b@),
                None => None,
            },
            wrap: false,
        }),
{
    let mut lines: Vec<Line> = Vec::new();
    push_line(&mut lines, line);
    assert(line_views(lines@) == seq![line@]);
    Widget::Paragraph { area, lines, border, wrap: false }
}

/// Draws the expression.
pub fn draw_expression(app: &App, area: Rect) -> (w: Widget)
    requires
        app.drawable(),
    ensures
        w@ == expression_widget(app@, area),
{
    let len: usize = byte_len(app.expression.as_str());
    let cursor: usize = if app.cursor < len {
        app.cursor
    } else {
        len
    };
    proof {
        lemma_boundary_is_offset(app.expression@, app.place());
        assert(app.expression@ == app@.expression());
    }
    let focused = app.focus == Focus::Expression && app.mode == Mode::Editing;
    let title = if focused {
        " expression (Tab: diff, paste escapes / \\ &) "
    } else {
        " expression "
    };
    let line = if app.expression.as_str().is_empty() && !focused {
        Line::styled(text("s/foo/bar/"), Style::fg(Color::DarkGray))
    } else if app.expression.as_str().is_empty() {
        Line::styled(text(" "), Style::fg_bg(Color::Black, Color::Cyan))
    } else {
        let (before, after) = split_text(app.expression.as_str(), cursor);
        let mut spans: Vec<Span> = Vec::new();
        push_span(&mut spans, text(before), Style::plain());
        if !focused {
            push_span(&mut spans, text(after), Style::plain());
        } else if after.is_empty() {
            push_span(&mut spans, text(" "), Style::fg_bg(Color::Black, Color::Cyan));
        } else {
            let v = chars_of(after);
            push_span(&mut spans, string_of(&v, 0, 1), Style::fg_bg(Color::Black, Color::Cyan));
            push_span(&mut spans, string_of(&v, 1, v.len()), Style::plain());
        }
        Line { spans }
    };
    assert(line@ == expression_line(app@, focused));
    paragraph(area, line, Some(Border { title: text(title), style: style_of_border(focused) }))
}

/// Draws the diff.
pub fn draw_diff(app: &App, area: Rect) -> (w: Widget)
    ensures
        w@ == diff_widget(app@, area),
{
    let focused = app.focus == Focus::Diff && app.mode == Mode::Editing;
    let title = if focused {
        " diff (j/k scroll, Tab: expression) "
    } else {
        " diff "
    };
    let n: usize = app.diff_lines.len();
    let mut lines: Vec<Line> = Vec::new();
    if n == 0 {
        let remark = if app.files.len() == 0 {
            " No files found under . (or pass FILE args)"
        } else {
            " Type a sed expression to preview changes"
        };
        push_line(&mut lines, Line::styled(text(remark), Style::fg(Color::DarkGray)));
        assert(line_views(lines@) == seq![
            styled_line(
                if app@.files.len() == 0 {
                    no_files_remark()
                } else {
                    type_remark()
                },
                fg_style(Color::DarkGray),
            ),
        ]);
    } else {
        let room: usize = area.height.saturating_sub(2) as usize;
        let most: usize = if room > 1 {
            room
        } else {
            1
        };
        let start: usize = if app.scroll < n - 1 {
            app.scroll
        } else {
            n - 1
        };
        let end: usize = if n - start > most {
            start + most
        } else {
            n
        };
        let mut i: usize = start;
        assert(line_views(lines@) == line_views(app.diff_lines@).subrange(
            start as int,
            start as int,
        ));
        while i < end
            invariant
                start <= i <= end <= n == app.diff_lines@.len(),
                line_views(lines@) == line_views(app.diff_lines@).subrange(start as int, i as int),
            decreases end - i,
        {
            push_line(&mut lines, app.diff_lines[i].clone());
            assert(line_views(app.diff_lines@).subrange(start as int, i + 1) == line_views(
                app.diff_lines@,
            ).subrange(start as int, i as int).push(app.diff_lines@[i as int]@));
            i = i + 1;
        }
    }
    Widget::Paragraph {
        area,
        lines,
        border: Some(Border { title: text(title), style: style_of_border(focused) }),
        wrap: true,
    }
}

/// Appends what the status line says of an error, or else of what was done last.
fn push_message(parts: &mut Vec<Span>, app: &App)
    ensures
        final(parts)@.map_values(|s: Span| s@) == old(parts)@.map_values(|s: Span| s@)
            + message_spans(app@),
{
    let ghost before = parts@.map_values(|s: Span| s@);
    match &app.error {
        Some(e) => {
            let mut m = text("error: ");
            m.append(e.as_str());
            m.append("  ");
            push_span(parts, m, Style::fg(Color::Red));
        },
        None => match &app.status_message {
            Some(s) => {
                let mut m = text(s.as_str());
                m.append("  ");
                push_span(parts, m, Style::fg(Color::Green));
            },
            None => {},
        },
    }
    assert(parts@.map_values(|s: Span| s@) == before + message_spans(app@));
}

/// What the status line says of the backup.
fn backup(suffix: &Option<String>) -> (s: String)
    ensures
        s@ == backup_text(crate::text::opt_text(*suffix)),
{
    match suffix {
        Some(t) => {
            if t.as_str().is_empty() {
                text("backup:off")
            } else {
                let mut s = text("backup:");
                s.append(t.as_str());
                s
            }
        },
        None => text("backup:off"),
    }
}

/// Draws the status line.
pub fn draw_status(app: &App, area: Rect) -> (w: Widget)
    ensures
        w@ == status_widget(app@, area),
{
    let mut parts: Vec<Span> = Vec::new();
    assert(parts@.map_values(|s: Span| s@) == Seq::<SpanView>::empty());
    if app.loading {
        push_span(&mut parts, text("… "), Style::fg(Color::Yellow));
    }
    let ghost first = span_if(app@.loading, "… "@, Color::Yellow);
    assert(parts@.map_values(|s: Span| s@) == first);
    push_message(&mut parts, app);
    if app.preview_scanned > 0 {
        let mut counts = text("changed:");
        push_decimal(&mut counts, app.preview_shown as u64);
        counts.append("/");
        push_decimal(&mut counts, app.preview_changed as u64);
        counts.append(" scanned:");
        push_decimal(&mut counts, app.preview_scanned as u64);
        counts.append("  ");
        push_span(&mut parts, counts, Style::fg(Color::DarkGray));
    }
    let ghost second = first + message_spans(app@) + span_if(
        app@.preview_scanned > 0,
        counts_text(app@),
        Color::DarkGray,
    );
    assert(parts@.map_values(|s: Span| s@) == second);
    if app.truncated {
        push_span(&mut parts, text("preview truncated  "), Style::fg(Color::Yellow));
    }
    let mut summary = text("files:");
    push_decimal(&mut summary, app.files.len() as u64);
    summary.append("  sed:");
    summary.append(app.sed_bin.display().as_str());
    summary.append("  ");
    summary.append(backup(&app.backup_suffix).as_str());
    summary.append("  | Ctrl+S apply  Esc quit");
    assert(summary@ == summary_text(app@));
    push_span(&mut parts, summary, Style::fg(Color::DarkGray));
    let line = Line { spans: parts };
    assert(line@ == status_line(app@));
    paragraph(area, line, None)
}

/// Draws the question whether to apply.
pub fn draw_confirm(app: &App, area: Rect) -> (v: Vec<Widget>)
    requires
        area.x + area.width <= u16::MAX,
        area.y + area.height <= u16::MAX,
    ensures
        widget_views(v@) == confirm_widgets(app@, area),
{
    let room: u16 = area.width.saturating_sub(4);
    let width: u16 = if room < CONFIRM_WIDTH {
        room
    } else {
        CONFIRM_WIDTH
    };
    let x: u16 = area.x + area.width.saturating_sub(width) / 2;
    let y: u16 = area.y + area.height.saturating_sub(CONFIRM_HEIGHT) / 2;
    let place = Rect { x, y, width, height: CONFIRM_HEIGHT };
    assert(place == popup(area));
    let mut ask = text("Apply to ");
    push_decimal(&mut ask, app.files.len() as u64);
    ask.append(" file(s) with sed ");
    ask.append(switch_text(&app.backup_suffix).as_str());
    ask.append(" -e … ?");
    assert(ask@ == question(app@));
    let mut lines: Vec<Line> = Vec::new();
    push_line(&mut lines, Line::raw(ask.as_str()));
    push_line(&mut lines, Line::raw(""));
    push_line(&mut lines, Line::styled(text("y: yes    n/Esc: cancel"), Style::fg(Color::Yellow)));
    assert(line_views(lines@) == seq![
        raw_line(question(app@)),
        raw_line(""@),
        styled_line("y: yes    n/Esc: cancel"@, fg_style(Color::Yellow)),
    ]);
    let mut v: Vec<Widget> = Vec::new();
    push_widget(&mut v, Widget::Clear(place));
    push_widget(
        &mut v,
        Widget::Paragraph {
            area: place,
            lines,
            border: Some(
                Border { title: text(" confirm apply "), style: Style::fg(Color::Magenta) },
            ),
            wrap: false,
        },
    );
    assert(widget_views(v@) == confirm_widgets(app@, area));
    v
}

/// Draws the whole screen, from its three rows.
pub fn draw_rows(app: &App, area: Rect, rows: &Vec<Rect>) -> (v: Vec<Widget>)
    requires
        app.drawable(),
        rows@.len() == 3,
        area.x + area.width <= u16::MAX,
        area.y + area.height <= u16::MAX,
    ensures
        widget_views(v@) == screen(app@, area, rows@),
{
    let mut v: Vec<Widget> = Vec::new();
    push_widget(&mut v, draw_expression(app, rows[0]));
    push_widget(&mut v, draw_diff(app, rows[1]));
    push_widget(&mut v, draw_status(app, rows[2]));
    assert(widget_views(v@) == seq![
        expression_widget(app@, rows@[0]),
        diff_widget(app@, rows@[1]),
        status_widget(app@, rows@[2]),
    ]);
    match app.mode {
        Mode::ConfirmApply => {
            let ghost before = v@;
            let mut more = draw_confirm(app, area);
            let ghost after = more@;
            v.append(&mut more);
            assert(widget_views(v@) == widget_views(before) + widget_views(after));
        },
        Mode::Editing => {},
    }
    v
}

/// Draws the whole screen.
pub fn draw(app: &App, area: Rect) -> (v: Vec<Widget>)
    requires
        app.drawable(),
        area.x + area.width <= u16::MAX,
        area.y + area.height <= u16::MAX,
    ensures
        exists|rows: Seq<Rect>|
            {
                &&& rows_of(area, rows)
                &&& area.height < EXPRESSION_ROWS + DIFF_ROWS + STATUS_ROWS ==> squeezed(
                    area,
                    rows,
                    EXPRESSION_ROWS,
                    DIFF_ROWS,
                    STATUS_ROWS,
                )
                &&& widget_views(v@) == #[trigger] screen(app@, area, rows)
            },
        area.height >= EXPRESSION_ROWS + DIFF_ROWS + STATUS_ROWS ==> widget_views(v@) == screen(
            app@,
            area,
            stacked(area, EXPRESSION_ROWS, STATUS_ROWS),
        ),
        area.height >= 7 ==> widget_views(v@) == screen(app@, area, stacked(area, 3, 1)),
        area.height < 7 ==> exists|rows: Seq<Rect>|
            {
                &&& rows_of(area, rows)
                &&& squeezed(area, rows, 3, 3, 1)
                &&& widget_views(v@) == #[trigger] screen(app@, area, rows)
            },
{
    let rows = split_rows(area, EXPRESSION_ROWS, DIFF_ROWS, STATUS_ROWS);
    draw_rows(app, area, &rows)
}

/// On a screen with room for everything the rows lie side by side, cover it, and do not overlap.
pub proof fn law_rows_cover_screen(area: Rect)
    requires
        area.x + area.width <= u16::MAX,
        area.y + area.height <= u16::MAX,
        area.height >= EXPRESSION_ROWS + DIFF_ROWS + STATUS_ROWS,
    ensures
        ({
            let rows = stacked(area, EXPRESSION_ROWS, STATUS_ROWS);
            &&& rows_of(area, rows)
            &&& rows[0].height == EXPRESSION_ROWS
            &&& rows[1].height >= DIFF_ROWS
            &&& rows[2].height == STATUS_ROWS
        }),
{
}

/// On a screen that is high enough the question lies inside the screen.
pub proof fn law_question_inside_screen(area: Rect)
    requires
        area.x + area.width <= u16::MAX,
        area.y + area.height <= u16::MAX,
        area.height >= CONFIRM_HEIGHT,
    ensures
        area.x <= popup(area).x,
        popup(area).x + popup(area).width <= area.x + area.width,
        area.y <= popup(area).y,
        popup(area).y + popup(area).height <= area.y + area.height,
{
}

/// The diff shows at least one line where there is one, and never more than there is room for
/// beside that.
pub proof fn law_diff_fits(app: AppView, area: Rect)
    requires
        app.diff_lines.len() > 0,
    ensures
        diff_widget(app, area) matches WidgetView::Paragraph { lines, .. } && {
            &&& 1 <= lines.len()
            &&& lines.len() <= 1 || lines.len() + 2 <= area.height
            &&& app.scroll < app.diff_lines.len() ==> lines[0] == app.diff_lines[app.scroll as int]
            &&& app.scroll >= app.diff_lines.len() ==> lines == seq![app.diff_lines.last()]
        },
{
}

/// The expression shown is the one that is edited, whether or not the cursor stands in it.
pub proof fn law_expression_shown(app: AppView, focused: bool)
    requires
        app.expression().len() > 0,
        focused ==> app.after.len() > 0,
    ensures
        shown_text(expression_line(app, focused)) == app.expression(),
{
    reveal_with_fuel(shown_text, 4);
    let line = expression_line(app, focused);
    if focused {
        assert(line.skip(1).skip(1).skip(1) == Seq::<SpanView>::empty());
        assert(app.after.take(1) + app.after.skip(1) == app.after);
    } else {
        assert(line.skip(1).skip(1) == Seq::<SpanView>::empty());
    }
    assert(shown_text(line) == app.expression());
}

/// The text of a line.
pub open spec fn shown_text(line: LineView) -> Seq<char>
    decreases line.len(),
{
    if line.len() == 0 {
        seq![]
    } else {
        line[0].content + shown_text(line.skip(1))
    }
}

} // verus!
