//! What the screen shows, part by part.
use vstd::prelude::*;

use crate::app::{AppView, Focus, Mode};
use crate::sed::in_place_switch;
use crate::styled::{line_views, raw_line, Color, LineView, Rect, SpanView, Style};
use crate::text::{decimal, utf8_lossy_text};
use crate::ui::{
    confirm_widgets, diff_widget, expression_line, expression_widget, popup, question, screen,
    stacked, status_line, status_widget, widget_views, Border, BorderView, Widget, WidgetView,
};

verus! {

/// A colour on nothing.
pub open spec fn ink(c: Color) -> Style {
    Style { fg: Some(c), bg: None, bold: false }
}

/// A line of one span.
pub open spec fn one_span(content: Seq<char>, style: Style) -> LineView {
    seq![SpanView { content, style }]
}

/// The expression is shown whole and in order, the cursor as a black character on cyan: the one
/// behind the cursor, or a blank at the end. Without an expression there is an example of one,
/// or the cursor alone.
pub proof fn law_expression_line(app: AppView)
    ensures
        ({
            let bare = Style { fg: None, bg: None, bold: false };
            let cursor = Style { fg: Some(Color::Black), bg: Some(Color::Cyan), bold: false };
            let none = app.before.len() == 0 && app.after.len() == 0;
            &&& none ==> expression_line(app, false) == one_span(
                "s/foo/bar/"@,
                ink(Color::DarkGray),
            )
            &&& none ==> expression_line(app, true) == one_span(" "@, cursor)
            &&& !none ==> expression_line(app, false) == seq![
                SpanView { content: app.before, style: bare },
                SpanView { content: app.after, style: bare },
            ]
            &&& !none && app.after.len() == 0 ==> expression_line(app, true) == seq![
                SpanView { content: app.before, style: bare },
                SpanView { content: " "@, style: cursor },
            ]
            &&& app.after.len() > 0 ==> expression_line(app, true) == seq![
                SpanView { content: app.before, style: bare },
                SpanView { content: seq![app.after[0]], style: cursor },
                SpanView { content: app.after.subrange(1, app.after.len() as int), style: bare },
            ]
        }),
{
    if app.after.len() > 0 {
        assert(app.after.take(1) == seq![app.after[0]]);
    }
}

/// A framed part of the screen is framed in bold cyan where the keys go to it, and in grey else.
pub open spec fn frame(focused: bool, long: Seq<char>, short: Seq<char>) -> Option<BorderView> {
    if focused {
        Some(
            BorderView {
                title: long,
                style: Style { fg: Some(Color::Cyan), bg: None, bold: true },
            },
        )
    } else {
        Some(BorderView { title: short, style: ink(Color::DarkGray) })
    }
}

/// The expression stands in its frame on one line, with the cursor where the keys go there.
pub proof fn law_expression_widget(app: AppView, area: Rect)
    ensures
        ({
            let focused = app.focus == Focus::Expression && app.mode == Mode::Editing;
            expression_widget(app, area) == (WidgetView::Paragraph {
                area,
                lines: seq![expression_line(app, focused)],
                border: frame(
                    focused,
                    " expression (Tab: diff, paste escapes / \\ &) "@,
                    " expression "@,
                ),
                wrap: false,
            })
        }),
{
}

/// The diff stands in its frame from the place scrolled to on, line after line: as many lines as
/// the frame leaves room for, and one at least. Where there is none, a remark says why.
pub proof fn law_diff_widget(app: AppView, area: Rect)
    ensures
        ({
            let focused = app.focus == Focus::Diff && app.mode == Mode::Editing;
            let n = app.diff_lines.len() as int;
            let from = if app.scroll < n {
                app.scroll as int
            } else {
                n - 1
            };
            let most: int = if area.height > 3 {
                area.height - 2
            } else {
                1
            };
            &&& diff_widget(app, area) matches WidgetView::Paragraph {
                area: place,
                lines,
                border,
                wrap,
            }
            &&& place == area
            &&& wrap
            &&& border == frame(focused, " diff (j/k scroll, Tab: expression) "@, " diff "@)
            &&& n == 0 && app.files.len() == 0 ==> lines == seq![
                one_span(" No files found under . (or pass FILE args)"@, ink(Color::DarkGray)),
            ]
            &&& n == 0 && app.files.len() > 0 ==> lines == seq![
                one_span(" Type a sed expression to preview changes"@, ink(Color::DarkGray)),
            ]
            &&& n > 0 ==> lines.len() == if n - from < most {
                n - from
            } else {
                most
            }
            &&& n > 0 ==> forall|i: int|
                0 <= i < lines.len() ==> #[trigger] lines[i] == app.diff_lines[from + i]
        }),
{
}

/// The parts of the status line in their order: whether work goes on, an error or else the last
/// message, the counts of the preview, whether it was cut, and what always stands there.
pub proof fn law_status_line(app: AppView)
    ensures
        ({
            let busy = if app.loading {
                one_span("… "@, ink(Color::Yellow))
            } else {
                Seq::empty()
            };
            let told = if app.error is Some {
                one_span("error: "@ + app.error->Some_0 + "  "@, ink(Color::Red))
            } else if app.status_message is Some {
                one_span(app.status_message->Some_0 + "  "@, ink(Color::Green))
            } else {
                Seq::empty()
            };
            let counts = if app.preview_scanned > 0 {
                one_span(
                    "changed:"@ + decimal(app.preview_shown as int) + "/"@ + decimal(
                        app.preview_changed as int,
                    ) + " scanned:"@ + decimal(app.preview_scanned as int) + "  "@,
                    ink(Color::DarkGray),
                )
            } else {
                Seq::empty()
            };
            let cut = if app.truncated {
                one_span("preview truncated  "@, ink(Color::Yellow))
            } else {
                Seq::empty()
            };
            let backup = if app.backup_suffix is Some && app.backup_suffix->Some_0.len() > 0 {
                "backup:"@ + app.backup_suffix->Some_0
            } else {
                "backup:off"@
            };
            let always = one_span(
                "files:"@ + decimal(app.files.len() as int) + "  sed:"@ + utf8_lossy_text(
                    app.sed_bin,
                ) + "  "@ + backup + "  | Ctrl+S apply  Esc quit"@,
                ink(Color::DarkGray),
            );
            status_line(app) == busy + told + counts + cut + always
        }),
{
}

/// The status line stands alone on its row.
pub proof fn law_status_widget(app: AppView, area: Rect)
    ensures
        status_widget(app, area) == (WidgetView::Paragraph {
            area,
            lines: seq![status_line(app)],
            border: None,
            wrap: false,
        }),
{
}

/// The question is 5 rows high and up to 60 columns wide, with two columns left free at each
/// side at least, and stands in the middle of the area.
pub proof fn law_question_place(area: Rect)
    requires
        area.x + area.width <= u16::MAX,
        area.y + area.height <= u16::MAX,
    ensures
        ({
            let p = popup(area);
            let left = p.x - area.x;
            let right = area.width - p.width - left;
            let above = p.y - area.y;
            let below = area.height - 5 - above;
            &&& p.height == 5
            &&& area.width >= 64 ==> p.width == 60
            &&& 4 <= area.width < 64 ==> p.width == area.width - 4
            &&& area.width < 4 ==> p.width == 0
            &&& left == right || left + 1 == right
            &&& area.height >= 5 ==> above == below || above + 1 == below
            &&& area.height < 5 ==> above == 0
        }),
{
}

/// The question asks for the files by their number and for the switch that sed is run with, above
/// the keys that answer it, on a blanked place.
pub proof fn law_question(app: AppView, area: Rect)
    ensures
        question(app) == "Apply to "@ + decimal(app.files.len() as int) + " file(s) with sed "@
            + in_place_switch(app.backup_suffix) + " -e … ?"@,
        confirm_widgets(app, area) == seq![
            WidgetView::Clear(popup(area)),
            WidgetView::Paragraph {
                area: popup(area),
                lines: seq![
                    raw_line(question(app)),
                    Seq::<SpanView>::empty(),
                    one_span("y: yes    n/Esc: cancel"@, ink(Color::Yellow)),
                ],
                border: Some(
                    BorderView { title: " confirm apply "@, style: ink(Color::Magenta) },
                ),
                wrap: false,
            },
        ],
{
    reveal_strlit("");
    assert(""@ == Seq::<char>::empty());
    assert(raw_line(""@) == Seq::<SpanView>::empty());
}

/// The screen has the expression at the top, the diff below it and the status line at the bottom,
/// and over them the question while it stands.
pub proof fn law_screen(app: AppView, area: Rect, rows: Seq<Rect>)
    ensures
        app.mode == Mode::Editing ==> screen(app, area, rows) == seq![
            expression_widget(app, rows[0]),
            diff_widget(app, rows[1]),
            status_widget(app, rows[2]),
        ],
        app.mode == Mode::ConfirmApply ==> screen(app, area, rows) == seq![
            expression_widget(app, rows[0]),
            diff_widget(app, rows[1]),
            status_widget(app, rows[2]),
            confirm_widgets(app, area)[0],
            confirm_widgets(app, area)[1],
        ],
{
    assert(confirm_widgets(app, area).len() == 2);
}

/// The rows of a screen with room for all of them, in their heights of 3, at least 3, and 1.
pub proof fn law_rows(area: Rect)
    requires
        area.y + area.height <= u16::MAX,
        area.height >= 7,
    ensures
        ({
            let rows = stacked(area, 3, 1);
            &&& rows.len() == 3
            &&& rows[0] == (Rect { x: area.x, y: area.y, width: area.width, height: 3 })
            &&& rows[1] == (Rect {
                x: area.x,
                y: (area.y + 3) as u16,
                width: area.width,
                height: (area.height - 4) as u16,
            })
            &&& rows[2] == (Rect {
                x: area.x,
                y: (area.y + area.height - 1) as u16,
                width: area.width,
                height: 1,
            })
        }),
{
}

/// The views of widgets are what these hold.
pub proof fn law_widget_views(border: Border, widget: Widget, widgets: Seq<Widget>)
    ensures
        border@ == (BorderView { title: border.title@, style: border.style }),
        widget matches Widget::Clear(area) ==> widget@ == WidgetView::Clear(area),
        widget matches Widget::Paragraph { area, lines, border, wrap } ==> {
            &&& widget@ matches WidgetView::Paragraph {
                area: place,
                lines: rows,
                border: around,
                wrap: folded,
            }
            &&& place == area
            &&& rows == line_views(lines@)
            &&& folded == wrap
            &&& around is Some <==> border is Some
            &&& border matches Some(b) ==> around == Some(b@)
        },
        widget_views(widgets).len() == widgets.len(),
        forall|i: int|
            0 <= i < widgets.len() ==> #[trigger] widget_views(widgets)[i] == widgets[i]@,
{
}

} // verus!
