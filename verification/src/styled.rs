//! Styled text and screen areas, as plain values.
use vstd::prelude::*;

use crate::text::{lines, lines_of, text, texts};

verus! {

/// A terminal colour.
#[derive(Debug, Clone, Copy, PartialEq, Eq, Structural)]
pub enum Color {
    Black,
    Red,
    Green,
    Yellow,
    Magenta,
    Cyan,
    DarkGray,
    Rgb(u8, u8, u8),
}

/// How a piece of text looks. What is `None` is left as it is on the screen.
#[derive(Debug, Clone, Copy, PartialEq, Eq, Structural)]
pub struct Style {
    pub fg: Option<Color>,
    pub bg: Option<Color>,
    pub bold: bool,
}

/// The style that changes nothing.
pub open spec fn plain_style() -> Style {
    Style { fg: None, bg: None, bold: false }
}

/// A foreground colour and nothing else.
pub open spec fn fg_style(c: Color) -> Style {
    Style { fg: Some(c), bg: None, bold: false }
}

/// A bold foreground colour.
pub open spec fn bold_style(c: Color) -> Style {
    Style { fg: Some(c), bg: None, bold: true }
}

/// A foreground and a background colour.
pub open spec fn fg_bg_style(fg: Color, bg: Color) -> Style {
    Style { fg: Some(fg), bg: Some(bg), bold: false }
}

impl Style {
    pub fn plain() -> (s: Style)
        ensures
            s == plain_style(),
    {
        Style { fg: None, bg: None, bold: false }
    }

    pub fn fg(c: Color) -> (s: Style)
        ensures
            s == fg_style(c),
    {
        Style { fg: Some(c), bg: None, bold: false }
    }

    pub fn bold(c: Color) -> (s: Style)
        ensures
            s == bold_style(c),
    {
        Style { fg: Some(c), bg: None, bold: true }
    }

    pub fn fg_bg(fg: Color, bg: Color) -> (s: Style)
        ensures
            s == fg_bg_style(fg, bg),
    {
        Style { fg: Some(fg), bg: Some(bg), bold: false }
    }
}

/// A piece of text in one style.
#[derive(Debug)]
pub struct Span {
    pub content: String,
    pub style: Style,
}

/// The model of a span.
#[verifier::ext_equal]
pub struct SpanView {
    pub content: Seq<char>,
    pub style: Style,
}

impl View for Span {
    type V = SpanView;

    open spec fn view(&self) -> SpanView {
        SpanView { content: self.content@, style: self.style }
    }
}

impl Span {
    pub fn styled(content: String, style: Style) -> (s: Span)
        ensures
            s@ == (SpanView { content: content@, style }),
    {
        Span { content, style }
    }
}

impl Clone for Span {
    fn clone(&self) -> (s: Span)
        ensures
            s@ == self@,
    {
        Span { content: self.content.clone(), style: self.style }
    }
}

/// The model of a line: its spans from left to right.
pub type LineView = Seq<SpanView>;

/// One line of styled text.
#[derive(Debug)]
pub struct Line {
    pub spans: Vec<Span>,
}

impl View for Line {
    type V = Seq<SpanView>;

    open spec fn view(&self) -> Seq<SpanView> {
        self.spans@.map_values(|s: Span| s@)
    }
}

/// The line of one span.
pub open spec fn styled_line(content: Seq<char>, style: Style) -> LineView {
    seq![SpanView { content, style }]
}

/// The line of a plain text: one span for each line of the text, so none for an empty one.
pub open spec fn raw_line(content: Seq<char>) -> LineView {
    lines(content).map_values(|t: Seq<char>| SpanView { content: t, style: plain_style() })
}

/// The models of lines in a row.
pub open spec fn line_views(v: Seq<Line>) -> Seq<LineView> {
    v.map_values(|l: Line| l@)
}

impl Line {
    /// The line of one span.
    pub fn styled(content: String, style: Style) -> (l: Line)
        ensures
            l@ == styled_line(content@, style),
    {
        let mut spans: Vec<Span> = Vec::new();
        spans.push(Span::styled(content, style));
        let l = Line { spans };
        assert(l@ == styled_line(content@, style));
        l
    }

    /// The line of nothing.
    pub fn empty() -> (l: Line)
        ensures
            l@ == Seq::<SpanView>::empty(),
    {
        let l = Line { spans: Vec::new() };
        assert(l@ == Seq::<SpanView>::empty());
        l
    }

    /// The line of a plain text.
    pub fn raw(content: &str) -> (l: Line)
        ensures
            l@ == raw_line(content@),
    {
        let parts = lines_of(content);
        let mut spans: Vec<Span> = Vec::new();
        let mut i: usize = 0;
        while i < parts.len()
            invariant
                i <= parts@.len(),
                spans@.map_values(|s: Span| s@) == texts(parts@).take(i as int).map_values(
                    |t: Seq<char>| SpanView { content: t, style: plain_style() },
                ),
            decreases parts@.len() - i,
        {
            let ghost before = spans@.map_values(|s: Span| s@);
            spans.push(Span::styled(parts[i].clone(), Style::plain()));
            assert(spans@.map_values(|s: Span| s@) == before.push(
                SpanView { content: parts@[i as int]@, style: plain_style() },
            ));
            i = i + 1;
        }
        assert(texts(parts@).take(i as int) == texts(parts@));
        Line { spans }
    }
}

impl Clone for Line {
    fn clone(&self) -> (l: Line)
        ensures
            l@ == self@,
    {
        let mut spans: Vec<Span> = Vec::new();
        let mut i: usize = 0;
        while i < self.spans.len()
            invariant
                i <= self.spans@.len(),
                spans@.map_values(|s: Span| s@) == self@.take(i as int),
            decreases self.spans@.len() - i,
        {
            let ghost before = spans@.map_values(|s: Span| s@);
            spans.push(self.spans[i].clone());
            assert(spans@.map_values(|s: Span| s@) == before.push(self.spans@[i as int]@));
            i = i + 1;
        }
        assert(self@.take(i as int) == self@);
        Line { spans }
    }
}

/// Pushing a line pushes its model.
pub proof fn lemma_line_views_push(v: Seq<Line>, l: Line)
    ensures
        line_views(v.push(l)) == line_views(v).push(l@),
{
    assert(line_views(v.push(l)) =~= line_views(v).push(l@));
}

/// Appends a line.
pub(crate) fn push_line(v: &mut Vec<Line>, l: Line)
    ensures
        line_views(final(v)@) == line_views(old(v)@).push(l@),
{
    proof {
        lemma_line_views_push(v@, l);
    }
    v.push(l);
}

/// Appends lines.
pub(crate) fn append_lines(v: &mut Vec<Line>, mut more: Vec<Line>)
    ensures
        line_views(final(v)@) == line_views(old(v)@) + line_views(more@),
{
    let ghost a = v@;
    let ghost b = more@;
    v.append(&mut more);
    assert(v@ == a + b);
    assert(line_views(v@) == line_views(a) + line_views(b));
}

/// A rectangle of the screen, in cells.
#[derive(Debug, Clone, Copy, PartialEq, Eq, Structural)]
pub struct Rect {
    pub x: u16,
    pub y: u16,
    pub width: u16,
    pub height: u16,
}

} // verus!
