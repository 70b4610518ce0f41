//! Styled text, as a terminal shows it.

use vstd::prelude::*;

verus! {

#[derive(Debug, Clone, Copy, PartialEq, Eq, Structural)]
pub enum Color {
    Black,
    Red,
    Green,
    Yellow,
    Cyan,
    White,
    DarkGray,
}

/// How a span is drawn. Without a colour it takes the terminal's own.
#[derive(Debug, Clone, Copy, PartialEq, Eq, Structural)]
pub struct Style {
    pub fg: Option<Color>,
    pub bg: Option<Color>,
    pub bold: bool,
}

impl Style {
    pub open spec fn plain() -> Style {
        Style { fg: None, bg: None, bold: false }
    }

    pub open spec fn ink(c: Color) -> Style {
        Style { fg: Some(c), bg: None, bold: false }
    }

    pub fn fg(c: Color) -> (r: Style)
        ensures
            r == Style::ink(c),
    {
        Style { fg: Some(c), bg: None, bold: false }
    }
}

/// A run of text in one style.
#[derive(Debug, PartialEq, Eq)]
pub struct Span {
    pub text: String,
    pub style: Style,
}

pub struct SpanView {
    pub text: Seq<char>,
    pub style: Style,
}

impl View for Span {
    type V = SpanView;

    open spec fn view(&self) -> SpanView {
        SpanView { text: self.text@, style: self.style }
    }
}

/// A line of spans.
#[derive(Debug, PartialEq, Eq)]
pub struct Line {
    pub spans: Vec<Span>,
}

pub open spec fn spans(v: Seq<Span>) -> Seq<SpanView> {
    v.map_values(|s: Span| s@)
}

impl View for Line {
    type V = Seq<SpanView>;

    open spec fn view(&self) -> Seq<SpanView> {
        spans(self.spans@)
    }
}

pub open spec fn line_views(v: Seq<Line>) -> Seq<Seq<SpanView>> {
    v.map_values(|l: Line| l@)
}

/// Text in a style.
pub open spec fn styled_text(text: Seq<char>, style: Style) -> SpanView {
    SpanView { text, style }
}

/// Text as it stands.
pub open spec fn raw_text(text: Seq<char>) -> SpanView {
    SpanView { text, style: Style::plain() }
}

pub fn styled(text: String, style: Style) -> (r: Span)
    ensures
        r@ == styled_text(text@, style),
{
    Span { text, style }
}

pub fn raw(text: &str) -> (r: Span)
    ensures
        r@ == raw_text(text@),
{
    Span { text: text.to_owned(), style: Style { fg: None, bg: None, bold: false } }
}

/// A line of one span.
pub fn line_of(span: Span) -> (r: Line)
    ensures
        r@ == seq![span@],
{
    let r = Line { spans: vec![span] };
    assert(r@ == seq![span@]);
    r
}

/// Add a line to the end.
pub fn push_line(v: &mut Vec<Line>, l: Line)
    ensures
        line_views(final(v)@) == line_views(old(v)@).push(l@),
{
    let ghost before = line_views(v@);
    v.push(l);
    assert(line_views(v@) == before.push(l@));
}

/// Add a span to the end.
pub fn push_span(v: &mut Vec<Span>, s: Span)
    ensures
        spans(final(v)@) == spans(old(v)@).push(s@),
{
    let ghost before = spans(v@);
    v.push(s);
    assert(spans(v@) == before.push(s@));
}

} // verus!
