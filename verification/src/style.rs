//! Styled text: colours, spans and lines.
use crate::text::views;
use vstd::prelude::*;

verus! {

/// A colour of a terminal.
#[derive(Debug, Clone, Copy, PartialEq, Eq, Structural)]
pub enum Color {
    Reset,
    Indexed(u8),
    Rgb(u8, u8, u8),
}

/// How a text looks.
#[derive(Debug, Clone, Copy, PartialEq, Eq, Structural)]
pub struct Style {
    pub fg: Option<Color>,
    pub bg: Option<Color>,
    pub bold: bool,
    pub italic: bool,
    pub underlined: bool,
    pub reversed: bool,
}

/// A text that looks as the terminal has it.
#[verifier::allow_in_spec]
pub fn plain() -> Style
    returns
        (Style {
            fg: None,
            bg: None,
            bold: false,
            italic: false,
            underlined: false,
            reversed: false,
        }),
{
    Style { fg: None, bg: None, bold: false, italic: false, underlined: false, reversed: false }
}

/// A text in a colour.
#[verifier::allow_in_spec]
pub fn fg(color: Color) -> Style
    returns
        (Style {
            fg: Some(color),
            bg: None,
            bold: false,
            italic: false,
            underlined: false,
            reversed: false,
        }),
{
    Style {
        fg: Some(color),
        bg: None,
        bold: false,
        italic: false,
        underlined: false,
        reversed: false,
    }
}

/// A bold text in a colour.
#[verifier::allow_in_spec]
pub fn bold(color: Color) -> Style
    returns
        (Style {
            fg: Some(color),
            bg: None,
            bold: true,
            italic: false,
            underlined: false,
            reversed: false,
        }),
{
    Style {
        fg: Some(color),
        bg: None,
        bold: true,
        italic: false,
        underlined: false,
        reversed: false,
    }
}

/// A slanted text in a colour.
#[verifier::allow_in_spec]
pub fn italic(color: Color) -> Style
    returns
        (Style {
            fg: Some(color),
            bg: None,
            bold: false,
            italic: true,
            underlined: false,
            reversed: false,
        }),
{
    Style {
        fg: Some(color),
        bg: None,
        bold: false,
        italic: true,
        underlined: false,
        reversed: false,
    }
}

/// A bold text in a colour on a coloured ground.
#[verifier::allow_in_spec]
pub fn bold_on(color: Color, ground: Color) -> Style
    returns
        (Style {
            fg: Some(color),
            bg: Some(ground),
            bold: true,
            italic: false,
            underlined: false,
            reversed: false,
        }),
{
    Style {
        fg: Some(color),
        bg: Some(ground),
        bold: true,
        italic: false,
        underlined: false,
        reversed: false,
    }
}

/// A text in one style.
#[derive(Debug, PartialEq, Eq)]
pub struct Span<T = String> {
    pub text: T,
    pub style: Style,
}

/// A text in one style, as contracts speak of it.
pub type SpanView = Span<Seq<char>>;

impl View for Span<String> {
    type V = SpanView;

    open spec fn view(&self) -> SpanView {
        Span { text: self.text@, style: self.style }
    }
}

/// A text in a style.
pub open spec fn span(text: Seq<char>, style: Style) -> SpanView {
    Span { text, style }
}

/// A line of spans.
#[derive(Debug, PartialEq, Eq)]
pub struct Line {
    pub spans: Vec<Span>,
}

impl View for Line {
    type V = Seq<SpanView>;

    open spec fn view(&self) -> Seq<SpanView> {
        views(self.spans@)
    }
}

/// The number of characters in a line.
pub open spec fn line_width(line: Seq<SpanView>) -> nat
    decreases line.len(),
{
    if line.len() == 0 {
        0
    } else {
        line_width(line.drop_last()) + line.last().text.len()
    }
}

impl Line {
    /// An empty line.
    pub fn new() -> (out: Line)
        ensures
            out@ == Seq::<SpanView>::empty(),
    {
        let out = Line { spans: Vec::new() };
        assert(out@ == Seq::<SpanView>::empty());
        out
    }

    /// A line of one span.
    pub fn of(text: &str, style: Style) -> (out: Line)
        ensures
            out@ == seq![span(text@, style)],
    {
        let mut out = Line::new();
        out.put(text, style);
        assert(out@ == seq![span(text@, style)]);
        out
    }

    /// A line of one span without characters.
    pub fn blank() -> (out: Line)
        ensures
            out@ == blank_line(),
    {
        Line::of("", plain())
    }

    /// Puts a span behind the line.
    pub fn put(&mut self, text: &str, style: Style)
        ensures
            final(self)@ == old(self)@.push(span(text@, style)),
    {
        let ghost before = self.spans@;
        self.spans.push(Span { text: text.to_owned(), style });
        assert(views(self.spans@) == views(before).push(span(text@, style)));
    }
}

/// A line of one span without characters.
pub open spec fn blank_line() -> Seq<SpanView> {
    seq![span(""@, plain())]
}

/// Puts a line behind the lines.
pub fn put_line(lines: &mut Vec<Line>, line: Line)
    ensures
        views(final(lines)@) == views(old(lines)@).push(line@),
{
    let ghost before = lines@;
    lines.push(line);
    assert(views(lines@) == views(before).push(line@));
}

} // verus!
