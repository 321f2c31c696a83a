//! Styled text: what the interactive view draws.

use crate::text::push_padded;
use vstd::prelude::*;

verus! {

/// The colours in use.
#[derive(Debug, Clone, Copy, PartialEq, Eq, Structural)]
pub enum Color {
    /// Blue.
    Blue,
    /// Cyan.
    Cyan,
    /// Gray.
    Gray,
    /// Green.
    Green,
    /// Magenta.
    Magenta,
    /// Red.
    Red,
    /// White.
    White,
    /// Yellow.
    Yellow,
}

/// How a piece of text looks.
#[derive(Debug, Clone, Copy, PartialEq, Eq, Structural)]
pub struct Style {
    /// The colour, or that of the terminal.
    pub fg: Option<Color>,
    /// Bold.
    pub bold: bool,
    /// Dimmed.
    pub dim: bool,
    /// Foreground and background swapped.
    pub reversed: bool,
}

/// The look of plain text.
pub open spec fn plain() -> Style {
    Style { fg: None, bold: false, dim: false, reversed: false }
}

/// Dimmed.
pub open spec fn dim() -> Style {
    Style { dim: true, ..plain() }
}

/// Bold.
pub open spec fn bold() -> Style {
    Style { bold: true, ..plain() }
}

/// In a colour.
pub open spec fn tinted(color: Color) -> Style {
    Style { fg: Some(color), ..plain() }
}

/// Bold and in a colour.
pub open spec fn strong(color: Color) -> Style {
    Style { fg: Some(color), bold: true, ..plain() }
}

impl Style {
    /// The look of plain text.
    pub fn plain() -> (r: Style)
        ensures
            r == plain(),
    {
        Style { fg: None, bold: false, dim: false, reversed: false }
    }

    /// Dimmed.
    pub fn dim() -> (r: Style)
        ensures
            r == dim(),
    {
        Style { fg: None, bold: false, dim: true, reversed: false }
    }

    /// Bold.
    pub fn bold() -> (r: Style)
        ensures
            r == bold(),
    {
        Style { fg: None, bold: true, dim: false, reversed: false }
    }

    /// In a colour.
    pub fn tinted(color: Color) -> (r: Style)
        ensures
            r == tinted(color),
    {
        Style { fg: Some(color), bold: false, dim: false, reversed: false }
    }

    /// Bold and in a colour.
    pub fn strong(color: Color) -> (r: Style)
        ensures
            r == strong(color),
    {
        Style { fg: Some(color), bold: true, dim: false, reversed: false }
    }
}

/// A piece of text with one look.
#[derive(Debug)]
pub struct Span {
    /// The text.
    pub text: String,
    /// How it looks.
    pub style: Style,
}

/// What a [`Span`] stands for.
pub struct Piece {
    pub text: Seq<char>,
    pub style: Style,
}

impl View for Span {
    type V = Piece;

    open spec fn view(&self) -> Piece {
        Piece { text: self.text@, style: self.style }
    }
}

/// A line of styled text.
#[derive(Debug)]
pub struct Line {
    /// Its pieces, from left to right.
    pub spans: Vec<Span>,
}

impl View for Line {
    type V = Seq<Piece>;

    open spec fn view(&self) -> Seq<Piece> {
        self.spans@.map_values(|s: Span| s@)
    }
}

/// The lines that a list stands for.
pub open spec fn drawn(lines: Seq<Line>) -> Seq<Seq<Piece>> {
    lines.map_values(|l: Line| l@)
}

/// Plain text.
pub open spec fn raw(text: Seq<char>) -> Piece {
    Piece { text, style: plain() }
}

/// Text with a look.
pub open spec fn styled(text: Seq<char>, style: Style) -> Piece {
    Piece { text, style }
}

/// The name of a key, in brackets.
pub open spec fn key_name(key: Seq<char>) -> Piece {
    styled("["@ + key + "]"@, bold())
}

/// An empty line.
pub open spec fn blank() -> Seq<Piece> {
    Seq::empty()
}

impl Line {
    /// An empty line.
    pub fn new() -> (r: Line)
        ensures
            r@ == blank(),
    {
        let r = Line { spans: Vec::new() };
        assert(r@ =~= blank());
        r
    }

    /// Append text with a look.
    pub fn push(&mut self, text: &str, style: Style)
        ensures
            final(self)@ == old(self)@.push(styled(text@, style)),
    {
        let ghost before = self@;
        self.spans.push(Span { text: text.to_owned(), style });
        assert(self@ =~= before.push(styled(text@, style)));
    }

    /// Append plain text.
    pub fn push_raw(&mut self, text: &str)
        ensures
            final(self)@ == old(self)@.push(raw(text@)),
    {
        self.push(text, Style::plain());
    }

    /// Append the name of a key, in brackets.
    pub fn push_key(&mut self, key: &str)
        ensures
            final(self)@ == old(self)@.push(key_name(key@)),
    {
        let mut text = "[".to_owned();
        text.append(key);
        text.append("]");
        self.push(text.as_str(), Style::bold());
    }
}

/// Append a line to a list.
pub fn push_line(lines: &mut Vec<Line>, line: Line)
    ensures
        drawn(final(lines)@) == drawn(old(lines)@).push(line@),
{
    let ghost before = drawn(lines@);
    lines.push(line);
    assert(drawn(lines@) =~= before.push(line@));
}

/// A label filled up to `width` characters, and two spaces.
pub open spec fn column(label: Seq<char>, width: nat) -> Seq<char> {
    crate::text::padded(label, width) + "  "@
}

/// A label filled up to `width` characters, and two spaces.
pub fn column_text(label: &str, width: usize) -> (r: String)
    ensures
        r@ == column(label@, width as nat),
{
    let mut out = String::new();
    push_padded(&mut out, label, width);
    out.append("  ");
    assert(out@ =~= column(label@, width as nat));
    out
}

/// The mark in front of a row, the label of the row, as they look when the
/// row is selected or not.
pub open spec fn row_prefix(label: Seq<char>, width: nat, selected: bool) -> Seq<Piece> {
    seq![
        styled(
            if selected {
                "  ▶ "@
            } else {
                "    "@
            },
            strong(Color::Cyan),
        ),
        styled(
            column(label, width),
            if selected {
                strong(Color::White)
            } else {
                dim()
            },
        ),
    ]
}

/// A line that starts with the mark and the label of a row.
pub fn row_start(label: &str, width: usize, selected: bool) -> (r: Line)
    ensures
        r@ == row_prefix(label@, width as nat, selected),
{
    let mut line = Line::new();
    line.push(
        if selected {
            "  ▶ "
        } else {
            "    "
        },
        Style::strong(Color::Cyan),
    );
    line.push(
        column_text(label, width).as_str(),
        if selected {
            Style::strong(Color::White)
        } else {
            Style::dim()
        },
    );
    assert(line@ =~= row_prefix(label@, width as nat, selected));
    line
}

/// The heading of a section.
pub open spec fn section_header(label: Seq<char>) -> Seq<Piece> {
    seq![styled("  "@ + label, strong(Color::Cyan))]
}

/// Append the heading of a section.
pub fn push_section_header(lines: &mut Vec<Line>, label: &str)
    ensures
        drawn(final(lines)@) == drawn(old(lines)@).push(section_header(label@)),
{
    let mut text = "  ".to_owned();
    text.append(label);
    let mut line = Line::new();
    line.push(text.as_str(), Style::strong(Color::Cyan));
    assert(line@ =~= section_header(label@));
    push_line(lines, line);
}


/// The mark stands in front of the selected row and of no other, and the label
/// is filled up to the width of its column.
pub proof fn law_selected_row_is_marked(label: Seq<char>, width: nat, selected: bool)
    ensures
        row_prefix(label, width, selected).len() == 2,
        row_prefix(label, width, selected)[0].text == if selected {
            "  ▶ "@
        } else {
            "    "@
        },
        row_prefix(label, width, selected)[1].text == crate::text::padded(label, width) + "  "@,
        section_header(label)[0].text == "  "@ + label,
        key_name(label).text == "["@ + label + "]"@,
{
}

/// A look has the colour it is given and is bold, dimmed or neither.
pub proof fn law_looks(color: Color)
    ensures
        tinted(color).fg == Some(color) && !tinted(color).bold && !tinted(color).dim,
        strong(color).fg == Some(color) && strong(color).bold && !strong(color).dim,
        bold().bold && bold().fg is None && !bold().dim,
        dim().dim && dim().fg is None && !dim().bold,
        plain().fg is None && !plain().bold && !plain().dim && !plain().reversed,
        !tinted(color).reversed && !strong(color).reversed && !bold().reversed && !dim().reversed,
{
}

/// What a line stands for are the texts and the looks of its pieces, in order.
pub proof fn law_line_as_it_is(line: Line, i: int)
    ensures
        line@.len() == line.spans@.len(),
        0 <= i < line.spans@.len() ==> line@[i].text == line.spans@[i].text@ && line@[i].style
            == line.spans@[i].style,
{
}

} // verus!
