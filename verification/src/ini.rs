//! The lines of an INI text, as the `serde_ini` parser reads them.

use vstd::prelude::*;

verus! {

/// One line of INI text, classified.
#[derive(Debug, Clone, PartialEq, Eq)]
pub enum Line {
    /// A blank line.
    Empty,
    /// A line that starts with `;` or `#`, with its whole text.
    Comment(String),
    /// A `[name]` header, with the name between the brackets.
    Section(String),
    /// A `key = value` line, both trimmed.
    Value(String, String),
    /// A line that the parser rejects.
    Malformed,
}

/// What a [`Line`] is in contracts.
pub enum LineView {
    Empty,
    Comment(Seq<char>),
    Section(Seq<char>),
    Value(Seq<char>, Seq<char>),
    Malformed,
}

impl View for Line {
    type V = LineView;

    open spec fn view(&self) -> LineView {
        match self {
            Line::Empty => LineView::Empty,
            Line::Comment(text) => LineView::Comment(text@),
            Line::Section(name) => LineView::Section(name@),
            Line::Value(key, value) => LineView::Value(key@, value@),
            Line::Malformed => LineView::Malformed,
        }
    }
}

/// The views of a run of lines, in order.
pub open spec fn lines_view(lines: Seq<Line>) -> Seq<LineView> {
    lines.map_values(|line: Line| line@)
}

/// The lines that `serde_ini`'s parser yields for a text, one for each line
/// of the text, in order.
pub uninterp spec fn ini_lines(text: Seq<char>) -> Seq<LineView>;

/// Runs `serde_ini::Parser::from_str` over `text` and collects every item it
/// yields. The parser classifies each line on its own and goes on after a line
/// it rejects, so a rejected line is kept as [`Line::Malformed`] in its place.
/// Trusted: that the outcome is a function of the text alone, named
/// [`ini_lines`]; nothing more is claimed of it.
#[verifier::external_body]
pub(crate) fn read_lines(text: &str) -> (lines: Vec<Line>)
    ensures
        lines_view(lines@) == ini_lines(text@),
{
    let mut lines: Vec<Line> = Vec::new();
    for item in serde_ini::Parser::from_str(text) {
        lines.push(match item {
            Ok(serde_ini::Item::Empty) => Line::Empty,
            Ok(serde_ini::Item::Comment { text }) => Line::Comment(text),
            Ok(serde_ini::Item::Section { name }) => Line::Section(name),
            Ok(serde_ini::Item::Value { key, value }) => Line::Value(key, value),
            Err(_) => Line::Malformed,
        });
    }
    lines
}

} // verus!
