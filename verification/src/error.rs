//! The ways in which parsing fails.

use vstd::prelude::*;

verus! {

/// Why a text, a line or a marker could not be parsed.
#[derive(Debug, PartialEq, Eq, Clone, Copy, Structural)]
pub enum ParseError {
    /// A line of the front matter holds no `:`.
    MalformedFrontMatter,
    /// The text ends inside a fenced block of code.
    UnterminatedCodeBlock,
    /// The text ends inside a comment.
    UnterminatedComment,
    /// A row of a table has more or fewer cells than the header.
    TableColumnMismatch,
    /// An image or a link is opened and never closed.
    UnresolvedInlineMarker,
    /// A character that opens a marker is followed by no marker.
    NoMarkerMatched,
    /// The line is not a title.
    NoTittle,
    /// The pattern engine refused a pattern.
    PatternRejected,
}

} // verus!
