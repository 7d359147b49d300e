//! Plain values of the editor protocol that the library computes: positions
//! and ranges counted in characters, text edits and locations.
use vstd::prelude::*;

verus! {

/// A zero-based line and character column.
#[derive(Clone, Copy, Debug, PartialEq, Eq, Structural)]
pub struct Position {
    pub line: u32,
    pub character: u32,
}

/// A range from `start` (inclusive) to `end` (exclusive).
#[derive(Clone, Copy, Debug, PartialEq, Eq, Structural)]
pub struct Range {
    pub start: Position,
    pub end: Position,
}

/// An edit that replaces a range of a document with new text.
#[derive(Clone, Debug)]
pub struct TextEdit {
    pub range: Range,
    pub new_text: String,
}

/// A range in the document named by `uri`.
#[derive(Clone, Debug)]
pub struct Location {
    pub uri: String,
    pub range: Range,
}

/// The range on line `line` from column `start` to column `end`, each
/// number as it is stored in the protocol's 32-bit fields.
pub open spec fn span(line: int, start: int, end: int) -> Range {
    Range {
        start: Position { line: line as u32, character: start as u32 },
        end: Position { line: line as u32, character: end as u32 },
    }
}

/// Builds the range on line `line` from column `start` to column `end`.
pub fn make_span(line: usize, start: usize, end: usize) -> (r: Range)
    ensures
        r == span(line as int, start as int, end as int),
{
    Range {
        start: Position { line: line as u32, character: start as u32 },
        end: Position { line: line as u32, character: end as u32 },
    }
}

} // verus!
