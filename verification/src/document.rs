//! Open documents, held in a `ropey::Rope`, and the word under the cursor.
use vstd::prelude::*;
use crate::protocol::Position;
use crate::text::{string_of_range, is_word_char, word_char};

verus! {

/// The rope type of `ropey`, held opaque.
#[verifier::external_type_specification]
#[verifier::external_body]
pub struct ExRope(ropey::Rope);

/// The text that a rope holds.
pub uninterp spec fn rope_text(rope: ropey::Rope) -> Seq<char>;

/// A line break as `ropey` recognizes one with its default features: line
/// feed, vertical tab, form feed, carriage return, next line, line separator,
/// paragraph separator (a carriage return followed by a line feed is one break).
pub open spec fn rope_break(c: char) -> bool {
    c == '\n' || c == '\u{0B}' || c == '\u{0C}' || c == '\r' || c == '\u{85}' || c == '\u{2028}'
        || c == '\u{2029}'
}

/// The index just after the first line break at or after `i`, or -1 when there is none.
pub open spec fn rope_break_end(s: Seq<char>, i: int) -> int
    decreases s.len() - i,
{
    if i < 0 || i >= s.len() {
        -1
    } else if s[i] == '\r' && i + 1 < s.len() && s[i + 1] == '\n' {
        i + 2
    } else if rope_break(s[i]) {
        i + 1
    } else {
        rope_break_end(s, i + 1)
    }
}

pub proof fn lemma_rope_break_end(s: Seq<char>, i: int)
    requires
        0 <= i,
    ensures
        rope_break_end(s, i) == -1 || i < rope_break_end(s, i) <= s.len(),
    decreases s.len() - i,
{
    if i < s.len() && !(s[i] == '\r' && i + 1 < s.len() && s[i + 1] == '\n') && !rope_break(s[i]) {
        lemma_rope_break_end(s, i + 1);
    }
}

/// The lines of `s[start..]` as `ropey` counts them: each line keeps the
/// break that ends it, and the text after the last break is one more line,
/// empty when the text ends with a break.
pub open spec fn rope_lines_from(s: Seq<char>, start: int) -> Seq<Seq<char>>
    decreases s.len() - start,
{
    if start < 0 || start > s.len() {
        Seq::empty()
    } else {
        let e = rope_break_end(s, start);
        proof {
            lemma_rope_break_end(s, start);
        }
        if e < 0 {
            seq![s.subrange(start, s.len() as int)]
        } else {
            seq![s.subrange(start, e)] + rope_lines_from(s, e)
        }
    }
}

/// The lines of a rope's text, as `Rope::line` returns them.
pub open spec fn rope_lines(s: Seq<char>) -> Seq<Seq<char>> {
    rope_lines_from(s, 0)
}

/// Calls `Rope::from_str`; the rope holds the given text.
#[verifier::external_body]
pub(crate) fn rope_from_str(s: &str) -> (r: ropey::Rope)
    ensures
        rope_text(r) == s@,
{
    ropey::Rope::from_str(s)
}

/// Calls `String::from(&Rope)`; the string is the rope's text.
#[verifier::external_body]
pub(crate) fn rope_to_string(r: &ropey::Rope) -> (s: String)
    ensures
        s@ == rope_text(*r),
{
    String::from(r)
}

/// Calls `Rope::len_lines`: the number of lines, as the line breaks split them.
#[verifier::external_body]
pub(crate) fn rope_len_lines(r: &ropey::Rope) -> (n: usize)
    ensures
        n == rope_lines(rope_text(*r)).len(),
{
    r.len_lines()
}

/// Calls `Rope::line` (which panics past the last line) and copies the
/// characters of the line, its line break included.
#[verifier::external_body]
pub(crate) fn rope_line(r: &ropey::Rope, line_idx: usize) -> (v: Vec<char>)
    requires
        line_idx < rope_lines(rope_text(*r)).len(),
    ensures
        v@ == rope_lines(rope_text(*r))[line_idx as int],
{
    r.line(line_idx).chars().collect()
}

/// An open document.
pub struct Document {
    pub rope: ropey::Rope,
}

impl Document {
    /// A document holding `content`.
    pub fn new(content: String) -> (r: Document)
        ensures
            rope_text(r.rope) == content@,
    {
        Document { rope: rope_from_str(content.as_str()) }
    }

    /// The text of the document.
    pub fn text(&self) -> (r: String)
        ensures
            r@ == rope_text(self.rope),
    {
        rope_to_string(&self.rope)
    }

    /// The number of lines of the document.
    pub fn line_count(&self) -> (r: usize)
        ensures
            r == rope_lines(rope_text(self.rope)).len(),
    {
        rope_len_lines(&self.rope)
    }

    /// The characters of line `line_idx`, its line break included.
    pub fn line(&self, line_idx: usize) -> (r: Vec<char>)
        requires
            line_idx < rope_lines(rope_text(self.rope)).len(),
        ensures
            r@ == rope_lines(rope_text(self.rope))[line_idx as int],
    {
        rope_line(&self.rope, line_idx)
    }
}

/// The start of the run of symbol characters that ends at `p`.
pub open spec fn word_start(line: Seq<char>, p: int) -> int
    decreases p,
{
    if p <= 0 || p > line.len() {
        p
    } else if word_char(line[p - 1]) {
        word_start(line, p - 1)
    } else {
        p
    }
}

/// The end of the run of symbol characters that starts at `p`.
pub open spec fn word_end(line: Seq<char>, p: int) -> int
    decreases line.len() - p,
{
    if p < 0 || p >= line.len() {
        p
    } else if word_char(line[p]) {
        word_end(line, p + 1)
    } else {
        p
    }
}

/// The column of the cursor, clamped to the line's length.
pub open spec fn clamp_column(line: Seq<char>, character: u32) -> int {
    if character as int <= line.len() {
        character as int
    } else {
        line.len() as int
    }
}

/// The word under the cursor on `line`: the run of symbol characters around
/// the clamped column, as `(start, end)`, when it is not empty.
pub open spec fn word_range_in_line(line: Seq<char>, character: u32) -> Option<(int, int)> {
    let p = clamp_column(line, character);
    let s = word_start(line, p);
    let e = word_end(line, p);
    if s < e {
        Some((s, e))
    } else {
        None
    }
}

pub proof fn lemma_word_bounds(line: Seq<char>, p: int)
    requires
        0 <= p <= line.len(),
    ensures
        0 <= word_start(line, p) <= p <= word_end(line, p) <= line.len(),
        forall|k: int| word_start(line, p) <= k < word_end(line, p) ==> word_char(#[trigger] line[k]),
        word_start(line, p) > 0 ==> !word_char(line[word_start(line, p) - 1]),
        word_end(line, p) < line.len() ==> !word_char(line[word_end(line, p)]),
{
    lemma_word_start(line, p);
    lemma_word_end(line, p);
}

proof fn lemma_word_start(line: Seq<char>, p: int)
    requires
        0 <= p <= line.len(),
    ensures
        0 <= word_start(line, p) <= p,
        forall|k: int| word_start(line, p) <= k < p ==> word_char(#[trigger] line[k]),
        word_start(line, p) > 0 ==> !word_char(line[word_start(line, p) - 1]),
    decreases p,
{
    if p > 0 && word_char(line[p - 1]) {
        lemma_word_start(line, p - 1);
    }
}

proof fn lemma_word_end(line: Seq<char>, p: int)
    requires
        0 <= p <= line.len(),
    ensures
        p <= word_end(line, p) <= line.len(),
        forall|k: int| p <= k < word_end(line, p) ==> word_char(#[trigger] line[k]),
        word_end(line, p) < line.len() ==> !word_char(line[word_end(line, p)]),
    decreases line.len() - p,
{
    if p < line.len() && word_char(line[p]) {
        lemma_word_end(line, p + 1);
    }
}

/// The word under the cursor within the characters of one line.
pub fn word_range_in(line: &[char], character: u32) -> (r: Option<(usize, usize)>)
    ensures
        match r {
            Some((s, e)) => word_range_in_line(line@, character) == Some((s as int, e as int)),
            None => word_range_in_line(line@, character) is None,
        },
{
    let n = line.len();
    let char_pos: usize = if (character as u64) <= (n as u64) {
        character as usize
    } else {
        n
    };
    assert(char_pos == clamp_column(line@, character));
    let mut start = char_pos;
    let mut end = char_pos;
    while start > 0 && is_word_char(line[start - 1])
        invariant
            start <= char_pos <= n,
            n == line@.len(),
            word_start(line@, char_pos as int) == word_start(line@, start as int),
        decreases start,
    {
        start = start - 1;
    }
    while end < n && is_word_char(line[end])
        invariant
            char_pos <= end <= n,
            n == line@.len(),
            word_end(line@, char_pos as int) == word_end(line@, end as int),
        decreases n - end,
    {
        end = end + 1;
    }
    if start < end {
        Some((start, end))
    } else {
        None
    }
}

/// The word under the cursor: the start and end columns of the run of
/// symbol characters around the (clamped) cursor column, and the line.
pub fn word_range_at_position(rope: &ropey::Rope, position: Position) -> (r: Option<(usize, usize, Vec<char>)>)
    requires
        (position.line as int) < rope_lines(rope_text(*rope)).len(),
    ensures
        match r {
            Some((s, e, line)) => line@ == rope_lines(rope_text(*rope))[position.line as int]
                && word_range_in_line(line@, position.character) == Some((s as int, e as int)),
            None => word_range_in_line(
                rope_lines(rope_text(*rope))[position.line as int],
                position.character,
            ) is None,
        },
{
    let line = rope_line(rope, position.line as usize);
    match word_range_in(line.as_slice(), position.character) {
        Some((s, e)) => Some((s, e, line)),
        None => None,
    }
}

/// The word under the cursor, as a string.
pub fn get_word_at_position(rope: &ropey::Rope, position: Position) -> (r: Option<String>)
    requires
        (position.line as int) < rope_lines(rope_text(*rope)).len(),
    ensures
        match word_range_in_line(rope_lines(rope_text(*rope))[position.line as int], position.character) {
            Some((s, e)) => r is Some && r->0@ == rope_lines(rope_text(*rope))[position.line as int].subrange(s, e),
            None => r is None,
        },
{
    match word_range_at_position(rope, position) {
        Some((s, e, line)) => {
            proof {
                lemma_word_bounds(line@, clamp_column(line@, position.character));
            }
            Some(string_of_range(line.as_slice(), s, e))
        },
        None => None,
    }
}

/// The text of the cursor's line before the (clamped) cursor column.
pub open spec fn line_prefix(line: Seq<char>, character: u32) -> Seq<char> {
    line.take(clamp_column(line, character))
}

/// The text of line `position.line` before the cursor.
pub fn text_before_cursor(rope: &ropey::Rope, position: Position) -> (r: String)
    requires
        (position.line as int) < rope_lines(rope_text(*rope)).len(),
    ensures
        r@ == line_prefix(rope_lines(rope_text(*rope))[position.line as int], position.character),
{
    let line = rope_line(rope, position.line as usize);
    let n = line.len();
    let char_pos: usize = if (position.character as u64) <= (n as u64) {
        position.character as usize
    } else {
        n
    };
    string_of_range(line.as_slice(), 0, char_pos)
}

} // verus!
