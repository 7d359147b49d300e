//! Character-level text primitives: line splitting, SKILL word characters,
//! escapes, string and comment boundaries, trimming.
use vstd::prelude::*;

verus! {

// ---------------------------------------------------------------------------
// Outside functions of std on characters and strings
// ---------------------------------------------------------------------------

/// The Unicode property tested by `char::is_alphanumeric` (Alphabetic or Numeric).
pub uninterp spec fn char_is_alphanumeric(c: char) -> bool;

/// The Unicode property tested by `char::is_whitespace` (White_Space).
pub uninterp spec fn char_is_whitespace(c: char) -> bool;

/// White space as `char::is_whitespace` reports it: among ASCII characters
/// exactly the space and the characters from tab to carriage return (tab,
/// line feed, vertical tab, form feed, carriage return); any other
/// character as the Unicode property has it.
pub open spec fn white_space(c: char) -> bool {
    if (c as u32) < 0x80 {
        c == ' ' || ('\t' <= c && c <= '\r')
    } else {
        char_is_whitespace(c)
    }
}

/// Alphanumeric as `char::is_alphanumeric` reports it: among ASCII
/// characters exactly the digits and the letters; any other character as
/// the Unicode property has it.
pub open spec fn alphanumeric(c: char) -> bool {
    if (c as u32) < 0x80 {
        ('0' <= c && c <= '9') || ('a' <= c && c <= 'z') || ('A' <= c && c <= 'Z')
    } else {
        char_is_alphanumeric(c)
    }
}

/// What `str::to_lowercase` returns for a string that holds a character
/// outside ASCII (the Unicode lowercase mapping).
pub uninterp spec fn unicode_lowercase(s: Seq<char>) -> Seq<char>;

/// The lowercase of an ASCII character: `A` to `Z` become `a` to `z`, any
/// other character stays.
pub open spec fn ascii_lower(c: char) -> char {
    if 'A' <= c && c <= 'Z' {
        ((c as u32) + 32) as char
    } else {
        c
    }
}

/// Every character of `s` is ASCII.
pub open spec fn all_ascii(s: Seq<char>) -> bool {
    forall|i: int| 0 <= i < s.len() ==> (#[trigger] s[i] as u32) < 0x80
}

/// What `str::to_lowercase` returns: for an ASCII string (the empty string
/// among them) each letter lowercased and the rest kept; for any other
/// string the Unicode lowercase mapping.
pub open spec fn lowercase(s: Seq<char>) -> Seq<char> {
    if all_ascii(s) {
        s.map_values(|c: char| ascii_lower(c))
    } else {
        unicode_lowercase(s)
    }
}

/// Calls `char::is_alphanumeric`; among ASCII characters the result is true
/// exactly for the digits and the letters, and else it is the named Unicode
/// property of `c`.
#[verifier::external_body]
pub(crate) fn is_alphanumeric(c: char) -> (r: bool)
    ensures
        r == (if (c as u32) < 0x80 {
            ('0' <= c && c <= '9') || ('a' <= c && c <= 'z') || ('A' <= c && c <= 'Z')
        } else {
            char_is_alphanumeric(c)
        }),
{
    c.is_alphanumeric()
}

/// Calls `char::is_whitespace`; among ASCII characters the result is true
/// exactly for the space and the characters from tab to carriage return,
/// and else it is the named Unicode property of `c`.
#[verifier::external_body]
pub(crate) fn is_whitespace(c: char) -> (r: bool)
    ensures
        r == (if (c as u32) < 0x80 {
            c == ' ' || ('\t' <= c && c <= '\r')
        } else {
            char_is_whitespace(c)
        }),
{
    c.is_whitespace()
}

/// Calls `str::to_lowercase`; for an ASCII string the result lowercases each
/// letter and keeps every other character, and else it is the named Unicode
/// lowercase mapping of `s`.
#[verifier::external_body]
pub(crate) fn to_lowercase(s: &str) -> (r: String)
    ensures
        r@ == (if all_ascii(s@) {
            s@.map_values(|c: char| ascii_lower(c))
        } else {
            unicode_lowercase(s@)
        }),
{
    s.to_lowercase()
}

/// Calls `String::push`, which appends one character at the end.
#[verifier::external_body]
pub(crate) fn push_char(s: &mut String, c: char)
    ensures
        final(s)@ == old(s)@.push(c),
{
    s.push(c)
}

// ---------------------------------------------------------------------------
// Conversions between strings and character vectors
// ---------------------------------------------------------------------------

/// Copies the characters of a string into a vector.
pub fn chars_of(s: &str) -> (r: Vec<char>)
    ensures
        r@ == s@,
{
    let mut out: Vec<char> = Vec::new();
    for c in it: s.chars()
        invariant
            out@ == it.seq().take(it.index() as int),
            it.seq() == s@,
    {
        out.push(c);
    }
    out
}

/// Builds a string from the characters `v[from..to]`.
pub fn string_of_range(v: &[char], from: usize, to: usize) -> (r: String)
    requires
        from <= to <= v@.len(),
    ensures
        r@ == v@.subrange(from as int, to as int),
{
    let mut s = String::new();
    let mut i = from;
    while i < to
        invariant
            from <= i <= to <= v@.len(),
            s@ == v@.subrange(from as int, i as int),
        decreases to - i,
    {
        push_char(&mut s, v[i]);
        i = i + 1;
    }
    s
}

/// Builds a string from a whole character vector.
pub fn string_of(v: &[char]) -> (r: String)
    ensures
        r@ == v@,
{
    let r = string_of_range(v, 0, v.len());
    assert(v@.subrange(0, v@.len() as int) =~= v@);
    r
}

/// Appends the characters of `v` to `s`.
pub fn push_chars(s: &mut String, v: &[char])
    ensures
        final(s)@ == old(s)@ + v@,
{
    let mut i: usize = 0;
    while i < v.len()
        invariant
            i <= v@.len(),
            s@ == old(s)@ + v@.take(i as int),
        decreases v.len() - i,
    {
        push_char(s, v[i]);
        i = i + 1;
        assert(old(s)@ + v@.take(i as int) =~= (old(s)@ + v@.take(i - 1)).push(v@[i - 1]));
    }
    assert(v@.take(v@.len() as int) =~= v@);
}

/// Whether two character slices are equal.
pub fn chars_eq(a: &[char], b: &[char]) -> (r: bool)
    ensures
        r == (a@ == b@),
{
    if a.len() != b.len() {
        return false;
    }
    let mut i: usize = 0;
    while i < a.len()
        invariant
            a@.len() == b@.len(),
            i <= a@.len(),
            forall|j: int| 0 <= j < i ==> a@[j] == b@[j],
        decreases a.len() - i,
    {
        if a[i] != b[i] {
            return false;
        }
        i = i + 1;
    }
    assert(a@ =~= b@);
    true
}

/// The deep view of a character vector is its view.
pub proof fn lemma_chars_deep_view(v: &Vec<char>)
    ensures
        v.deep_view() == v@,
{
    assert(v.deep_view() =~= v@);
}

// ---------------------------------------------------------------------------
// Lines, as `str::lines` splits them
// ---------------------------------------------------------------------------

/// `l` without one trailing carriage return.
pub open spec fn strip_cr(l: Seq<char>) -> Seq<char> {
    if l.len() > 0 && l.last() == '\r' {
        l.drop_last()
    } else {
        l
    }
}

/// The first index at or after `i` that holds a line feed, or `s.len()`.
pub open spec fn newline_from(s: Seq<char>, i: int) -> int
    decreases s.len() - i,
{
    if i >= s.len() {
        s.len() as int
    } else if s[i] == '\n' {
        i
    } else {
        newline_from(s, i + 1)
    }
}

pub proof fn lemma_newline_from(s: Seq<char>, i: int)
    requires
        0 <= i <= s.len(),
    ensures
        i <= newline_from(s, i) <= s.len(),
        newline_from(s, i) < s.len() ==> s[newline_from(s, i)] == '\n',
        forall|k: int| i <= k < newline_from(s, i) ==> s[k] != '\n',
    decreases s.len() - i,
{
    if i < s.len() && s[i] != '\n' {
        lemma_newline_from(s, i + 1);
    }
}

/// The lines of `s[start..]`: pieces ended by a line feed, each without its
/// line feed and without a carriage return just before it; a last piece
/// with no line feed is kept as it is, and nothing follows a final line feed.
pub open spec fn lines_from(s: Seq<char>, start: int) -> Seq<Seq<char>>
    decreases s.len() - start,
{
    if start < 0 || start >= s.len() {
        Seq::empty()
    } else {
        let e = newline_from(s, start);
        proof {
            lemma_newline_from(s, start);
        }
        if e >= s.len() {
            seq![s.subrange(start, s.len() as int)]
        } else {
            seq![strip_cr(s.subrange(start, e))] + lines_from(s, e + 1)
        }
    }
}

/// The lines of a text, as `str::lines` yields them.
pub open spec fn split_lines(s: Seq<char>) -> Seq<Seq<char>> {
    lines_from(s, 0)
}

pub proof fn lemma_lines_from_len(s: Seq<char>, start: int)
    requires
        0 <= start <= s.len(),
    ensures
        lines_from(s, start).len() <= s.len() - start + 1,
    decreases s.len() - start,
{
    if start < s.len() {
        lemma_newline_from(s, start);
        let e = newline_from(s, start);
        if e < s.len() {
            lemma_lines_from_len(s, e + 1);
        }
    }
}

pub proof fn lemma_lines_from_elem_len(s: Seq<char>, start: int)
    requires
        0 <= start,
    ensures
        forall|k: int| 0 <= k < lines_from(s, start).len() ==> #[trigger] lines_from(s, start)[k].len() <= s.len(),
    decreases s.len() - start,
{
    if start < s.len() {
        lemma_newline_from(s, start);
        let e = newline_from(s, start);
        if e < s.len() {
            lemma_lines_from_elem_len(s, e + 1);
            assert forall|k: int| 0 <= k < lines_from(s, start).len() implies #[trigger] lines_from(s, start)[k].len() <= s.len() by {
                if k > 0 {
                    assert(lines_from(s, start)[k] == lines_from(s, e + 1)[k - 1]);
                }
            }
        }
    }
}

/// The number of lines and the length of each are bounded by the text's length.
pub proof fn lemma_split_lines_bounds(s: Seq<char>)
    ensures
        split_lines(s).len() <= s.len() + 1,
        forall|k: int| 0 <= k < split_lines(s).len() ==> #[trigger] split_lines(s)[k].len() <= s.len(),
{
    lemma_lines_from_len(s, 0);
    lemma_lines_from_elem_len(s, 0);
}

/// Splits a text into lines as `str::lines` does.
pub fn lines_of(s: &[char]) -> (r: Vec<Vec<char>>)
    ensures
        r.deep_view() == split_lines(s@),
{
    let n = s.len();
    let mut out: Vec<Vec<char>> = Vec::new();
    let mut start: usize = 0;
    while start < n
        invariant
            n == s@.len(),
            start <= n,
            split_lines(s@) == out.deep_view() + lines_from(s@, start as int),
        decreases n - start,
    {
        let mut e = start;
        while e < n && s[e] != '\n'
            invariant
                start <= e <= n,
                n == s@.len(),
                newline_from(s@, start as int) == newline_from(s@, e as int),
            decreases n - e,
        {
            e = e + 1;
        }
        proof {
            lemma_newline_from(s@, start as int);
        }
        assert(newline_from(s@, e as int) == e);
        let ghost old_out = out.deep_view();
        let ghost old_start = start as int;
        let mut line: Vec<char> = Vec::new();
        let mut k = start;
        while k < e
            invariant
                start <= k <= e <= n,
                n == s@.len(),
                line@ == s@.subrange(start as int, k as int),
            decreases e - k,
        {
            line.push(s[k]);
            k = k + 1;
        }
        if e < n {
            if line.len() > 0 && line[line.len() - 1] == '\r' {
                line.pop();
            }
            assert(line@ =~= strip_cr(s@.subrange(old_start, e as int)));
            proof {
                lemma_chars_deep_view(&line);
            }
            out.push(line);
            start = e + 1;
        } else {
            proof {
                lemma_chars_deep_view(&line);
            }
            out.push(line);
            start = n;
        }
        assert(out.deep_view() =~= old_out + seq![line@]);
    }
    assert(out.deep_view() + lines_from(s@, start as int) =~= out.deep_view());
    out
}

// ---------------------------------------------------------------------------
// Word characters
// ---------------------------------------------------------------------------

/// A character that may occur in a SKILL symbol: alphanumeric, `-`, `_`, `?`, `!`.
pub open spec fn word_char(c: char) -> bool {
    alphanumeric(c) || c == '-' || c == '_' || c == '?' || c == '!'
}

/// A character that continues an identifier for the misspelling check:
/// alphanumeric, `-`, `_`.
pub open spec fn ident_char(c: char) -> bool {
    alphanumeric(c) || c == '-' || c == '_'
}

/// Whether `c` may occur in a SKILL symbol.
pub fn is_word_char(c: char) -> (r: bool)
    ensures
        r == word_char(c),
{
    is_alphanumeric(c) || c == '-' || c == '_' || c == '?' || c == '!'
}

/// Whether `c` continues an identifier (alphanumeric, `-` or `_`).
pub fn is_ident_char(c: char) -> (r: bool)
    ensures
        r == ident_char(c),
{
    is_alphanumeric(c) || c == '-' || c == '_'
}

// ---------------------------------------------------------------------------
// Escapes, strings and line comments
// ---------------------------------------------------------------------------

/// The number of consecutive backslashes just before index `i`.
pub open spec fn backslash_run(line: Seq<char>, i: int) -> nat
    decreases i,
{
    if i <= 0 || i > line.len() {
        0
    } else if line[i - 1] == '\\' {
        1 + backslash_run(line, i - 1)
    } else {
        0
    }
}

/// The character at `i` is escaped: an odd number of backslashes precede it.
pub open spec fn escaped(line: Seq<char>, i: int) -> bool {
    backslash_run(line, i) % 2 == 1
}

/// A double quote at `i` that is not escaped.
pub open spec fn quote_at(line: Seq<char>, i: int) -> bool {
    0 <= i < line.len() && line[i] == '"' && !escaped(line, i)
}

/// The number of unescaped double quotes before index `i`.
pub open spec fn quotes_before(line: Seq<char>, i: int) -> nat
    decreases i,
{
    if i <= 0 {
        0
    } else {
        quotes_before(line, i - 1) + if quote_at(line, i - 1) {
            1nat
        } else {
            0nat
        }
    }
}

/// A `;` at `i` that starts a line comment: it is outside any string.
pub open spec fn comment_at(line: Seq<char>, i: int) -> bool {
    0 <= i < line.len() && line[i] == ';' && quotes_before(line, i) % 2 == 0
}

/// The first index at or after `i` that starts a line comment, or the line's length.
pub open spec fn comment_from(line: Seq<char>, i: int) -> int
    decreases line.len() - i,
{
    if i >= line.len() {
        line.len() as int
    } else if comment_at(line, i) {
        i
    } else {
        comment_from(line, i + 1)
    }
}

/// Where the code of a line ends: at its line comment, or at its end.
pub open spec fn code_end(line: Seq<char>) -> int {
    comment_from(line, 0)
}

pub proof fn lemma_comment_from(line: Seq<char>, i: int)
    requires
        0 <= i <= line.len(),
    ensures
        i <= comment_from(line, i) <= line.len(),
        comment_from(line, i) < line.len() ==> comment_at(line, comment_from(line, i)),
        forall|k: int| i <= k < comment_from(line, i) ==> !comment_at(line, k),
    decreases line.len() - i,
{
    if i < line.len() && !comment_at(line, i) {
        lemma_comment_from(line, i + 1);
    }
}

/// Whether the character at `i` is escaped by an odd run of backslashes.
pub fn is_escaped(line: &[char], i: usize) -> (r: bool)
    requires
        i <= line@.len(),
    ensures
        r == escaped(line@, i as int),
{
    let mut n: usize = 0;
    let mut j = i;
    while j > 0 && line[j - 1] == '\\'
        invariant
            j <= i <= line@.len(),
            n == i - j,
            backslash_run(line@, i as int) == n + backslash_run(line@, j as int),
        decreases j,
    {
        n = n + 1;
        j = j - 1;
    }
    n % 2 == 1
}

/// The index of the `;` that starts the line comment, outside strings, if any.
pub fn line_comment_start(line: &[char]) -> (r: Option<usize>)
    ensures
        r is Some <==> code_end(line@) < line@.len(),
        r matches Some(i) ==> i == code_end(line@),
{
    let mut in_string = false;
    let mut i: usize = 0;
    while i < line.len()
        invariant
            i <= line@.len(),
            in_string == (quotes_before(line@, i as int) % 2 == 1),
            comment_from(line@, 0) == comment_from(line@, i as int),
        decreases line.len() - i,
    {
        let c = line[i];
        if c == '"' && !is_escaped(line, i) {
            in_string = !in_string;
        } else if c == ';' && !in_string {
            return Some(i);
        }
        i = i + 1;
    }
    None
}

/// The index where the code of a line ends (its comment start, or its length).
pub fn code_end_of(line: &[char]) -> (r: usize)
    ensures
        r == code_end(line@),
{
    proof {
        lemma_comment_from(line@, 0);
    }
    let r = line_comment_start(line);
    match r {
        Some(i) => {
            i
        },
        None => {
            assert(code_end(line@) >= line@.len());
            line.len()
        },
    }
}

// ---------------------------------------------------------------------------
// Trimming and splitting on white space
// ---------------------------------------------------------------------------

/// The first index at or after `i` of a character that is not white space, or `s.len()`.
pub open spec fn non_ws_from(s: Seq<char>, i: int) -> int
    decreases s.len() - i,
{
    if i >= s.len() {
        s.len() as int
    } else if !white_space(s[i]) {
        i
    } else {
        non_ws_from(s, i + 1)
    }
}

/// The index just after the last character before `j` that is not white space, or 0.
pub open spec fn non_ws_until(s: Seq<char>, j: int) -> int
    decreases j,
{
    if j <= 0 {
        0
    } else if !white_space(s[j - 1]) {
        j
    } else {
        non_ws_until(s, j - 1)
    }
}

pub proof fn lemma_non_ws_from(s: Seq<char>, i: int)
    requires
        0 <= i <= s.len(),
    ensures
        i <= non_ws_from(s, i) <= s.len(),
        non_ws_from(s, i) < s.len() ==> !white_space(s[non_ws_from(s, i)]),
        forall|k: int| i <= k < non_ws_from(s, i) ==> white_space(#[trigger] s[k]),
    decreases s.len() - i,
{
    if i < s.len() && white_space(s[i]) {
        lemma_non_ws_from(s, i + 1);
    }
}

pub proof fn lemma_non_ws_until(s: Seq<char>, j: int)
    requires
        0 <= j <= s.len(),
    ensures
        0 <= non_ws_until(s, j) <= j,
        non_ws_until(s, j) > 0 ==> !white_space(s[non_ws_until(s, j) - 1]),
        forall|k: int| non_ws_until(s, j) <= k < j ==> white_space(#[trigger] s[k]),
    decreases j,
{
    if j > 0 && white_space(s[j - 1]) {
        lemma_non_ws_until(s, j - 1);
    }
}

/// `s` without leading and trailing white space, as `str::trim` returns it.
pub open spec fn trim(s: Seq<char>) -> Seq<char> {
    let a = non_ws_from(s, 0);
    if a >= s.len() {
        Seq::empty()
    } else {
        s.subrange(a, non_ws_until(s, s.len() as int))
    }
}

/// `s` without trailing white space, as `str::trim_end` returns it.
pub open spec fn trim_end(s: Seq<char>) -> Seq<char> {
    s.take(non_ws_until(s, s.len() as int))
}

/// The bounds `(a, b)` of `trim(s)` within `s`.
pub fn trim_bounds(s: &[char]) -> (r: (usize, usize))
    ensures
        r.0 <= r.1 <= s@.len(),
        s@.subrange(r.0 as int, r.1 as int) == trim(s@),
{
    let mut a: usize = 0;
    while a < s.len() && is_whitespace(s[a])
        invariant
            a <= s@.len(),
            non_ws_from(s@, 0) == non_ws_from(s@, a as int),
        decreases s.len() - a,
    {
        a = a + 1;
    }
    if a == s.len() {
        return (a, a);
    }
    let mut b: usize = s.len();
    while b > 0 && is_whitespace(s[b - 1])
        invariant
            b <= s@.len(),
            non_ws_until(s@, s@.len() as int) == non_ws_until(s@, b as int),
        decreases b,
    {
        b = b - 1;
    }
    proof {
        lemma_non_ws_until(s@, s@.len() as int);
    }
    assert(b > a);
    (a, b)
}

/// `s` trimmed of leading and trailing white space.
pub fn trim_chars(s: &[char]) -> (r: Vec<char>)
    ensures
        r@ == trim(s@),
{
    let (a, b) = trim_bounds(s);
    copy_range(s, a, b)
}

/// The length of `trim_end(s)`.
pub fn trim_end_len(s: &[char]) -> (r: usize)
    ensures
        r <= s@.len(),
        r == non_ws_until(s@, s@.len() as int),
        s@.take(r as int) == trim_end(s@),
{
    let mut b: usize = s.len();
    while b > 0 && is_whitespace(s[b - 1])
        invariant
            b <= s@.len(),
            non_ws_until(s@, s@.len() as int) == non_ws_until(s@, b as int),
        decreases b,
    {
        b = b - 1;
    }
    b
}

/// A copy of `v[from..to]`.
pub fn copy_range(v: &[char], from: usize, to: usize) -> (r: Vec<char>)
    requires
        from <= to <= v@.len(),
    ensures
        r@ == v@.subrange(from as int, to as int),
{
    let mut out: Vec<char> = Vec::new();
    let mut i = from;
    while i < to
        invariant
            from <= i <= to <= v@.len(),
            out@ == v@.subrange(from as int, i as int),
        decreases to - i,
    {
        out.push(v[i]);
        i = i + 1;
    }
    out
}

/// The pieces of `s[i..]` separated by white space, as `str::split_whitespace` yields them.
pub open spec fn words_from(s: Seq<char>, i: int) -> Seq<Seq<char>>
    decreases s.len() - i, 1int,
{
    if i < 0 || i >= s.len() {
        Seq::empty()
    } else if white_space(s[i]) {
        words_from(s, i + 1)
    } else {
        word_then_rest(s, i, i)
    }
}

/// The piece that starts at `start` and reaches `j`, then the pieces after it.
pub open spec fn word_then_rest(s: Seq<char>, start: int, j: int) -> Seq<Seq<char>>
    decreases s.len() - start, 0int, s.len() - j,
{
    if start < 0 || j < start || start >= s.len() {
        Seq::empty()
    } else if j >= s.len() {
        seq![s.subrange(start, s.len() as int)]
    } else if white_space(s[j]) {
        seq![s.subrange(start, j)] + words_from(s, j + 1)
    } else {
        word_then_rest(s, start, j + 1)
    }
}

/// The white-space separated words of `s`.
pub open spec fn split_ws(s: Seq<char>) -> Seq<Seq<char>> {
    words_from(s, 0)
}

/// Splits `s` on white space as `str::split_whitespace` does.
pub fn split_whitespace(s: &[char]) -> (r: Vec<Vec<char>>)
    ensures
        r.deep_view() == split_ws(s@),
{
    let n = s.len();
    let mut out: Vec<Vec<char>> = Vec::new();
    let mut i: usize = 0;
    while i < n
        invariant
            n == s@.len(),
            i <= n,
            split_ws(s@) == out.deep_view() + words_from(s@, i as int),
        decreases n - i,
    {
        if is_whitespace(s[i]) {
            i = i + 1;
        } else {
            let start = i;
            let mut j = i;
            while j < n && !is_whitespace(s[j])
                invariant
                    start <= j <= n,
                    n == s@.len(),
                    start < n,
                    !white_space(s@[start as int]),
                    words_from(s@, start as int) == word_then_rest(s@, start as int, j as int),
                decreases n - j,
            {
                j = j + 1;
            }
            let w = copy_range(s, start, j);
            proof {
                lemma_chars_deep_view(&w);
            }
            let ghost old_out = out.deep_view();
            out.push(w);
            assert(out.deep_view() =~= old_out + seq![w@]);
            if j < n {
                i = j + 1;
            } else {
                i = n;
            }
        }
    }
    assert(out.deep_view() + words_from(s@, i as int) =~= out.deep_view());
    out
}

// ---------------------------------------------------------------------------
// Prefixes, occurrences
// ---------------------------------------------------------------------------

/// `w` occurs in `s` at index `i`.
pub open spec fn occurs_at(s: Seq<char>, w: Seq<char>, i: int) -> bool {
    0 <= i && i + w.len() <= s.len() && s.subrange(i, i + w.len()) == w
}

/// Whether `w` occurs in `s` at index `i`.
pub fn occurs_at_exec(s: &[char], w: &[char], i: usize) -> (r: bool)
    ensures
        r == occurs_at(s@, w@, i as int),
{
    let n = s.len();
    if i > n || w.len() > n - i {
        return false;
    }
    let mut k: usize = 0;
    while k < w.len()
        invariant
            n == s@.len(),
            i <= n,
            i + w@.len() <= n,
            k <= w@.len(),
            forall|j: int| 0 <= j < k ==> s@[i + j] == w@[j],
        decreases w.len() - k,
    {
        if s[i + k] != w[k] {
            assert(s@.subrange(i as int, i + w@.len())[k as int] != w@[k as int]);
            return false;
        }
        k = k + 1;
    }
    assert(s@.subrange(i as int, i + w@.len()) =~= w@);
    true
}

/// Whether `w` occurs somewhere in `s`.
pub open spec fn contains(s: Seq<char>, w: Seq<char>) -> bool {
    exists|i: int| occurs_at(s, w, i)
}

/// Whether `w` occurs somewhere in `s`, as `str::contains` answers it.
pub fn contains_exec(s: &[char], w: &[char]) -> (r: bool)
    ensures
        r == contains(s@, w@),
{
    if w.len() == 0 {
        assert(s@.subrange(0, 0) =~= w@);
        assert(occurs_at(s@, w@, 0));
        return true;
    }
    let mut i: usize = 0;
    while i < s.len()
        invariant
            w@.len() > 0,
            i <= s@.len(),
            forall|j: int| 0 <= j < i ==> !occurs_at(s@, w@, j),
        decreases s.len() - i,
    {
        if occurs_at_exec(s, w, i) {
            return true;
        }
        i = i + 1;
    }
    assert forall|j: int| !occurs_at(s@, w@, j) by {
        if 0 <= j < i {
        }
    }
    false
}

/// Whether `s` starts with `w`.
pub fn starts_with(s: &[char], w: &[char]) -> (r: bool)
    ensures
        r == occurs_at(s@, w@, 0),
{
    occurs_at_exec(s, w, 0)
}

// ---------------------------------------------------------------------------
// Byte offsets of UTF-8 text
// ---------------------------------------------------------------------------

/// The number of bytes of `c` in UTF-8.
pub open spec fn utf8_width(c: char) -> int {
    let u = c as u32;
    if u < 0x80 {
        1
    } else if u < 0x800 {
        2
    } else if u < 0x10000 {
        3
    } else {
        4
    }
}

/// The character index `j >= k` of `s` at which `b` bytes have been passed,
/// counting `acc` bytes before index `k`; `None` when `b` falls inside a
/// character or past the end.
pub open spec fn char_index_from(s: Seq<char>, k: int, acc: int, b: int) -> Option<int>
    decreases s.len() - k,
{
    if acc == b {
        Some(k)
    } else if k < 0 || k >= s.len() || acc > b {
        None
    } else {
        char_index_from(s, k + 1, acc + utf8_width(s[k]), b)
    }
}

/// The character index that byte offset `b` of the UTF-8 encoding of `s` falls on.
pub open spec fn char_index_of_byte(s: Seq<char>, b: int) -> Option<int> {
    char_index_from(s, 0, 0, b)
}

pub proof fn lemma_char_index_from(s: Seq<char>, k: int, acc: int, b: int)
    requires
        0 <= k <= s.len(),
    ensures
        char_index_from(s, k, acc, b) matches Some(j) ==> k <= j <= s.len(),
    decreases s.len() - k,
{
    if acc != b && k < s.len() && acc <= b {
        lemma_char_index_from(s, k + 1, acc + utf8_width(s[k]), b);
    }
}

/// The number of bytes of `c` in UTF-8.
pub fn utf8_width_of(c: char) -> (r: usize)
    ensures
        r == utf8_width(c),
        1 <= r <= 4,
{
    let u = c as u32;
    if u < 0x80 {
        1
    } else if u < 0x800 {
        2
    } else if u < 0x10000 {
        3
    } else {
        4
    }
}

/// Converts byte offset `b` of the UTF-8 encoding of `s` to a character index.
pub fn char_index_at_byte(s: &[char], b: usize) -> (r: Option<usize>)
    ensures
        match r {
            Some(j) => char_index_of_byte(s@, b as int) == Some(j as int) && j <= s@.len(),
            None => char_index_of_byte(s@, b as int) is None,
        },
{
    let n = s.len();
    let mut k: usize = 0;
    let mut acc: usize = 0;
    while acc != b
        invariant
            k <= n,
            n == s@.len(),
            acc <= b,
            char_index_of_byte(s@, b as int) == char_index_from(s@, k as int, acc as int, b as int),
        decreases n - k,
    {
        if k >= n {
            return None;
        }
        let w = utf8_width_of(s[k]);
        if w > b - acc {
            assert(char_index_from(s@, k + 1, acc + w, b as int) is None);
            return None;
        }
        acc = acc + w;
        k = k + 1;
    }
    Some(k)
}

// ---------------------------------------------------------------------------
// The order of strings
// ---------------------------------------------------------------------------

/// `a` comes before `b` in the order of strings, comparing from index `i`:
/// lexicographic by code point, a proper prefix first.
pub open spec fn lex_lt_from(a: Seq<char>, b: Seq<char>, i: int) -> bool
    decreases a.len() - i,
{
    if i < 0 || i >= b.len() {
        false
    } else if i >= a.len() {
        true
    } else if (a[i] as u32) < (b[i] as u32) {
        true
    } else if a[i] == b[i] {
        lex_lt_from(a, b, i + 1)
    } else {
        false
    }
}

/// `a` comes before `b` in the order of strings.
pub open spec fn lex_lt(a: Seq<char>, b: Seq<char>) -> bool {
    lex_lt_from(a, b, 0)
}

/// The order of strings is transitive.
pub proof fn lemma_lex_trans(a: Seq<char>, b: Seq<char>, c: Seq<char>, i: int)
    requires
        lex_lt_from(a, b, i),
        lex_lt_from(b, c, i),
    ensures
        lex_lt_from(a, c, i),
    decreases a.len() - i,
{
    if i < a.len() && a[i] == b[i] && b[i] == c[i] {
        lemma_lex_trans(a, b, c, i + 1);
    }
}

/// No string comes before itself.
pub proof fn lemma_lex_irrefl(a: Seq<char>, i: int)
    ensures
        !lex_lt_from(a, a, i),
    decreases a.len() - i,
{
    if 0 <= i < a.len() {
        lemma_lex_irrefl(a, i + 1);
    }
}

/// Whether `a` comes before `b` in the order of strings.
pub fn lex_less(a: &[char], b: &[char]) -> (r: bool)
    ensures
        r == lex_lt(a@, b@),
{
    let mut i: usize = 0;
    loop
        invariant
            i <= a@.len() + 1,
            lex_lt(a@, b@) == lex_lt_from(a@, b@, i as int),
        decreases a.len() + 1 - i,
    {
        if i >= b.len() {
            return false;
        }
        if i >= a.len() {
            return true;
        }
        if (a[i] as u32) < (b[i] as u32) {
            return true;
        }
        if a[i] != b[i] {
            return false;
        }
        i = i + 1;
    }
}

/// Of two different strings, one comes before the other.
pub proof fn lemma_lex_total(a: Seq<char>, b: Seq<char>, i: int)
    requires
        0 <= i <= a.len(),
        i <= b.len(),
        a.subrange(i, a.len() as int) != b.subrange(i, b.len() as int),
    ensures
        lex_lt_from(a, b, i) || lex_lt_from(b, a, i),
    decreases a.len() - i,
{
    if i < a.len() && i < b.len() && a[i] == b[i] {
        if a.subrange(i + 1, a.len() as int) == b.subrange(i + 1, b.len() as int) {
            let ta = a.subrange(i + 1, a.len() as int);
            let tb = b.subrange(i + 1, b.len() as int);
            assert(ta.len() == tb.len());
            assert forall|k: int| 0 <= k < a.len() - i implies a.subrange(i, a.len() as int)[k] == b.subrange(
                i,
                b.len() as int,
            )[k] by {
                if k > 0 {
                    assert(ta[k - 1] == tb[k - 1]);
                }
            }
            assert(a.subrange(i, a.len() as int) =~= b.subrange(i, b.len() as int));
        }
        lemma_lex_total(a, b, i + 1);
    } else if i == a.len() && i == b.len() {
        assert(a.subrange(i, a.len() as int) =~= b.subrange(i, b.len() as int));
    } else if i < a.len() && i < b.len() {
        vstd::utf8::char_u32_cast(a[i], a[i] as u32);
        vstd::utf8::char_u32_cast(b[i], b[i] as u32);
        assert(a[i] as u32 != b[i] as u32);
    }
}

/// Of two different strings, one comes before the other.
pub proof fn lemma_lex_total_full(a: Seq<char>, b: Seq<char>)
    requires
        a != b,
    ensures
        lex_lt(a, b) || lex_lt(b, a),
{
    assert(a.subrange(0, a.len() as int) =~= a);
    assert(b.subrange(0, b.len() as int) =~= b);
    lemma_lex_total(a, b, 0);
}

} // verus!
