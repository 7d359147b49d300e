//! Diagnostics of SKILL source text (unmatched quotes, unbalanced
//! parentheses, common mistakes) and the formatter.
use vstd::prelude::*;
use crate::protocol::{Position, Range, TextEdit, span, make_span};
use crate::text::{
    chars_of, code_end, code_end_of, escaped, ident_char, is_escaped,
    is_ident_char, lemma_chars_deep_view, lemma_comment_from, lines_of, occurs_at, occurs_at_exec,
    quote_at, split_lines, string_of, trim, trim_chars,
};

verus! {

/// What a diagnostic reports.
#[derive(Clone, Copy, Debug, PartialEq, Eq, Structural)]
pub enum DiagnosticKind {
    /// A string quote that is not closed on its line.
    UnmatchedQuote,
    /// A `)` with no open parenthesis before it.
    UnexpectedClose,
    /// A `(` that is never closed.
    Unclosed,
    /// The word `deffun`, for `defun`.
    Misspelling,
    /// The word `stringLength`, for `strlen`.
    Deprecated,
}

/// How serious a diagnostic is.
#[derive(Clone, Copy, Debug, PartialEq, Eq, Structural)]
pub enum Severity {
    Error,
    Warning,
    Hint,
}

/// A diagnostic: what is reported, and where.
#[derive(Clone, Copy, Debug, PartialEq, Eq, Structural)]
pub struct Diagnostic {
    pub range: Range,
    pub kind: DiagnosticKind,
}

/// The severity that goes with each kind of diagnostic.
pub open spec fn severity_of(k: DiagnosticKind) -> Severity {
    match k {
        DiagnosticKind::UnmatchedQuote => Severity::Error,
        DiagnosticKind::UnexpectedClose => Severity::Error,
        DiagnosticKind::Unclosed => Severity::Error,
        DiagnosticKind::Misspelling => Severity::Warning,
        DiagnosticKind::Deprecated => Severity::Hint,
    }
}

impl Diagnostic {
    /// The severity of this diagnostic.
    pub fn severity(&self) -> (r: Severity)
        ensures
            r == severity_of(self.kind),
    {
        match self.kind {
            DiagnosticKind::UnmatchedQuote => Severity::Error,
            DiagnosticKind::UnexpectedClose => Severity::Error,
            DiagnosticKind::Unclosed => Severity::Error,
            DiagnosticKind::Misspelling => Severity::Warning,
            DiagnosticKind::Deprecated => Severity::Hint,
        }
    }

    /// The message shown for this diagnostic.
    pub fn message(&self) -> (r: String)
        ensures
            r@ == message_of(self.kind),
    {
        match self.kind {
            DiagnosticKind::UnmatchedQuote => String::from_str("Unmatched string quote"),
            DiagnosticKind::UnexpectedClose => String::from_str("Unexpected closing parenthesis"),
            DiagnosticKind::Unclosed => String::from_str("Unclosed parenthesis"),
            DiagnosticKind::Misspelling => String::from_str("Did you mean 'defun'?"),
            DiagnosticKind::Deprecated => String::from_str("Consider using 'strlen' instead"),
        }
    }

    /// The source named in every diagnostic.
    pub fn source(&self) -> (r: String)
        ensures
            r@ == "skill-lsp"@,
    {
        String::from_str("skill-lsp")
    }
}

/// The message that goes with each kind of diagnostic.
pub open spec fn message_of(k: DiagnosticKind) -> Seq<char> {
    match k {
        DiagnosticKind::UnmatchedQuote => "Unmatched string quote"@,
        DiagnosticKind::UnexpectedClose => "Unexpected closing parenthesis"@,
        DiagnosticKind::Unclosed => "Unclosed parenthesis"@,
        DiagnosticKind::Misspelling => "Did you mean 'defun'?"@,
        DiagnosticKind::Deprecated => "Consider using 'strlen' instead"@,
    }
}

// ---------------------------------------------------------------------------
// Unmatched quotes
// ---------------------------------------------------------------------------

/// The state of the quote scan between characters: inside a block comment
/// or not, inside a string or not, and the quote that opened the last string.
pub struct QuoteScan {
    pub in_block: bool,
    pub in_string: bool,
    pub last: int,
}

/// The quote scan of a line from index `i` and state `st`. A block comment
/// `/* .. */` may span lines and hides what it holds; an unescaped quote
/// outside block comments opens or closes a string; a `;` outside strings
/// and block comments ends the code of the line.
pub open spec fn quote_scan(line: Seq<char>, i: int, st: QuoteScan) -> QuoteScan
    decreases line.len() - i,
{
    if i < 0 || i >= line.len() {
        st
    } else {
        let c = line[i];
        if st.in_block {
            if c == '*' && next_is(line, i, '/') {
                quote_scan(line, i + 2, QuoteScan { in_block: false, ..st })
            } else {
                quote_scan(line, i + 1, st)
            }
        } else if st.in_string {
            if quote_at(line, i) {
                quote_scan(line, i + 1, QuoteScan { in_string: false, ..st })
            } else {
                quote_scan(line, i + 1, st)
            }
        } else if c == ';' {
            st
        } else if quote_at(line, i) {
            quote_scan(line, i + 1, QuoteScan { in_string: true, last: i, ..st })
        } else if c == '/' && next_is(line, i, '*') {
            quote_scan(line, i + 2, QuoteScan { in_block: true, ..st })
        } else {
            quote_scan(line, i + 1, st)
        }
    }
}

/// The diagnostic of line `ln` when its scan ends inside a string: it marks
/// the quote that opened the string.
pub open spec fn quote_line_diag(ln: int, st: QuoteScan) -> Seq<Diagnostic> {
    if st.in_string {
        seq![Diagnostic { range: span(ln, st.last, st.last + 1), kind: DiagnosticKind::UnmatchedQuote }]
    } else {
        Seq::empty()
    }
}

/// After the first `k` lines: whether a block comment is still open, and the
/// unmatched-quote diagnostics in line order. Strings do not span lines.
pub open spec fn quote_lines(lines: Seq<Seq<char>>, k: int) -> (bool, Seq<Diagnostic>)
    decreases k,
{
    if k <= 0 {
        (false, Seq::empty())
    } else {
        let prev = quote_lines(lines, k - 1);
        let st = quote_scan(lines[k - 1], 0, QuoteScan { in_block: prev.0, in_string: false, last: 0 });
        (st.in_block, prev.1 + quote_line_diag(k - 1, st))
    }
}

/// The unmatched-quote diagnostics of the first `k` lines, in line order.
pub open spec fn quote_diags(lines: Seq<Seq<char>>, k: int) -> Seq<Diagnostic> {
    quote_lines(lines, k).1
}

fn check_unmatched_quotes(lines: &Vec<Vec<char>>, diagnostics: &mut Vec<Diagnostic>)
    ensures
        final(diagnostics)@ == old(diagnostics)@ + quote_diags(lines.deep_view(), lines@.len() as int),
{
    let ghost ls = lines.deep_view();
    let mut in_block = false;
    let mut ln: usize = 0;
    while ln < lines.len()
        invariant
            ln <= lines@.len(),
            ls == lines.deep_view(),
            quote_lines(ls, ln as int).0 == in_block,
            diagnostics@ == old(diagnostics)@ + quote_lines(ls, ln as int).1,
        decreases lines.len() - ln,
    {
        let line = &lines[ln];
        proof {
            lemma_chars_deep_view(line);
        }
        assert(ls[ln as int] == line@);
        let ghost start = QuoteScan { in_block, in_string: false, last: 0 };
        let n = line.len();
        let mut in_string = false;
        let mut last: usize = 0;
        let mut i: usize = 0;
        while i < n
            invariant_except_break
                i <= n,
                n == line@.len(),
                in_string ==> last < n,
                quote_scan(line@, 0, start) == quote_scan(
                    line@,
                    i as int,
                    QuoteScan { in_block, in_string, last: last as int },
                ),
            ensures
                in_string ==> last < n,
                quote_scan(line@, 0, start) == (QuoteScan { in_block, in_string, last: last as int }),
            decreases n - i,
        {
            let c = line[i];
            let next_slash = i + 1 < n && line[i + 1] == '/';
            let next_star = i + 1 < n && line[i + 1] == '*';
            let quote = c == '"' && !is_escaped(line.as_slice(), i);
            if in_block {
                if c == '*' && next_slash {
                    in_block = false;
                    i = i + 2;
                } else {
                    i = i + 1;
                }
            } else if in_string {
                if quote {
                    in_string = false;
                }
                i = i + 1;
            } else if c == ';' {
                break;
            } else if quote {
                in_string = true;
                last = i;
                i = i + 1;
            } else if c == '/' && next_star {
                in_block = true;
                i = i + 2;
            } else {
                i = i + 1;
            }
        }
        let ghost before = diagnostics@;
        if in_string {
            diagnostics.push(Diagnostic {
                range: make_span(ln, last, last + 1),
                kind: DiagnosticKind::UnmatchedQuote,
            });
        }
        ln = ln + 1;
        assert(diagnostics@ =~= old(diagnostics)@ + quote_lines(ls, ln as int).1);
    }
}

// ---------------------------------------------------------------------------
// Unbalanced parentheses
// ---------------------------------------------------------------------------

/// The state of the parenthesis scan between characters: inside a block
/// comment or not, the open parentheses not yet closed, and the diagnostics so far.
pub struct ParenScan {
    pub in_block: bool,
    pub stack: Seq<Position>,
    pub diags: Seq<Diagnostic>,
}

/// Whether `line[i + 1]` exists and is `c`.
pub open spec fn next_is(line: Seq<char>, i: int, c: char) -> bool {
    i + 1 < line.len() && line[i + 1] == c
}

/// The scan of line `ln` from index `i`, inside a string or not, from state `st`.
/// A block comment `/* .. */` may span lines, a string may not; a `;` outside
/// strings and block comments ends the line; `(` is pushed; `)` pops, or is
/// reported when nothing is open.
pub open spec fn scan_line(ln: int, line: Seq<char>, i: int, in_string: bool, st: ParenScan) -> ParenScan
    decreases line.len() - i,
{
    if i < 0 || i >= line.len() {
        st
    } else {
        let c = line[i];
        if st.in_block {
            if c == '*' && next_is(line, i, '/') {
                scan_line(ln, line, i + 2, in_string, ParenScan { in_block: false, ..st })
            } else {
                scan_line(ln, line, i + 1, in_string, st)
            }
        } else if in_string {
            if c == '"' && !escaped(line, i) {
                scan_line(ln, line, i + 1, false, st)
            } else {
                scan_line(ln, line, i + 1, true, st)
            }
        } else if c == ';' {
            st
        } else if c == '"' {
            scan_line(ln, line, i + 1, true, st)
        } else if c == '/' && next_is(line, i, '*') {
            scan_line(ln, line, i + 2, false, ParenScan { in_block: true, ..st })
        } else if c == '(' {
            scan_line(
                ln,
                line,
                i + 1,
                false,
                ParenScan {
                    stack: st.stack.push(Position { line: ln as u32, character: i as u32 }),
                    ..st
                },
            )
        } else if c == ')' {
            if st.stack.len() == 0 {
                scan_line(
                    ln,
                    line,
                    i + 1,
                    false,
                    ParenScan {
                        diags: st.diags.push(
                            Diagnostic { range: span(ln, i, i + 1), kind: DiagnosticKind::UnexpectedClose },
                        ),
                        ..st
                    },
                )
            } else {
                scan_line(ln, line, i + 1, false, ParenScan { stack: st.stack.drop_last(), ..st })
            }
        } else {
            scan_line(ln, line, i + 1, false, st)
        }
    }
}

/// The scan state after the first `k` lines.
pub open spec fn scan_lines(lines: Seq<Seq<char>>, k: int) -> ParenScan
    decreases k,
{
    if k <= 0 {
        ParenScan { in_block: false, stack: Seq::empty(), diags: Seq::empty() }
    } else {
        scan_line(k - 1, lines[k - 1], 0, false, scan_lines(lines, k - 1))
    }
}

/// The diagnostic of a parenthesis left open at `p`.
pub open spec fn unclosed_at(p: Position) -> Diagnostic {
    Diagnostic {
        range: Range { start: p, end: Position { line: p.line, character: (p.character + 1) as u32 } },
        kind: DiagnosticKind::Unclosed,
    }
}

/// The parenthesis diagnostics of a text: each unexpected `)` in the order
/// met, then each parenthesis left open, outermost first.
pub open spec fn paren_diags(lines: Seq<Seq<char>>) -> Seq<Diagnostic> {
    let st = scan_lines(lines, lines.len() as int);
    st.diags + st.stack.map_values(|p: Position| unclosed_at(p))
}

fn check_unbalanced_parens(lines: &Vec<Vec<char>>, diagnostics: &mut Vec<Diagnostic>)
    ensures
        final(diagnostics)@ == old(diagnostics)@ + paren_diags(lines.deep_view()),
{
    let ghost ls = lines.deep_view();
    let mut stack: Vec<Position> = Vec::new();
    let mut found: Vec<Diagnostic> = Vec::new();
    let mut in_block = false;
    let mut ln: usize = 0;
    while ln < lines.len()
        invariant
            ln <= lines@.len(),
            ls == lines.deep_view(),
            scan_lines(ls, ln as int) == (ParenScan { in_block, stack: stack@, diags: found@ }),
        decreases lines.len() - ln,
    {
        let line = &lines[ln];
        proof {
            lemma_chars_deep_view(line);
        }
        assert(ls[ln as int] == line@);
        let ghost start_state = ParenScan { in_block, stack: stack@, diags: found@ };
        let n = line.len();
        let mut in_string = false;
        let mut i: usize = 0;
        while i < n
            invariant_except_break
                i <= n,
                n == line@.len(),
                scan_line(ln as int, line@, 0, false, start_state) == scan_line(
                    ln as int,
                    line@,
                    i as int,
                    in_string,
                    ParenScan { in_block, stack: stack@, diags: found@ },
                ),
            ensures
                scan_line(ln as int, line@, 0, false, start_state) == (ParenScan {
                    in_block,
                    stack: stack@,
                    diags: found@,
                }),
            decreases n - i,
        {
            let c = line[i];
            let next_slash = i + 1 < n && line[i + 1] == '/';
            let next_star = i + 1 < n && line[i + 1] == '*';
            if in_block {
                if c == '*' && next_slash {
                    in_block = false;
                    i = i + 2;
                } else {
                    i = i + 1;
                }
            } else if in_string {
                if c == '"' && !is_escaped(line.as_slice(), i) {
                    in_string = false;
                }
                i = i + 1;
            } else if c == ';' {
                break;
            } else if c == '"' {
                in_string = true;
                i = i + 1;
            } else if c == '/' && next_star {
                in_block = true;
                i = i + 2;
            } else if c == '(' {
                stack.push(Position { line: ln as u32, character: i as u32 });
                i = i + 1;
            } else if c == ')' {
                if stack.len() == 0 {
                    found.push(
                        Diagnostic { range: make_span(ln, i, i + 1), kind: DiagnosticKind::UnexpectedClose },
                    );
                } else {
                    stack.pop();
                }
                i = i + 1;
            } else {
                i = i + 1;
            }
        }
        ln = ln + 1;
    }
    assert(ls.len() == ln);
    let ghost st = scan_lines(ls, ls.len() as int);
    let ghost before = diagnostics@;
    let mut k: usize = 0;
    while k < found.len()
        invariant
            k <= found@.len(),
            diagnostics@ == before + found@.take(k as int),
        decreases found.len() - k,
    {
        diagnostics.push(found[k]);
        k = k + 1;
        assert(found@.take(k as int) =~= found@.take(k - 1).push(found@[k - 1]));
    }
    assert(found@.take(found@.len() as int) =~= found@);
    let ghost mid = diagnostics@;
    let mut j: usize = 0;
    while j < stack.len()
        invariant
            j <= stack@.len(),
            diagnostics@ == mid + stack@.take(j as int).map_values(|p: Position| unclosed_at(p)),
        decreases stack.len() - j,
    {
        let p = stack[j];
        let end_char = ((p.character as u64) + 1) as u32;
        diagnostics.push(
            Diagnostic {
                range: Range { start: p, end: Position { line: p.line, character: end_char } },
                kind: DiagnosticKind::Unclosed,
            },
        );
        j = j + 1;
        assert(stack@.take(j as int).map_values(|p: Position| unclosed_at(p)) =~= stack@.take(
            j - 1,
        ).map_values(|p: Position| unclosed_at(p)).push(unclosed_at(p)));
    }
    assert(stack@.take(stack@.len() as int) =~= stack@);
    assert(diagnostics@ =~= before + paren_diags(ls));
}

// ---------------------------------------------------------------------------
// Common mistakes
// ---------------------------------------------------------------------------

/// The misspelled word `deffun`.
pub open spec fn deffun_word() -> Seq<char> {
    seq!['d', 'e', 'f', 'f', 'u', 'n']
}

/// The deprecated word `stringLength`.
pub open spec fn string_length_word() -> Seq<char> {
    seq!['s', 't', 'r', 'i', 'n', 'g', 'L', 'e', 'n', 'g', 't', 'h']
}

/// `deffun` stands at `i` of `code` as a whole word: no identifier character
/// (alphanumeric, `-`, `_`) just before or just after it.
pub open spec fn misspelled_at(code: Seq<char>, i: int) -> bool {
    &&& occurs_at(code, deffun_word(), i)
    &&& (i == 0 || !ident_char(code[i - 1]))
    &&& (i + 6 == code.len() || !ident_char(code[i + 6]))
}

/// The misspelling diagnostics of line `ln` for the occurrences before `n`, in order.
pub open spec fn misspell_diags(ln: int, code: Seq<char>, n: int) -> Seq<Diagnostic>
    decreases n,
{
    if n <= 0 {
        Seq::empty()
    } else {
        misspell_diags(ln, code, n - 1) + if misspelled_at(code, n - 1) {
            seq![Diagnostic { range: span(ln, n - 1, n + 5), kind: DiagnosticKind::Misspelling }]
        } else {
            Seq::empty()
        }
    }
}

/// The first index at or after `i` where `w` occurs in `s`, or -1.
pub open spec fn first_occurrence(s: Seq<char>, w: Seq<char>, i: int) -> int
    decreases s.len() + 1 - i,
{
    if i < 0 || i > s.len() {
        -1
    } else if occurs_at(s, w, i) {
        i
    } else {
        first_occurrence(s, w, i + 1)
    }
}

/// The diagnostics of common mistakes on line `ln`: each whole-word `deffun`
/// in the code of the line, then the first `stringLength` in it, if any.
pub open spec fn mistake_diags_of_line(ln: int, line: Seq<char>) -> Seq<Diagnostic> {
    let code = line.take(code_end(line));
    let f = first_occurrence(code, string_length_word(), 0);
    misspell_diags(ln, code, code.len() as int) + if f >= 0 {
        seq![Diagnostic { range: span(ln, f, f + 12), kind: DiagnosticKind::Deprecated }]
    } else {
        Seq::empty()
    }
}

/// The mistake diagnostics of the first `k` lines, in line order.
pub open spec fn mistake_diags(lines: Seq<Seq<char>>, k: int) -> Seq<Diagnostic>
    decreases k,
{
    if k <= 0 {
        Seq::empty()
    } else {
        mistake_diags(lines, k - 1) + mistake_diags_of_line(k - 1, lines[k - 1])
    }
}

proof fn lemma_first_occurrence(s: Seq<char>, w: Seq<char>, i: int)
    requires
        0 <= i <= s.len() + 1,
    ensures
        first_occurrence(s, w, i) == -1 || i <= first_occurrence(s, w, i) <= s.len(),
    decreases s.len() + 1 - i,
{
    if i <= s.len() && !occurs_at(s, w, i) {
        lemma_first_occurrence(s, w, i + 1);
    }
}

fn check_common_mistakes(lines: &Vec<Vec<char>>, diagnostics: &mut Vec<Diagnostic>)
    ensures
        final(diagnostics)@ == old(diagnostics)@ + mistake_diags(lines.deep_view(), lines@.len() as int),
{
    let wrong: Vec<char> = vec!['d', 'e', 'f', 'f', 'u', 'n'];
    let old_word: Vec<char> = vec!['s', 't', 'r', 'i', 'n', 'g', 'L', 'e', 'n', 'g', 't', 'h'];
    assert(wrong@ =~= deffun_word());
    assert(old_word@ =~= string_length_word());
    let mut ln: usize = 0;
    while ln < lines.len()
        invariant
            ln <= lines@.len(),
            wrong@ == deffun_word(),
            old_word@ == string_length_word(),
            diagnostics@ == old(diagnostics)@ + mistake_diags(lines.deep_view(), ln as int),
        decreases lines.len() - ln,
    {
        let line = &lines[ln];
        proof {
            lemma_chars_deep_view(line);
        }
        let ce = code_end_of(line.as_slice());
        proof {
            lemma_comment_from(line@, 0);
        }
        let code = crate::text::copy_range(line.as_slice(), 0, ce);
        assert(code@ =~= line@.take(code_end(line@)));
        let ghost line_start = diagnostics@;
        let mut i: usize = 0;
        while i < code.len()
            invariant
                i <= code@.len(),
                wrong@ == deffun_word(),
                diagnostics@ == line_start + misspell_diags(ln as int, code@, i as int),
            decreases code.len() - i,
        {
            if occurs_at_exec(code.as_slice(), wrong.as_slice(), i) {
                let before_ok = i == 0 || !is_ident_char(code[i - 1]);
                let end = i + 6;
                let after_ok = end == code.len() || !is_ident_char(code[end]);
                if before_ok && after_ok {
                    diagnostics.push(
                        Diagnostic { range: make_span(ln, i, i + 6), kind: DiagnosticKind::Misspelling },
                    );
                }
            }
            i = i + 1;
        }
        let ghost after_misspell = diagnostics@;
        let mut j: usize = 0;
        let mut found = false;
        while j < code.len()
            invariant_except_break
                j <= code@.len(),
                old_word@ == string_length_word(),
                !found,
                first_occurrence(code@, string_length_word(), 0) == first_occurrence(
                    code@,
                    string_length_word(),
                    j as int,
                ),
            ensures
                found ==> j <= code@.len() && first_occurrence(code@, string_length_word(), 0) == j
                    && occurs_at(code@, string_length_word(), j as int),
                !found ==> first_occurrence(code@, string_length_word(), 0) == first_occurrence(
                    code@,
                    string_length_word(),
                    code@.len() as int,
                ),
            decreases code.len() - j,
        {
            if occurs_at_exec(code.as_slice(), old_word.as_slice(), j) {
                found = true;
                break;
            }
            j = j + 1;
        }
        if !found {
            assert(!occurs_at(code@, string_length_word(), code@.len() as int));
            assert(first_occurrence(code@, string_length_word(), code@.len() + 1int) == -1);
            assert(first_occurrence(code@, string_length_word(), code@.len() as int) == -1);
        }
        if found {
            diagnostics.push(
                Diagnostic { range: make_span(ln, j, j + 12), kind: DiagnosticKind::Deprecated },
            );
        }
        ln = ln + 1;
        assert(lines.deep_view()[ln - 1] == line@);
        assert(diagnostics@ =~= old(diagnostics)@ + mistake_diags(lines.deep_view(), ln as int));
    }
}

/// All diagnostics of a text: unmatched quotes, then unbalanced parentheses,
/// then common mistakes.
pub open spec fn diagnostics_of(text: Seq<char>) -> Seq<Diagnostic> {
    let lines = split_lines(text);
    quote_diags(lines, lines.len() as int) + paren_diags(lines) + mistake_diags(
        lines,
        lines.len() as int,
    )
}

/// The diagnostics of a document's text.
pub fn get_diagnostics(content: &str) -> (r: Vec<Diagnostic>)
    ensures
        r@ == diagnostics_of(content@),
{
    let chars = chars_of(content);
    let lines = lines_of(chars.as_slice());
    let mut diagnostics: Vec<Diagnostic> = Vec::new();
    check_unmatched_quotes(&lines, &mut diagnostics);
    check_unbalanced_parens(&lines, &mut diagnostics);
    check_common_mistakes(&lines, &mut diagnostics);
    diagnostics
}

// ---------------------------------------------------------------------------
// Formatting
// ---------------------------------------------------------------------------

/// Counts `(` and `)` in `line[i..end]` outside strings and block comments,
/// starting inside a string or not, inside a block comment or not, with
/// `open` and `close` counted so far.
pub open spec fn count_scan(
    line: Seq<char>,
    end: int,
    i: int,
    in_string: bool,
    in_block: bool,
    open: nat,
    close: nat,
) -> (nat, nat)
    decreases end - i,
{
    if i < 0 || i >= end || end > line.len() {
        (open, close)
    } else {
        let c = line[i];
        let next_slash = i + 1 < end && line[i + 1] == '/';
        let next_star = i + 1 < end && line[i + 1] == '*';
        if in_block {
            if c == '*' && next_slash {
                count_scan(line, end, i + 2, in_string, false, open, close)
            } else {
                count_scan(line, end, i + 1, in_string, true, open, close)
            }
        } else if in_string {
            if c == '"' && !escaped(line, i) {
                count_scan(line, end, i + 1, false, false, open, close)
            } else {
                count_scan(line, end, i + 1, true, false, open, close)
            }
        } else if c == '"' {
            count_scan(line, end, i + 1, true, false, open, close)
        } else if c == '/' && next_star {
            count_scan(line, end, i + 2, false, true, open, close)
        } else if c == '(' {
            count_scan(line, end, i + 1, false, false, open + 1, close)
        } else if c == ')' {
            count_scan(line, end, i + 1, false, false, open, close + 1)
        } else {
            count_scan(line, end, i + 1, false, false, open, close)
        }
    }
}

/// The numbers of `(` and `)` in the code of a line, outside strings and
/// block comments.
pub open spec fn paren_counts(line: Seq<char>) -> (nat, nat) {
    count_scan(line, code_end(line), 0, false, false, 0, 0)
}

proof fn lemma_count_scan_grow(line: Seq<char>, end: int, i: int, s: bool, b: bool, o: nat, c: nat)
    requires
        0 <= i,
        end <= line.len(),
    ensures
        count_scan(line, end, i, s, b, o, c).0 <= o + (if end > i { end - i } else { 0 }),
        count_scan(line, end, i, s, b, o, c).1 <= c + (if end > i { end - i } else { 0 }),
    decreases end - i,
{
    if i < end {
        let ch = line[i];
        let next_slash = i + 1 < end && line[i + 1] == '/';
        let next_star = i + 1 < end && line[i + 1] == '*';
        if b {
            if ch == '*' && next_slash {
                lemma_count_scan_grow(line, end, i + 2, s, false, o, c);
            } else {
                lemma_count_scan_grow(line, end, i + 1, s, true, o, c);
            }
        } else if s {
            lemma_count_scan_grow(line, end, i + 1, false, false, o, c);
            lemma_count_scan_grow(line, end, i + 1, true, false, o, c);
        } else if ch == '"' {
            lemma_count_scan_grow(line, end, i + 1, true, false, o, c);
        } else if ch == '/' && next_star {
            lemma_count_scan_grow(line, end, i + 2, false, true, o, c);
        } else if ch == '(' {
            lemma_count_scan_grow(line, end, i + 1, false, false, o + 1, c);
        } else if ch == ')' {
            lemma_count_scan_grow(line, end, i + 1, false, false, o, c + 1);
        } else {
            lemma_count_scan_grow(line, end, i + 1, false, false, o, c);
        }
    }
}

/// Counts the parentheses of a line outside strings and comments.
pub fn count_parens_outside_strings(line: &[char]) -> (r: (usize, usize))
    ensures
        r.0 == paren_counts(line@).0,
        r.1 == paren_counts(line@).1,
{
    let end = code_end_of(line);
    proof {
        lemma_comment_from(line@, 0);
        lemma_count_scan_grow(line@, end as int, 0, false, false, 0, 0);
    }
    let mut open: usize = 0;
    let mut close: usize = 0;
    let mut in_string = false;
    let mut in_block = false;
    let mut i: usize = 0;
    while i < end
        invariant
            end == code_end(line@),
            end <= line@.len(),
            i <= end + 1,
            open + close <= i,
            paren_counts(line@) == count_scan(
                line@,
                end as int,
                i as int,
                in_string,
                in_block,
                open as nat,
                close as nat,
            ),
        decreases end + 1 - i,
    {
        let c = line[i];
        let next_slash = i + 1 < end && line[i + 1] == '/';
        let next_star = i + 1 < end && line[i + 1] == '*';
        if in_block {
            if c == '*' && next_slash {
                in_block = false;
                i = i + 2;
            } else {
                i = i + 1;
            }
        } else if in_string {
            if c == '"' && !is_escaped(line, i) {
                in_string = false;
            }
            i = i + 1;
        } else if c == '"' {
            in_string = true;
            i = i + 1;
        } else if c == '/' && next_star {
            in_block = true;
            i = i + 2;
        } else if c == '(' {
            open = open + 1;
            i = i + 1;
        } else if c == ')' {
            close = close + 1;
            i = i + 1;
        } else {
            i = i + 1;
        }
    }
    (open, close)
}

/// The indentation before line `line` is written, given the indentation
/// after the previous line: one less when the line closes more
/// parentheses than it opens.
pub open spec fn indent_mid(indent: int, line: Seq<char>) -> int {
    let counts = paren_counts(trim(line));
    if counts.1 > counts.0 {
        indent - 1
    } else {
        indent
    }
}

/// The indentation after line `line`: one more when it opens more than it closes.
pub open spec fn indent_after_line(indent: int, line: Seq<char>) -> int {
    let counts = paren_counts(trim(line));
    let mid = indent_mid(indent, line);
    if counts.0 > counts.1 {
        mid + 1
    } else {
        mid
    }
}

/// The indentation after the first `k` lines.
pub open spec fn indent_after(lines: Seq<Seq<char>>, k: int) -> int
    decreases k,
{
    if k <= 0 {
        0
    } else {
        indent_after_line(indent_after(lines, k - 1), lines[k - 1])
    }
}

/// The formatter is defined on the first `k` lines: no line is written at a
/// negative indentation and the indentation stays within `i32`.
pub open spec fn formattable_upto(lines: Seq<Seq<char>>, k: int) -> bool
    decreases k,
{
    if k <= 0 {
        true
    } else {
        &&& formattable_upto(lines, k - 1)
        &&& indent_mid(indent_after(lines, k - 1), lines[k - 1]) >= 0
        &&& indent_after(lines, k) <= i32::MAX
    }
}

/// The formatter is defined on a text.
pub open spec fn formattable(text: Seq<char>) -> bool {
    formattable_upto(split_lines(text), split_lines(text).len() as int)
}

/// `n` spaces.
pub open spec fn spaces(n: int) -> Seq<char> {
    Seq::new(if n < 0 { 0 } else { n as nat }, |i: int| ' ')
}

/// One formatted line: the trimmed line behind four spaces per level, or
/// nothing for a blank line, then a line feed.
pub open spec fn formatted_line(mid: int, line: Seq<char>) -> Seq<char> {
    let t = trim(line);
    (if t.len() > 0 {
        spaces(4 * mid) + t
    } else {
        Seq::empty()
    }) + seq!['\n']
}

/// The formatted text of the first `k` lines.
pub open spec fn formatted_upto(lines: Seq<Seq<char>>, k: int) -> Seq<char>
    decreases k,
{
    if k <= 0 {
        Seq::empty()
    } else {
        formatted_upto(lines, k - 1) + formatted_line(indent_mid(indent_after(lines, k - 1), lines[k - 1]), lines[k - 1])
    }
}

/// The formatted text: every line trimmed and indented by four spaces per
/// open parenthesis level, each followed by a line feed.
pub open spec fn formatted(text: Seq<char>) -> Seq<char> {
    formatted_upto(split_lines(text), split_lines(text).len() as int)
}

/// Whether the formatter is defined on `content`.
pub fn can_format(content: &str) -> (r: bool)
    ensures
        r == formattable(content@),
{
    let chars = chars_of(content);
    let lines = lines_of(chars.as_slice());
    let ghost ls = lines.deep_view();
    let mut indent: i64 = 0;
    let mut k: usize = 0;
    while k < lines.len()
        invariant
            k <= lines@.len(),
            ls == lines.deep_view(),
            ls == split_lines(content@),
            formattable_upto(ls, k as int),
            indent == indent_after(ls, k as int),
            0 <= indent <= i32::MAX,
        decreases lines.len() - k,
    {
        let line = &lines[k];
        proof {
            lemma_chars_deep_view(line);
        }
        assert(ls[k as int] == line@);
        let t = trim_chars(line.as_slice());
        let (o, c) = count_parens_outside_strings(t.as_slice());
        let mut mid = indent;
        if c > o {
            mid = indent - 1;
        }
        if mid < 0 {
            assert(!formattable_upto(ls, k + 1));
            proof {
                if formattable_upto(ls, ls.len() as int) {
                    lemma_formattable_prefix(ls, k + 1, ls.len() as int);
                }
            }
            return false;
        }
        let mut after = mid;
        if o > c {
            after = mid + 1;
        }
        if after > i32::MAX as i64 {
            assert(!formattable_upto(ls, k + 1));
            proof {
                if formattable_upto(ls, ls.len() as int) {
                    lemma_formattable_prefix(ls, k + 1, ls.len() as int);
                }
            }
            return false;
        }
        indent = after;
        k = k + 1;
    }
    true
}

proof fn lemma_formattable_prefix(lines: Seq<Seq<char>>, k: int, n: int)
    requires
        0 <= k <= n,
        formattable_upto(lines, n),
    ensures
        formattable_upto(lines, k),
    decreases n - k,
{
    if k < n {
        lemma_formattable_prefix(lines, k, n - 1);
    }
}

/// Formats SKILL code: each line trimmed, indented by four spaces per level
/// of open parentheses, and ended by a line feed.
pub fn format_skill_code(content: &str) -> (r: String)
    requires
        formattable(content@),
    ensures
        r@ == formatted(content@),
{
    let chars = chars_of(content);
    let lines = lines_of(chars.as_slice());
    let v = format_lines(&lines);
    string_of(v.as_slice())
}

fn format_lines(lines: &Vec<Vec<char>>) -> (r: Vec<char>)
    requires
        formattable_upto(lines.deep_view(), lines@.len() as int),
    ensures
        r@ == formatted_upto(lines.deep_view(), lines@.len() as int),
{
    let ghost ls = lines.deep_view();
    let mut out: Vec<char> = Vec::new();
    let mut indent: i32 = 0;
    let mut k: usize = 0;
    while k < lines.len()
        invariant
            k <= lines@.len(),
            ls == lines.deep_view(),
            formattable_upto(ls, ls.len() as int),
            indent == indent_after(ls, k as int),
            indent >= 0,
            out@ == formatted_upto(ls, k as int),
        decreases lines.len() - k,
    {
        let line = &lines[k];
        proof {
            lemma_chars_deep_view(line);
            lemma_formattable_prefix(ls, k + 1, ls.len() as int);
        }
        assert(ls[k as int] == line@);
        let t = trim_chars(line.as_slice());
        let (o, c) = count_parens_outside_strings(t.as_slice());
        if c > o {
            indent = indent - 1;
        }
        let ghost before = out@;
        if t.len() > 0 {
            let n: u64 = (indent as u64) * 4;
            let mut s: u64 = 0;
            while s < n
                invariant
                    s <= n,
                    out@ == before + spaces(s as int),
                decreases n - s,
            {
                out.push(' ');
                s = s + 1;
                assert(spaces(s as int) =~= spaces(s - 1).push(' '));
                assert(out@ =~= before + spaces(s as int));
            }
            let mut j: usize = 0;
            while j < t.len()
                invariant
                    j <= t@.len(),
                    out@ == before + spaces(n as int) + t@.take(j as int),
                decreases t.len() - j,
            {
                out.push(t[j]);
                j = j + 1;
                assert(out@ =~= before + spaces(n as int) + t@.take(j as int));
            }
            assert(t@.take(t@.len() as int) =~= t@);
        }
        out.push('\n');
        if o > c {
            indent = indent + 1;
        }
        k = k + 1;
        assert(out@ =~= formatted_upto(ls, k as int));
    }
    out
}

/// The edits that format a document: none when it is already formatted;
/// else one edit that replaces everything from the start to the line after
/// the last with the formatted text.
pub fn format_document(content: &str) -> (r: Vec<TextEdit>)
    requires
        formattable(content@),
    ensures
        formatted(content@) == content@ ==> r@.len() == 0,
        formatted(content@) != content@ ==> r@.len() == 1 && r@[0].new_text@ == formatted(content@)
            && r@[0].range == (Range {
                start: Position { line: 0, character: 0 },
                end: Position { line: split_lines(content@).len() as u32, character: 0 },
            }),
{
    let chars = chars_of(content);
    let lines = lines_of(chars.as_slice());
    let v = format_lines(&lines);
    let mut edits: Vec<TextEdit> = Vec::new();
    if !crate::text::chars_eq(v.as_slice(), chars.as_slice()) {
        let formatted_text = string_of(v.as_slice());
        let n = lines.len();
        edits.push(TextEdit {
            range: Range {
                start: Position { line: 0, character: 0 },
                end: Position { line: n as u32, character: 0 },
            },
            new_text: formatted_text,
        });
    }
    edits
}

} // verus!
