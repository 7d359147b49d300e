use skill_lsp::diagnostics::{
    can_format, format_document, format_skill_code, get_diagnostics, Diagnostic, DiagnosticKind, Severity,
};
use skill_lsp::protocol::{Position, Range};

fn at(line: u32, start: u32, end: u32) -> Range {
    Range { start: Position { line, character: start }, end: Position { line, character: end } }
}

#[test]
fn clean_code_has_no_diagnostics() {
    let d = get_diagnostics("(defun foo (x)\n  (printf \"%d\\n\" x))\n");
    assert!(d.is_empty(), "{:?}", d);
}

#[test]
fn unmatched_quote_marks_last_quote() {
    let d = get_diagnostics("(printf \"abc)\n");
    assert_eq!(d[0], Diagnostic { range: at(0, 8, 9), kind: DiagnosticKind::UnmatchedQuote });
    assert_eq!(d[0].severity(), Severity::Error);
    assert_eq!(d[0].message(), "Unmatched string quote");
    assert_eq!(d[0].source(), "skill-lsp");
}

#[test]
fn quote_in_comment_is_ignored() {
    let d = get_diagnostics("(a) ; it's \"fine\n");
    assert!(d.is_empty(), "{:?}", d);
}

#[test]
fn unexpected_and_unclosed_parens() {
    let d = get_diagnostics(")\n(a (b)\n");
    assert_eq!(
        d,
        vec![
            Diagnostic { range: at(0, 0, 1), kind: DiagnosticKind::UnexpectedClose },
            Diagnostic { range: at(1, 0, 1), kind: DiagnosticKind::Unclosed },
        ]
    );
    assert_eq!(d[0].message(), "Unexpected closing parenthesis");
    assert_eq!(d[1].message(), "Unclosed parenthesis");
}

#[test]
fn parens_in_strings_and_comments_do_not_count() {
    let d = get_diagnostics("(a \"(\" ; )\n/* ( \n ) */ )\n");
    assert!(d.is_empty(), "{:?}", d);
}

#[test]
fn columns_count_characters() {
    let d = get_diagnostics("\"京\" )\n");
    assert_eq!(d, vec![Diagnostic { range: at(0, 4, 5), kind: DiagnosticKind::UnexpectedClose }]);
}

#[test]
fn misspelled_defun_is_a_warning() {
    let d = get_diagnostics("(deffun f () 1)\n(my-deffun 1)\n");
    assert_eq!(d, vec![Diagnostic { range: at(0, 1, 7), kind: DiagnosticKind::Misspelling }]);
    assert_eq!(d[0].severity(), Severity::Warning);
    assert_eq!(d[0].message(), "Did you mean 'defun'?");
}

#[test]
fn deprecated_string_length_is_a_hint() {
    let d = get_diagnostics("(stringLength s) (stringLength t)\n");
    assert_eq!(d, vec![Diagnostic { range: at(0, 1, 13), kind: DiagnosticKind::Deprecated }]);
    assert_eq!(d[0].severity(), Severity::Hint);
    assert_eq!(d[0].message(), "Consider using 'strlen' instead");
}

#[test]
fn diagnostics_are_grouped_by_check() {
    let d = get_diagnostics("(deffun \"x\n)\n");
    let kinds: Vec<DiagnosticKind> = d.iter().map(|x| x.kind).collect();
    // the open string swallows the rest of line 0, so its `(` is balanced by line 1
    assert_eq!(kinds, vec![DiagnosticKind::UnmatchedQuote, DiagnosticKind::Misspelling]);
    let d = get_diagnostics("(deffun x
\"\n");
    let kinds: Vec<DiagnosticKind> = d.iter().map(|x| x.kind).collect();
    assert_eq!(kinds, vec![DiagnosticKind::UnmatchedQuote, DiagnosticKind::Unclosed, DiagnosticKind::Misspelling]);
}

#[test]
fn formatter_indents_by_depth() {
    let src = "(defun f (x)\n(let ((y 1))\n(g y)))\n";
    assert!(can_format(src));
    assert_eq!(format_skill_code(src), "(defun f (x)\n    (let ((y 1))\n    (g y)))\n");
}

#[test]
fn formatter_keeps_blank_lines_empty() {
    let src = "(a\n\n   b\n   c)\n";
    assert_eq!(format_skill_code(src), "(a\n\n    b\nc)\n");
}

#[test]
fn formatter_ignores_parens_in_strings_and_comments() {
    let src = "(a \"((\" ; ((\nb\n)\n";
    assert_eq!(format_skill_code(src), "(a \"((\" ; ((\n    b\n)\n");
}

#[test]
fn format_document_replaces_everything_once() {
    let edits = format_document("(a\nb\n)");
    assert_eq!(edits.len(), 1);
    assert_eq!(edits[0].new_text, "(a\n    b\n)\n");
    assert_eq!(edits[0].range, at(0, 0, 0).clone_with_end(3));
    assert!(format_document("(a\n    b\n)\n").is_empty());
}

trait EndLine {
    fn clone_with_end(&self, line: u32) -> Range;
}

impl EndLine for Range {
    fn clone_with_end(&self, line: u32) -> Range {
        Range { start: self.start, end: Position { line, character: 0 } }
    }
}

#[test]
fn a_leading_close_cannot_be_formatted() {
    assert!(!can_format(")\n"));
    assert!(can_format("\n"));
}

#[test]
fn quotes_in_block_comments_are_not_strings() {
    assert!(get_diagnostics("/* say \" */\n(f)").is_empty());
    let d = get_diagnostics("/* a\n \" b */ \"x\n(f)");
    assert_eq!(d.len(), 1);
    assert_eq!(d[0].kind, DiagnosticKind::UnmatchedQuote);
    assert_eq!(d[0].range, at(1, 8, 9));
    assert!(get_diagnostics("(f \"a /* b\")\n(g \"c */\")").is_empty());
}
