use skill_lsp::document::{get_word_at_position, text_before_cursor, word_range_at_position, Document};
use skill_lsp::protocol::{Position, Range};
use skill_lsp::symbols::{extract_symbols, occurrences_in_text, references_in, SymbolKind};
use skill_lsp::table::{
    get_document_symbols, goto_definition, index_document, reindex_document, search_workspace_symbols, SymbolTable,
};

fn at(line: u32, start: u32, end: u32) -> Range {
    Range { start: Position { line, character: start }, end: Position { line, character: end } }
}

#[test]
fn extracts_defun_and_procedure() {
    let src = "(defun add (a b) (plus a b))\n(procedure greet-user? () (printf \"hi\"))\n";
    let s = extract_symbols(src, "file:///a.il");
    assert_eq!(s.len(), 2);
    assert_eq!(s[0].name, "add");
    assert_eq!(s[0].kind, SymbolKind::Function);
    assert_eq!(s[0].location.uri, "file:///a.il");
    assert_eq!(s[0].location.range, at(0, 7, 10));
    assert_eq!(s[0].parameters, Some(vec!["a".to_string(), "b".to_string()]));
    assert_eq!(s[0].documentation, None);
    assert_eq!(s[0].return_type, None);
    assert_eq!(s[1].name, "greet-user?");
    assert_eq!(s[1].location.range, at(1, 11, 22));
    assert_eq!(s[1].parameters, None);
}

#[test]
fn definitions_in_comments_are_skipped() {
    let s = extract_symbols("; (defun hidden (x) x)\n(a) ; (defun also (y) y)\n", "u");
    assert!(s.is_empty());
    let s = extract_symbols("(defun shown (x) x) ; note\n", "u");
    assert_eq!(s.len(), 1);
    assert_eq!(s[0].name, "shown");
}

#[test]
fn name_columns_count_characters() {
    let s = extract_symbols("\"京\" (defun f (x) x)\n", "u");
    assert_eq!(s[0].location.range, at(0, 11, 12));
}

#[test]
fn doc_comment_entries_are_collected_top_to_bottom() {
    let src = "x\n;;; @brief Adds\n; plain\n;;; not a tag\n;;;  @param a first\n(defun add (a) a)\n";
    let s = extract_symbols(src, "u");
    assert_eq!(s[0].documentation, Some("@brief Adds\n@param a first".to_string()));
    let s = extract_symbols("(defun first () 1)\n", "u");
    assert_eq!(s[0].documentation, None);
}

#[test]
fn occurrences_are_whole_words() {
    let text = "(foo foo-bar foo)\nxfoo foo!\n  foo";
    let r = occurrences_in_text(text, "foo");
    assert_eq!(r, vec![at(0, 1, 4), at(0, 13, 16), at(2, 2, 5)]);
    assert!(occurrences_in_text(text, "").is_empty());
    let locs = references_in("file:///b.il", text, "foo");
    assert_eq!(locs.len(), 3);
    assert_eq!(locs[2].uri, "file:///b.il");
    assert_eq!(locs[2].range, at(2, 2, 5));
}

#[test]
fn word_under_cursor() {
    let doc = Document::new("(car my-list)\r\nnext".to_string());
    assert_eq!(doc.line_count(), 2);
    assert_eq!(doc.text(), "(car my-list)\r\nnext");
    let rope = &doc.rope;
    let (s, e, line) = word_range_at_position(rope, Position { line: 0, character: 7 }).unwrap();
    assert_eq!((s, e), (5, 12));
    assert_eq!(line.iter().collect::<String>(), "(car my-list)\r\n");
    assert_eq!(get_word_at_position(rope, Position { line: 0, character: 2 }), Some("car".to_string()));
    assert_eq!(get_word_at_position(rope, Position { line: 0, character: 0 }), None);
    assert_eq!(get_word_at_position(rope, Position { line: 1, character: 99 }), Some("next".to_string()));
    assert_eq!(text_before_cursor(rope, Position { line: 0, character: 4 }), "(car");
}

#[test]
fn rope_lines_follow_line_breaks() {
    let doc = Document::new("a\rb\u{2028}c\n".to_string());
    assert_eq!(doc.line_count(), 4);
    assert_eq!(doc.line(0), vec!['a', '\r']);
    assert_eq!(doc.line(1), vec!['b', '\u{2028}']);
    assert_eq!(doc.line(3), Vec::<char>::new());
}

#[test]
fn table_indexing_and_queries() {
    let mut table = SymbolTable::new();
    index_document(&mut table, "file:///a.il", "(defun alpha (x) x)\n(defun Beta () 1)\n");
    index_document(&mut table, "file:///b.il", "(defun gamma () 2)\n(defun alpha (y z) y)\n");
    assert_eq!(table.len(), 3);
    let a = table.get("alpha").unwrap();
    assert_eq!(a.location.uri, "file:///b.il");
    assert_eq!(a.parameters, Some(vec!["y".to_string(), "z".to_string()]));
    let loc = goto_definition(&table, "gamma").unwrap();
    assert_eq!(loc.uri, "file:///b.il");
    assert_eq!(loc.range, at(0, 7, 12));
    assert!(goto_definition(&table, "missing").is_none());

    let docs_a: Vec<String> = get_document_symbols(&table, "file:///a.il").into_iter().map(|s| s.name).collect();
    assert_eq!(docs_a, vec!["Beta".to_string()]);

    let all: Vec<String> = search_workspace_symbols(&table, "").into_iter().map(|s| s.name).collect();
    assert_eq!(all, vec!["Beta".to_string(), "alpha".to_string(), "gamma".to_string()]);
    let some: Vec<String> = search_workspace_symbols(&table, "A").into_iter().map(|s| s.name).collect();
    assert_eq!(some, vec!["Beta".to_string(), "alpha".to_string(), "gamma".to_string()]);
    let one: Vec<String> = search_workspace_symbols(&table, "ET").into_iter().map(|s| s.name).collect();
    assert_eq!(one, vec!["Beta".to_string()]);

    reindex_document(&mut table, "file:///b.il", "(defun delta () 3)\n");
    let names: Vec<String> = table.symbols().iter().map(|s| s.name.clone()).collect();
    assert_eq!(names, vec!["Beta".to_string(), "delta".to_string()]);
}
