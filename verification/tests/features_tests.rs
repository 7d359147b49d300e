use skill_lsp::api::{init, ApiFunction, ApiIndex};
use skill_lsp::completion::{get_completions, get_signature_help, word_prefix, CompletionKind};
use skill_lsp::document::Document;
use skill_lsp::hover::{get_hover, hover_for_word};
use skill_lsp::protocol::{Position, Range};
use skill_lsp::server::{
    add_documentation_comment, code_action_applies, document_highlight, is_add_doc_comment, is_valid_symbol_name,
    prepare_rename, rename, server_capabilities, workspace_symbols,
};
use skill_lsp::table::{index_document, SymbolTable};
use skill_lsp::text::chars_of;

fn api() -> ApiIndex {
    init(vec![
        ApiFunction {
            name: "dbFetch".to_string(),
            signature: "dbFetch(g_obj s_attr)".to_string(),
            description: "".to_string(),
            module: "db".to_string(),
            category: "Database".to_string(),
        },
        ApiFunction {
            name: "dbZoom".to_string(),
            signature: "dbZoom(x)".to_string(),
            description: "Zooms.".to_string(),
            module: "db".to_string(),
            category: "Database".to_string(),
        },
        ApiFunction {
            name: "car".to_string(),
            signature: "car(l)".to_string(),
            description: "API car.".to_string(),
            module: "core".to_string(),
            category: "Lists".to_string(),
        },
    ])
}

fn table() -> SymbolTable {
    let mut t = SymbolTable::new();
    index_document(&mut t, "file:///a.il", ";;; @doc Adds two\n(defun myAdd (a b) (plus a b))\n(defun noArgs () 1)\n");
    t
}

fn at(line: u32, start: u32, end: u32) -> Range {
    Range { start: Position { line, character: start }, end: Position { line, character: end } }
}

#[test]
fn hover_prefers_core_docs_then_api_then_user() {
    let a = api();
    let t = table();
    let car = hover_for_word("car", &a, &t).unwrap();
    assert!(car.starts_with("**car** - First element of list"));
    assert_eq!(
        hover_for_word("DBZOOM", &a, &t).unwrap(),
        "**dbZoom**\n\n*Database / db*\n\n```skill\ndbZoom(x)\n```\n\nZooms."
    );
    assert_eq!(
        hover_for_word("dbFetch", &a, &t).unwrap(),
        "**dbFetch**\n\n*Database / db*\n\n```skill\ndbFetch(g_obj s_attr)\n```"
    );
    assert_eq!(
        hover_for_word("myAdd", &a, &t).unwrap(),
        "**myAdd**\n\n```skill\n(myAdd a b)\n```\n\n@doc Adds two"
    );
    assert_eq!(hover_for_word("noArgs", &a, &t).unwrap(), "**noArgs**");
    assert!(hover_for_word("nothing", &a, &t).is_none());
    let doc = Document::new("(setq x 1)".to_string());
    assert!(get_hover(&doc.rope, Position { line: 0, character: 2 }, &a, &t).unwrap().starts_with("**setq**"));
    assert!(get_hover(&doc.rope, Position { line: 0, character: 0 }, &a, &t).is_none());
}

#[test]
fn completion_lists_api_then_tables_then_user() {
    let a = api();
    let t = table();
    let items = get_completions("(db", &a, &t);
    assert_eq!(items[0].label, "dbFetch");
    assert_eq!(items[0].insert_text, "(dbFetch");
    assert_eq!(items[0].sort_text, Some("01_dbFetch".to_string()));
    assert_eq!(items[0].documentation, "**dbFetch**\n\n*Database / db*");
    assert_eq!(items[1].label, "dbZoom");
    assert_eq!(items[1].documentation, "**dbZoom**\n\n*Database / db*\n\nZooms.");
    assert_eq!(items[2].label, "car");
    assert_eq!(items[2].detail, "(car list)");
    assert_eq!(items[2].documentation, "**car**\n\nReturns the first element of a list");
    assert_eq!(items.len(), 2 + 105 + 32 + 2);
    let allegro = &items[2 + 105];
    assert_eq!(allegro.label, "dbOpenCellViewByType");
    assert_eq!(allegro.documentation, "**dbOpenCellViewByType** (Allegro SKILL)\n\nOpen a cell view");
    let user = &items[items.len() - 2];
    assert_eq!(user.label, "myAdd");
    assert_eq!(user.kind, CompletionKind::Function);
    assert_eq!(user.detail, "(myAdd a b)");
    assert_eq!(user.documentation, "@doc Adds two");
    let last = &items[items.len() - 1];
    assert_eq!(last.detail, "noArgs");
    assert_eq!(last.documentation, "User-defined noArgs");
}

#[test]
fn completion_skips_api_names_of_the_tables() {
    let a = api();
    let t = SymbolTable::new();
    let items = get_completions("(ca", &a, &t);
    assert_eq!(items.len(), 105 + 32);
    let items = get_completions("(  ", &a, &t);
    assert_eq!(items[0].insert_text, "car");
    let items = get_completions("x", &a, &t);
    assert_eq!(items[0].insert_text, "(car");
}

#[test]
fn typed_word_is_the_trailing_symbol() {
    let w: String = word_prefix(&chars_of("(foo ba-r?")).into_iter().collect();
    assert_eq!(w, "ba-r?");
    assert!(word_prefix(&chars_of("(foo ")).is_empty());
}

#[test]
fn signature_help_innermost_call_and_argument() {
    let a = api();
    let t = table();
    let h = get_signature_help("(car x, y", &a, &t).unwrap();
    assert_eq!(h.label, "(car list)");
    assert_eq!(h.active_parameter, 1);
    let h = get_signature_help("(dbOpenCellViewByType ", &a, &t).unwrap();
    assert_eq!(h.label, "(lib cell view type)");
    let h = get_signature_help("(dbzoom 1", &a, &t).unwrap();
    assert_eq!(h.label, "dbZoom(x)");
    let h = get_signature_help("(myAdd 1", &a, &t).unwrap();
    assert_eq!(h.label, "(myAdd a b)");
    assert_eq!(h.active_parameter, 0);
    assert!(get_signature_help("(car x)", &a, &t).is_none());
    assert!(get_signature_help("car x", &a, &t).is_none());
    assert!(get_signature_help("(noArgs ", &a, &t).is_none());
    assert!(get_signature_help("(unknown ", &a, &t).is_none());

    let h = get_signature_help("(cons a b", &a, &t).unwrap();
    assert_eq!(h.label, "(cons x list)");
    assert_eq!(h.active_parameter, 1);
    let h = get_signature_help("(cons a b ", &a, &t).unwrap();
    assert_eq!(h.active_parameter, 2);
    let h = get_signature_help("(printf (car x", &a, &t).unwrap();
    assert_eq!(h.label, "(car list)");
    assert_eq!(h.active_parameter, 0);
    let h = get_signature_help("(printf (car x) ", &a, &t).unwrap();
    assert_eq!(h.label, "(format ...)");
    assert_eq!(h.active_parameter, 1);
    let h = get_signature_help("(printf \"a (b\" x", &a, &t).unwrap();
    assert_eq!(h.label, "(format ...)");
    assert_eq!(h.active_parameter, 1);
    let h = get_signature_help("(cons", &a, &t).unwrap();
    assert_eq!(h.active_parameter, 0);
    assert!(get_signature_help("(car \")\"", &a, &t).is_none());
    assert!(get_signature_help(") (car ", &a, &t).is_none());
    let h = get_signature_help("(cons \"(\" ", &a, &t).unwrap();
    assert_eq!(h.label, "(cons x list)");
    assert_eq!(h.active_parameter, 1);
}

#[test]
fn highlight_and_rename() {
    let doc = Document::new("(defun f (x) (g x))\n(f x)\n".to_string());
    let r = &doc.rope;
    let hl = document_highlight(r, Position { line: 1, character: 3 }).unwrap();
    assert_eq!(hl, vec![at(0, 10, 11), at(0, 16, 17), at(1, 3, 4)]);
    assert!(document_highlight(r, Position { line: 0, character: 0 }).is_none());
    let (range, word) = prepare_rename(r, Position { line: 0, character: 7 }).unwrap();
    assert_eq!(range, at(0, 7, 8));
    assert_eq!(word, "f");
    let edits = rename(r, Position { line: 0, character: 7 }, "g2").unwrap();
    assert_eq!(edits.len(), 2);
    assert_eq!(edits[1].range, at(1, 1, 2));
    assert_eq!(edits[1].new_text, "g2");
    assert!(rename(r, Position { line: 0, character: 7 }, "bad name").is_none());
    assert!(rename(r, Position { line: 0, character: 7 }, "").is_none());
    assert!(is_valid_symbol_name("ok-name?!"));
    assert!(!is_valid_symbol_name("no.dots"));
}

#[test]
fn workspace_symbol_query() {
    let t = table();
    let found = workspace_symbols(&t, "ADD").unwrap();
    assert_eq!(found.len(), 1);
    assert_eq!(found[0].name, "myAdd");
    assert!(workspace_symbols(&t, "zzz").is_none());
}

#[test]
fn documentation_comment_action_and_command() {
    let doc = Document::new("  (defun area (w h) (times w h))\n(procedure run() 1)\n(foo)\n".to_string());
    let r = &doc.rope;
    assert!(code_action_applies(r, 0));
    assert!(code_action_applies(r, 1));
    assert!(!code_action_applies(r, 2));
    let e = add_documentation_comment(r, 0).unwrap();
    assert_eq!(e.range, at(0, 0, 0));
    assert_eq!(
        e.new_text,
        ";;;\n;;; @function area\n;;; @description \n;;; @param w \n;;; @param h \n;;; @return\n\n"
    );
    let e = add_documentation_comment(r, 1).unwrap();
    assert_eq!(e.new_text, ";;;\n;;; @function run\n;;; @description \n;;; @return\n\n");
    assert!(add_documentation_comment(r, 2).is_none());
    assert!(is_add_doc_comment("skill.addDocComment"));
    assert!(!is_add_doc_comment("skill.other"));
}

#[test]
fn capabilities_offered() {
    let c = server_capabilities();
    assert_eq!(c.server_name, "SKILL LSP");
    assert_eq!(c.server_version, "0.1.0");
    assert_eq!(c.completion_triggers, vec!["(".to_string(), " ".to_string(), "-".to_string()]);
    assert_eq!(c.signature_triggers, vec!["(".to_string(), ",".to_string()]);
    assert_eq!(c.commands, vec!["skill.addDocComment".to_string()]);
    assert!(c.full_text_sync && c.completion && c.completion_resolve && c.hover && c.definition);
    assert!(c.document_symbol && c.references && c.signature_help && c.formatting && c.rename);
    assert!(c.prepare_rename && c.document_highlight && c.workspace_symbol && c.code_action);
}
