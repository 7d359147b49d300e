use skill_lsp::api::{init, ApiFunction};
use skill_lsp::completion::get_completions;
use skill_lsp::diagnostics::{can_format, format_document, format_skill_code, get_diagnostics, DiagnosticKind};
use skill_lsp::document::Document;
use skill_lsp::extension::{server_arguments, BinaryLookup, LookupAction, LookupEvent};
use skill_lsp::protocol::{Position, Range};
use skill_lsp::server::document_highlight;
use skill_lsp::symbols::{extract_symbols, find_references, occurrences_in_text};
use skill_lsp::table::{index_document, reindex_document, SymbolTable};

fn at(line: u32, start: u32, end: u32) -> Range {
    Range { start: Position { line, character: start }, end: Position { line, character: end } }
}

fn f(name: &str) -> ApiFunction {
    ApiFunction {
        name: name.to_string(),
        signature: format!("{}()", name),
        description: String::new(),
        module: "m".to_string(),
        category: "c".to_string(),
    }
}

fn found(a: &LookupAction) -> Option<String> {
    match a {
        LookupAction::Found(p) => Some(p.clone()),
        _ => None,
    }
}

#[test]
fn references_walk_documents_in_order() {
    let docs = vec![
        ("file:///a.il".to_string(), "(foo 1)\n(bar foo)\n".to_string()),
        ("file:///b.il".to_string(), "food foo-bar foo\n".to_string()),
    ];
    let refs = find_references(&docs, "foo");
    let got: Vec<(String, Range)> = refs.into_iter().map(|l| (l.uri, l.range)).collect();
    assert_eq!(
        got,
        vec![
            ("file:///a.il".to_string(), at(0, 1, 4)),
            ("file:///a.il".to_string(), at(1, 5, 8)),
            ("file:///b.il".to_string(), at(0, 13, 16)),
        ]
    );
    assert!(find_references(&docs, "").is_empty());
    assert!(find_references(&Vec::new(), "foo").is_empty());
}

#[test]
fn every_occurrence_is_a_whole_word() {
    let text = "(setq x-1 x)\n x ;x\nx";
    let ranges = occurrences_in_text(text, "x");
    assert_eq!(ranges, vec![at(0, 10, 11), at(1, 1, 2), at(1, 4, 5), at(2, 0, 1)]);
}

#[test]
fn highlight_includes_the_word_under_the_cursor() {
    let doc = Document::new("(defun foo () 1)\n(foo)\n".to_string());
    let hs = document_highlight(&doc.rope, Position { line: 1, character: 2 }).unwrap();
    assert_eq!(hs, vec![at(0, 7, 10), at(1, 1, 4)]);
    assert!(hs.contains(&at(1, 1, 4)));
}

#[test]
fn settings_path_wins() {
    let (mut l, a) = BinaryLookup::new(Some("/cached/skill-lsp".to_string()), "/home/u".to_string());
    assert!(matches!(a, LookupAction::ReadSettings));
    let a = l.step(LookupEvent::Settings(Some("/opt/skill-lsp".to_string())));
    assert_eq!(found(&a), Some("/opt/skill-lsp".to_string()));
    assert!(l.is_done());
    assert_eq!(l.cached_path(), Some("/cached/skill-lsp".to_string()));
}

#[test]
fn cached_path_is_used_while_it_exists() {
    let (mut l, _) = BinaryLookup::new(Some("/cached/skill-lsp".to_string()), "/home/u".to_string());
    let a = l.step(LookupEvent::Settings(None));
    assert!(matches!(a, LookupAction::CheckExists(ref p) if p == "/cached/skill-lsp"));
    let a = l.step(LookupEvent::Exists(true));
    assert_eq!(found(&a), Some("/cached/skill-lsp".to_string()));
}

#[test]
fn which_output_is_trimmed_and_cached() {
    let (mut l, _) = BinaryLookup::new(Some("/gone".to_string()), "/home/u".to_string());
    l.step(LookupEvent::Settings(None));
    let a = l.step(LookupEvent::Exists(false));
    assert!(matches!(a, LookupAction::RunWhich));
    let a = l.step(LookupEvent::WhichRan(Some("  /usr/bin/skill-lsp\n".to_string())));
    assert_eq!(found(&a), Some("/usr/bin/skill-lsp".to_string()));
    assert_eq!(l.cached_path(), Some("/usr/bin/skill-lsp".to_string()));
}

#[test]
fn common_locations_in_order_then_failure() {
    let (mut l, _) = BinaryLookup::new(None, "/home/u".to_string());
    let a = l.step(LookupEvent::Settings(None));
    assert!(matches!(a, LookupAction::RunWhich));
    let a = l.step(LookupEvent::WhichRan(None));
    assert!(matches!(a, LookupAction::CheckExists(ref p) if p == "/usr/local/bin/skill-lsp"));
    let a = l.step(LookupEvent::Exists(false));
    assert!(matches!(a, LookupAction::CheckExists(ref p) if p == "/usr/bin/skill-lsp"));
    let a = l.step(LookupEvent::Exists(false));
    assert!(matches!(a, LookupAction::CheckExists(ref p) if p == "/home/u/.local/bin/skill-lsp"));
    let a = l.step(LookupEvent::Exists(false));
    match a {
        LookupAction::Fail(m) => assert_eq!(
            m,
            "SKILL LSP server not found. Please install skill-lsp or configure the path in settings."
        ),
        _ => panic!("expected a failure"),
    }
    assert!(l.is_done());
    assert_eq!(l.cached_path(), None);
}

#[test]
fn common_location_found_is_cached() {
    let (mut l, _) = BinaryLookup::new(None, "/home/u".to_string());
    l.step(LookupEvent::Settings(None));
    l.step(LookupEvent::WhichRan(None));
    l.step(LookupEvent::Exists(false));
    let a = l.step(LookupEvent::Exists(true));
    assert_eq!(found(&a), Some("/usr/bin/skill-lsp".to_string()));
    assert_eq!(l.cached_path(), Some("/usr/bin/skill-lsp".to_string()));
}

#[test]
fn which_error_fails_with_its_message() {
    let (mut l, _) = BinaryLookup::new(None, "/home/u".to_string());
    l.step(LookupEvent::Settings(None));
    match l.step(LookupEvent::WhichError("no such file".to_string())) {
        LookupAction::Fail(m) => assert_eq!(m, "Failed to find skill-lsp: no such file"),
        _ => panic!("expected a failure"),
    }
}

#[test]
fn an_event_out_of_turn_repeats_the_request() {
    let (mut l, _) = BinaryLookup::new(None, "/home/u".to_string());
    let a = l.step(LookupEvent::Exists(true));
    assert!(matches!(a, LookupAction::ReadSettings));
    assert!(!l.is_done());
}

#[test]
fn server_is_started_on_stdio() {
    assert_eq!(server_arguments(), vec!["--stdio".to_string()]);
}

#[test]
fn reindexing_drops_stale_definitions() {
    let mut table = SymbolTable::new();
    index_document(&mut table, "a", "(defun keep () 1)\n(defun old () 2)\n");
    index_document(&mut table, "b", "(defun other () 3)\n");
    reindex_document(&mut table, "a", "(defun keep (x) 1)\n(defun new () 4)\n(defun new (y) 5)\n");
    assert!(table.get("old").is_none());
    assert_eq!(table.get("other").unwrap().location.uri, "b");
    assert_eq!(table.get("keep").unwrap().parameters, Some(vec!["x".to_string()]));
    let n = table.get("new").unwrap();
    assert_eq!(n.parameters, Some(vec!["y".to_string()]));
    assert_eq!(n.location.range, at(2, 7, 10));
}

#[test]
fn insert_replaces_by_name_across_documents() {
    let mut table = SymbolTable::new();
    index_document(&mut table, "a", "(defun f () 1)\n");
    index_document(&mut table, "b", "(defun f (z) 2)\n");
    assert_eq!(table.len(), 1);
    assert_eq!(table.get("f").unwrap().location.uri, "b");
    reindex_document(&mut table, "a", "");
    assert_eq!(table.get("f").unwrap().location.uri, "b");
    reindex_document(&mut table, "b", "");
    assert!(table.get("f").is_none());
}

#[test]
fn completions_stay_sorted_prefixed_and_capped() {
    let api = init(vec![f("geB"), f("gea"), f("GEc"), f("hi"), f("gEa")]);
    assert_eq!(api.len(), 4);
    let names: Vec<String> = api.completions("GE", 10).iter().map(|f| f.name.clone()).collect();
    assert_eq!(names, vec!["gEa".to_string(), "geB".to_string(), "GEc".to_string()]);
    let names: Vec<String> = api.completions("ge", 2).iter().map(|f| f.name.clone()).collect();
    assert_eq!(names, vec!["gEa".to_string(), "geB".to_string()]);
    assert!(api.completions("", 10).is_empty());
    assert_eq!(api.get("GEA").unwrap().name, "gEa");
}

#[test]
fn api_completion_items_never_repeat_a_table_name() {
    let api = init(vec![f("CAR"), f("carX"), f("Cdr")]);
    let table = SymbolTable::new();
    let items = get_completions("(ca", &api, &table);
    let car_like: Vec<&str> = items
        .iter()
        .filter(|i| i.label.to_lowercase() == "car")
        .map(|i| i.label.as_str())
        .collect();
    assert_eq!(car_like, vec!["car"]);
    assert_eq!(items[0].label, "carX");
}

#[test]
fn diagnostics_point_at_what_they_report() {
    let text = "(a \"x)\n)\n(deffun f () (stringLength s))\n(b";
    let lines: Vec<Vec<char>> = text.lines().map(|l| l.chars().collect()).collect();
    let ds = get_diagnostics(text);
    assert!(!ds.is_empty());
    for d in &ds {
        let line = &lines[d.range.start.line as usize];
        let c = d.range.start.character as usize;
        let rest: String = line[c..].iter().collect();
        match d.kind {
            DiagnosticKind::UnmatchedQuote => assert!(rest.starts_with('"')),
            DiagnosticKind::UnexpectedClose => assert!(rest.starts_with(')')),
            DiagnosticKind::Unclosed => assert!(rest.starts_with('(')),
            DiagnosticKind::Misspelling => assert!(rest.starts_with("deffun")),
            DiagnosticKind::Deprecated => assert!(rest.starts_with("stringLength")),
        }
    }
}

#[test]
fn symbol_ranges_mark_their_names() {
    let text = "  (defun  alpha-1 (a) a)\n;; x\n(procedure beta ())\n";
    let lines: Vec<Vec<char>> = text.lines().map(|l| l.chars().collect()).collect();
    let syms = extract_symbols(text, "u");
    assert_eq!(syms.len(), 2);
    for s in &syms {
        let r = s.location.range;
        let line = &lines[r.start.line as usize];
        let got: String = line[r.start.character as usize..r.end.character as usize].iter().collect();
        assert_eq!(got, s.name);
        assert_eq!(s.location.uri, "u");
    }
}

#[test]
fn a_document_gives_back_its_text() {
    let text = "(defun f (x)\r\n  x)\n\u{4eac}";
    let doc = Document::new(text.to_string());
    assert_eq!(doc.text(), text);
    assert_eq!(doc.line_count(), 3);
}

#[test]
fn a_duplicated_symbol_equals_its_source() {
    let syms = extract_symbols(";;; @doc f\n(defun f (a b) a)\n", "u");
    let s = &syms[0];
    let d = s.duplicate();
    assert_eq!(d.name, s.name);
    assert_eq!(d.kind, s.kind);
    assert_eq!(d.location.uri, s.location.uri);
    assert_eq!(d.location.range, s.location.range);
    assert_eq!(d.documentation, Some("@doc f".to_string()));
    assert_eq!(d.parameters, s.parameters);
    assert_eq!(d.return_type, None);
}

#[test]
fn formatting_twice_changes_nothing_more() {
    let text = "(defun f (x)\r\n(let ((y 1))\n\t  (g \"(\" y)   \n\n   ))\n)";
    assert!(can_format(text));
    let once = format_skill_code(text);
    assert_eq!(once, "(defun f (x)\n    (let ((y 1))\n        (g \"(\" y)\n\n    ))\n)\n");
    assert_eq!(once.lines().count(), text.lines().count());
    for (a, b) in once.lines().zip(text.lines()) {
        assert_eq!(a.trim(), b.trim());
    }
    assert!(can_format(&once));
    assert_eq!(format_skill_code(&once), once);
    assert!(format_document(&once).is_empty());
}

#[test]
fn the_table_holds_only_functions() {
    let mut table = SymbolTable::new();
    index_document(&mut table, "a", "(defun f () 1)\n(procedure g (x) x)\n");
    reindex_document(&mut table, "a", "(procedure h () 2)\n");
    index_document(&mut table, "b", "(defun F () 3)\n");
    assert_eq!(table.len(), 2);
    for s in table.symbols() {
        assert_eq!(s.kind, skill_lsp::symbols::SymbolKind::Function);
    }
}

#[test]
fn index_length_counts_distinct_lowercased_names() {
    let api = init(vec![f("A"), f("a"), f("b"), f("B"), f("c")]);
    assert_eq!(api.len(), 3);
    assert_eq!(api.get("A").unwrap().name, "a");
    assert_eq!(api.get("b").unwrap().name, "B");
}

#[test]
fn an_empty_prefix_completes_no_api_function() {
    let api = init(vec![f("a"), f("B")]);
    assert!(api.completions("", 5).is_empty());
    let names: Vec<String> = api.completions("b", 5).iter().map(|f| f.name.clone()).collect();
    assert_eq!(names, vec!["B".to_string()]);
}
