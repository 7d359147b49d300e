use skill_lsp::api::{init, ApiFunction};

fn f(name: &str, sig: &str, desc: &str) -> ApiFunction {
    ApiFunction {
        name: name.to_string(),
        signature: sig.to_string(),
        description: desc.to_string(),
        module: "db".to_string(),
        category: "Database".to_string(),
    }
}

fn sample() -> Vec<ApiFunction> {
    vec![
        f("dbOpenCellViewByType", "dbOpenCellViewByType(t_lib t_cell t_view)", "Opens a cellview."),
        f("dbClose", "dbClose(d_cellView)", ""),
        f("geGetEditCellView", "geGetEditCellView()", "Edit cellview."),
        f("DBCLOSE", "DBCLOSE()", "upper"),
        f("dbCreateRect", "dbCreateRect(...)", "Rect."),
    ]
}

#[test]
fn lookup_is_case_insensitive_and_last_wins() {
    let idx = init(sample());
    assert_eq!(idx.len(), 4);
    let g = idx.get("GEGETEDITCELLVIEW").unwrap();
    assert_eq!(g.name, "geGetEditCellView");
    let c = idx.get("dbclose").unwrap();
    assert_eq!(c.signature, "DBCLOSE()");
    assert!(idx.get("nothing").is_none());
}

#[test]
fn completions_by_prefix_sorted_and_capped() {
    let idx = init(sample());
    let names: Vec<&str> = idx.completions("DB", 10).iter().map(|f| f.name.as_str()).collect();
    assert_eq!(names, vec!["DBCLOSE", "dbCreateRect", "dbOpenCellViewByType"]);
    let two: Vec<&str> = idx.completions("db", 2).iter().map(|f| f.name.as_str()).collect();
    assert_eq!(two, vec!["DBCLOSE", "dbCreateRect"]);
    assert!(idx.completions("", 10).is_empty());
    assert!(idx.completions("zz", 10).is_empty());
    assert!(idx.completions("db", 0).is_empty());
}

#[test]
fn empty_index() {
    let idx = init(Vec::new());
    assert_eq!(idx.len(), 0);
    assert!(idx.get("car").is_none());
}
