use skill_lsp::text::{
    char_index_at_byte, chars_of, is_escaped, line_comment_start, lines_of, split_whitespace, string_of,
    trim_chars,
};

fn lines(s: &str) -> Vec<String> {
    let cs = chars_of(s);
    lines_of(&cs).iter().map(|l| string_of(l)).collect()
}

#[test]
fn lines_match_std_lines() {
    for s in ["", "a", "a\n", "a\nb", "a\r\nb\r\n", "\n\n", "x\r", "x\ry\n", "\r\n", "  \n\t\n"] {
        let expected: Vec<String> = s.lines().map(|l| l.to_string()).collect();
        assert_eq!(lines(s), expected, "input {:?}", s);
    }
}

#[test]
fn trim_matches_std_trim() {
    for s in ["", "  a b  ", "\t\r\nx\u{a0}", "abc", "   "] {
        let cs = chars_of(s);
        assert_eq!(string_of(&trim_chars(&cs)), s.trim());
    }
}

#[test]
fn split_whitespace_matches_std() {
    for s in ["", "a", "  a  b\tc\n", "x y", "   "] {
        let cs = chars_of(s);
        let got: Vec<String> = split_whitespace(&cs).iter().map(|w| string_of(w)).collect();
        let expected: Vec<String> = s.split_whitespace().map(|w| w.to_string()).collect();
        assert_eq!(got, expected);
    }
}

#[test]
fn line_comment_start_outside_strings() {
    assert_eq!(line_comment_start(&chars_of("(a) ; c")), Some(4));
    assert_eq!(line_comment_start(&chars_of("\"a;b\" ; c")), Some(6));
    assert_eq!(line_comment_start(&chars_of("\"a\\\";b\"")), None);
    assert_eq!(line_comment_start(&chars_of("no comment")), None);
}

#[test]
fn escapes_count_backslash_runs() {
    let cs = chars_of("a\\\"b\\\\\"");
    assert!(is_escaped(&cs, 2));
    assert!(!is_escaped(&cs, 6));
}

#[test]
fn char_index_of_byte_offsets() {
    let cs = chars_of("aé京😀b");
    assert_eq!(char_index_at_byte(&cs, 0), Some(0));
    assert_eq!(char_index_at_byte(&cs, 1), Some(1));
    assert_eq!(char_index_at_byte(&cs, 2), None);
    assert_eq!(char_index_at_byte(&cs, 3), Some(2));
    assert_eq!(char_index_at_byte(&cs, 6), Some(3));
    assert_eq!(char_index_at_byte(&cs, 10), Some(4));
    assert_eq!(char_index_at_byte(&cs, 11), Some(5));
    assert_eq!(char_index_at_byte(&cs, 12), None);
}
