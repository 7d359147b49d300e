//! The decisions of the language server's requests: what it offers, and
//! what it answers to highlight, rename, workspace symbol, code action and
//! the documentation-comment command.
use vstd::prelude::*;
use crate::document::{rope_line, rope_lines, rope_text, rope_to_string, word_range_at_position, word_range_in_line};
use crate::pattern::{compile, regex_valid};
use crate::protocol::{Position, Range, TextEdit};
use crate::symbols::{find_definition, occurrences, occurrences_in_text, regex_find_name};
use crate::table::{SymbolInformation, SymbolTable, info_models, matching, search_workspace_symbols, sorted_by_name};
use crate::text::{
    chars_of, is_word_char, lowercase, occurs_at, occurs_at_exec, split_whitespace, split_ws, string_of,
    string_of_range, trim, trim_chars, word_char,
};

verus! {

/// What the server offers the editor: its name and version, the requests
/// it answers, the characters that trigger completion and signature help,
/// and the commands it executes.
pub struct Capabilities {
    pub server_name: String,
    pub server_version: String,
    /// Open and close notifications, with the full text on every change.
    pub full_text_sync: bool,
    pub completion: bool,
    pub completion_resolve: bool,
    pub completion_triggers: Vec<String>,
    pub hover: bool,
    pub definition: bool,
    pub document_symbol: bool,
    pub references: bool,
    pub signature_help: bool,
    pub signature_triggers: Vec<String>,
    pub formatting: bool,
    pub rename: bool,
    pub prepare_rename: bool,
    pub document_highlight: bool,
    pub workspace_symbol: bool,
    pub code_action: bool,
    pub commands: Vec<String>,
}

/// The command that inserts a documentation comment above a definition.
pub open spec fn add_doc_comment_command() -> Seq<char> {
    "skill.addDocComment"@
}

/// The server's offer.
pub fn server_capabilities() -> (r: Capabilities)
    ensures
        r.server_name@ == "SKILL LSP"@,
        r.server_version@ == "0.1.0"@,
        r.full_text_sync && r.completion && r.completion_resolve && r.hover && r.definition,
        r.document_symbol && r.references && r.signature_help && r.formatting && r.rename,
        r.prepare_rename && r.document_highlight && r.workspace_symbol && r.code_action,
        r.completion_triggers@.map_values(|s: String| s@) == seq!["("@, " "@, "-"@],
        r.signature_triggers@.map_values(|s: String| s@) == seq!["("@, ","@],
        r.commands@.map_values(|s: String| s@) == seq![add_doc_comment_command()],
{
    let r = Capabilities {
        server_name: String::from_str("SKILL LSP"),
        server_version: String::from_str("0.1.0"),
        full_text_sync: true,
        completion: true,
        completion_resolve: true,
        completion_triggers: vec![String::from_str("("), String::from_str(" "), String::from_str("-")],
        hover: true,
        definition: true,
        document_symbol: true,
        references: true,
        signature_help: true,
        signature_triggers: vec![String::from_str("("), String::from_str(",")],
        formatting: true,
        rename: true,
        prepare_rename: true,
        document_highlight: true,
        workspace_symbol: true,
        code_action: true,
        commands: vec![String::from_str("skill.addDocComment")],
    };
    assert(r.completion_triggers@.map_values(|s: String| s@) =~= seq!["("@, " "@, "-"@]);
    assert(r.signature_triggers@.map_values(|s: String| s@) =~= seq!["("@, ","@]);
    assert(r.commands@.map_values(|s: String| s@) =~= seq![add_doc_comment_command()]);
    r
}

/// Whether `command` is the documentation-comment command.
pub fn is_add_doc_comment(command: &str) -> (r: bool)
    ensures
        r == (command@ == add_doc_comment_command()),
{
    let c = String::from_str(command);
    let k = String::from_str("skill.addDocComment");
    c == k
}

/// The word under the cursor, if any: the line's text in the word's range.
pub open spec fn word_at(text: Seq<char>, position: Position) -> Option<Seq<char>> {
    let line = rope_lines(text)[position.line as int];
    match word_range_in_line(line, position.character) {
        Some((s, e)) => Some(line.subrange(s, e)),
        None => None,
    }
}

/// The highlights of the word under the cursor: its whole-word occurrences
/// in the document, or nothing when there is no word or no occurrence.
pub open spec fn highlights(text: Seq<char>, position: Position) -> Option<Seq<Range>> {
    match word_at(text, position) {
        Some(w) => if occurrences(text, w).len() == 0 {
            None
        } else {
            Some(occurrences(text, w))
        },
        None => None,
    }
}

/// The ranges to highlight for the cursor's position.
pub fn document_highlight(rope: &ropey::Rope, position: Position) -> (r: Option<Vec<Range>>)
    requires
        (position.line as int) < rope_lines(rope_text(*rope)).len(),
    ensures
        match highlights(rope_text(*rope), position) {
            Some(rs) => r is Some && r->0@ == rs,
            None => r is None,
        },
{
    match word_range_at_position(rope, position) {
        Some((s, e, line)) => {
            proof {
                crate::document::lemma_word_bounds(line@, crate::document::clamp_column(line@, position.character));
            }
            let word = string_of_range(line.as_slice(), s, e);
            let text = rope_to_string(rope);
            let ranges = occurrences_in_text(text.as_str(), word.as_str());
            if ranges.len() == 0 {
                None
            } else {
                Some(ranges)
            }
        },
        None => None,
    }
}

/// Prepares a rename: the range of the word under the cursor on its line,
/// and the word as the placeholder.
pub fn prepare_rename(rope: &ropey::Rope, position: Position) -> (r: Option<(Range, String)>)
    requires
        (position.line as int) < rope_lines(rope_text(*rope)).len(),
    ensures
        match word_range_in_line(rope_lines(rope_text(*rope))[position.line as int], position.character) {
            Some((s, e)) => match r {
                Some((range, word)) => range == (Range {
                    start: Position { line: position.line, character: s as u32 },
                    end: Position { line: position.line, character: e as u32 },
                }) && word@ == rope_lines(rope_text(*rope))[position.line as int].subrange(s, e),
                None => false,
            },
            None => r is None,
        },
{
    match word_range_at_position(rope, position) {
        Some((s, e, line)) => {
            proof {
                crate::document::lemma_word_bounds(line@, crate::document::clamp_column(line@, position.character));
            }
            let word = string_of_range(line.as_slice(), s, e);
            let range = Range {
                start: Position { line: position.line, character: s as u32 },
                end: Position { line: position.line, character: e as u32 },
            };
            Some((range, word))
        },
        None => None,
    }
}

/// A valid SKILL symbol name: not empty, symbol characters only.
pub open spec fn valid_symbol_name(name: Seq<char>) -> bool {
    name.len() > 0 && forall|i: int| 0 <= i < name.len() ==> word_char(#[trigger] name[i])
}

/// Whether `name` is a valid SKILL symbol name.
pub fn is_valid_symbol_name(name: &str) -> (r: bool)
    ensures
        r == valid_symbol_name(name@),
{
    let cs = chars_of(name);
    if cs.len() == 0 {
        return false;
    }
    let mut i: usize = 0;
    while i < cs.len()
        invariant
            i <= cs@.len(),
            cs@ == name@,
            forall|k: int| 0 <= k < i ==> word_char(#[trigger] cs@[k]),
        decreases cs.len() - i,
    {
        if !is_word_char(cs[i]) {
            return false;
        }
        i = i + 1;
    }
    true
}

/// The edits of a rename: for a valid new name, every whole-word
/// occurrence of the word under the cursor replaced by it; nothing when
/// the name is invalid, there is no word, or it has no occurrence.
pub open spec fn rename_edits(text: Seq<char>, position: Position, new_name: Seq<char>) -> Option<Seq<Range>> {
    if !valid_symbol_name(new_name) {
        None
    } else {
        highlights(text, position)
    }
}

/// Renames the word under the cursor in its document.
pub fn rename(rope: &ropey::Rope, position: Position, new_name: &str) -> (r: Option<Vec<TextEdit>>)
    requires
        valid_symbol_name(new_name@) ==> (position.line as int) < rope_lines(rope_text(*rope)).len(),
    ensures
        match rename_edits(rope_text(*rope), position, new_name@) {
            Some(rs) => r is Some && r->0@.len() == rs.len() && forall|k: int| #![trigger r->0@[k]] 0 <= k < rs.len()
                ==> r->0@[k].range == rs[k] && r->0@[k].new_text@ == new_name@,
            None => r is None,
        },
{
    if !is_valid_symbol_name(new_name) {
        return None;
    }
    let ranges = match document_highlight(rope, position) {
        Some(rs) => rs,
        None => return None,
    };
    let mut edits: Vec<TextEdit> = Vec::new();
    let mut k: usize = 0;
    while k < ranges.len()
        invariant
            k <= ranges@.len(),
            edits@.len() == k,
            forall|j: int| #![trigger edits@[j]] 0 <= j < k ==> edits@[j].range == ranges@[j] && edits@[j].new_text@
                == new_name@,
        decreases ranges.len() - k,
    {
        let t = String::from_str(new_name);
        let ghost before = edits@;
        edits.push(TextEdit { range: ranges[k], new_text: t });
        assert(forall|j: int| 0 <= j < k ==> edits@[j] == before[j]);
        k = k + 1;
    }
    Some(edits)
}

/// The answer to a workspace symbol query: the matching symbols sorted by
/// name, or nothing when none matches.
pub fn workspace_symbols(table: &SymbolTable, query: &str) -> (r: Option<Vec<SymbolInformation>>)
    ensures
        match r {
            Some(v) => v@.len() > 0 && sorted_by_name(info_models(v@)) && info_models(v@).to_multiset() == matching(
                table@,
                lowercase(query@),
                table@.len() as int,
            ).to_multiset(),
            None => matching(table@, lowercase(query@), table@.len() as int).len() == 0,
        },
{
    let v = search_workspace_symbols(table, query);
    if v.len() == 0 {
        proof {
            let m = matching(table@, lowercase(query@), table@.len() as int);
            info_models(v@).to_multiset_ensures();
            m.to_multiset_ensures();
        }
        None
    } else {
        Some(v)
    }
}

/// `(defun`
pub open spec fn defun_opening() -> Seq<char> {
    seq!['(', 'd', 'e', 'f', 'u', 'n']
}

/// `(procedure`
pub open spec fn procedure_opening() -> Seq<char> {
    seq!['(', 'p', 'r', 'o', 'c', 'e', 'd', 'u', 'r', 'e']
}

/// A line offers the documentation-comment action when, trimmed, it starts
/// a definition.
pub open spec fn offers_doc_action(line: Seq<char>) -> bool {
    occurs_at(trim(line), defun_opening(), 0) || occurs_at(trim(line), procedure_opening(), 0)
}

/// Whether line `line` of the document offers the documentation-comment action.
pub fn code_action_applies(rope: &ropey::Rope, line: u32) -> (r: bool)
    requires
        (line as int) < rope_lines(rope_text(*rope)).len(),
    ensures
        r == offers_doc_action(rope_lines(rope_text(*rope))[line as int]),
{
    let text = rope_line(rope, line as usize);
    let t = trim_chars(text.as_slice());
    let d: Vec<char> = vec!['(', 'd', 'e', 'f', 'u', 'n'];
    let p: Vec<char> = vec!['(', 'p', 'r', 'o', 'c', 'e', 'd', 'u', 'r', 'e'];
    assert(d@ =~= defun_opening());
    assert(p@ =~= procedure_opening());
    occurs_at_exec(t.as_slice(), d.as_slice(), 0) || occurs_at_exec(t.as_slice(), p.as_slice(), 0)
}

/// The pattern of a definition whose name is a plain word.
pub open spec fn doc_comment_pattern() -> Seq<char> {
    "\\((?:defun|procedure)\\s+(\\w+)\\s*\\(([^)]*)\\)"@
}

/// One `@param` line per parameter.
pub open spec fn param_lines(ps: Seq<Seq<char>>) -> Seq<char>
    decreases ps.len(),
{
    if ps.len() == 0 {
        Seq::empty()
    } else {
        param_lines(ps.drop_last()) + ";;; @param "@ + ps.last() + " \n"@
    }
}

/// The documentation comment of a definition: `@function` with its name,
/// an empty `@description`, a `@param` line per parameter when the
/// parameter text is not empty, and `@return`.
pub open spec fn doc_comment_text(name: Seq<char>, params: Seq<char>) -> Seq<char> {
    if params.len() == 0 {
        ";;;\n;;; @function "@ + name + "\n;;; @description \n;;; @return\n"@
    } else {
        ";;;\n;;; @function "@ + name + "\n;;; @description \n"@ + param_lines(split_ws(params))
            + ";;; @return\n"@
    }
}

/// The text inserted above a definition line, if the line holds a definition.
pub open spec fn doc_comment_insert(line: Seq<char>) -> Option<Seq<char>> {
    if !regex_valid(doc_comment_pattern()) {
        None
    } else {
        match find_definition(doc_comment_pattern(), line) {
            Some((name, params, _)) => Some(doc_comment_text(name, params) + "\n"@),
            None => None,
        }
    }
}

/// The edit that inserts a documentation comment above line `line`, if
/// that line holds a definition.
pub fn add_documentation_comment(rope: &ropey::Rope, line: u32) -> (r: Option<TextEdit>)
    requires
        (line as int) < rope_lines(rope_text(*rope)).len(),
    ensures
        match doc_comment_insert(rope_lines(rope_text(*rope))[line as int]) {
            Some(t) => r is Some && r->0.new_text@ == t && r->0.range == (Range {
                start: Position { line, character: 0 },
                end: Position { line, character: 0 },
            }),
            None => r is None,
        },
{
    let re = match compile("\\((?:defun|procedure)\\s+(\\w+)\\s*\\(([^)]*)\\)") {
        Some(re) => re,
        None => return None,
    };
    let text = rope_line(rope, line as usize);
    let (name, params, _) = match regex_find_name(&re, text.as_slice()) {
        Some(found) => found,
        None => return None,
    };
    let name_s = string_of(name.as_slice());
    let mut comment = String::from_str(";;;\n;;; @function ");
    comment.append(name_s.as_str());
    if params.len() == 0 {
        comment.append("\n;;; @description \n;;; @return\n");
    } else {
        comment.append("\n;;; @description \n");
        let words = split_whitespace(params.as_slice());
        let ghost ws = words.deep_view();
        let ghost head = comment@;
        let mut k: usize = 0;
        while k < words.len()
            invariant
                k <= words@.len(),
                ws == words.deep_view(),
                comment@ == head + param_lines(ws.take(k as int)),
            decreases words.len() - k,
        {
            let w = &words[k];
            proof {
                crate::text::lemma_chars_deep_view(w);
            }
            let ws_k = string_of(w.as_slice());
            comment.append(";;; @param ");
            comment.append(ws_k.as_str());
            comment.append(" \n");
            k = k + 1;
            assert(ws.take(k as int).drop_last() =~= ws.take(k - 1));
            assert(comment@ =~= head + param_lines(ws.take(k as int)));
        }
        assert(ws.take(ws.len() as int) =~= ws);
        comment.append(";;; @return\n");
    }
    comment.append("\n");
    assert(comment@ =~= doc_comment_text(name@, params@) + "\n"@);
    Some(TextEdit {
        range: Range { start: Position { line, character: 0 }, end: Position { line, character: 0 } },
        new_text: comment,
    })
}

} // verus!
