//! Function definitions of SKILL source (`(defun NAME (PARAMS) ..)` and
//! `(procedure NAME (PARAMS) ..)`), their documentation comments, and the
//! whole-word occurrences of a symbol.
use vstd::prelude::*;
use crate::pattern::{Pattern, captures, compile, regex_captures, regex_valid};
use crate::protocol::{Location, Range, make_span, span};
use crate::text::{
    chars_of, char_index_at_byte, char_index_of_byte, code_end, code_end_of, copy_range,
    lemma_chars_deep_view, lemma_comment_from, lemma_split_lines_bounds, lines_of,
    occurs_at, occurs_at_exec, push_char, push_chars, split_lines, split_whitespace, split_ws,
    string_of, trim, trim_chars, is_word_char, word_char,
};

verus! {

/// The kind of a symbol.
#[derive(Clone, Copy, Debug, PartialEq, Eq, Structural)]
pub enum SymbolKind {
    Function,
    Variable,
    Class,
    Method,
    Property,
}

/// A symbol defined in a document.
#[derive(Debug)]
pub struct SymbolInfo {
    pub name: String,
    pub kind: SymbolKind,
    pub location: Location,
    pub documentation: Option<String>,
    pub parameters: Option<Vec<String>>,
    pub return_type: Option<String>,
}

/// The plain value of a symbol.
pub struct SymbolModel {
    pub name: Seq<char>,
    pub kind: SymbolKind,
    pub uri: Seq<char>,
    pub range: Range,
    pub documentation: Option<Seq<char>>,
    pub parameters: Option<Seq<Seq<char>>>,
    pub return_type: Option<Seq<char>>,
}

/// The characters of an optional string.
pub open spec fn opt_chars(o: Option<String>) -> Option<Seq<char>> {
    match o {
        Some(s) => Some(s@),
        None => None,
    }
}

/// The characters of each string of a list.
pub open spec fn strings_view(v: Seq<String>) -> Seq<Seq<char>> {
    v.map_values(|s: String| s@)
}

/// The characters of each of an optional list of strings.
pub open spec fn opt_words(o: Option<Vec<String>>) -> Option<Seq<Seq<char>>> {
    match o {
        Some(v) => Some(strings_view(v@)),
        None => None,
    }
}

impl View for SymbolInfo {
    type V = SymbolModel;

    open spec fn view(&self) -> SymbolModel {
        SymbolModel {
            name: self.name@,
            kind: self.kind,
            uri: self.location.uri@,
            range: self.location.range,
            documentation: opt_chars(self.documentation),
            parameters: opt_words(self.parameters),
            return_type: opt_chars(self.return_type),
        }
    }
}

/// Copies an optional string.
fn clone_opt_string(o: &Option<String>) -> (r: Option<String>)
    ensures
        opt_chars(r) == opt_chars(*o),
{
    match o {
        Some(s) => Some(s.clone()),
        None => None,
    }
}

/// Copies a list of strings.
pub fn clone_strings(v: &Vec<String>) -> (r: Vec<String>)
    ensures
        strings_view(r@) == strings_view(v@),
{
    let mut out: Vec<String> = Vec::new();
    let mut i: usize = 0;
    while i < v.len()
        invariant
            i <= v@.len(),
            strings_view(out@) == strings_view(v@).take(i as int),
        decreases v.len() - i,
    {
        let c = v[i].clone();
        let ghost before = out@;
        out.push(c);
        assert(out@ == before.push(c));
        assert(strings_view(out@) =~= strings_view(before).push(c@));
        i = i + 1;
        assert(strings_view(out@) =~= strings_view(v@).take(i as int));
    }
    assert(strings_view(v@).take(v@.len() as int) =~= strings_view(v@));
    out
}

impl SymbolInfo {
    /// A copy of this symbol.
    pub fn duplicate(&self) -> (r: SymbolInfo)
        ensures
            r@ == self@,
    {
        SymbolInfo {
            name: self.name.clone(),
            kind: self.kind,
            location: Location { uri: self.location.uri.clone(), range: self.location.range },
            documentation: clone_opt_string(&self.documentation),
            parameters: match &self.parameters {
                Some(v) => Some(clone_strings(v)),
                None => None,
            },
            return_type: clone_opt_string(&self.return_type),
        }
    }
}

// ---------------------------------------------------------------------------
// Finding a definition on a line
// ---------------------------------------------------------------------------

/// The pattern of a definition: `(defun` or `(procedure`, white space, the
/// name, optional white space, and the parameter list in parentheses.
pub open spec fn defun_pattern() -> Seq<char> {
    "\\((?:defun|procedure)\\s+([\\w?!-]+)\\s*\\(([^)]*)\\)"@
}

/// The text and starting column of capture group `g`, when the group took
/// part in the match and its byte span falls on character boundaries.
pub open spec fn group_text(text: Seq<char>, groups: Seq<Option<(usize, usize)>>, g: int) -> Option<(Seq<char>, int)> {
    if 0 <= g < groups.len() {
        match groups[g] {
            Some((bs, be)) => match (char_index_of_byte(text, bs as int), char_index_of_byte(text, be as int)) {
                (Some(cs), Some(ce)) => if cs <= ce {
                    Some((text.subrange(cs, ce), cs))
                } else {
                    None
                },
                _ => None,
            },
            None => None,
        }
    } else {
        None
    }
}

/// The definition that `pattern` finds in `text`: the name (group 1), the
/// parameter text (group 2, or empty), and the column where the name starts.
pub open spec fn find_definition(pattern: Seq<char>, text: Seq<char>) -> Option<(Seq<char>, Seq<char>, int)> {
    match regex_captures(pattern, text) {
        None => None,
        Some(groups) => match group_text(text, groups, 1) {
            None => None,
            Some((name, ns)) => Some(
                (
                    name,
                    match group_text(text, groups, 2) {
                        Some((params, _)) => params,
                        None => Seq::empty(),
                    },
                    ns,
                ),
            ),
        },
    }
}

/// The text and start column of group `g` of a match against `text`.
pub(crate) fn group_text_exec(text: &[char], groups: &Vec<Option<(usize, usize)>>, g: usize) -> (r: Option<(Vec<char>, usize)>)
    ensures
        match r {
            Some((t, s)) => group_text(text@, groups@, g as int) == Some((t@, s as int)) && s
                + t@.len() <= text@.len(),
            None => group_text(text@, groups@, g as int) is None,
        },
{
    if g >= groups.len() {
        return None;
    }
    match groups[g] {
        None => None,
        Some((bs, be)) => {
            let cs = char_index_at_byte(text, bs);
            let ce = char_index_at_byte(text, be);
            match (cs, ce) {
                (Some(cs), Some(ce)) => {
                    if cs <= ce {
                        Some((copy_range(text, cs, ce), cs))
                    } else {
                        None
                    }
                },
                _ => None,
            }
        },
    }
}

/// Finds a definition in `text` with the compiled pattern: name, parameter
/// text and the column of the name.
pub fn regex_find_name(re: &Pattern, text: &[char]) -> (r: Option<(Vec<char>, Vec<char>, usize)>)
    ensures
        match r {
            Some((n, p, s)) => find_definition(re.source(), text@) == Some((n@, p@, s as int)) && s
                + n@.len() <= text@.len(),
            None => find_definition(re.source(), text@) is None,
        },
{
    let hay = string_of(text);
    match captures(re, hay.as_str()) {
        None => None,
        Some(groups) => match group_text_exec(text, &groups, 1) {
            None => None,
            Some((name, ns)) => {
                let params = match group_text_exec(text, &groups, 2) {
                    Some((p, _)) => p,
                    None => Vec::new(),
                };
                assert(params@ == match group_text(text@, groups@, 2) {
                    Some((params, _)) => params,
                    None => Seq::<char>::empty(),
                });
                Some((name, params, ns))
            },
        },
    }
}

// ---------------------------------------------------------------------------
// Documentation comments
// ---------------------------------------------------------------------------

/// Whether `t` starts with `n` semicolons.
pub open spec fn starts_with_semis(t: Seq<char>, n: int) -> bool {
    t.len() >= n && forall|k: int| 0 <= k < n ==> t[k] == ';'
}

/// The first index at or after `i` that does not hold a `;`.
pub open spec fn semis_end(t: Seq<char>, i: int) -> int
    decreases t.len() - i,
{
    if i < 0 || i >= t.len() {
        if i < 0 { 0 } else { t.len() as int }
    } else if t[i] != ';' {
        i
    } else {
        semis_end(t, i + 1)
    }
}

/// The documentation entries found walking up from line `cur`: a trimmed
/// line that starts with `;;;` contributes its text after the semicolons,
/// trimmed, when that starts with `@`; other comment lines are passed over;
/// any other line ends the walk. Entries are listed nearest first.
pub open spec fn doc_entries(lines: Seq<Seq<char>>, cur: int) -> Seq<Seq<char>>
    decreases cur + 1,
{
    if cur < 0 || cur >= lines.len() {
        Seq::empty()
    } else {
        let t = trim(lines[cur]);
        if starts_with_semis(t, 3) {
            let tt = trim(t.skip(semis_end(t, 0)));
            (if tt.len() > 0 && tt[0] == '@' {
                seq![tt]
            } else {
                Seq::empty()
            }) + doc_entries(lines, cur - 1)
        } else if starts_with_semis(t, 1) {
            doc_entries(lines, cur - 1)
        } else {
            Seq::empty()
        }
    }
}

/// The entries joined by line feeds.
pub open spec fn join_lines(d: Seq<Seq<char>>) -> Seq<char>
    decreases d.len(),
{
    if d.len() == 0 {
        Seq::empty()
    } else if d.len() == 1 {
        d[0]
    } else {
        join_lines(d.drop_last()) + seq!['\n'] + d.last()
    }
}

/// The documentation of the definition on line `ln`: its `@` entries from
/// the comment lines right above it, top to bottom, joined by line feeds.
pub open spec fn preceding_comment(lines: Seq<Seq<char>>, ln: int) -> Option<Seq<char>> {
    if ln <= 0 {
        None
    } else {
        let d = doc_entries(lines, ln - 1);
        if d.len() == 0 {
            None
        } else {
            Some(join_lines(d.reverse()))
        }
    }
}

fn starts_with_semis_exec(t: &[char], n: usize) -> (r: bool)
    ensures
        r == starts_with_semis(t@, n as int),
{
    if t.len() < n {
        return false;
    }
    let mut k: usize = 0;
    while k < n
        invariant
            k <= n <= t@.len(),
            forall|j: int| 0 <= j < k ==> t@[j] == ';',
        decreases n - k,
    {
        if t[k] != ';' {
            return false;
        }
        k = k + 1;
    }
    true
}

fn join_reversed(d: &Vec<Vec<char>>) -> (r: String)
    requires
        d@.len() > 0,
    ensures
        r@ == join_lines(d.deep_view().reverse()),
{
    let ghost dv = d.deep_view();
    let n = d.len();
    let mut out = String::new();
    let mut k: usize = 0;
    while k < n
        invariant
            n == d@.len(),
            dv == d.deep_view(),
            k <= n,
            out@ == join_lines(dv.reverse().take(k as int)),
        decreases n - k,
    {
        let item = &d[n - 1 - k];
        proof {
            lemma_chars_deep_view(item);
        }
        assert(dv.reverse()[k as int] == item@);
        let ghost before = out@;
        if k > 0 {
            push_char(&mut out, '\n');
        }
        push_chars(&mut out, item.as_slice());
        k = k + 1;
        assert(dv.reverse().take(k as int).drop_last() =~= dv.reverse().take(k - 1));
        if k == 1 {
            assert(dv.reverse().take(1) =~= seq![item@]);
        }
    }
    assert(dv.reverse().take(n as int) =~= dv.reverse());
    out
}

/// The documentation comment above line `line_num`, if any.
fn extract_preceding_comment(lines: &Vec<Vec<char>>, line_num: usize) -> (r: Option<String>)
    requires
        line_num <= lines@.len(),
    ensures
        opt_chars(r) == preceding_comment(lines.deep_view(), line_num as int),
{
    let ghost ls = lines.deep_view();
    if line_num == 0 {
        return None;
    }
    let mut found: Vec<Vec<char>> = Vec::new();
    let mut cur: usize = line_num - 1;
    loop
        invariant_except_break
            ls == lines.deep_view(),
            cur < lines@.len(),
            line_num <= lines@.len(),
            doc_entries(ls, line_num - 1) == found.deep_view() + doc_entries(ls, cur as int),
        ensures
            doc_entries(ls, line_num - 1) == found.deep_view(),
        decreases cur,
    {
        let line = &lines[cur];
        proof {
            lemma_chars_deep_view(line);
        }
        assert(ls[cur as int] == line@);
        let t = trim_chars(line.as_slice());
        let ghost before = found.deep_view();
        if starts_with_semis_exec(t.as_slice(), 3) {
            let mut a: usize = 0;
            while a < t.len() && t[a] == ';'
                invariant
                    a <= t@.len(),
                    semis_end(t@, 0) == semis_end(t@, a as int),
                decreases t.len() - a,
            {
                a = a + 1;
            }
            let rest = copy_range(t.as_slice(), a, t.len());
            assert(rest@ =~= t@.skip(semis_end(t@, 0)));
            let tt = trim_chars(rest.as_slice());
            if tt.len() > 0 && tt[0] == '@' {
                proof {
                    lemma_chars_deep_view(&tt);
                }
                found.push(tt);
                assert(found.deep_view() =~= before + seq![tt@]);
                assert(doc_entries(ls, cur as int) == seq![tt@] + doc_entries(ls, cur - 1));
            } else {
                assert(doc_entries(ls, cur as int) == doc_entries(ls, cur - 1));
            }
            assert(doc_entries(ls, line_num - 1) =~= found.deep_view() + doc_entries(ls, cur - 1));
        } else if starts_with_semis_exec(t.as_slice(), 1) {
            assert(doc_entries(ls, cur as int) == doc_entries(ls, cur - 1));
        } else {
            assert(doc_entries(ls, cur as int) == Seq::<Seq<char>>::empty());
            assert(found.deep_view() + doc_entries(ls, cur as int) =~= found.deep_view());
            break;
        }
        if cur == 0 {
            assert(doc_entries(ls, -1) == Seq::<Seq<char>>::empty());
            assert(found.deep_view() + doc_entries(ls, -1) =~= found.deep_view());
            break;
        }
        cur = cur - 1;
    }
    if found.len() == 0 {
        None
    } else {
        Some(join_reversed(&found))
    }
}

// ---------------------------------------------------------------------------
// Extracting the symbols of a document
// ---------------------------------------------------------------------------

/// The parameters of a definition: `None` for a blank parameter text, else
/// its white-space separated words.
pub open spec fn params_of(params: Seq<char>) -> Option<Seq<Seq<char>>> {
    if trim(params).len() == 0 {
        None
    } else {
        Some(split_ws(params))
    }
}

/// The symbol defined on line `ln`, if any. A line with a comment holds a
/// definition only if the code before the comment matches by itself; the
/// definition is then read from the whole line.
pub open spec fn symbol_of_line(pattern: Seq<char>, uri: Seq<char>, lines: Seq<Seq<char>>, ln: int) -> Option<SymbolModel> {
    let line = lines[ln];
    let ce = code_end(line);
    if ce < line.len() && find_definition(pattern, line.take(ce)) is None {
        None
    } else {
        match find_definition(pattern, line) {
            None => None,
            Some((name, params, ns)) => Some(
                SymbolModel {
                    name,
                    kind: SymbolKind::Function,
                    uri,
                    range: span(ln, ns, ns + name.len()),
                    documentation: preceding_comment(lines, ln),
                    parameters: params_of(params),
                    return_type: None,
                },
            ),
        }
    }
}

/// The symbols of the first `k` lines, in line order.
pub open spec fn symbols_upto(pattern: Seq<char>, uri: Seq<char>, lines: Seq<Seq<char>>, k: int) -> Seq<SymbolModel>
    decreases k,
{
    if k <= 0 {
        Seq::empty()
    } else {
        symbols_upto(pattern, uri, lines, k - 1) + match symbol_of_line(pattern, uri, lines, k - 1) {
            Some(s) => seq![s],
            None => Seq::empty(),
        }
    }
}

/// The symbols that a document defines, in line order (none when the
/// definition pattern would not compile).
pub open spec fn symbols_of(content: Seq<char>, uri: Seq<char>) -> Seq<SymbolModel> {
    if regex_valid(defun_pattern()) {
        symbols_upto(defun_pattern(), uri, split_lines(content), split_lines(content).len() as int)
    } else {
        Seq::empty()
    }
}

/// The views of a list of symbols.
pub open spec fn symbol_models(v: Seq<SymbolInfo>) -> Seq<SymbolModel> {
    v.map_values(|s: SymbolInfo| s@)
}

fn strings_of_words(words: &Vec<Vec<char>>) -> (r: Vec<String>)
    ensures
        strings_view(r@) == words.deep_view(),
{
    let mut out: Vec<String> = Vec::new();
    let mut i: usize = 0;
    while i < words.len()
        invariant
            i <= words@.len(),
            strings_view(out@) == words.deep_view().take(i as int),
        decreases words.len() - i,
    {
        let w = &words[i];
        proof {
            lemma_chars_deep_view(w);
        }
        let c = string_of(w.as_slice());
        let ghost before = out@;
        out.push(c);
        assert(strings_view(out@) =~= strings_view(before).push(c@));
        assert(words.deep_view()[i as int] == w@);
        i = i + 1;
        assert(strings_view(out@) =~= words.deep_view().take(i as int));
    }
    assert(words.deep_view().take(words@.len() as int) =~= words.deep_view());
    out
}

/// The function definitions of a document, each with its name, location,
/// documentation comment and parameters.
pub fn extract_symbols(content: &str, uri: &str) -> (r: Vec<SymbolInfo>)
    ensures
        symbol_models(r@) == symbols_of(content@, uri@),
{
    let mut symbols: Vec<SymbolInfo> = Vec::new();
    let re = match compile("\\((?:defun|procedure)\\s+([\\w?!-]+)\\s*\\(([^)]*)\\)") {
        Some(re) => re,
        None => {
            assert(symbol_models(symbols@) =~= Seq::<SymbolModel>::empty());
            return symbols;
        },
    };
    let chars = chars_of(content);
    let lines = lines_of(chars.as_slice());
    let ghost ls = lines.deep_view();
    let ghost pat = re.source();
    proof {
        lemma_split_lines_bounds(content@);
    }
    let mut ln: usize = 0;
    while ln < lines.len()
        invariant
            ln <= lines@.len(),
            ls == lines.deep_view(),
            ls == split_lines(content@),
            pat == re.source(),
            pat == defun_pattern(),
            regex_valid(defun_pattern()),
            symbol_models(symbols@) == symbols_upto(pat, uri@, ls, ln as int),
        decreases lines.len() - ln,
    {
        let line = &lines[ln];
        proof {
            lemma_chars_deep_view(line);
        }
        assert(ls[ln as int] == line@);
        let ghost before = symbols@;
        let ce = code_end_of(line.as_slice());
        proof {
            lemma_comment_from(line@, 0);
        }
        let mut skip = false;
        if ce < line.len() {
            let code = copy_range(line.as_slice(), 0, ce);
            assert(code@ =~= line@.take(ce as int));
            if regex_find_name(&re, code.as_slice()).is_none() {
                skip = true;
            }
        }
        if !skip {
            match regex_find_name(&re, line.as_slice()) {
                None => {},
                Some((name, params, ns)) => {
                    let trimmed = trim_chars(params.as_slice());
                    let parameters = if trimmed.len() == 0 {
                        None
                    } else {
                        let words = split_whitespace(params.as_slice());
                        Some(strings_of_words(&words))
                    };
                    let end = ns + name.len();
                    let documentation = extract_preceding_comment(&lines, ln);
                    let sym = SymbolInfo {
                        name: string_of(name.as_slice()),
                        kind: SymbolKind::Function,
                        location: Location { uri: String::from_str(uri), range: make_span(ln, ns, end) },
                        documentation,
                        parameters,
                        return_type: None,
                    };
                    symbols.push(sym);
                },
            }
        }
        ln = ln + 1;
        assert(symbol_models(symbols@) =~= symbols_upto(pat, uri@, ls, ln as int));
    }
    symbols
}

// ---------------------------------------------------------------------------
// Whole-word occurrences
// ---------------------------------------------------------------------------

/// `w` stands at `i` of `line` as a whole symbol: no symbol character just
/// before or just after it.
pub open spec fn whole_word_at(line: Seq<char>, w: Seq<char>, i: int) -> bool {
    &&& occurs_at(line, w, i)
    &&& (i == 0 || !word_char(line[i - 1]))
    &&& (i + w.len() == line.len() || !word_char(line[i + w.len()]))
}

/// The ranges of the whole-word occurrences of `w` on line `ln` that start
/// before column `n`, left to right.
pub open spec fn line_occurrences(ln: int, line: Seq<char>, w: Seq<char>, n: int) -> Seq<Range>
    decreases n,
{
    if n <= 0 {
        Seq::empty()
    } else {
        line_occurrences(ln, line, w, n - 1) + if whole_word_at(line, w, n - 1) {
            seq![span(ln, n - 1, n - 1 + w.len())]
        } else {
            Seq::empty()
        }
    }
}

/// The whole-word occurrences of `w` on the first `k` lines, in text order.
pub open spec fn occurrences_upto(lines: Seq<Seq<char>>, w: Seq<char>, k: int) -> Seq<Range>
    decreases k,
{
    if k <= 0 {
        Seq::empty()
    } else {
        occurrences_upto(lines, w, k - 1) + line_occurrences(k - 1, lines[k - 1], w, lines[k - 1].len() + 1int)
    }
}

/// The whole-word occurrences of `w` in `text`, in text order; none for an
/// empty word.
pub open spec fn occurrences(text: Seq<char>, w: Seq<char>) -> Seq<Range> {
    if w.len() == 0 {
        Seq::empty()
    } else {
        occurrences_upto(split_lines(text), w, split_lines(text).len() as int)
    }
}

/// All word-boundary occurrences of `word` in `text`, as character ranges.
pub fn occurrences_in_text(text: &str, word: &str) -> (r: Vec<Range>)
    ensures
        r@ == occurrences(text@, word@),
{
    let mut ranges: Vec<Range> = Vec::new();
    let needle = chars_of(word);
    if needle.len() == 0 {
        return ranges;
    }
    let chars = chars_of(text);
    let lines = lines_of(chars.as_slice());
    let ghost ls = lines.deep_view();
    let mut ln: usize = 0;
    while ln < lines.len()
        invariant
            ln <= lines@.len(),
            ls == lines.deep_view(),
            needle@ == word@,
            needle@.len() > 0,
            ranges@ == occurrences_upto(ls, needle@, ln as int),
        decreases lines.len() - ln,
    {
        let line = &lines[ln];
        proof {
            lemma_chars_deep_view(line);
        }
        assert(ls[ln as int] == line@);
        let ghost start = ranges@;
        let n = line.len();
        let mut i: usize = 0;
        while i < n
            invariant
                i <= n,
                n == line@.len(),
                needle@.len() > 0,
                ranges@ == start + line_occurrences(ln as int, line@, needle@, i as int),
            decreases n - i,
        {
            if occurs_at_exec(line.as_slice(), needle.as_slice(), i) {
                let end = i + needle.len();
                let before_ok = i == 0 || !is_word_char(line[i - 1]);
                let after_ok = end == n || !is_word_char(line[end]);
                if before_ok && after_ok {
                    ranges.push(make_span(ln, i, end));
                }
            }
            i = i + 1;
        }
        assert(!whole_word_at(line@, needle@, n as int));
        assert(line_occurrences(ln as int, line@, needle@, n + 1int) =~= line_occurrences(
            ln as int,
            line@,
            needle@,
            n as int,
        ));
        ln = ln + 1;
        assert(ranges@ =~= occurrences_upto(ls, needle@, ln as int));
    }
    ranges
}

/// The locations in document `uri` of the whole-word occurrences of `word`.
pub fn references_in(uri: &str, text: &str, word: &str) -> (r: Vec<Location>)
    ensures
        r@.len() == occurrences(text@, word@).len(),
        forall|k: int| #![trigger r@[k]] 0 <= k < r@.len() ==> r@[k].uri@ == uri@ && r@[k].range == occurrences(text@, word@)[k],
{
    let ranges = occurrences_in_text(text, word);
    let mut out: Vec<Location> = Vec::new();
    let mut k: usize = 0;
    while k < ranges.len()
        invariant
            k <= ranges@.len(),
            out@.len() == k,
            forall|j: int| #![trigger out@[j]] 0 <= j < k ==> out@[j].uri@ == uri@ && out@[j].range == ranges@[j],
        decreases ranges.len() - k,
    {
        let u = String::from_str(uri);
        let ghost before = out@;
        out.push(Location { uri: u, range: ranges[k] });
        assert(forall|j: int| 0 <= j < k ==> out@[j] == before[j]);
        assert(out@[k as int].uri@ == uri@);
        k = k + 1;
    }
    out
}

/// A location as a document name and a range.
pub open spec fn location_model(l: Location) -> (Seq<char>, Range) {
    (l.uri@, l.range)
}

/// The references to `word` in the first `k` documents, each given as its
/// name and text: the occurrences in each document in turn.
pub open spec fn references_upto(docs: Seq<(Seq<char>, Seq<char>)>, word: Seq<char>, k: int) -> Seq<(Seq<char>, Range)>
    decreases k,
{
    if k <= 0 {
        Seq::empty()
    } else {
        references_upto(docs, word, k - 1) + occurrences(docs[k - 1].1, word).map_values(
            |r: Range| (docs[k - 1].0, r),
        )
    }
}

/// The names and texts of documents.
pub open spec fn documents_view(docs: Seq<(String, String)>) -> Seq<(Seq<char>, Seq<char>)> {
    docs.map_values(|d: (String, String)| (d.0@, d.1@))
}

/// The references to `word` in the open documents, given as name and text
/// in the order they are walked: every whole-word occurrence, document by
/// document.
pub fn find_references(documents: &Vec<(String, String)>, word: &str) -> (r: Vec<Location>)
    ensures
        r@.map_values(|l: Location| location_model(l)) == references_upto(
            documents_view(documents@),
            word@,
            documents@.len() as int,
        ),
{
    let ghost docs = documents_view(documents@);
    let mut out: Vec<Location> = Vec::new();
    let mut i: usize = 0;
    while i < documents.len()
        invariant
            i <= documents@.len(),
            docs == documents_view(documents@),
            out@.map_values(|l: Location| location_model(l)) == references_upto(docs, word@, i as int),
        decreases documents.len() - i,
    {
        let (uri, text) = &documents[i];
        assert(docs[i as int] == (uri@, text@));
        let found = references_in(uri.as_str(), text.as_str(), word);
        let ghost before = out@;
        let mut k: usize = 0;
        while k < found.len()
            invariant
                k <= found@.len(),
                docs == documents_view(documents@),
                docs[i as int] == (uri@, text@),
                found@.len() == occurrences(text@, word@).len(),
                forall|j: int| #![trigger found@[j]] 0 <= j < found@.len() ==> found@[j].uri@ == uri@
                    && found@[j].range == occurrences(text@, word@)[j],
                out@.map_values(|l: Location| location_model(l)) == references_upto(docs, word@, i as int)
                    + occurrences(text@, word@).take(k as int).map_values(|r: Range| (uri@, r)),
            decreases found.len() - k,
        {
            let loc = Location { uri: found[k].uri.clone(), range: found[k].range };
            let ghost prev = out@.map_values(|l: Location| location_model(l));
            out.push(loc);
            assert(found@[k as int].uri@ == uri@);
            assert(out@.map_values(|l: Location| location_model(l)) =~= prev.push((uri@, found@[k as int].range)));
            assert(occurrences(text@, word@).take(k + 1).map_values(|r: Range| (uri@, r)) =~= occurrences(
                text@,
                word@,
            ).take(k as int).map_values(|r: Range| (uri@, r)).push((uri@, occurrences(text@, word@)[k as int])));
            k = k + 1;
        }
        assert(occurrences(text@, word@).take(found@.len() as int) =~= occurrences(text@, word@));
        i = i + 1;
        assert(out@.map_values(|l: Location| location_model(l)) =~= references_upto(docs, word@, i as int));
    }
    out
}

} // verus!
