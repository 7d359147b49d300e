//! Completion items and signature help.
use vstd::prelude::*;
use crate::api::{ApiFunction, ApiIndex, ApiIndexModel, ApiModel, completion_models, entry_lookup};
use crate::document::word_start;
use crate::hover::{join_strings, join_with};
use crate::pattern::{captures, compile, regex_captures, regex_valid};
use crate::symbols::{SymbolInfo, SymbolKind, SymbolModel, group_text, opt_chars};
use crate::table::{SymbolTable, lookup};
use crate::tables::{
    allegro_functions, allegro_skill_functions, builtins, skill_builtins, triples_view,
};
use crate::text::{
    chars_eq, chars_of, copy_range, is_word_char, lemma_chars_deep_view, lowercase,
    string_of, to_lowercase, trim_end, trim_end_len, quote_at, white_space, is_escaped, is_whitespace,
};

verus! {

/// The kind of a completion item.
#[derive(Clone, Copy, Debug, PartialEq, Eq, Structural)]
pub enum CompletionKind {
    Function,
    Variable,
    Class,
    Method,
    Property,
}

/// A completion item; its documentation is Markdown, its insert text plain.
#[derive(Debug)]
pub struct CompletionItem {
    pub label: String,
    pub kind: CompletionKind,
    pub detail: String,
    pub documentation: String,
    pub insert_text: String,
    pub sort_text: Option<String>,
}

/// The plain value of a completion item.
pub struct ItemModel {
    pub label: Seq<char>,
    pub kind: CompletionKind,
    pub detail: Seq<char>,
    pub documentation: Seq<char>,
    pub insert_text: Seq<char>,
    pub sort_text: Option<Seq<char>>,
}

impl View for CompletionItem {
    type V = ItemModel;

    open spec fn view(&self) -> ItemModel {
        ItemModel {
            label: self.label@,
            kind: self.kind,
            detail: self.detail@,
            documentation: self.documentation@,
            insert_text: self.insert_text@,
            sort_text: opt_chars(self.sort_text),
        }
    }
}

/// The views of a list of items.
pub open spec fn item_models(v: Seq<CompletionItem>) -> Seq<ItemModel> {
    v.map_values(|i: CompletionItem| i@)
}

/// The text inserted for `name`: the name alone right after an open
/// parenthesis, else the name behind an open parenthesis.
pub open spec fn insert_text_of(name: Seq<char>, call: bool) -> Seq<char> {
    if call {
        name
    } else {
        "("@ + name
    }
}

/// The item of an API function.
pub open spec fn api_item(f: ApiModel, call: bool) -> ItemModel {
    ItemModel {
        label: f.name,
        kind: CompletionKind::Function,
        detail: f.signature,
        documentation: if f.description.len() == 0 {
            "**"@ + f.name + "**\n\n*"@ + f.category + " / "@ + f.module + "*"@
        } else {
            "**"@ + f.name + "**\n\n*"@ + f.category + " / "@ + f.module + "*\n\n"@ + f.description
        },
        insert_text: insert_text_of(f.name, call),
        sort_text: Some("01_"@ + f.name),
    }
}

/// The item of a built-in function.
pub open spec fn builtin_item(t: (Seq<char>, Seq<char>, Seq<char>), call: bool) -> ItemModel {
    ItemModel {
        label: t.0,
        kind: CompletionKind::Function,
        detail: t.1,
        documentation: "**"@ + t.0 + "**\n\n"@ + t.2,
        insert_text: insert_text_of(t.0, call),
        sort_text: None,
    }
}

/// The item of an Allegro SKILL function.
pub open spec fn allegro_item(t: (Seq<char>, Seq<char>, Seq<char>), call: bool) -> ItemModel {
    ItemModel {
        label: t.0,
        kind: CompletionKind::Function,
        detail: t.1,
        documentation: "**"@ + t.0 + "** (Allegro SKILL)\n\n"@ + t.2,
        insert_text: insert_text_of(t.0, call),
        sort_text: None,
    }
}

/// The completion kind of a symbol kind.
pub open spec fn kind_of(k: SymbolKind) -> CompletionKind {
    match k {
        SymbolKind::Function => CompletionKind::Function,
        SymbolKind::Variable => CompletionKind::Variable,
        SymbolKind::Class => CompletionKind::Class,
        SymbolKind::Method => CompletionKind::Method,
        SymbolKind::Property => CompletionKind::Property,
    }
}

/// The item of a user-defined symbol.
pub open spec fn symbol_item(s: SymbolModel, call: bool) -> ItemModel {
    ItemModel {
        label: s.name,
        kind: kind_of(s.kind),
        detail: match s.parameters {
            Some(ps) => "("@ + s.name + " "@ + join_with(ps, " "@) + ")"@,
            None => s.name,
        },
        documentation: match s.documentation {
            Some(d) => d,
            None => "User-defined "@ + s.name,
        },
        insert_text: insert_text_of(s.name, call),
        sort_text: None,
    }
}

/// The items of API functions, left to right, each skipped when its
/// lowercased name was seen before (the names of the tables, then the
/// names of the items already made).
pub open spec fn api_items(fs: Seq<ApiModel>, seen: Seq<Seq<char>>, call: bool) -> Seq<ItemModel>
    decreases fs.len(),
{
    if fs.len() == 0 {
        Seq::empty()
    } else {
        let k = lowercase(fs[0].name);
        if seen.contains(k) {
            api_items(fs.drop_first(), seen, call)
        } else {
            seq![api_item(fs[0], call)] + api_items(fs.drop_first(), seen.push(k), call)
        }
    }
}

/// The cursor follows an open parenthesis, white space aside.
pub open spec fn after_open_paren(prefix: Seq<char>) -> bool {
    let t = trim_end(prefix);
    t.len() > 0 && t.last() == '('
}

/// The word being typed: the run of symbol characters that ends the prefix.
pub open spec fn typed_word(prefix: Seq<char>) -> Seq<char> {
    prefix.subrange(word_start(prefix, prefix.len() as int), prefix.len() as int)
}

/// The lowercased names of the built-in and Allegro tables.
pub open spec fn table_names() -> Seq<Seq<char>> {
    (builtins() + allegro_functions()).map_values(|t: (Seq<char>, Seq<char>, Seq<char>)| lowercase(t.0))
}

/// The completion list for the text before the cursor: API functions whose
/// name starts with the typed word (at most 100, not already in the
/// tables), then the built-in functions, then the Allegro functions, then
/// the user-defined symbols.
pub open spec fn completion_list(prefix: Seq<char>, api: ApiIndexModel, table: Seq<SymbolModel>) -> Seq<ItemModel> {
    let call = after_open_paren(prefix);
    api_items(completion_models(api, lowercase(typed_word(prefix)), 100), table_names(), call)
        + builtins().map_values(|t: (Seq<char>, Seq<char>, Seq<char>)| builtin_item(t, call))
        + allegro_functions().map_values(|t: (Seq<char>, Seq<char>, Seq<char>)| allegro_item(t, call))
        + table.map_values(|s: SymbolModel| symbol_item(s, call))
}

/// The word being typed at the end of `line_prefix`.
pub fn word_prefix(line_prefix: &[char]) -> (r: Vec<char>)
    ensures
        r@ == typed_word(line_prefix@),
{
    let n = line_prefix.len();
    let mut start = n;
    while start > 0 && is_word_char(line_prefix[start - 1])
        invariant
            start <= n,
            n == line_prefix@.len(),
            word_start(line_prefix@, n as int) == word_start(line_prefix@, start as int),
        decreases start,
    {
        start = start - 1;
    }
    copy_range(line_prefix, start, n)
}

fn insert_text(name: &str, call: bool) -> (r: String)
    ensures
        r@ == insert_text_of(name@, call),
{
    if call {
        String::from_str(name)
    } else {
        let mut s = String::from_str("(");
        s.append(name);
        s
    }
}

fn make_api_item(f: &ApiFunction, call: bool) -> (r: CompletionItem)
    ensures
        r@ == api_item(f@, call),
{
    let mut doc = String::from_str("**");
    doc.append(f.name.as_str());
    doc.append("**\n\n*");
    doc.append(f.category.as_str());
    doc.append(" / ");
    doc.append(f.module.as_str());
    if f.description.as_str().is_empty() {
        doc.append("*");
    } else {
        doc.append("*\n\n");
        doc.append(f.description.as_str());
    }
    let mut sort = String::from_str("01_");
    sort.append(f.name.as_str());
    let item = CompletionItem {
        label: f.name.clone(),
        kind: CompletionKind::Function,
        detail: f.signature.clone(),
        documentation: doc,
        insert_text: insert_text(f.name.as_str(), call),
        sort_text: Some(sort),
    };
    assert(item@.documentation =~= api_item(f@, call).documentation);
    item
}

fn make_table_item(name: &'static str, signature: &'static str, description: &'static str, allegro: bool, call: bool) -> (r: CompletionItem)
    ensures
        allegro ==> r@ == allegro_item((name@, signature@, description@), call),
        !allegro ==> r@ == builtin_item((name@, signature@, description@), call),
{
    let mut doc = String::from_str("**");
    doc.append(name);
    if allegro {
        doc.append("** (Allegro SKILL)\n\n");
    } else {
        doc.append("**\n\n");
    }
    doc.append(description);
    let item = CompletionItem {
        label: String::from_str(name),
        kind: CompletionKind::Function,
        detail: String::from_str(signature),
        documentation: doc,
        insert_text: insert_text(name, call),
        sort_text: None,
    };
    assert(item@.documentation =~= (if allegro {
        allegro_item((name@, signature@, description@), call)
    } else {
        builtin_item((name@, signature@, description@), call)
    }).documentation);
    item
}

fn make_symbol_item(info: &SymbolInfo, call: bool) -> (r: CompletionItem)
    ensures
        r@ == symbol_item(info@, call),
{
    let kind = match info.kind {
        SymbolKind::Function => CompletionKind::Function,
        SymbolKind::Variable => CompletionKind::Variable,
        SymbolKind::Class => CompletionKind::Class,
        SymbolKind::Method => CompletionKind::Method,
        SymbolKind::Property => CompletionKind::Property,
    };
    let detail = match &info.parameters {
        Some(params) => {
            let mut d = String::from_str("(");
            d.append(info.name.as_str());
            d.append(" ");
            let joined = join_strings(params, " ");
            d.append(joined.as_str());
            d.append(")");
            d
        },
        None => info.name.clone(),
    };
    let doc = match &info.documentation {
        Some(d) => d.clone(),
        None => {
            let mut d = String::from_str("User-defined ");
            d.append(info.name.as_str());
            d
        },
    };
    let item = CompletionItem {
        label: info.name.clone(),
        kind,
        detail,
        documentation: doc,
        insert_text: insert_text(info.name.as_str(), call),
        sort_text: None,
    };
    assert(item@.detail =~= symbol_item(info@, call).detail);
    assert(item@.documentation =~= symbol_item(info@, call).documentation);
    item
}

fn seen_contains(seen: &Vec<Vec<char>>, k: &[char]) -> (r: bool)
    ensures
        r == seen.deep_view().contains(k@),
{
    let mut i: usize = 0;
    while i < seen.len()
        invariant
            i <= seen@.len(),
            forall|m: int| 0 <= m < i ==> seen.deep_view()[m] != k@,
        decreases seen.len() - i,
    {
        proof {
            lemma_chars_deep_view(&seen@[i as int]);
        }
        if chars_eq(seen[i].as_slice(), k) {
            assert(seen.deep_view()[i as int] == k@);
            return true;
        }
        i = i + 1;
    }
    false
}

fn lower_chars(s: &str) -> (r: Vec<char>)
    ensures
        r@ == lowercase(s@),
{
    let l = to_lowercase(s);
    chars_of(l.as_str())
}

/// The completion items for the text before the cursor.
pub fn get_completions(line_prefix: &str, api: &ApiIndex, table: &SymbolTable) -> (r: Vec<CompletionItem>)
    ensures
        item_models(r@) == completion_list(line_prefix@, api@, table@),
{
    let prefix = chars_of(line_prefix);
    let te = trim_end_len(prefix.as_slice());
    let call = te > 0 && prefix[te - 1] == '(';
    assert(call == after_open_paren(prefix@));
    let word = word_prefix(prefix.as_slice());
    let word_s = string_of(word.as_slice());
    let builtin_table = skill_builtins();
    let allegro_table = allegro_skill_functions();
    let ghost tn = table_names();
    // the lowercased names of both tables
    let mut seen: Vec<Vec<char>> = Vec::new();
    let mut i: usize = 0;
    while i < builtin_table.len()
        invariant
            i <= builtin_table@.len(),
            triples_view(builtin_table@) == builtins(),
            seen.deep_view() == tn.take(i as int),
            tn == table_names(),
        decreases builtin_table.len() - i,
    {
        let (n, s0, d0) = builtin_table[i];
        assert(triples_view(builtin_table@)[i as int] == (n@, s0@, d0@));
        assert((builtins() + allegro_functions())[i as int] == builtins()[i as int]);
        assert(tn[i as int] == lowercase(n@));
        let l = lower_chars(n);
        proof {
            lemma_chars_deep_view(&l);
        }
        let ghost old_seen = seen.deep_view();
        seen.push(l);
        assert(seen.deep_view() =~= old_seen.push(l@));
        i = i + 1;
        assert(seen.deep_view() =~= tn.take(i as int));
    }
    let mut i: usize = 0;
    while i < allegro_table.len()
        invariant
            i <= allegro_table@.len(),
            triples_view(allegro_table@) == allegro_functions(),
            triples_view(builtin_table@) == builtins(),
            seen.deep_view() == tn.take(builtins().len() + i),
            tn == table_names(),
        decreases allegro_table.len() - i,
    {
        let (n, s0, d0) = allegro_table[i];
        assert(triples_view(allegro_table@)[i as int] == (n@, s0@, d0@));
        assert((builtins() + allegro_functions())[builtins().len() + i] == allegro_functions()[i as int]);
        assert(tn[builtins().len() + i] == lowercase(n@));
        let l = lower_chars(n);
        proof {
            lemma_chars_deep_view(&l);
        }
        let ghost old_seen = seen.deep_view();
        seen.push(l);
        assert(seen.deep_view() =~= old_seen.push(l@));
        i = i + 1;
        assert(seen.deep_view() =~= tn.take(builtins().len() + i));
    }
    assert(tn.take((builtins().len() + allegro_functions().len()) as int) =~= tn);
    let mut items: Vec<CompletionItem> = Vec::new();
    // API functions
    let funcs = api.completions(word_s.as_str(), 100);
    let ghost fs = funcs@.map_values(|f: &ApiFunction| f@);
    let ghost total = api_items(fs, tn, call);
    assert(fs.subrange(0, fs.len() as int) =~= fs);
    assert(item_models(items@) =~= Seq::<ItemModel>::empty());
    assert(item_models(items@) + api_items(fs, tn, call) =~= total);
    let mut j: usize = 0;
    while j < funcs.len()
        invariant
            j <= funcs@.len(),
            fs == funcs@.map_values(|f: &ApiFunction| f@),
            item_models(items@) + api_items(fs.subrange(j as int, fs.len() as int), seen.deep_view(), call) == total,
        decreases funcs.len() - j,
    {
        let f = funcs[j];
        let key = lower_chars(f.name.as_str());
        let ghost rest = fs.subrange(j as int, fs.len() as int);
        assert(rest[0] == f@);
        assert(rest.drop_first() =~= fs.subrange(j + 1, fs.len() as int));
        let ghost before = item_models(items@);
        if !seen_contains(&seen, key.as_slice()) {
            proof {
                lemma_chars_deep_view(&key);
            }
            let ghost old_seen = seen.deep_view();
            seen.push(key);
            assert(seen.deep_view() =~= old_seen.push(lowercase(f@.name)));
            let item = make_api_item(f, call);
            items.push(item);
            assert(item_models(items@) =~= before.push(api_item(f@, call)));
            assert(before.push(api_item(f@, call)) + api_items(fs.subrange(j + 1, fs.len() as int), seen.deep_view(), call)
                =~= before + api_items(rest, old_seen, call));
        }
        j = j + 1;
    }
    assert(fs.subrange(fs.len() as int, fs.len() as int) =~= Seq::<ApiModel>::empty());
    assert(item_models(items@) =~= total);
    // built-in functions
    let ghost base = item_models(items@);
    let mut i: usize = 0;
    while i < builtin_table.len()
        invariant
            i <= builtin_table@.len(),
            triples_view(builtin_table@) == builtins(),
            item_models(items@) == base + builtins().take(i as int).map_values(
                |t: (Seq<char>, Seq<char>, Seq<char>)| builtin_item(t, call),
            ),
        decreases builtin_table.len() - i,
    {
        let (n, s, d) = builtin_table[i];
        assert(builtins()[i as int] == (n@, s@, d@));
        let item = make_table_item(n, s, d, false, call);
        let ghost iv = item@;
        let ghost before = item_models(items@);
        items.push(item);
        assert(item_models(items@) =~= before.push(iv));
        assert(builtins().take(i + 1).map_values(|t: (Seq<char>, Seq<char>, Seq<char>)| builtin_item(t, call))
            =~= builtins().take(i as int).map_values(|t: (Seq<char>, Seq<char>, Seq<char>)| builtin_item(t, call)).push(
            builtin_item(builtins()[i as int], call),
        ));
        i = i + 1;
        assert(item_models(items@) =~= base + builtins().take(i as int).map_values(
            |t: (Seq<char>, Seq<char>, Seq<char>)| builtin_item(t, call),
        ));
    }
    assert(builtins().take(builtins().len() as int) =~= builtins());
    // Allegro functions
    let ghost base2 = item_models(items@);
    let mut i: usize = 0;
    while i < allegro_table.len()
        invariant
            i <= allegro_table@.len(),
            triples_view(allegro_table@) == allegro_functions(),
            item_models(items@) == base2 + allegro_functions().take(i as int).map_values(
                |t: (Seq<char>, Seq<char>, Seq<char>)| allegro_item(t, call),
            ),
        decreases allegro_table.len() - i,
    {
        let (n, s, d) = allegro_table[i];
        assert(allegro_functions()[i as int] == (n@, s@, d@));
        let item = make_table_item(n, s, d, true, call);
        let ghost iv = item@;
        let ghost before = item_models(items@);
        items.push(item);
        assert(item_models(items@) =~= before.push(iv));
        assert(allegro_functions().take(i + 1).map_values(|t: (Seq<char>, Seq<char>, Seq<char>)| allegro_item(t, call))
            =~= allegro_functions().take(i as int).map_values(|t: (Seq<char>, Seq<char>, Seq<char>)| allegro_item(t, call)).push(
            allegro_item(allegro_functions()[i as int], call),
        ));
        i = i + 1;
        assert(item_models(items@) =~= base2 + allegro_functions().take(i as int).map_values(
            |t: (Seq<char>, Seq<char>, Seq<char>)| allegro_item(t, call),
        ));
    }
    assert(allegro_functions().take(allegro_functions().len() as int) =~= allegro_functions());
    // user-defined symbols
    let ghost base3 = item_models(items@);
    let symbols = table.symbols();
    let ghost sv = table@;
    let mut i: usize = 0;
    while i < symbols.len()
        invariant
            i <= symbols@.len(),
            crate::symbols::symbol_models(symbols@) == sv,
            item_models(items@) == base3 + sv.take(i as int).map_values(|s: SymbolModel| symbol_item(s, call)),
        decreases symbols.len() - i,
    {
        let info = &symbols[i];
        assert(sv[i as int] == info@);
        let item = make_symbol_item(info, call);
        let ghost iv = item@;
        let ghost before = item_models(items@);
        items.push(item);
        assert(item_models(items@) =~= before.push(iv));
        assert(sv.take(i + 1).map_values(|s: SymbolModel| symbol_item(s, call)) =~= sv.take(i as int).map_values(
            |s: SymbolModel| symbol_item(s, call),
        ).push(symbol_item(sv[i as int], call)));
        i = i + 1;
        assert(item_models(items@) =~= base3 + sv.take(i as int).map_values(|s: SymbolModel| symbol_item(s, call)));
    }
    assert(sv.take(sv.len() as int) =~= sv);
    assert(word_s@ == typed_word(line_prefix@));
    items
}

// ---------------------------------------------------------------------------
// Signature help
// ---------------------------------------------------------------------------

/// The pattern of a call at the start of a text: an open parenthesis and a word.
pub open spec fn call_pattern() -> Seq<char> {
    "^\\((\\w+)"@
}

/// The number of `c` among the first `n` characters of `s`.
pub open spec fn count_char(s: Seq<char>, c: char, n: int) -> nat
    decreases n,
{
    if n <= 0 || n > s.len() {
        0
    } else {
        count_char(s, c, n - 1) + if s[n - 1] == c {
            1nat
        } else {
            0nat
        }
    }
}

/// The state of the scan for open calls: the indexes of the parentheses
/// still open, innermost last, and whether inside a string.
pub struct CallScan {
    pub opens: Seq<int>,
    pub in_string: bool,
}

/// One step of the scan for open calls at index `i`: an unescaped quote
/// opens or closes a string; outside strings `(` opens and `)` closes the
/// innermost open parenthesis.
pub open spec fn call_step(t: Seq<char>, i: int, st: CallScan) -> CallScan {
    if quote_at(t, i) {
        CallScan { in_string: !st.in_string, ..st }
    } else if st.in_string {
        st
    } else if t[i] == '(' {
        CallScan { opens: st.opens.push(i), ..st }
    } else if t[i] == ')' && st.opens.len() > 0 {
        CallScan { opens: st.opens.drop_last(), ..st }
    } else {
        st
    }
}

/// The scan for open calls over the first `n` characters of `t`.
pub open spec fn open_calls(t: Seq<char>, n: int) -> CallScan
    decreases n,
{
    if n <= 0 {
        CallScan { opens: Seq::empty(), in_string: false }
    } else {
        call_step(t, n - 1, open_calls(t, n - 1))
    }
}

/// The state of the scan of a call's arguments: the nesting depth of
/// parentheses inside the arguments, whether inside an argument, whether
/// inside a string, and the number of arguments begun.
pub struct ArgScan {
    pub depth: nat,
    pub in_arg: bool,
    pub in_string: bool,
    pub count: nat,
}

/// One step of the argument scan at index `i`: at depth zero outside
/// strings, white space ends an argument and anything else begins one (a
/// string or a parenthesized form counting as one argument).
pub open spec fn arg_step(t: Seq<char>, i: int, st: ArgScan) -> ArgScan {
    if quote_at(t, i) {
        if st.in_string {
            ArgScan { in_string: false, ..st }
        } else if st.depth == 0 && !st.in_arg {
            ArgScan { in_string: true, in_arg: true, count: st.count + 1, ..st }
        } else {
            ArgScan { in_string: true, ..st }
        }
    } else if st.in_string {
        st
    } else if st.depth > 0 {
        if t[i] == '(' {
            ArgScan { depth: st.depth + 1, ..st }
        } else if t[i] == ')' {
            ArgScan { depth: (st.depth - 1) as nat, ..st }
        } else {
            st
        }
    } else if white_space(t[i]) {
        ArgScan { in_arg: false, ..st }
    } else {
        let st2 = if st.in_arg {
            st
        } else {
            ArgScan { in_arg: true, count: st.count + 1, ..st }
        };
        if t[i] == '(' {
            ArgScan { depth: 1, ..st2 }
        } else {
            st2
        }
    }
}

/// The argument scan of `t` from index `start` up to `n`.
pub open spec fn arg_scan(t: Seq<char>, start: int, n: int) -> ArgScan
    decreases n - start,
{
    if n <= start {
        ArgScan { depth: 0, in_arg: false, in_string: false, count: 0 }
    } else {
        arg_step(t, n - 1, arg_scan(t, start, n - 1))
    }
}

/// The index of the argument the cursor is on, for the arguments of `t`
/// from `start` to its end: the argument being typed, or the next one
/// after white space.
pub open spec fn active_argument(t: Seq<char>, start: int) -> nat {
    let st = arg_scan(t, start, t.len() as int);
    if st.in_arg && st.count > 0 {
        (st.count - 1) as nat
    } else {
        st.count
    }
}

/// The signature of the first entry named `w` of a table, from index `i` on.
pub open spec fn first_triple(t: Seq<(Seq<char>, Seq<char>, Seq<char>)>, w: Seq<char>, i: int) -> Option<Seq<char>>
    decreases t.len() - i,
{
    if i < 0 || i >= t.len() {
        None
    } else if t[i].0 == w {
        Some(t[i].1)
    } else {
        first_triple(t, w, i + 1)
    }
}

/// The signature shown for a function: from the built-in table, else the
/// Allegro table, else the API reference (case-insensitive), else the
/// parameters of a user-defined function.
pub open spec fn signature_of(name: Seq<char>, api: ApiIndexModel, table: Seq<SymbolModel>) -> Option<Seq<char>> {
    match first_triple(builtins(), name, 0) {
        Some(s) => Some(s),
        None => match first_triple(allegro_functions(), name, 0) {
            Some(s) => Some(s),
            None => match entry_lookup(api.entries, lowercase(name)) {
                Some(f) => Some(f.signature),
                None => match lookup(table, name) {
                    Some(sym) => match sym.parameters {
                        Some(ps) => Some("("@ + name + " "@ + join_with(ps, " "@) + ")"@),
                        None => None,
                    },
                    None => None,
                },
            },
        },
    }
}

/// Signature help for the text before the cursor: none unless the text
/// holds more `(` than `)` (strings included); else the innermost call still
/// open names the function, and its signature is shown with the index of
/// the space-separated argument the cursor is on as the active parameter.
pub open spec fn signature_help(text: Seq<char>, api: ApiIndexModel, table: Seq<SymbolModel>) -> Option<(Seq<char>, u32)> {
    let opens = open_calls(text, text.len() as int).opens;
    if count_char(text, '(', text.len() as int) <= count_char(text, ')', text.len() as int) {
        None
    } else if opens.len() == 0 || !regex_valid(call_pattern()) {
        None
    } else {
        let p = opens.last();
        let tail = text.subrange(p, text.len() as int);
        match regex_captures(call_pattern(), tail) {
            None => None,
            Some(groups) => match group_text(tail, groups, 1) {
                None => None,
                Some((name, s)) => match signature_of(name, api, table) {
                    Some(sig) => Some((sig, active_argument(text, p + s + name.len()) as u32)),
                    None => None,
                },
            },
        }
    }
}

/// Signature help: the label of the one signature shown, and the active parameter.
#[derive(Debug)]
pub struct SignatureHelp {
    pub label: String,
    pub active_parameter: u32,
}

fn count_in(s: &[char], c: char) -> (r: usize)
    ensures
        r == count_char(s@, c, s@.len() as int),
{
    let mut n: usize = 0;
    let mut i: usize = 0;
    while i < s.len()
        invariant
            i <= s@.len(),
            n == count_char(s@, c, i as int),
            n <= i,
        decreases s.len() - i,
    {
        if s[i] == c {
            n = n + 1;
        }
        i = i + 1;
    }
    n
}

fn innermost_open(t: &[char]) -> (r: Option<usize>)
    ensures
        match r {
            Some(p) => open_calls(t@, t@.len() as int).opens.len() > 0 && open_calls(
                t@,
                t@.len() as int,
            ).opens.last() == p as int && p < t@.len(),
            None => open_calls(t@, t@.len() as int).opens.len() == 0,
        },
{
    let n = t.len();
    let mut opens: Vec<usize> = Vec::new();
    let mut in_string = false;
    let mut i: usize = 0;
    assert(opens@.map_values(|x: usize| x as int) =~= Seq::<int>::empty());
    while i < n
        invariant
            i <= n,
            n == t@.len(),
            open_calls(t@, i as int) == (CallScan {
                opens: opens@.map_values(|x: usize| x as int),
                in_string,
            }),
            forall|k: int| 0 <= k < opens@.len() ==> opens@[k] < n,
        decreases n - i,
    {
        let c = t[i];
        let ghost before = opens@;
        if c == '"' && !is_escaped(t, i) {
            in_string = !in_string;
        } else if in_string {
        } else if c == '(' {
            opens.push(i);
            assert(opens@.map_values(|x: usize| x as int) =~= before.map_values(|x: usize| x as int).push(i as int));
        } else if c == ')' && opens.len() > 0 {
            opens.pop();
            assert(opens@.map_values(|x: usize| x as int) =~= before.map_values(|x: usize| x as int).drop_last());
        }
        i = i + 1;
    }
    if opens.len() == 0 {
        None
    } else {
        let p = opens[opens.len() - 1];
        Some(p)
    }
}

fn active_argument_exec(t: &[char], start: usize) -> (r: usize)
    requires
        start <= t@.len(),
    ensures
        r == active_argument(t@, start as int),
{
    let n = t.len();
    let mut depth: usize = 0;
    let mut in_arg = false;
    let mut in_string = false;
    let mut count: usize = 0;
    let mut i: usize = start;
    while i < n
        invariant
            start <= i <= n,
            n == t@.len(),
            depth <= i - start,
            count <= i - start,
            in_arg ==> count > 0,
            arg_scan(t@, start as int, i as int) == (ArgScan {
                depth: depth as nat,
                in_arg,
                in_string,
                count: count as nat,
            }),
        decreases n - i,
    {
        let c = t[i];
        if c == '"' && !is_escaped(t, i) {
            if in_string {
                in_string = false;
            } else if depth == 0 && !in_arg {
                in_string = true;
                in_arg = true;
                count = count + 1;
            } else {
                in_string = true;
            }
        } else if in_string {
        } else if depth > 0 {
            if c == '(' {
                depth = depth + 1;
            } else if c == ')' {
                depth = depth - 1;
            }
        } else if is_whitespace(c) {
            in_arg = false;
        } else {
            if !in_arg {
                in_arg = true;
                count = count + 1;
            }
            if c == '(' {
                depth = 1;
            }
        }
        i = i + 1;
    }
    if in_arg && count > 0 {
        count - 1
    } else {
        count
    }
}

fn table_signature(t: &Vec<(&'static str, &'static str, &'static str)>, w: &[char]) -> (r: Option<&'static str>)
    ensures
        match first_triple(triples_view(t@), w@, 0) {
            Some(s) => r is Some && r->0@ == s,
            None => r is None,
        },
{
    let ghost tv = triples_view(t@);
    let mut i: usize = 0;
    while i < t.len()
        invariant
            i <= t@.len(),
            tv == triples_view(t@),
            first_triple(tv, w@, 0) == first_triple(tv, w@, i as int),
        decreases t.len() - i,
    {
        let (n, s, _) = t[i];
        let nc = chars_of(n);
        assert(tv[i as int].0 == n@ && tv[i as int].1 == s@);
        if chars_eq(nc.as_slice(), w) {
            return Some(s);
        }
        i = i + 1;
    }
    None
}

fn signature_for(name: &[char], api: &ApiIndex, table: &SymbolTable) -> (r: Option<String>)
    ensures
        opt_chars(r) == signature_of(name@, api@, table@),
{
    let b = skill_builtins();
    if let Some(s) = table_signature(&b, name) {
        return Some(String::from_str(s));
    }
    let a = allegro_skill_functions();
    if let Some(s) = table_signature(&a, name) {
        return Some(String::from_str(s));
    }
    let name_s = string_of(name);
    if let Some(f) = api.get(name_s.as_str()) {
        return Some(f.signature.clone());
    }
    match table.get(name_s.as_str()) {
        Some(info) => match &info.parameters {
            Some(params) => {
                let mut label = String::from_str("(");
                label.append(name_s.as_str());
                label.append(" ");
                let joined = join_strings(params, " ");
                label.append(joined.as_str());
                label.append(")");
                Some(label)
            },
            None => None,
        },
        None => None,
    }
}

/// Signature help for the text of the line before the cursor.
pub fn get_signature_help(text: &str, api: &ApiIndex, table: &SymbolTable) -> (r: Option<SignatureHelp>)
    ensures
        match signature_help(text@, api@, table@) {
            Some((label, active)) => r is Some && r->0.label@ == label && r->0.active_parameter == active,
            None => r is None,
        },
{
    let chars = chars_of(text);
    let n = chars.len();
    let open = count_in(chars.as_slice(), '(');
    let close = count_in(chars.as_slice(), ')');
    if open <= close {
        return None;
    }
    let p = match innermost_open(chars.as_slice()) {
        Some(p) => p,
        None => return None,
    };
    let re = match compile("^\\((\\w+)") {
        Some(re) => re,
        None => return None,
    };
    let tail = copy_range(chars.as_slice(), p, n);
    let tail_s = string_of(tail.as_slice());
    let groups = match captures(&re, tail_s.as_str()) {
        Some(g) => g,
        None => return None,
    };
    let (name, s) = match crate::symbols::group_text_exec(tail.as_slice(), &groups, 1) {
        Some(h) => h,
        None => return None,
    };
    let start = p + s + name.len();
    let active = active_argument_exec(chars.as_slice(), start);
    match signature_for(name.as_slice(), api, table) {
        Some(label) => Some(SignatureHelp { label, active_parameter: active as u32 }),
        None => None,
    }
}

} // verus!
