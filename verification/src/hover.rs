//! Hover documentation for the word under the cursor: core forms first,
//! then the API reference, then user-defined functions.
use vstd::prelude::*;
use crate::api::{ApiFunction, ApiIndex, ApiIndexModel, ApiModel, entry_lookup};
use crate::document::{get_word_at_position, rope_lines, rope_text, word_range_in_line};
use crate::protocol::Position;
use crate::symbols::{SymbolInfo, SymbolModel, opt_chars, strings_view};
use crate::table::{SymbolTable, lookup};
use crate::tables::{docs, pairs_view, skill_docs};
use crate::text::{chars_eq, chars_of, lowercase};

verus! {

/// The text of the first entry named `w` of a table of pairs, from index `i` on.
pub open spec fn first_pair(t: Seq<(Seq<char>, Seq<char>)>, w: Seq<char>, i: int) -> Option<Seq<char>>
    decreases t.len() - i,
{
    if i < 0 || i >= t.len() {
        None
    } else if t[i].0 == w {
        Some(t[i].1)
    } else {
        first_pair(t, w, i + 1)
    }
}

/// Strings joined by a separator.
pub open spec fn join_with(ws: Seq<Seq<char>>, sep: Seq<char>) -> Seq<char>
    decreases ws.len(),
{
    if ws.len() == 0 {
        Seq::empty()
    } else if ws.len() == 1 {
        ws[0]
    } else {
        join_with(ws.drop_last(), sep) + sep + ws.last()
    }
}

/// Joins strings with a separator.
pub fn join_strings(ws: &Vec<String>, sep: &str) -> (r: String)
    ensures
        r@ == join_with(strings_view(ws@), sep@),
{
    let ghost v = strings_view(ws@);
    let mut out = String::new();
    let mut k: usize = 0;
    while k < ws.len()
        invariant
            k <= ws@.len(),
            v == strings_view(ws@),
            out@ == join_with(v.take(k as int), sep@),
        decreases ws.len() - k,
    {
        if k > 0 {
            out.append(sep);
        }
        out.append(ws[k].as_str());
        k = k + 1;
        assert(v.take(k as int).drop_last() =~= v.take(k - 1));
        if k == 1 {
            assert(v.take(1) =~= seq![v[0]]);
        }
    }
    assert(v.take(ws@.len() as int) =~= v);
    out
}

/// The hover text of an API function: name, category and module, the
/// signature in a code block, and the description when there is one.
pub open spec fn api_hover(f: ApiModel) -> Seq<char> {
    "**"@ + f.name + "**\n\n*"@ + f.category + " / "@ + f.module + "*\n\n```skill\n"@ + f.signature
        + "\n```"@ + if f.description.len() > 0 {
        "\n\n"@ + f.description
    } else {
        Seq::empty()
    }
}

/// The hover text of a user-defined function: its name, then its call form
/// when it has parameters, its documentation and its return type when known.
pub open spec fn symbol_hover(s: SymbolModel) -> Seq<char> {
    "**"@ + s.name + "**"@ + (match s.parameters {
        Some(ps) => "\n\n```skill\n("@ + s.name + " "@ + join_with(ps, " "@) + ")\n```"@,
        None => Seq::empty(),
    }) + (match s.documentation {
        Some(d) => "\n\n"@ + d,
        None => Seq::empty(),
    }) + (match s.return_type {
        Some(t) => "\n\n**Returns:** "@ + t,
        None => Seq::empty(),
    })
}

/// The hover text of a word: the documentation of a core form of that
/// name; else the API function of that name (case-insensitive); else the
/// user-defined function of that name.
pub open spec fn hover_text(word: Seq<char>, api: ApiIndexModel, table: Seq<SymbolModel>) -> Option<Seq<char>> {
    match first_pair(docs(), word, 0) {
        Some(d) => Some(d),
        None => match entry_lookup(api.entries, lowercase(word)) {
            Some(f) => Some(api_hover(f)),
            None => match lookup(table, word) {
                Some(s) => Some(symbol_hover(s)),
                None => None,
            },
        },
    }
}

fn api_hover_text(f: &ApiFunction) -> (r: String)
    ensures
        r@ == api_hover(f@),
{
    let mut content = String::from_str("**");
    content.append(f.name.as_str());
    content.append("**\n\n*");
    content.append(f.category.as_str());
    content.append(" / ");
    content.append(f.module.as_str());
    content.append("*\n\n```skill\n");
    content.append(f.signature.as_str());
    content.append("\n```");
    let ghost head = content@;
    if !f.description.as_str().is_empty() {
        content.append("\n\n");
        content.append(f.description.as_str());
    }
    assert(content@ =~= api_hover(f@));
    content
}

fn symbol_hover_text(info: &SymbolInfo) -> (r: String)
    ensures
        r@ == symbol_hover(info@),
{
    let mut content = String::from_str("**");
    content.append(info.name.as_str());
    content.append("**");
    let ghost a = content@;
    match &info.parameters {
        Some(params) => {
            content.append("\n\n```skill\n(");
            content.append(info.name.as_str());
            content.append(" ");
            let joined = join_strings(params, " ");
            content.append(joined.as_str());
            content.append(")\n```");
        },
        None => {},
    }
    let ghost b = content@;
    match &info.documentation {
        Some(d) => {
            content.append("\n\n");
            content.append(d.as_str());
        },
        None => {},
    }
    let ghost c = content@;
    match &info.return_type {
        Some(t) => {
            content.append("\n\n**Returns:** ");
            content.append(t.as_str());
        },
        None => {},
    }
    assert(content@ =~= symbol_hover(info@));
    content
}

/// The documentation of the core form named `word`, if any.
fn core_doc(word: &[char]) -> (r: Option<&'static str>)
    ensures
        match first_pair(docs(), word@, 0) {
            Some(d) => r is Some && r->0@ == d,
            None => r is None,
        },
{
    let table = skill_docs();
    let ghost t = pairs_view(table@);
    let mut i: usize = 0;
    while i < table.len()
        invariant
            i <= table@.len(),
            t == pairs_view(table@),
            t == docs(),
            first_pair(docs(), word@, 0) == first_pair(docs(), word@, i as int),
        decreases table.len() - i,
    {
        let (name, doc) = table[i];
        let name_chars = chars_of(name);
        assert(t[i as int] == (name@, doc@));
        if chars_eq(name_chars.as_slice(), word) {
            return Some(doc);
        }
        i = i + 1;
    }
    None
}

/// The hover text of a word.
pub fn hover_for_word(word: &str, api: &ApiIndex, table: &SymbolTable) -> (r: Option<String>)
    ensures
        opt_chars(r) == hover_text(word@, api@, table@),
{
    let w = chars_of(word);
    if let Some(d) = core_doc(w.as_slice()) {
        return Some(String::from_str(d));
    }
    if let Some(f) = api.get(word) {
        return Some(api_hover_text(f));
    }
    if let Some(info) = table.get(word) {
        return Some(symbol_hover_text(info));
    }
    None
}

/// The hover text for the cursor's position: the text of the word under
/// the cursor, when there is a word and it is documented.
pub fn get_hover(rope: &ropey::Rope, position: Position, api: &ApiIndex, table: &SymbolTable) -> (r: Option<String>)
    requires
        (position.line as int) < rope_lines(rope_text(*rope)).len(),
    ensures
        match word_range_in_line(rope_lines(rope_text(*rope))[position.line as int], position.character) {
            Some((s, e)) => opt_chars(r) == hover_text(
                rope_lines(rope_text(*rope))[position.line as int].subrange(s, e),
                api@,
                table@,
            ),
            None => r is None,
        },
{
    match get_word_at_position(rope, position) {
        Some(word) => hover_for_word(word.as_str(), api, table),
        None => None,
    }
}

} // verus!
