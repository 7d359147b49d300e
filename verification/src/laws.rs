//! Properties of the library as a whole, proved over the specifications
//! that the functions' contracts use.
use vstd::prelude::*;
use crate::api::{
    ApiIndexModel, ApiModel, api_key, completion_models, distinct_keys, entry_lookup, first_n,
    index_consistent, index_entries, insert_entry, key_index_from, keys_of, lemma_first_key,
    lemma_key_index_from, lookups, prefixed, strictly_sorted,
};
use crate::completion::{
    ItemModel, after_open_paren, allegro_item, api_item, api_items, builtin_item, completion_list,
    insert_text_of, symbol_item,
};
use crate::diagnostics::{
    formattable, formattable_upto, formatted, formatted_line, formatted_upto, indent_after, indent_mid,
    spaces, count_scan, paren_counts,
    Diagnostic, DiagnosticKind, ParenScan, deffun_word, diagnostics_of, first_occurrence,
    misspell_diags, misspelled_at, mistake_diags, mistake_diags_of_line, paren_diags, QuoteScan,
    quote_diags, quote_line_diag, quote_lines, quote_scan, scan_line, scan_lines,
    string_length_word, unclosed_at,
};
use crate::extension::{ActionModel, EventModel, LookupModel, LookupStage, lookup_step, stages_left};
use crate::document::{clamp_column, lemma_word_bounds, rope_lines, word_range_in_line};
use crate::server::{highlights, word_at};
use crate::protocol::{Position, Range, span};
use crate::symbols::{line_occurrences, occurrences, occurrences_upto, whole_word_at};
use crate::symbols::{
    doc_entries, preceding_comment,
    SymbolKind, SymbolModel, defun_pattern, group_text, symbol_of_line, symbols_of, symbols_upto,
};
use crate::table::{
    in_document, info_of, InfoModel,
    drop_uri, index_of_name, insert_all, insert_symbol, lemma_index_of_name_from,
    lemma_insert_unique, lemma_without_uri_unique, lookup, unique_names, without_uri, in_prefix,
};
use crate::text::{
    char_index_of_byte, code_end, lemma_char_index_from, lemma_comment_from, lemma_split_lines_bounds,
    lex_lt, lemma_newline_from, lemma_non_ws_from, lemma_non_ws_until, lines_from, lowercase,
    newline_from, non_ws_from, non_ws_until, occurs_at, quote_at, split_lines, strip_cr, trim,
    white_space, word_char, quotes_before, escaped, backslash_run, comment_at, comment_from,
};

verus! {

// ---------------------------------------------------------------------------
// Whole-word occurrences (highlight, references, rename)
// ---------------------------------------------------------------------------

/// `r` is the range of a whole-word occurrence of `w` on one of `lines`.
pub open spec fn marks_occurrence(lines: Seq<Seq<char>>, w: Seq<char>, r: Range) -> bool {
    exists|ln: int, i: int|
        0 <= ln < lines.len() && whole_word_at(lines[ln], w, i) && r == span(ln, i, i + w.len())
}

proof fn lemma_line_occurrences_sound(lines: Seq<Seq<char>>, ln: int, w: Seq<char>, n: int)
    requires
        0 <= ln < lines.len(),
    ensures
        forall|k: int| 0 <= k < line_occurrences(ln, lines[ln], w, n).len() ==> #[trigger] marks_occurrence(
            lines,
            w,
            line_occurrences(ln, lines[ln], w, n)[k],
        ),
    decreases n,
{
    if n > 0 {
        lemma_line_occurrences_sound(lines, ln, w, n - 1);
        let prev = line_occurrences(ln, lines[ln], w, n - 1);
        let cur = line_occurrences(ln, lines[ln], w, n);
        assert forall|k: int| 0 <= k < cur.len() implies #[trigger] marks_occurrence(lines, w, cur[k]) by {
            if k < prev.len() {
                assert(cur[k] == prev[k]);
            } else {
                assert(whole_word_at(lines[ln], w, n - 1));
                assert(cur[k] == span(ln, n - 1, n - 1 + w.len()));
            }
        }
    }
}

proof fn lemma_occurrences_upto_sound(lines: Seq<Seq<char>>, w: Seq<char>, k: int)
    requires
        0 <= k <= lines.len(),
    ensures
        forall|j: int| 0 <= j < occurrences_upto(lines, w, k).len() ==> #[trigger] marks_occurrence(
            lines,
            w,
            occurrences_upto(lines, w, k)[j],
        ),
    decreases k,
{
    if k > 0 {
        lemma_occurrences_upto_sound(lines, w, k - 1);
        lemma_line_occurrences_sound(lines, k - 1, w, lines[k - 1].len() + 1int);
        let prev = occurrences_upto(lines, w, k - 1);
        let lo = line_occurrences(k - 1, lines[k - 1], w, lines[k - 1].len() + 1int);
        let cur = occurrences_upto(lines, w, k);
        assert forall|j: int| 0 <= j < cur.len() implies #[trigger] marks_occurrence(lines, w, cur[j]) by {
            if j < prev.len() {
                assert(cur[j] == prev[j]);
            } else {
                assert(cur[j] == lo[j - prev.len()]);
            }
        }
    }
}

/// Every range that highlight, references and rename use marks a
/// whole-word occurrence of the word on a line of the text.
pub proof fn law_occurrences_are_whole_words(text: Seq<char>, w: Seq<char>)
    ensures
        forall|j: int| 0 <= j < occurrences(text, w).len() ==> #[trigger] marks_occurrence(
            split_lines(text),
            w,
            occurrences(text, w)[j],
        ),
{
    if w.len() > 0 {
        crate::text::lemma_split_lines_bounds(text);
        lemma_occurrences_upto_sound(split_lines(text), w, split_lines(text).len() as int);
    }
}

proof fn lemma_line_occurrences_complete(ln: int, line: Seq<char>, w: Seq<char>, n: int, i: int)
    requires
        0 <= i < n,
        whole_word_at(line, w, i),
    ensures
        line_occurrences(ln, line, w, n).contains(span(ln, i, i + w.len())),
    decreases n,
{
    let prev = line_occurrences(ln, line, w, n - 1);
    let cur = line_occurrences(ln, line, w, n);
    if i < n - 1 {
        lemma_line_occurrences_complete(ln, line, w, n - 1, i);
        let k = choose|k: int| 0 <= k < prev.len() && prev[k] == span(ln, i, i + w.len());
        assert(cur[k] == prev[k]);
    } else {
        assert(cur[prev.len() as int] == span(ln, i, i + w.len()));
    }
}

proof fn lemma_occurrences_upto_complete(lines: Seq<Seq<char>>, w: Seq<char>, k: int, ln: int, i: int)
    requires
        0 <= ln < k <= lines.len(),
        whole_word_at(lines[ln], w, i),
    ensures
        occurrences_upto(lines, w, k).contains(span(ln, i, i + w.len())),
    decreases k,
{
    let prev = occurrences_upto(lines, w, k - 1);
    let cur = occurrences_upto(lines, w, k);
    if ln < k - 1 {
        lemma_occurrences_upto_complete(lines, w, k - 1, ln, i);
        let j = choose|j: int| 0 <= j < prev.len() && prev[j] == span(ln, i, i + w.len());
        assert(cur[j] == prev[j]);
    } else {
        let lo = line_occurrences(k - 1, lines[k - 1], w, lines[k - 1].len() + 1int);
        assert(i + w.len() <= lines[ln].len());
        lemma_line_occurrences_complete(k - 1, lines[k - 1], w, lines[k - 1].len() + 1int, i);
        let j = choose|j: int| 0 <= j < lo.len() && lo[j] == span(ln, i, i + w.len());
        assert(cur[prev.len() + j] == lo[j]);
    }
}

/// Every whole-word occurrence of a non-empty word on a line of the text
/// is among the ranges that highlight, references and rename use.
pub proof fn law_occurrences_are_complete(text: Seq<char>, w: Seq<char>, ln: int, i: int)
    requires
        w.len() > 0,
        0 <= ln < split_lines(text).len(),
        whole_word_at(split_lines(text)[ln], w, i),
    ensures
        occurrences(text, w).contains(span(ln, i, i + w.len())),
{
    lemma_occurrences_upto_complete(split_lines(text), w, split_lines(text).len() as int, ln, i);
}

// ---------------------------------------------------------------------------
// The symbol table
// ---------------------------------------------------------------------------

/// The last of `syms` named `n`, if any.
pub open spec fn last_named(syms: Seq<SymbolModel>, n: Seq<char>) -> Option<SymbolModel>
    decreases syms.len(),
{
    if syms.len() == 0 {
        None
    } else if syms.last().name == n {
        Some(syms.last())
    } else {
        last_named(syms.drop_last(), n)
    }
}

proof fn lemma_index_of_unique(s: Seq<SymbolModel>, n: Seq<char>, i: int)
    requires
        unique_names(s),
        0 <= i < s.len(),
        s[i].name == n,
    ensures
        index_of_name(s, n) == i,
{
    lemma_index_of_name_from(s, n, 0);
}

proof fn lemma_lookup_none(s: Seq<SymbolModel>, n: Seq<char>)
    requires
        forall|k: int| 0 <= k < s.len() ==> s[k].name != n,
    ensures
        lookup(s, n) is None,
{
    lemma_index_of_name_from(s, n, 0);
}

/// After an insert, the inserted symbol is what its name finds, and every
/// other name finds what it found before.
pub proof fn law_insert_then_lookup(s: Seq<SymbolModel>, sym: SymbolModel, n: Seq<char>)
    requires
        unique_names(s),
    ensures
        unique_names(insert_symbol(s, sym)),
        lookup(insert_symbol(s, sym), n) == if n == sym.name {
            Some(sym)
        } else {
            lookup(s, n)
        },
{
    lemma_insert_unique(s, sym);
    lemma_index_of_name_from(s, sym.name, 0);
    lemma_index_of_name_from(s, n, 0);
    let t = insert_symbol(s, sym);
    let i = index_of_name(s, sym.name);
    let at = if i >= 0 { i } else { s.len() as int };
    assert(t[at] == sym);
    if n == sym.name {
        lemma_index_of_unique(t, n, at);
    } else {
        let j = index_of_name(s, n);
        if j >= 0 {
            assert(j != at);
            assert(t[j] == s[j]);
            lemma_index_of_unique(t, n, j);
        } else {
            assert forall|k: int| 0 <= k < t.len() implies t[k].name != n by {
                if k != at {
                    assert(t[k] == s[k]);
                }
            }
            lemma_lookup_none(t, n);
        }
    }
}

/// After inserting a list of symbols, a name finds the last of them with
/// that name; a name that none of them has finds what it found before.
pub proof fn law_insert_all_then_lookup(s: Seq<SymbolModel>, syms: Seq<SymbolModel>, n: Seq<char>)
    requires
        unique_names(s),
    ensures
        unique_names(insert_all(s, syms)),
        lookup(insert_all(s, syms), n) == match last_named(syms, n) {
            Some(x) => Some(x),
            None => lookup(s, n),
        },
    decreases syms.len(),
{
    if syms.len() > 0 {
        law_insert_all_then_lookup(s, syms.drop_last(), n);
        law_insert_then_lookup(insert_all(s, syms.drop_last()), syms.last(), n);
    }
}

proof fn lemma_without_uri_members(s: Seq<SymbolModel>, uri: Seq<char>, k: int)
    requires
        0 <= k <= s.len(),
    ensures
        forall|j: int| 0 <= j < without_uri(s, uri, k).len() ==> (#[trigger] without_uri(s, uri, k)[j]).uri != uri,
        forall|m: int| 0 <= m < k && s[m].uri != uri ==> exists|j: int|
            0 <= j < without_uri(s, uri, k).len() && without_uri(s, uri, k)[j] == #[trigger] s[m],
    decreases k,
{
    if k > 0 {
        lemma_without_uri_members(s, uri, k - 1);
        let w = without_uri(s, uri, k - 1);
        let w2 = without_uri(s, uri, k);
        assert forall|j: int| 0 <= j < w2.len() implies (#[trigger] w2[j]).uri != uri by {
            if j < w.len() {
                assert(w2[j] == w[j]);
            }
        }
        assert forall|m: int| 0 <= m < k && s[m].uri != uri implies exists|j: int|
            0 <= j < w2.len() && w2[j] == #[trigger] s[m] by {
            if m < k - 1 {
                let j = choose|j: int| 0 <= j < w.len() && w[j] == s[m];
                assert(w2[j] == w[j]);
            } else {
                assert(w2[w.len() as int] == s[m]);
            }
        }
    }
}

/// After the symbols of a document are dropped, a name finds what it found
/// before, unless that symbol came from the document; then it finds nothing.
pub proof fn law_drop_uri_then_lookup(s: Seq<SymbolModel>, uri: Seq<char>, n: Seq<char>)
    requires
        unique_names(s),
    ensures
        unique_names(drop_uri(s, uri)),
        lookup(drop_uri(s, uri), n) == match lookup(s, n) {
            Some(x) => if x.uri == uri {
                None
            } else {
                Some(x)
            },
            None => None,
        },
{
    let w = drop_uri(s, uri);
    lemma_without_uri_unique(s, uri, s.len() as int);
    lemma_without_uri_members(s, uri, s.len() as int);
    lemma_index_of_name_from(s, n, 0);
    let i = index_of_name(s, n);
    if i >= 0 && s[i].uri != uri {
        let j = choose|j: int| 0 <= j < w.len() && w[j] == s[i];
        lemma_index_of_unique(w, n, j);
    } else {
        assert forall|j: int| 0 <= j < w.len() implies w[j].name != n by {
            assert(in_prefix(s, s.len() as int, w[j]));
            let m = choose|m: int| 0 <= m < s.len() && s[m] == w[j];
            if w[j].name == n {
                lemma_index_of_unique(s, n, m);
                assert(w[j].uri != uri);
            }
        }
        lemma_lookup_none(w, n);
    }
}

/// After a document is re-indexed, a name finds the last symbol of that
/// name that the document now defines; failing that, what it found before,
/// unless that came from the document itself: stale definitions are gone.
pub proof fn law_reindex_then_lookup(s: Seq<SymbolModel>, uri: Seq<char>, content: Seq<char>, n: Seq<char>)
    requires
        unique_names(s),
    ensures
        unique_names(insert_all(drop_uri(s, uri), symbols_of(content, uri))),
        lookup(insert_all(drop_uri(s, uri), symbols_of(content, uri)), n) == match last_named(
            symbols_of(content, uri),
            n,
        ) {
            Some(x) => Some(x),
            None => match lookup(s, n) {
                Some(x) => if x.uri == uri {
                    None
                } else {
                    Some(x)
                },
                None => None,
            },
        },
{
    law_drop_uri_then_lookup(s, uri, n);
    law_insert_all_then_lookup(drop_uri(s, uri), symbols_of(content, uri), n);
}

// ---------------------------------------------------------------------------
// The API index
// ---------------------------------------------------------------------------

/// The last of `fs` whose lowercased name is `k`, if any.
pub open spec fn last_keyed(fs: Seq<ApiModel>, k: Seq<char>) -> Option<ApiModel>
    decreases fs.len(),
{
    if fs.len() == 0 {
        None
    } else if api_key(fs.last()) == k {
        Some(fs.last())
    } else {
        last_keyed(fs.drop_last(), k)
    }
}

/// Entries whose keys are distinct and are the keys of their functions.
pub open spec fn well_keyed(e: Seq<(Seq<char>, ApiModel)>) -> bool {
    &&& distinct_keys(keys_of(e))
    &&& forall|i: int| 0 <= i < e.len() ==> (#[trigger] e[i]).0 == api_key(e[i].1)
}

proof fn lemma_entry_lookup_at(e: Seq<(Seq<char>, ApiModel)>, i: int)
    requires
        distinct_keys(keys_of(e)),
        0 <= i < e.len(),
    ensures
        entry_lookup(e, e[i].0) == Some(e[i].1),
{
    assert forall|m: int| 0 <= m < i implies e[m].0 != e[i].0 by {
        assert(keys_of(e)[m] == e[m].0 && keys_of(e)[i] == e[i].0);
    }
    lemma_first_key(e, e[i].0, i);
}

proof fn lemma_entry_lookup_none(e: Seq<(Seq<char>, ApiModel)>, k: Seq<char>)
    requires
        forall|m: int| 0 <= m < e.len() ==> e[m].0 != k,
    ensures
        entry_lookup(e, k) is None,
{
    lemma_key_index_from(e, k, 0);
}

proof fn lemma_insert_entry(e: Seq<(Seq<char>, ApiModel)>, f: ApiModel, k: Seq<char>)
    requires
        well_keyed(e),
    ensures
        well_keyed(insert_entry(e, api_key(f), f)),
        entry_lookup(insert_entry(e, api_key(f), f), k) == if k == api_key(f) {
            Some(f)
        } else {
            entry_lookup(e, k)
        },
{
    let kf = api_key(f);
    let t = insert_entry(e, kf, f);
    lemma_key_index_from(e, kf, 0);
    lemma_key_index_from(e, k, 0);
    let i = key_index_from(e, kf, 0);
    let at = if i >= 0 { i } else { e.len() as int };
    assert(t[at] == (kf, f));
    assert forall|a: int, b: int| 0 <= a < b < keys_of(t).len() implies keys_of(t)[a] != keys_of(t)[b] by {
        assert(keys_of(t)[a] == t[a].0 && keys_of(t)[b] == t[b].0);
        if a != at && b != at {
            assert(keys_of(e)[a] == e[a].0 && keys_of(e)[b] == e[b].0);
        }
        if a == at && i < 0 {
            assert(e[b].0 != kf);
        }
        if b == at && i < 0 {
            assert(e[a].0 != kf);
        }
        if a == at && i >= 0 {
            assert(keys_of(e)[a] == e[a].0 && keys_of(e)[b] == e[b].0);
        }
        if b == at && i >= 0 {
            assert(keys_of(e)[a] == e[a].0 && keys_of(e)[b] == e[b].0);
        }
    }
    assert forall|m: int| 0 <= m < t.len() implies (#[trigger] t[m]).0 == api_key(t[m].1) by {
        if m != at {
            assert(t[m] == e[m]);
        }
    }
    if k == kf {
        lemma_entry_lookup_at(t, at);
    } else {
        let j = key_index_from(e, k, 0);
        if j >= 0 {
            assert(t[j] == e[j]);
            lemma_entry_lookup_at(t, j);
        } else {
            assert forall|m: int| 0 <= m < t.len() implies t[m].0 != k by {
                if m != at {
                    assert(t[m] == e[m]);
                }
            }
            lemma_entry_lookup_none(t, k);
        }
    }
}

/// The entries of an index are distinct keys, each the lowercased name of
/// its function.
pub proof fn law_index_well_keyed(fs: Seq<ApiModel>)
    ensures
        well_keyed(index_entries(fs)),
    decreases fs.len(),
{
    if fs.len() > 0 {
        law_index_well_keyed(fs.drop_last());
        lemma_insert_entry(index_entries(fs.drop_last()), fs.last(), Seq::empty());
    }
}

/// Looking a name up in the index built from `fs` finds the last function of
/// `fs` with that lowercased name: lookup ignores case, and a later function
/// replaces an earlier one of the same name.
pub proof fn law_init_then_get(fs: Seq<ApiModel>, name: Seq<char>)
    ensures
        entry_lookup(index_entries(fs), lowercase(name)) == last_keyed(fs, lowercase(name)),
    decreases fs.len(),
{
    if fs.len() > 0 {
        law_init_then_get(fs.drop_last(), name);
        law_index_well_keyed(fs.drop_last());
        lemma_insert_entry(index_entries(fs.drop_last()), fs.last(), lowercase(name));
    }
}

proof fn lemma_prefixed(names: Seq<Seq<char>>, needle: Seq<char>, k: int)
    requires
        0 <= k <= names.len(),
        strictly_sorted(names),
    ensures
        strictly_sorted(prefixed(names, needle, k)),
        forall|j: int| 0 <= j < prefixed(names, needle, k).len() ==> occurs_at(
            #[trigger] prefixed(names, needle, k)[j],
            needle,
            0,
        ) && exists|m: int| 0 <= m < k && names[m] == prefixed(names, needle, k)[j],
        forall|m: int| 0 <= m < k && occurs_at(names[m], needle, 0) ==> #[trigger] prefixed(
            names,
            needle,
            k,
        ).contains(names[m]),
    decreases k,
{
    if k > 0 {
        lemma_prefixed(names, needle, k - 1);
        let p = prefixed(names, needle, k - 1);
        let q = prefixed(names, needle, k);
        assert forall|j: int| 0 <= j < q.len() implies occurs_at(#[trigger] q[j], needle, 0) && exists|m: int|
            0 <= m < k && names[m] == q[j] by {
            if j < p.len() {
                assert(q[j] == p[j]);
                let m = choose|m: int| 0 <= m < k - 1 && names[m] == p[j];
                assert(0 <= m < k && names[m] == q[j]);
            } else {
                assert(q[j] == names[k - 1]);
            }
        }
        assert forall|a: int, b: int| 0 <= a < b < q.len() implies lex_lt(q[a], q[b]) by {
            if b < p.len() {
                assert(q[a] == p[a] && q[b] == p[b]);
            } else {
                assert(q[a] == p[a]);
                assert(q[b] == names[k - 1]);
                let m = choose|m: int| 0 <= m < k - 1 && names[m] == p[a];
                assert(lex_lt(names[m], names[k - 1]));
            }
        }
        assert forall|m: int| 0 <= m < k && occurs_at(names[m], needle, 0) implies #[trigger] q.contains(
            names[m],
        ) by {
            if m < k - 1 {
                assert(p.contains(names[m]));
                let j = choose|j: int| 0 <= j < p.len() && p[j] == names[m];
                assert(q[j] == p[j]);
            } else {
                assert(q[p.len() as int] == names[m]);
            }
        }
    }
}

proof fn lemma_lookups(e: Seq<(Seq<char>, ApiModel)>, ns: Seq<Seq<char>>)
    requires
        well_keyed(e),
        forall|j: int| 0 <= j < ns.len() ==> keys_of(e).contains(#[trigger] ns[j]),
    ensures
        lookups(e, ns).len() == ns.len(),
        forall|j: int| 0 <= j < ns.len() ==> api_key(#[trigger] lookups(e, ns)[j]) == ns[j] && Some(
            lookups(e, ns)[j],
        ) == entry_lookup(e, ns[j]),
    decreases ns.len(),
{
    if ns.len() > 0 {
        let init = ns.drop_last();
        assert forall|j: int| 0 <= j < init.len() implies keys_of(e).contains(#[trigger] init[j]) by {
            assert(init[j] == ns[j]);
        }
        lemma_lookups(e, init);
        assert(keys_of(e).contains(ns[ns.len() - 1]));
        let i = choose|i: int| 0 <= i < keys_of(e).len() && keys_of(e)[i] == ns.last();
        assert(e[i].0 == ns.last());
        lemma_entry_lookup_at(e, i);
        let r = lookups(e, ns);
        assert forall|j: int| 0 <= j < ns.len() implies api_key(#[trigger] r[j]) == ns[j] && Some(r[j])
            == entry_lookup(e, ns[j]) by {
            if j < init.len() {
                assert(r[j] == lookups(e, init)[j]);
                assert(init[j] == ns[j]);
            } else {
                assert(r[j] == e[i].1);
            }
        }
    }
}

/// The completions of a non-empty lowercased prefix from the index built
/// from `fs`: at most `limit` functions, each with a lowercased name that
/// starts with the prefix, in strictly increasing order of that name; as
/// many as there are matching names, up to `limit`; and every matching
/// function when there are no more than `limit` of them.
pub proof fn law_completions(m: ApiIndexModel, fs: Seq<ApiModel>, needle: Seq<char>, limit: int)
    requires
        index_consistent(m),
        m.entries == index_entries(fs),
        needle.len() > 0,
        limit >= 0,
    ensures
        completion_models(m, needle, limit).len() <= limit,
        completion_models(m, needle, limit).len() == first_n(
            prefixed(m.names, needle, m.names.len() as int),
            limit,
        ).len(),
        forall|j: int| 0 <= j < completion_models(m, needle, limit).len() ==> occurs_at(
            api_key(#[trigger] completion_models(m, needle, limit)[j]),
            needle,
            0,
        ),
        forall|a: int, b: int| 0 <= a < b < completion_models(m, needle, limit).len() ==> lex_lt(
            api_key(#[trigger] completion_models(m, needle, limit)[a]),
            api_key(#[trigger] completion_models(m, needle, limit)[b]),
        ),
        prefixed(m.names, needle, m.names.len() as int).len() <= limit ==> forall|i: int|
            0 <= i < m.entries.len() && occurs_at(m.entries[i].0, needle, 0)
                ==> #[trigger] completion_models(m, needle, limit).contains(m.entries[i].1),
{
    let e = m.entries;
    let names = m.names;
    law_index_well_keyed(fs);
    lemma_prefixed(names, needle, names.len() as int);
    let p = prefixed(names, needle, names.len() as int);
    let chosen = first_n(p, limit);
    names.to_multiset_ensures();
    keys_of(e).to_multiset_ensures();
    assert forall|j: int| 0 <= j < chosen.len() implies keys_of(e).contains(#[trigger] chosen[j]) by {
        assert(chosen[j] == p[j]);
        let mm = choose|mm: int| 0 <= mm < names.len() && names[mm] == p[j];
        assert(names.contains(names[mm]));
        assert(names.to_multiset().count(chosen[j]) > 0);
        assert(keys_of(e).to_multiset().count(chosen[j]) > 0);
    }
    lemma_lookups(e, chosen);
    let r = completion_models(m, needle, limit);
    assert(r == lookups(e, chosen));
    assert forall|j: int| 0 <= j < r.len() implies occurs_at(api_key(#[trigger] r[j]), needle, 0) by {
        assert(chosen[j] == p[j]);
    }
    assert forall|a: int, b: int| 0 <= a < b < r.len() implies lex_lt(
        api_key(#[trigger] r[a]),
        api_key(#[trigger] r[b]),
    ) by {
        assert(chosen[a] == p[a] && chosen[b] == p[b]);
    }
    if p.len() <= limit {
        assert(chosen == p);
        assert forall|i: int| 0 <= i < e.len() && occurs_at(e[i].0, needle, 0) implies #[trigger] r.contains(
            e[i].1,
        ) by {
            assert(keys_of(e)[i] == e[i].0);
            assert(keys_of(e).contains(e[i].0));
            assert(keys_of(e).to_multiset().count(e[i].0) > 0);
            assert(names.to_multiset().count(e[i].0) > 0);
            let mm = choose|mm: int| 0 <= mm < names.len() && names[mm] == e[i].0;
            assert(p.contains(names[mm]));
            let j = choose|j: int| 0 <= j < p.len() && p[j] == names[mm];
            lemma_entry_lookup_at(e, i);
            assert(r[j] == e[i].1);
        }
    }
}

// ---------------------------------------------------------------------------
// Completion items
// ---------------------------------------------------------------------------

/// The API items of a completion list repeat no name already seen (the
/// names of the built-in and Allegro tables), nor one another: names are
/// compared lowercased.
pub proof fn law_api_items_fresh(fs: Seq<ApiModel>, seen: Seq<Seq<char>>, call: bool)
    ensures
        forall|i: int| 0 <= i < api_items(fs, seen, call).len() ==> !seen.contains(
            lowercase(#[trigger] api_items(fs, seen, call)[i].label),
        ),
        forall|i: int, j: int| 0 <= i < j < api_items(fs, seen, call).len() ==> lowercase(
            #[trigger] api_items(fs, seen, call)[i].label,
        ) != lowercase(#[trigger] api_items(fs, seen, call)[j].label),
    decreases fs.len(),
{
    if fs.len() > 0 {
        let k = lowercase(fs[0].name);
        let r = api_items(fs, seen, call);
        if seen.contains(k) {
            law_api_items_fresh(fs.drop_first(), seen, call);
        } else {
            let seen2 = seen.push(k);
            let rest = api_items(fs.drop_first(), seen2, call);
            law_api_items_fresh(fs.drop_first(), seen2, call);
            assert(r[0].label == fs[0].name);
            assert forall|i: int| 0 <= i < r.len() implies !seen.contains(lowercase(#[trigger] r[i].label)) by {
                if i > 0 {
                    assert(r[i] == rest[i - 1]);
                    if seen.contains(lowercase(r[i].label)) {
                        let m = choose|m: int| 0 <= m < seen.len() && seen[m] == lowercase(r[i].label);
                        assert(seen2[m] == seen[m]);
                    }
                }
            }
            assert forall|i: int, j: int| 0 <= i < j < r.len() implies lowercase(#[trigger] r[i].label) != lowercase(
                #[trigger] r[j].label,
            ) by {
                assert(r[j] == rest[j - 1]);
                if i == 0 {
                    assert(seen2[seen.len() as int] == k);
                } else {
                    assert(r[i] == rest[i - 1]);
                }
            }
        }
    }
}

// ---------------------------------------------------------------------------
// Diagnostics
// ---------------------------------------------------------------------------

/// A diagnostic marks, on one line of `lines`, the text it reports: an
/// unescaped quote, a `)`, a `(`, the word `deffun` or the word `stringLength`.
pub open spec fn points_at(lines: Seq<Seq<char>>, d: Diagnostic) -> bool {
    let ln = d.range.start.line as int;
    let c = d.range.start.character as int;
    &&& d.range.end.line == d.range.start.line
    &&& 0 <= ln < lines.len()
    &&& 0 <= c < lines[ln].len()
    &&& match d.kind {
        DiagnosticKind::UnmatchedQuote => quote_at(lines[ln], c),
        DiagnosticKind::UnexpectedClose => lines[ln][c] == ')',
        DiagnosticKind::Unclosed => lines[ln][c] == '(',
        DiagnosticKind::Misspelling => occurs_at(lines[ln], deffun_word(), c),
        DiagnosticKind::Deprecated => occurs_at(lines[ln], string_length_word(), c),
    }
}

/// Lines and columns fit the protocol's 32-bit fields.
pub open spec fn fits_u32(lines: Seq<Seq<char>>) -> bool {
    &&& lines.len() <= u32::MAX
    &&& forall|k: int| 0 <= k < lines.len() ==> #[trigger] lines[k].len() <= u32::MAX
}

/// A `(` stands at `p`.
pub open spec fn open_at(lines: Seq<Seq<char>>, p: Position) -> bool {
    &&& 0 <= p.line < lines.len()
    &&& 0 <= p.character < lines[p.line as int].len()
    &&& lines[p.line as int][p.character as int] == '('
}

/// Every diagnostic of a scan points at its text and every open position holds a `(`.
pub open spec fn scan_ok(lines: Seq<Seq<char>>, st: ParenScan) -> bool {
    &&& forall|j: int| 0 <= j < st.diags.len() ==> points_at(lines, #[trigger] st.diags[j])
    &&& forall|j: int| 0 <= j < st.stack.len() ==> open_at(lines, #[trigger] st.stack[j])
}

proof fn lemma_scan_line_ok(lines: Seq<Seq<char>>, ln: int, i: int, in_string: bool, st: ParenScan)
    requires
        fits_u32(lines),
        0 <= ln < lines.len(),
        0 <= i,
        scan_ok(lines, st),
    ensures
        scan_ok(lines, scan_line(ln, lines[ln], i, in_string, st)),
    decreases lines[ln].len() - i,
{
    let line = lines[ln];
    if i < line.len() {
        assert(line.len() <= u32::MAX);
        let c = line[i];
        if st.in_block {
            if c == '*' && i + 1 < line.len() && line[i + 1] == '/' {
                lemma_scan_line_ok(lines, ln, i + 2, in_string, ParenScan { in_block: false, ..st });
            } else {
                lemma_scan_line_ok(lines, ln, i + 1, in_string, st);
            }
        } else if in_string {
            lemma_scan_line_ok(lines, ln, i + 1, false, st);
            lemma_scan_line_ok(lines, ln, i + 1, true, st);
        } else if c == ';' {
        } else if c == '"' {
            lemma_scan_line_ok(lines, ln, i + 1, true, st);
        } else if c == '/' && i + 1 < line.len() && line[i + 1] == '*' {
            lemma_scan_line_ok(lines, ln, i + 2, false, ParenScan { in_block: true, ..st });
        } else if c == '(' {
            let p = Position { line: ln as u32, character: i as u32 };
            let st2 = ParenScan { stack: st.stack.push(p), ..st };
            assert(open_at(lines, p));
            assert forall|j: int| 0 <= j < st2.stack.len() implies open_at(lines, #[trigger] st2.stack[j]) by {
                if j < st.stack.len() {
                    assert(st2.stack[j] == st.stack[j]);
                }
            }
            lemma_scan_line_ok(lines, ln, i + 1, false, st2);
        } else if c == ')' {
            if st.stack.len() == 0 {
                let d = Diagnostic { range: span(ln, i, i + 1), kind: DiagnosticKind::UnexpectedClose };
                let st2 = ParenScan { diags: st.diags.push(d), ..st };
                assert(points_at(lines, d));
                assert forall|j: int| 0 <= j < st2.diags.len() implies points_at(lines, #[trigger] st2.diags[j]) by {
                    if j < st.diags.len() {
                        assert(st2.diags[j] == st.diags[j]);
                    }
                }
                lemma_scan_line_ok(lines, ln, i + 1, false, st2);
            } else {
                let st2 = ParenScan { stack: st.stack.drop_last(), ..st };
                assert forall|j: int| 0 <= j < st2.stack.len() implies open_at(lines, #[trigger] st2.stack[j]) by {
                    assert(st2.stack[j] == st.stack[j]);
                }
                lemma_scan_line_ok(lines, ln, i + 1, false, st2);
            }
        } else {
            lemma_scan_line_ok(lines, ln, i + 1, false, st);
        }
    }
}

proof fn lemma_scan_lines_ok(lines: Seq<Seq<char>>, k: int)
    requires
        fits_u32(lines),
        0 <= k <= lines.len(),
    ensures
        scan_ok(lines, scan_lines(lines, k)),
    decreases k,
{
    if k > 0 {
        lemma_scan_lines_ok(lines, k - 1);
        lemma_scan_line_ok(lines, k - 1, 0, false, scan_lines(lines, k - 1));
    }
}

proof fn lemma_quote_scan_ok(line: Seq<char>, i: int, st: QuoteScan)
    requires
        0 <= i,
        st.in_string ==> quote_at(line, st.last),
    ensures
        quote_scan(line, i, st).in_string ==> quote_at(line, quote_scan(line, i, st).last),
    decreases line.len() - i,
{
    if i < line.len() {
        let c = line[i];
        if st.in_block {
            if c == '*' && i + 1 < line.len() && line[i + 1] == '/' {
                lemma_quote_scan_ok(line, i + 2, QuoteScan { in_block: false, ..st });
            } else {
                lemma_quote_scan_ok(line, i + 1, st);
            }
        } else if st.in_string {
            lemma_quote_scan_ok(line, i + 1, QuoteScan { in_string: false, ..st });
            lemma_quote_scan_ok(line, i + 1, st);
        } else if c == ';' {
        } else if quote_at(line, i) {
            lemma_quote_scan_ok(line, i + 1, QuoteScan { in_string: true, last: i, ..st });
        } else if c == '/' && i + 1 < line.len() && line[i + 1] == '*' {
            lemma_quote_scan_ok(line, i + 2, QuoteScan { in_block: true, ..st });
        } else {
            lemma_quote_scan_ok(line, i + 1, st);
        }
    }
}

proof fn lemma_quote_diags_ok(lines: Seq<Seq<char>>, k: int)
    requires
        fits_u32(lines),
        0 <= k <= lines.len(),
    ensures
        forall|j: int| 0 <= j < quote_diags(lines, k).len() ==> points_at(lines, #[trigger] quote_diags(lines, k)[j]),
    decreases k,
{
    if k > 0 {
        lemma_quote_diags_ok(lines, k - 1);
        let line = lines[k - 1];
        assert(line.len() <= u32::MAX);
        let prev = quote_lines(lines, k - 1);
        let st = quote_scan(line, 0, QuoteScan { in_block: prev.0, in_string: false, last: 0 });
        lemma_quote_scan_ok(line, 0, QuoteScan { in_block: prev.0, in_string: false, last: 0 });
        let mine = quote_line_diag(k - 1, st);
        let all = quote_diags(lines, k);
        assert(all == prev.1 + mine);
        assert forall|j: int| 0 <= j < all.len() implies points_at(lines, #[trigger] all[j]) by {
            if j < prev.1.len() {
                assert(all[j] == prev.1[j]);
                assert(quote_diags(lines, k - 1) == prev.1);
            } else {
                assert(all[j] == mine[j - prev.1.len()]);
            }
        }
    }
}

proof fn lemma_occurs_in_prefix(line: Seq<char>, n: int, w: Seq<char>, i: int)
    requires
        0 <= n <= line.len(),
        occurs_at(line.take(n), w, i),
    ensures
        occurs_at(line, w, i),
{
    assert(line.subrange(i, i + w.len()) =~= line.take(n).subrange(i, i + w.len()));
}

proof fn lemma_first_occurrence_at(s: Seq<char>, w: Seq<char>, i: int)
    requires
        0 <= i,
        first_occurrence(s, w, i) >= 0,
    ensures
        occurs_at(s, w, first_occurrence(s, w, i)),
    decreases s.len() + 1 - i,
{
    if i <= s.len() && !occurs_at(s, w, i) {
        lemma_first_occurrence_at(s, w, i + 1);
    }
}

proof fn lemma_misspell_ok(lines: Seq<Seq<char>>, ln: int, n: int)
    requires
        fits_u32(lines),
        0 <= ln < lines.len(),
        0 <= n <= code_end(lines[ln]),
        code_end(lines[ln]) <= lines[ln].len(),
    ensures
        forall|j: int| 0 <= j < misspell_diags(ln, lines[ln].take(code_end(lines[ln])), n).len() ==> points_at(
            lines,
            #[trigger] misspell_diags(ln, lines[ln].take(code_end(lines[ln])), n)[j],
        ),
    decreases n,
{
    if n > 0 {
        let line = lines[ln];
        let code = line.take(code_end(line));
        lemma_misspell_ok(lines, ln, n - 1);
        let prev = misspell_diags(ln, code, n - 1);
        let all = misspell_diags(ln, code, n);
        if misspelled_at(code, n - 1) {
            lemma_occurs_in_prefix(line, code_end(line), deffun_word(), n - 1);
        }
        assert forall|j: int| 0 <= j < all.len() implies points_at(lines, #[trigger] all[j]) by {
            if j < prev.len() {
                assert(all[j] == prev[j]);
            }
        }
    }
}

proof fn lemma_mistake_diags_ok(lines: Seq<Seq<char>>, k: int)
    requires
        fits_u32(lines),
        0 <= k <= lines.len(),
    ensures
        forall|j: int| 0 <= j < mistake_diags(lines, k).len() ==> points_at(lines, #[trigger] mistake_diags(lines, k)[j]),
    decreases k,
{
    if k > 0 {
        lemma_mistake_diags_ok(lines, k - 1);
        let line = lines[k - 1];
        assert(line.len() <= u32::MAX);
        lemma_comment_from(line, 0);
        let code = line.take(code_end(line));
        lemma_misspell_ok(lines, k - 1, code.len() as int);
        let f = first_occurrence(code, string_length_word(), 0);
        if f >= 0 {
            lemma_first_occurrence_at(code, string_length_word(), 0);
            lemma_occurs_in_prefix(line, code_end(line), string_length_word(), f);
        }
        let prev = mistake_diags(lines, k - 1);
        let mine = mistake_diags_of_line(k - 1, line);
        let mis = misspell_diags(k - 1, code, code.len() as int);
        let all = mistake_diags(lines, k);
        assert forall|j: int| 0 <= j < all.len() implies points_at(lines, #[trigger] all[j]) by {
            if j < prev.len() {
                assert(all[j] == prev[j]);
            } else if j - prev.len() < mis.len() {
                assert(all[j] == mis[j - prev.len()]);
            } else {
                assert(all[j] == mine[j - prev.len()]);
            }
        }
    }
}

/// Every diagnostic of a text marks, on one of its lines, the text it
/// reports: an unmatched quote marks a quote, an unexpected close a `)`, an
/// unclosed parenthesis a `(`, a misspelling the word `deffun` and a
/// deprecation the word `stringLength` (for texts whose lines and columns
/// fit the protocol's 32-bit fields).
pub proof fn law_diagnostics_point_at_their_text(text: Seq<char>)
    requires
        text.len() < u32::MAX,
    ensures
        forall|j: int| 0 <= j < diagnostics_of(text).len() ==> points_at(
            split_lines(text),
            #[trigger] diagnostics_of(text)[j],
        ),
{
    let lines = split_lines(text);
    lemma_split_lines_bounds(text);
    assert(fits_u32(lines));
    lemma_quote_diags_ok(lines, lines.len() as int);
    lemma_scan_lines_ok(lines, lines.len() as int);
    lemma_mistake_diags_ok(lines, lines.len() as int);
    let q = quote_diags(lines, lines.len() as int);
    let st = scan_lines(lines, lines.len() as int);
    let p = paren_diags(lines);
    let m = mistake_diags(lines, lines.len() as int);
    let all = diagnostics_of(text);
    assert forall|j: int| 0 <= j < p.len() implies points_at(lines, #[trigger] p[j]) by {
        if j < st.diags.len() {
            assert(p[j] == st.diags[j]);
        } else {
            let pos = st.stack[j - st.diags.len()];
            assert(open_at(lines, pos));
            assert(p[j] == unclosed_at(pos));
        }
    }
    assert forall|j: int| 0 <= j < all.len() implies points_at(lines, #[trigger] all[j]) by {
        if j < q.len() {
            assert(all[j] == q[j]);
        } else if j < q.len() + p.len() {
            assert(all[j] == p[j - q.len()]);
        } else {
            assert(all[j] == m[j - q.len() - p.len()]);
        }
    }
}

// ---------------------------------------------------------------------------
// Symbols
// ---------------------------------------------------------------------------

/// The range of `s` marks its name on its line of `lines`.
pub open spec fn marks_name(lines: Seq<Seq<char>>, s: SymbolModel) -> bool {
    let ln = s.range.start.line as int;
    let c = s.range.start.character as int;
    &&& s.range.end.line == s.range.start.line
    &&& s.range.end.character == c + s.name.len()
    &&& 0 <= ln < lines.len()
    &&& occurs_at(lines[ln], s.name, c)
}

proof fn lemma_group_text(text: Seq<char>, groups: Seq<Option<(usize, usize)>>, g: int)
    ensures
        group_text(text, groups, g) matches Some((t, c)) ==> occurs_at(text, t, c),
{
    if 0 <= g < groups.len() {
        if let Some((bs, be)) = groups[g] {
            lemma_char_index_from(text, 0, 0, bs as int);
            lemma_char_index_from(text, 0, 0, be as int);
            if let (Some(cs), Some(ce)) = (char_index_of_byte(text, bs as int), char_index_of_byte(text, be as int)) {
                if cs <= ce {
                    assert(text.subrange(cs, cs + text.subrange(cs, ce).len()) =~= text.subrange(cs, ce));
                }
            }
        }
    }
}

proof fn lemma_symbols_upto(uri: Seq<char>, lines: Seq<Seq<char>>, k: int)
    requires
        fits_u32(lines),
        0 <= k <= lines.len(),
    ensures
        forall|j: int| 0 <= j < symbols_upto(defun_pattern(), uri, lines, k).len() ==> {
            let s = #[trigger] symbols_upto(defun_pattern(), uri, lines, k)[j];
            marks_name(lines, s) && s.uri == uri
        },
    decreases k,
{
    if k > 0 {
        lemma_symbols_upto(uri, lines, k - 1);
        let line = lines[k - 1];
        assert(line.len() <= u32::MAX);
        let prev = symbols_upto(defun_pattern(), uri, lines, k - 1);
        let all = symbols_upto(defun_pattern(), uri, lines, k);
        if let Some(s) = symbol_of_line(defun_pattern(), uri, lines, k - 1) {
            let groups = crate::pattern::regex_captures(defun_pattern(), line)->0;
            lemma_group_text(line, groups, 1);
            assert(marks_name(lines, s));
            assert(all[prev.len() as int] == s);
        }
        assert forall|j: int| 0 <= j < all.len() implies {
            let s = #[trigger] all[j];
            marks_name(lines, s) && s.uri == uri
        } by {
            if j < prev.len() {
                assert(all[j] == prev[j]);
            }
        }
    }
}

/// The range of every symbol that a document defines marks its name on its
/// line of the document, so that going to a definition lands on the name
/// (for documents whose lines and columns fit the protocol's 32-bit fields).
pub proof fn law_symbols_mark_their_names(content: Seq<char>, uri: Seq<char>)
    requires
        content.len() < u32::MAX,
    ensures
        forall|j: int| 0 <= j < symbols_of(content, uri).len() ==> {
            let s = #[trigger] symbols_of(content, uri)[j];
            marks_name(split_lines(content), s) && s.uri == uri
        },
{
    lemma_split_lines_bounds(content);
    if crate::pattern::regex_valid(defun_pattern()) {
        lemma_symbols_upto(uri, split_lines(content), split_lines(content).len() as int);
    }
}

// ---------------------------------------------------------------------------
// The word under the cursor
// ---------------------------------------------------------------------------

/// The word under the cursor is a non-empty run of symbol characters that
/// reaches the (clamped) cursor column and cannot be extended on either
/// side; there is none only when no symbol character touches the column.
pub proof fn law_word_under_cursor(line: Seq<char>, character: u32)
    ensures
        word_range_in_line(line, character) matches Some((s, e)) ==> {
            &&& 0 <= s <= clamp_column(line, character) <= e <= line.len()
            &&& s < e
            &&& forall|k: int| s <= k < e ==> word_char(#[trigger] line[k])
            &&& s > 0 ==> !word_char(line[s - 1])
            &&& e < line.len() ==> !word_char(line[e])
        },
        word_range_in_line(line, character) is None ==> {
            let p = clamp_column(line, character);
            &&& p == 0 || !word_char(line[p - 1])
            &&& p == line.len() || !word_char(line[p])
        },
{
    let p = clamp_column(line, character);
    lemma_word_bounds(line, p);
    if p > 0 && word_char(line[p - 1]) {
        assert(crate::document::word_start(line, p) < p);
    }
    if p < line.len() && word_char(line[p]) {
        assert(crate::document::word_end(line, p) > p);
    }
}

// ---------------------------------------------------------------------------
// The search for the language server binary
// ---------------------------------------------------------------------------

/// Each step of the search either ignores an event that does not answer the
/// pending action, or moves to a later stage, so that a search ends after at
/// most six answers; it ends exactly when it finds a path or fails; and a
/// path found by `which` or among the common locations becomes the cached path.
pub proof fn law_lookup_progress(m: LookupModel, e: EventModel)
    requires
        m.stage matches LookupStage::Common(i) ==> i <= 2,
    ensures
        lookup_step(m, e).0.stage matches LookupStage::Common(i) ==> i <= 2,
        lookup_step(m, e).0 == m || stages_left(lookup_step(m, e).0.stage) < stages_left(m.stage),
        (lookup_step(m, e).0.stage == LookupStage::Done) <==> (lookup_step(m, e).1 is Found || lookup_step(
            m,
            e,
        ).1 is Fail),
        lookup_step(m, e).1 matches ActionModel::Found(p) ==> (m.stage == LookupStage::Settings
            || m.stage == LookupStage::Cached || lookup_step(m, e).0.cached == Some(p)),
{
}

// ---------------------------------------------------------------------------
// Formatting
// ---------------------------------------------------------------------------

/// The pieces joined, each followed by a line feed.
pub open spec fn join_lines_nl(p: Seq<Seq<char>>) -> Seq<char>
    decreases p.len(),
{
    if p.len() == 0 {
        Seq::empty()
    } else {
        join_lines_nl(p.drop_last()) + p.last() + seq!['\n']
    }
}

/// Where piece `j` starts in `join_lines_nl(p)`.
pub open spec fn piece_start(p: Seq<Seq<char>>, j: int) -> int
    decreases j,
{
    if j <= 0 {
        0
    } else {
        piece_start(p, j - 1) + p[j - 1].len() + 1
    }
}

/// `l` holds no line feed and does not end with a carriage return.
pub open spec fn plain_line(l: Seq<char>) -> bool {
    &&& forall|i: int| 0 <= i < l.len() ==> #[trigger] l[i] != '\n'
    &&& (l.len() > 0 ==> l.last() != '\r')
}

proof fn lemma_piece_start_mono(p: Seq<Seq<char>>, a: int, b: int)
    requires
        0 <= a <= b <= p.len(),
    ensures
        0 <= piece_start(p, a),
        piece_start(p, a) + (if a < b { p[a].len() + 1 } else { 0 }) <= piece_start(p, b),
    decreases b - a,
{
    lemma_piece_start_nonneg(p, a);
    if a < b {
        lemma_piece_start_mono(p, a + 1, b);
    }
}

proof fn lemma_piece_start_nonneg(p: Seq<Seq<char>>, j: int)
    ensures
        0 <= piece_start(p, j),
    decreases j,
{
    if j > 0 {
        lemma_piece_start_nonneg(p, j - 1);
    }
}

proof fn lemma_join_lines_nl(p: Seq<Seq<char>>)
    ensures
        join_lines_nl(p).len() == piece_start(p, p.len() as int),
        forall|j: int, i: int|
            0 <= j < p.len() && 0 <= i < p[j].len() ==> #[trigger] join_lines_nl(p)[piece_start(p, j) + i]
                == #[trigger] p[j][i],
        forall|j: int| 0 <= j < p.len() ==> #[trigger] join_lines_nl(p)[piece_start(p, j) + p[j].len()] == '\n',
    decreases p.len(),
{
    if p.len() > 0 {
        let q = p.drop_last();
        lemma_join_lines_nl(q);
        let n = p.len() - 1;
        assert forall|j: int| 0 <= j <= n implies piece_start(q, j) == piece_start(p, j) by {
            lemma_piece_start_eq(p, q, j);
        }
        let jq = join_lines_nl(q);
        let s = join_lines_nl(p);
        assert(s == jq + p.last() + seq!['\n']);
        assert(jq.len() == piece_start(p, n));
        assert(s.len() == piece_start(p, p.len() as int));
        assert forall|x: int| 0 <= x < jq.len() implies #[trigger] s[x] == jq[x] by {
            assert((jq + p.last())[x] == jq[x]);
        }
        assert forall|j: int, i: int| 0 <= j < p.len() && 0 <= i < p[j].len() implies #[trigger] s[piece_start(p, j) + i]
            == #[trigger] p[j][i] by {
            if j < n {
                lemma_piece_start_mono(p, j, n);
                assert(q[j] == p[j]);
                assert(jq[piece_start(q, j) + i] == q[j][i]);
                assert(s[piece_start(p, j) + i] == jq[piece_start(p, j) + i]);
            } else {
                assert((jq + p.last())[jq.len() + i] == p.last()[i]);
            }
        }
        assert forall|j: int| 0 <= j < p.len() implies #[trigger] s[piece_start(p, j) + p[j].len()] == '\n' by {
            if j < n {
                lemma_piece_start_mono(p, j, n);
                assert(q[j] == p[j]);
                assert(jq[piece_start(q, j) + q[j].len()] == '\n');
                assert(s[piece_start(p, j) + p[j].len()] == jq[piece_start(p, j) + p[j].len()]);
            } else {
                assert(s[(jq.len() + p.last().len()) as int] == '\n');
            }
        }
    }
}

proof fn lemma_piece_start_eq(p: Seq<Seq<char>>, q: Seq<Seq<char>>, j: int)
    requires
        0 <= j <= q.len(),
        q.len() <= p.len(),
        forall|k: int| 0 <= k < q.len() ==> q[k] == p[k],
    ensures
        piece_start(q, j) == piece_start(p, j),
    decreases j,
{
    if j > 0 {
        lemma_piece_start_eq(p, q, j - 1);
    }
}

proof fn lemma_newline_at(s: Seq<char>, a: int, b: int)
    requires
        0 <= a <= b < s.len(),
        s[b] == '\n',
        forall|k: int| a <= k < b ==> s[k] != '\n',
    ensures
        newline_from(s, a) == b,
    decreases b - a,
{
    if a < b {
        lemma_newline_at(s, a + 1, b);
    }
}

proof fn lemma_lines_of_join_from(p: Seq<Seq<char>>, j: int)
    requires
        0 <= j <= p.len(),
        forall|k: int| 0 <= k < p.len() ==> plain_line(#[trigger] p[k]),
    ensures
        lines_from(join_lines_nl(p), piece_start(p, j)) == p.subrange(j, p.len() as int),
    decreases p.len() - j,
{
    let s = join_lines_nl(p);
    lemma_join_lines_nl(p);
    if j == p.len() {
        assert(p.subrange(j, p.len() as int) =~= Seq::<Seq<char>>::empty());
    } else {
        let a = piece_start(p, j);
        let b = a + p[j].len();
        lemma_piece_start_mono(p, j, p.len() as int);
        assert(s.len() == piece_start(p, p.len() as int));
        assert(b < s.len());
        assert(plain_line(p[j]));
        assert(s[b] == '\n');
        assert forall|k: int| a <= k < b implies s[k] != '\n' by {
            assert(s[a + (k - a)] == p[j][k - a]);
        }
        lemma_newline_at(s, a, b);
        assert(s.subrange(a, b) =~= p[j]) by {
            assert forall|i: int| 0 <= i < p[j].len() implies s.subrange(a, b)[i] == p[j][i] by {
                assert(s[a + i] == p[j][i]);
            }
        }
        assert(strip_cr(s.subrange(a, b)) == p[j]);
        assert(piece_start(p, j + 1) == b + 1);
        lemma_lines_of_join_from(p, j + 1);
        assert(p.subrange(j, p.len() as int) =~= seq![p[j]] + p.subrange(j + 1, p.len() as int));
    }
}

/// Pieces without line feeds, each followed by a line feed, split back
/// into the same pieces.
proof fn lemma_lines_of_join(p: Seq<Seq<char>>)
    requires
        forall|k: int| 0 <= k < p.len() ==> plain_line(#[trigger] p[k]),
    ensures
        split_lines(join_lines_nl(p)) == p,
{
    lemma_lines_of_join_from(p, 0);
    assert(p.subrange(0, p.len() as int) =~= p);
}

proof fn lemma_lines_from_no_newline(s: Seq<char>, start: int)
    requires
        0 <= start,
    ensures
        forall|k: int, i: int| 0 <= k < lines_from(s, start).len() && 0 <= i < lines_from(s, start)[k].len()
            ==> #[trigger] lines_from(s, start)[k][i] != '\n',
    decreases s.len() - start,
{
    if start < s.len() {
        lemma_newline_from(s, start);
        let e = newline_from(s, start);
        let ls = lines_from(s, start);
        if e < s.len() {
            lemma_lines_from_no_newline(s, e + 1);
            assert forall|k: int, i: int| 0 <= k < ls.len() && 0 <= i < ls[k].len() implies #[trigger] ls[k][i] != '\n' by {
                if k == 0 {
                    assert(ls[0] == strip_cr(s.subrange(start, e)));
                    assert(s[start + i] != '\n');
                } else {
                    assert(ls[k] == lines_from(s, e + 1)[k - 1]);
                }
            }
        } else {
            assert forall|k: int, i: int| 0 <= k < ls.len() && 0 <= i < ls[k].len() implies #[trigger] ls[k][i] != '\n' by {
                assert(ls[0] == s.subrange(start, s.len() as int));
                assert(s[start + i] != '\n');
            }
        }
    }
}

/// The text of a line after formatting: the trimmed line behind
/// indentation, or nothing for a blank line.
pub open spec fn formatted_body(mid: int, line: Seq<char>) -> Seq<char> {
    if trim(line).len() > 0 {
        spaces(4 * mid) + trim(line)
    } else {
        Seq::empty()
    }
}

/// The lines of the formatted text of `lines`.
pub open spec fn formatted_bodies(lines: Seq<Seq<char>>) -> Seq<Seq<char>> {
    Seq::new(
        lines.len(),
        |k: int| formatted_body(indent_mid(indent_after(lines, k), lines[k]), lines[k]),
    )
}

proof fn lemma_trim_bounds(s: Seq<char>)
    ensures
        trim(s).len() > 0 ==> {
            &&& 0 <= non_ws_from(s, 0) < non_ws_until(s, s.len() as int) <= s.len()
            &&& !white_space(trim(s)[0])
            &&& !white_space(trim(s).last())
        },
        trim(s).len() == 0 ==> forall|k: int| 0 <= k < s.len() ==> white_space(#[trigger] s[k]),
{
    lemma_non_ws_from(s, 0);
    lemma_non_ws_until(s, s.len() as int);
    let a = non_ws_from(s, 0);
    if a < s.len() {
        assert(non_ws_until(s, s.len() as int) > a) by {
            if non_ws_until(s, s.len() as int) <= a {
                assert(white_space(s[a]));
            }
        }
    }
}

proof fn lemma_trim_of_body(m: int, t: Seq<char>)
    requires
        t.len() > 0,
        !white_space(t[0]),
        !white_space(t.last()),
    ensures
        trim(spaces(m) + t) == t,
{
    let b = spaces(m) + t;
    let k = spaces(m).len() as int;
    assert forall|i: int| 0 <= i < k implies white_space(#[trigger] b[i]) by {
        assert(b[i] == ' ');
    }
    lemma_non_ws_from_at(b, 0, k);
    lemma_non_ws_until_at(b, b.len() as int);
    assert(b.subrange(k, b.len() as int) =~= t);
}

proof fn lemma_non_ws_from_at(s: Seq<char>, i: int, k: int)
    requires
        0 <= i <= k < s.len(),
        !white_space(s[k]),
        forall|j: int| i <= j < k ==> white_space(#[trigger] s[j]),
    ensures
        non_ws_from(s, i) == k,
    decreases k - i,
{
    if i < k {
        lemma_non_ws_from_at(s, i + 1, k);
    }
}

proof fn lemma_non_ws_until_at(s: Seq<char>, j: int)
    requires
        0 < j <= s.len(),
        !white_space(s[j - 1]),
    ensures
        non_ws_until(s, j) == j,
{
}

proof fn lemma_bodies_plain(lines: Seq<Seq<char>>)
    requires
        forall|k: int, i: int| 0 <= k < lines.len() && 0 <= i < lines[k].len() ==> #[trigger] lines[k][i] != '\n',
    ensures
        forall|k: int| 0 <= k < lines.len() ==> plain_line(#[trigger] formatted_bodies(lines)[k]),
        forall|k: int| 0 <= k < lines.len() ==> trim(#[trigger] formatted_bodies(lines)[k]) == trim(lines[k]),
{
    let bs = formatted_bodies(lines);
    assert forall|k: int| 0 <= k < lines.len() implies plain_line(#[trigger] bs[k]) && trim(bs[k]) == trim(lines[k]) by {
        let l = lines[k];
        let t = trim(l);
        let m = 4 * indent_mid(indent_after(lines, k), l);
        lemma_trim_bounds(l);
        if t.len() > 0 {
            let b = spaces(m) + t;
            assert(bs[k] == b);
            let a0 = non_ws_from(l, 0);
            assert forall|i: int| 0 <= i < b.len() implies #[trigger] b[i] != '\n' by {
                if i >= spaces(m).len() {
                    assert(b[i] == t[i - spaces(m).len()]);
                    assert(t[i - spaces(m).len()] == l[a0 + i - spaces(m).len()]);
                }
            }
            assert(b.last() == t.last());
            lemma_trim_of_body(m, t);
        } else {
            assert(bs[k] == Seq::<char>::empty());
            assert(trim(Seq::<char>::empty()) == Seq::<char>::empty());
        }
    }
}

proof fn lemma_formatted_upto_join(lines: Seq<Seq<char>>, k: int)
    requires
        0 <= k <= lines.len(),
    ensures
        formatted_upto(lines, k) == join_lines_nl(formatted_bodies(lines).take(k)),
    decreases k,
{
    if k > 0 {
        lemma_formatted_upto_join(lines, k - 1);
        let bs = formatted_bodies(lines);
        assert(bs.take(k).drop_last() =~= bs.take(k - 1));
        assert(bs.take(k).last() == bs[k - 1]);
        let mid = indent_mid(indent_after(lines, k - 1), lines[k - 1]);
        assert(formatted_line(mid, lines[k - 1]) =~= formatted_body(mid, lines[k - 1]) + seq!['\n']);
        assert(formatted_upto(lines, k) =~= join_lines_nl(bs.take(k)));
    }
}

proof fn lemma_same_indents(a: Seq<Seq<char>>, b: Seq<Seq<char>>, k: int)
    requires
        a.len() == b.len(),
        0 <= k <= a.len(),
        forall|j: int| 0 <= j < a.len() ==> trim(#[trigger] a[j]) == trim(b[j]),
    ensures
        indent_after(a, k) == indent_after(b, k),
        formattable_upto(a, k) == formattable_upto(b, k),
        forall|j: int| 0 <= j < k ==> indent_mid(indent_after(a, j), a[j]) == #[trigger] indent_mid(indent_after(b, j), b[j]),
    decreases k,
{
    if k > 0 {
        lemma_same_indents(a, b, k - 1);
        assert(trim(a[k - 1]) == trim(b[k - 1]));
        assert forall|j: int| 0 <= j < k implies indent_mid(indent_after(a, j), a[j]) == #[trigger] indent_mid(
            indent_after(b, j),
            b[j],
        ) by {
            if j == k - 1 {
                assert(trim(a[j]) == trim(b[j]));
            }
        }
    }
}

/// Formatting changes only indentation: the formatted text has as many
/// lines as the text, each with the same trimmed content; the formatter is
/// defined on it when it is on the text; and formatting it again changes
/// nothing, so that a formatted document gets no further edits.
pub proof fn law_formatting_only_reindents(text: Seq<char>)
    ensures
        split_lines(formatted(text)).len() == split_lines(text).len(),
        forall|k: int| 0 <= k < split_lines(text).len() ==> trim(#[trigger] split_lines(formatted(text))[k]) == trim(
            split_lines(text)[k],
        ),
        formattable(text) ==> formattable(formatted(text)),
        formatted(formatted(text)) == formatted(text),
{
    let lines = split_lines(text);
    let n = lines.len() as int;
    let bs = formatted_bodies(lines);
    lemma_lines_from_no_newline(text, 0);
    lemma_bodies_plain(lines);
    lemma_formatted_upto_join(lines, n);
    assert(bs.take(n) =~= bs);
    lemma_lines_of_join(bs);
    let f = formatted(text);
    assert(split_lines(f) == bs);
    lemma_same_indents(bs, lines, n);
    // formatting the formatted text gives back the same bodies
    let bs2 = formatted_bodies(bs);
    assert forall|k: int| 0 <= k < n implies bs2[k] == bs[k] by {
        let mid = indent_mid(indent_after(lines, k), lines[k]);
        assert(indent_mid(indent_after(bs, k), bs[k]) == mid);
        assert(trim(bs[k]) == trim(lines[k]));
    }
    assert(bs2 =~= bs);
    lemma_formatted_upto_join(bs, n);
    assert(bs2.take(n) =~= bs2);
}

// ---------------------------------------------------------------------------
// More on the API index and the symbol table
// ---------------------------------------------------------------------------

proof fn lemma_index_keys_set(fs: Seq<ApiModel>)
    ensures
        keys_of(index_entries(fs)).to_set() == fs.map_values(|f: ApiModel| api_key(f)).to_set(),
    decreases fs.len(),
{
    let ks = fs.map_values(|f: ApiModel| api_key(f));
    if fs.len() == 0 {
        assert(keys_of(index_entries(fs)) =~= Seq::<Seq<char>>::empty());
        assert(ks =~= Seq::<Seq<char>>::empty());
    } else {
        let init = fs.drop_last();
        let kinit = init.map_values(|f: ApiModel| api_key(f));
        lemma_index_keys_set(init);
        let e = index_entries(init);
        let k = api_key(fs.last());
        lemma_key_index_from(e, k, 0);
        let i = key_index_from(e, k, 0);
        let t = index_entries(fs);
        assert(ks =~= kinit.push(k));
        if i >= 0 {
            assert(keys_of(t) =~= keys_of(e)) by {
                assert forall|m: int| 0 <= m < keys_of(t).len() implies keys_of(t)[m] == keys_of(e)[m] by {
                    if m == i {
                        assert(t[m] == (k, fs.last()));
                    } else {
                        assert(t[m] == e[m]);
                    }
                }
            }
            assert(keys_of(e)[i] == k);
            assert(keys_of(e).contains(k));
            assert forall|x: Seq<char>| ks.to_set().contains(x) <==> keys_of(t).to_set().contains(x) by {
                if ks.contains(x) && x != k {
                    let m = choose|m: int| 0 <= m < ks.len() && ks[m] == x;
                    assert(kinit[m] == x);
                    assert(kinit.to_set().contains(x));
                }
                if keys_of(t).contains(x) {
                    assert(keys_of(e).to_set().contains(x));
                    assert(kinit.contains(x));
                    let m = choose|m: int| 0 <= m < kinit.len() && kinit[m] == x;
                    assert(ks[m] == x);
                }
            }
            assert(ks.to_set() =~= keys_of(t).to_set());
        } else {
            assert(keys_of(t) =~= keys_of(e).push(k));
            assert forall|x: Seq<char>| ks.to_set().contains(x) <==> keys_of(t).to_set().contains(x) by {
                if ks.contains(x) && x != k {
                    let m = choose|m: int| 0 <= m < ks.len() && ks[m] == x;
                    assert(kinit[m] == x);
                    assert(kinit.to_set().contains(x));
                    assert(keys_of(e).contains(x));
                    let j = choose|j: int| 0 <= j < keys_of(e).len() && keys_of(e)[j] == x;
                    assert(keys_of(t)[j] == x);
                }
                if x == k {
                    assert(keys_of(t)[keys_of(e).len() as int] == k);
                    assert(ks[ks.len() - 1] == k);
                }
                if keys_of(t).contains(x) && x != k {
                    let j = choose|j: int| 0 <= j < keys_of(t).len() && keys_of(t)[j] == x;
                    assert(keys_of(e)[j] == x);
                    assert(keys_of(e).to_set().contains(x));
                    assert(kinit.contains(x));
                    let m = choose|m: int| 0 <= m < kinit.len() && kinit[m] == x;
                    assert(ks[m] == x);
                }
            }
            assert(ks.to_set() =~= keys_of(t).to_set());
        }
    }
}

/// The index built from `fs` holds one entry per distinct lowercased name
/// of `fs`, so its length is the number of those names.
pub proof fn law_index_len(fs: Seq<ApiModel>)
    ensures
        index_entries(fs).len() == fs.map_values(|f: ApiModel| api_key(f)).to_set().len(),
{
    law_index_well_keyed(fs);
    let ks = keys_of(index_entries(fs));
    assert(ks.no_duplicates()) by {
        assert forall|i: int, j: int| 0 <= i < ks.len() && 0 <= j < ks.len() && i != j implies ks[i] != ks[j] by {
            if i < j {
                assert(ks[i] != ks[j]);
            } else {
                assert(ks[j] != ks[i]);
            }
        }
    }
    ks.unique_seq_to_set();
    lemma_index_keys_set(fs);
}

/// Every symbol is a function.
pub open spec fn all_functions(s: Seq<SymbolModel>) -> bool {
    forall|i: int| 0 <= i < s.len() ==> (#[trigger] s[i]).kind == SymbolKind::Function
}

proof fn lemma_symbols_upto_functions(uri: Seq<char>, lines: Seq<Seq<char>>, k: int)
    requires
        0 <= k <= lines.len(),
    ensures
        all_functions(symbols_upto(defun_pattern(), uri, lines, k)),
    decreases k,
{
    if k > 0 {
        lemma_symbols_upto_functions(uri, lines, k - 1);
        let prev = symbols_upto(defun_pattern(), uri, lines, k - 1);
        let all = symbols_upto(defun_pattern(), uri, lines, k);
        assert forall|i: int| 0 <= i < all.len() implies (#[trigger] all[i]).kind == SymbolKind::Function by {
            if i < prev.len() {
                assert(all[i] == prev[i]);
            }
        }
    }
}

proof fn lemma_insert_all_functions(s: Seq<SymbolModel>, syms: Seq<SymbolModel>)
    requires
        all_functions(s),
        all_functions(syms),
    ensures
        all_functions(insert_all(s, syms)),
    decreases syms.len(),
{
    if syms.len() > 0 {
        let init = syms.drop_last();
        assert forall|i: int| 0 <= i < init.len() implies (#[trigger] init[i]).kind == SymbolKind::Function by {
            assert(init[i] == syms[i]);
        }
        lemma_insert_all_functions(s, init);
        let t = insert_all(s, init);
        let last = syms.last();
        assert(last.kind == SymbolKind::Function);
        let u = insert_symbol(t, last);
        let at = index_of_name(t, last.name);
        lemma_index_of_name_from(t, last.name, 0);
        assert forall|i: int| 0 <= i < u.len() implies (#[trigger] u[i]).kind == SymbolKind::Function by {
            if at >= 0 {
                if i != at {
                    assert(u[i] == t[i]);
                }
            } else if i < t.len() {
                assert(u[i] == t[i]);
            }
        }
    }
}

/// Every symbol that indexing and re-indexing put in the table is a
/// function, so a table of functions stays one.
pub proof fn law_table_holds_functions(s: Seq<SymbolModel>, uri: Seq<char>, content: Seq<char>)
    requires
        unique_names(s),
        all_functions(s),
    ensures
        all_functions(symbols_of(content, uri)),
        all_functions(insert_all(s, symbols_of(content, uri))),
        all_functions(insert_all(drop_uri(s, uri), symbols_of(content, uri))),
{
    if crate::pattern::regex_valid(defun_pattern()) {
        lemma_symbols_upto_functions(uri, split_lines(content), split_lines(content).len() as int);
    }
    lemma_insert_all_functions(s, symbols_of(content, uri));
    lemma_without_uri_unique(s, uri, s.len() as int);
    let w = drop_uri(s, uri);
    assert forall|j: int| 0 <= j < w.len() implies (#[trigger] w[j]).kind == SymbolKind::Function by {
        assert(in_prefix(s, s.len() as int, w[j]));
    }
    lemma_insert_all_functions(w, symbols_of(content, uri));
}

// ---------------------------------------------------------------------------
// Highlights
// ---------------------------------------------------------------------------

/// The highlights of the word under the cursor include the word itself,
/// when the cursor's line reads the same as a rope line and as a line of
/// the text, apart from line-break characters (which are no symbol
/// characters) that the rope keeps at its end.
pub proof fn law_highlight_holds_cursor_word(text: Seq<char>, position: Position)
    requires
        (position.line as int) < rope_lines(text).len(),
        (position.line as int) < split_lines(text).len(),
        split_lines(text)[position.line as int].len() <= rope_lines(text)[position.line as int].len(),
        rope_lines(text)[position.line as int].take(split_lines(text)[position.line as int].len() as int)
            == split_lines(text)[position.line as int],
        forall|k: int|
            split_lines(text)[position.line as int].len() <= k < rope_lines(text)[position.line as int].len()
                ==> !word_char(#[trigger] rope_lines(text)[position.line as int][k]),
    ensures
        word_range_in_line(rope_lines(text)[position.line as int], position.character) matches Some((s, e))
            ==> highlights(text, position) matches Some(rs) && rs.contains(
            span(position.line as int, s, e),
        ),
{
    let ln = position.line as int;
    let r = rope_lines(text)[ln];
    let l = split_lines(text)[ln];
    let p = clamp_column(r, position.character);
    lemma_word_bounds(r, p);
    if let Some((s, e)) = word_range_in_line(r, position.character) {
        assert(e <= l.len()) by {
            if e > l.len() {
                let k = if s >= l.len() { s } else { l.len() as int };
                assert(word_char(r[k]));
            }
        }
        assert forall|k: int| 0 <= k < l.len() implies r[k] == #[trigger] l[k] by {
            assert(r.take(l.len() as int)[k] == r[k]);
        }
        let w = r.subrange(s, e);
        assert(w == word_at(text, position).unwrap());
        assert(l.subrange(s, e) =~= w);
        assert(whole_word_at(l, w, s));
        law_occurrences_are_complete(text, w, ln, s);
        assert(occurrences(text, w).len() > 0);
    }
}


/// An empty prefix completes no API function.
pub proof fn law_empty_prefix_completes_nothing(m: ApiIndexModel, limit: int)
    ensures
        completion_models(m, lowercase(Seq::<char>::empty()), limit) == Seq::<ApiModel>::empty(),
{
    assert(lowercase(Seq::<char>::empty()) =~= Seq::<char>::empty());
}


// ---------------------------------------------------------------------------
// Quotes and parentheses outside strings
// ---------------------------------------------------------------------------

/// No `/*` opens a block comment anywhere in `line`.
pub open spec fn no_block_opening(line: Seq<char>) -> bool {
    forall|i: int| 0 <= i < line.len() - 1 ==> !(#[trigger] line[i] == '/' && line[i + 1] == '*')
}

/// `line` holds no backslash, so no quote in it is escaped.
pub open spec fn no_backslash(line: Seq<char>) -> bool {
    forall|i: int| 0 <= i < line.len() ==> #[trigger] line[i] != '\\'
}

/// The code of `line` (before its line comment) holds an odd number of
/// unescaped quotes: it leaves a string open.
pub open spec fn odd_quotes(line: Seq<char>) -> bool {
    quotes_before(line, code_end(line)) % 2 == 1
}

proof fn lemma_quote_scan_parity(line: Seq<char>, i: int, st: QuoteScan)
    requires
        0 <= i <= code_end(line),
        !st.in_block,
        st.in_string == (quotes_before(line, i) % 2 == 1),
        no_block_opening(line),
    ensures
        !quote_scan(line, i, st).in_block,
        quote_scan(line, i, st).in_string == odd_quotes(line),
    decreases line.len() - i,
{
    lemma_comment_from(line, 0);
    let ce = code_end(line);
    if i < line.len() {
        let c = line[i];
        if i == ce {
            assert(comment_at(line, i));
        }
        if st.in_string {
            assert(i < ce);
            if quote_at(line, i) {
                lemma_quote_scan_parity(line, i + 1, QuoteScan { in_string: false, ..st });
            } else {
                lemma_quote_scan_parity(line, i + 1, st);
            }
        } else if c == ';' {
            assert(comment_at(line, i));
            assert(ce == i);
        } else if quote_at(line, i) {
            lemma_quote_scan_parity(line, i + 1, QuoteScan { in_string: true, last: i, ..st });
        } else if c == '/' && i + 1 < line.len() && line[i + 1] == '*' {
            assert(false);
        } else {
            lemma_quote_scan_parity(line, i + 1, st);
        }
    }
}

proof fn lemma_quote_lines_parity(lines: Seq<Seq<char>>, k: int)
    requires
        fits_u32(lines),
        0 <= k <= lines.len(),
        forall|j: int| 0 <= j < lines.len() ==> no_block_opening(#[trigger] lines[j]),
    ensures
        !quote_lines(lines, k).0,
        forall|m: int| 0 <= m < quote_diags(lines, k).len() ==> {
            let d = #[trigger] quote_diags(lines, k)[m];
            &&& 0 <= d.range.start.line < k
            &&& odd_quotes(lines[d.range.start.line as int])
            &&& d.kind == DiagnosticKind::UnmatchedQuote
        },
        forall|j: int| 0 <= j < k && odd_quotes(#[trigger] lines[j]) ==> exists|m: int|
            0 <= m < quote_diags(lines, k).len() && quote_diags(lines, k)[m].range.start.line == j,
    decreases k,
{
    if k > 0 {
        lemma_quote_lines_parity(lines, k - 1);
        let prev = quote_lines(lines, k - 1);
        let line = lines[k - 1];
        assert(line.len() <= u32::MAX);
        let st0 = QuoteScan { in_block: prev.0, in_string: false, last: 0 };
        lemma_comment_from(line, 0);
        lemma_quote_scan_parity(line, 0, st0);
        let st = quote_scan(line, 0, st0);
        let mine = quote_line_diag(k - 1, st);
        let all = quote_diags(lines, k);
        assert(all == prev.1 + mine);
        assert(quote_diags(lines, k - 1) == prev.1);
        assert forall|m: int| 0 <= m < all.len() implies {
            let d = #[trigger] all[m];
            &&& 0 <= d.range.start.line < k
            &&& odd_quotes(lines[d.range.start.line as int])
            &&& d.kind == DiagnosticKind::UnmatchedQuote
        } by {
            if m < prev.1.len() {
                assert(all[m] == prev.1[m]);
            } else {
                assert(all[m] == mine[m - prev.1.len()]);
            }
        }
        assert forall|j: int| 0 <= j < k && odd_quotes(#[trigger] lines[j]) implies exists|m: int|
            0 <= m < all.len() && all[m].range.start.line == j by {
            if j < k - 1 {
                let m = choose|m: int| 0 <= m < prev.1.len() && prev.1[m].range.start.line == j;
                assert(all[m] == prev.1[m]);
            } else {
                assert(all[prev.1.len() as int] == mine[0]);
            }
        }
    }
}

/// Where no block comment is opened, a line gets an unmatched-quote
/// diagnostic exactly when the code before its line comment holds an odd
/// number of unescaped quotes: a `;` inside a string starts no comment, and
/// a line whose quotes balance gets none.
pub proof fn law_unmatched_quotes_by_parity(lines: Seq<Seq<char>>)
    requires
        fits_u32(lines),
        forall|j: int| 0 <= j < lines.len() ==> no_block_opening(#[trigger] lines[j]),
    ensures
        forall|m: int| 0 <= m < quote_diags(lines, lines.len() as int).len() ==> {
            let d = #[trigger] quote_diags(lines, lines.len() as int)[m];
            &&& 0 <= d.range.start.line < lines.len()
            &&& odd_quotes(lines[d.range.start.line as int])
            &&& d.kind == DiagnosticKind::UnmatchedQuote
        },
        forall|j: int| 0 <= j < lines.len() && odd_quotes(#[trigger] lines[j]) ==> exists|m: int|
            0 <= m < quote_diags(lines, lines.len() as int).len() && quote_diags(
                lines,
                lines.len() as int,
            )[m].range.start.line == j,
{
    lemma_quote_lines_parity(lines, lines.len() as int);
}

/// The number of `c` before index `n` of `line` that stand outside strings
/// (after an even number of unescaped quotes).
pub open spec fn count_outside(line: Seq<char>, c: char, n: int) -> nat
    decreases n,
{
    if n <= 0 {
        0
    } else {
        count_outside(line, c, n - 1) + if line[n - 1] == c && quotes_before(line, n - 1) % 2 == 0 {
            1nat
        } else {
            0nat
        }
    }
}

proof fn lemma_count_scan_outside(line: Seq<char>, i: int, in_string: bool)
    requires
        0 <= i <= code_end(line),
        in_string == (quotes_before(line, i) % 2 == 1),
        no_block_opening(line),
        no_backslash(line),
    ensures
        count_scan(line, code_end(line), i, in_string, false, count_outside(line, '(', i), count_outside(line, ')', i))
            == (count_outside(line, '(', code_end(line)), count_outside(line, ')', code_end(line))),
    decreases code_end(line) - i,
{
    lemma_comment_from(line, 0);
    let ce = code_end(line);
    if i < ce {
        let c = line[i];
        assert(backslash_run(line, i) == 0) by {
            if i > 0 {
                assert(line[i - 1] != '\\');
            }
        }
        assert(!escaped(line, i));
        assert(quote_at(line, i) == (c == '"'));
        if c == '/' && i + 1 < ce && line[i + 1] == '*' {
            assert(false);
        }
        if in_string {
            if c == '"' {
                lemma_count_scan_outside(line, i + 1, false);
            } else {
                lemma_count_scan_outside(line, i + 1, true);
            }
        } else if c == '"' {
            lemma_count_scan_outside(line, i + 1, true);
        } else {
            lemma_count_scan_outside(line, i + 1, false);
        }
    }
}

/// The parentheses that drive indentation are those outside strings in the
/// whole code of the line (everything before its line comment): a `;` inside
/// a string does not end the count (for lines without backslashes or block
/// comments, where a quote always opens or closes a string).
pub proof fn law_paren_counts_outside_strings(line: Seq<char>)
    requires
        no_block_opening(line),
        no_backslash(line),
    ensures
        paren_counts(line) == (count_outside(line, '(', code_end(line)), count_outside(line, ')', code_end(line))),
{
    lemma_comment_from(line, 0);
    lemma_count_scan_outside(line, 0, false);
}

// ---------------------------------------------------------------------------
// Documentation comments
// ---------------------------------------------------------------------------

/// A comment line: trimmed, it starts with `;`.
pub open spec fn is_comment_line(l: Seq<char>) -> bool {
    trim(l).len() > 0 && trim(l)[0] == ';'
}

/// A definition whose line does not follow a comment line has no
/// documentation.
pub proof fn law_no_doc_without_comment_above(lines: Seq<Seq<char>>, ln: int)
    requires
        0 < ln <= lines.len(),
        !is_comment_line(lines[ln - 1]),
    ensures
        preceding_comment(lines, ln) is None,
{
    assert(doc_entries(lines, ln - 1) =~= Seq::<Seq<char>>::empty());
}

proof fn lemma_doc_entries_local(a: Seq<Seq<char>>, b: Seq<Seq<char>>, m: int, cur: int)
    requires
        0 <= m <= cur < a.len(),
        cur < b.len(),
        !is_comment_line(a[m]),
        forall|j: int| m <= j <= cur ==> a[j] == b[j],
    ensures
        doc_entries(a, cur) == doc_entries(b, cur),
    decreases cur - m,
{
    if cur > m {
        lemma_doc_entries_local(a, b, m, cur - 1);
    }
}

/// The documentation of a definition comes only from the run of comment
/// lines right above it: lines above a non-comment line (a blank line, or
/// code) cannot change it.
pub proof fn law_doc_comes_from_comment_run(a: Seq<Seq<char>>, b: Seq<Seq<char>>, m: int, ln: int)
    requires
        0 <= m < ln,
        ln <= a.len(),
        ln <= b.len(),
        !is_comment_line(a[m]),
        forall|j: int| m <= j < ln ==> a[j] == b[j],
    ensures
        preceding_comment(a, ln) == preceding_comment(b, ln),
{
    lemma_doc_entries_local(a, b, m, ln - 1);
}

// ---------------------------------------------------------------------------
// Document symbols
// ---------------------------------------------------------------------------

proof fn lemma_in_document_filter(s: Seq<SymbolModel>, uri: Seq<char>, k: int)
    requires
        0 <= k <= s.len(),
    ensures
        in_document(s, uri, k) == s.take(k).filter(|x: SymbolModel| x.uri == uri).map_values(
            |x: SymbolModel| info_of(x),
        ),
    decreases k,
{
    reveal(Seq::filter);
    let pred = |x: SymbolModel| x.uri == uri;
    if k == 0 {
        assert(s.take(0) =~= Seq::<SymbolModel>::empty());
        assert(s.take(0).filter(pred) =~= Seq::<SymbolModel>::empty());
        assert(in_document(s, uri, 0) =~= Seq::<InfoModel>::empty());
    } else {
        lemma_in_document_filter(s, uri, k - 1);
        assert(s.take(k).drop_last() =~= s.take(k - 1));
        assert(s.take(k).last() == s[k - 1]);
        let sub = s.take(k - 1).filter(pred);
        if s[k - 1].uri == uri {
            assert(s.take(k).filter(pred) == sub.push(s[k - 1]));
            assert(sub.push(s[k - 1]).map_values(|x: SymbolModel| info_of(x)) =~= sub.map_values(
                |x: SymbolModel| info_of(x),
            ).push(info_of(s[k - 1])));
        } else {
            assert(s.take(k).filter(pred) == sub);
        }
        assert(in_document(s, uri, k) =~= s.take(k).filter(pred).map_values(|x: SymbolModel| info_of(x)));
    }
}

/// The symbols listed for a document are exactly the table's symbols of
/// that document, each once, in table order.
pub proof fn law_document_symbols_are_the_documents(s: Seq<SymbolModel>, uri: Seq<char>)
    ensures
        in_document(s, uri, s.len() as int) == s.filter(|x: SymbolModel| x.uri == uri).map_values(
            |x: SymbolModel| info_of(x),
        ),
        forall|k: int| 0 <= k < s.len() && (#[trigger] s[k]).uri == uri ==> in_document(
            s,
            uri,
            s.len() as int,
        ).contains(info_of(s[k])),
{
    lemma_in_document_filter(s, uri, s.len() as int);
    assert(s.take(s.len() as int) =~= s);
    let pred = |x: SymbolModel| x.uri == uri;
    let f = s.filter(pred);
    assert forall|k: int| 0 <= k < s.len() && (#[trigger] s[k]).uri == uri implies in_document(
        s,
        uri,
        s.len() as int,
    ).contains(info_of(s[k])) by {
        s.lemma_filter_contains(pred, k);
        let j = choose|j: int| 0 <= j < f.len() && f[j] == s[k];
        assert(f.map_values(|x: SymbolModel| info_of(x))[j] == info_of(s[k]));
    }
}

// ---------------------------------------------------------------------------
// Completion insert text
// ---------------------------------------------------------------------------

proof fn lemma_api_items_insert(fs: Seq<ApiModel>, seen: Seq<Seq<char>>, call: bool)
    ensures
        forall|i: int| 0 <= i < api_items(fs, seen, call).len() ==> (#[trigger] api_items(fs, seen, call)[i]).insert_text
            == insert_text_of(api_items(fs, seen, call)[i].label, call),
    decreases fs.len(),
{
    if fs.len() > 0 {
        let k = lowercase(fs[0].name);
        if seen.contains(k) {
            lemma_api_items_insert(fs.drop_first(), seen, call);
        } else {
            lemma_api_items_insert(fs.drop_first(), seen.push(k), call);
            let r = api_items(fs, seen, call);
            let rest = api_items(fs.drop_first(), seen.push(k), call);
            assert forall|i: int| 0 <= i < r.len() implies (#[trigger] r[i]).insert_text == insert_text_of(
                r[i].label,
                call,
            ) by {
                if i > 0 {
                    assert(r[i] == rest[i - 1]);
                }
            }
        }
    }
}

/// Every completion item, the user-defined ones included, inserts its label
/// alone when the text before the cursor ends (white space aside) with an
/// open parenthesis, and the label behind an open parenthesis otherwise.
pub proof fn law_completion_insert_text(prefix: Seq<char>, api: ApiIndexModel, table: Seq<SymbolModel>)
    ensures
        forall|i: int| 0 <= i < completion_list(prefix, api, table).len() ==> (#[trigger] completion_list(
            prefix,
            api,
            table,
        )[i]).insert_text == if after_open_paren(prefix) {
            completion_list(prefix, api, table)[i].label
        } else {
            "("@ + completion_list(prefix, api, table)[i].label
        },
{
    let call = after_open_paren(prefix);
    let a = api_items(
        completion_models(api, lowercase(crate::completion::typed_word(prefix)), 100),
        crate::completion::table_names(),
        call,
    );
    lemma_api_items_insert(
        completion_models(api, lowercase(crate::completion::typed_word(prefix)), 100),
        crate::completion::table_names(),
        call,
    );
    let b = crate::tables::builtins().map_values(|t: (Seq<char>, Seq<char>, Seq<char>)| builtin_item(t, call));
    let c = crate::tables::allegro_functions().map_values(
        |t: (Seq<char>, Seq<char>, Seq<char>)| allegro_item(t, call),
    );
    let d = table.map_values(|s: SymbolModel| symbol_item(s, call));
    let l = completion_list(prefix, api, table);
    assert(l == a + b + c + d);
    assert forall|i: int| 0 <= i < l.len() implies (#[trigger] l[i]).insert_text == if call {
        l[i].label
    } else {
        "("@ + l[i].label
    } by {
        if i < a.len() {
            assert(l[i] == a[i]);
        } else if i < a.len() + b.len() {
            assert(l[i] == b[i - a.len()]);
        } else if i < a.len() + b.len() + c.len() {
            assert(l[i] == c[i - a.len() - b.len()]);
        } else {
            assert(l[i] == d[i - a.len() - b.len() - c.len()]);
        }
    }
}

} // verus!
