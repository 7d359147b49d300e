//! The workspace symbol table: symbols by name, as indexed from the open
//! documents, and the queries on it (definition lookup, document symbols,
//! workspace symbol search).
use vstd::prelude::*;
use crate::protocol::{Location, Range};
use crate::symbols::{SymbolInfo, SymbolKind, SymbolModel, extract_symbols, symbol_models, symbols_of};
use crate::text::{
    chars_of, contains, contains_exec, lemma_lex_irrefl, lemma_lex_trans, lex_less, lex_lt, lowercase,
    to_lowercase,
};

verus! {

// ---------------------------------------------------------------------------
// The table as a sequence of symbols with distinct names
// ---------------------------------------------------------------------------

/// No two symbols share a name.
pub open spec fn unique_names(s: Seq<SymbolModel>) -> bool {
    forall|i: int, j: int| 0 <= i < j < s.len() ==> s[i].name != s[j].name
}

/// The index of the symbol named `name` at or after `i`, or -1.
pub open spec fn index_of_name_from(s: Seq<SymbolModel>, name: Seq<char>, i: int) -> int
    decreases s.len() - i,
{
    if i < 0 || i >= s.len() {
        -1
    } else if s[i].name == name {
        i
    } else {
        index_of_name_from(s, name, i + 1)
    }
}

/// The index of the symbol named `name`, or -1.
pub open spec fn index_of_name(s: Seq<SymbolModel>, name: Seq<char>) -> int {
    index_of_name_from(s, name, 0)
}

/// The symbol named `name`, if any.
pub open spec fn lookup(s: Seq<SymbolModel>, name: Seq<char>) -> Option<SymbolModel> {
    let i = index_of_name(s, name);
    if i >= 0 {
        Some(s[i])
    } else {
        None
    }
}

/// The table after inserting `sym`: it replaces the symbol of the same name,
/// or is added at the end.
pub open spec fn insert_symbol(s: Seq<SymbolModel>, sym: SymbolModel) -> Seq<SymbolModel> {
    let i = index_of_name(s, sym.name);
    if i >= 0 {
        s.update(i, sym)
    } else {
        s.push(sym)
    }
}

/// The table after inserting each of `syms` in order.
pub open spec fn insert_all(s: Seq<SymbolModel>, syms: Seq<SymbolModel>) -> Seq<SymbolModel>
    decreases syms.len(),
{
    if syms.len() == 0 {
        s
    } else {
        insert_symbol(insert_all(s, syms.drop_last()), syms.last())
    }
}

/// The symbols of the first `k` entries whose document is not `uri`.
pub open spec fn without_uri(s: Seq<SymbolModel>, uri: Seq<char>, k: int) -> Seq<SymbolModel>
    decreases k,
{
    if k <= 0 {
        Seq::empty()
    } else {
        without_uri(s, uri, k - 1) + if s[k - 1].uri != uri {
            seq![s[k - 1]]
        } else {
            Seq::empty()
        }
    }
}

/// The table without the symbols of document `uri`.
pub open spec fn drop_uri(s: Seq<SymbolModel>, uri: Seq<char>) -> Seq<SymbolModel> {
    without_uri(s, uri, s.len() as int)
}

pub proof fn lemma_index_of_name_from(s: Seq<SymbolModel>, name: Seq<char>, i: int)
    requires
        0 <= i <= s.len(),
    ensures
        index_of_name_from(s, name, i) == -1 || (i <= index_of_name_from(s, name, i) < s.len()
            && s[index_of_name_from(s, name, i)].name == name),
        index_of_name_from(s, name, i) == -1 ==> forall|k: int| i <= k < s.len() ==> s[k].name != name,
    decreases s.len() - i,
{
    if i < s.len() && s[i].name != name {
        lemma_index_of_name_from(s, name, i + 1);
    }
}

/// Inserting keeps names distinct.
pub proof fn lemma_insert_unique(s: Seq<SymbolModel>, sym: SymbolModel)
    requires
        unique_names(s),
    ensures
        unique_names(insert_symbol(s, sym)),
{
    lemma_index_of_name_from(s, sym.name, 0);
}

/// `x` is one of the first `k` symbols of `s`.
pub open spec fn in_prefix(s: Seq<SymbolModel>, k: int, x: SymbolModel) -> bool {
    exists|m: int| 0 <= m < k && s[m] == x
}

/// Dropping the symbols of a document keeps names distinct, and keeps
/// only symbols of the table.
pub proof fn lemma_without_uri_unique(s: Seq<SymbolModel>, uri: Seq<char>, k: int)
    requires
        0 <= k <= s.len(),
        unique_names(s),
    ensures
        unique_names(without_uri(s, uri, k)),
        forall|j: int| 0 <= j < without_uri(s, uri, k).len() ==> #[trigger] in_prefix(s, k, without_uri(s, uri, k)[j]),
    decreases k,
{
    if k > 0 {
        lemma_without_uri_unique(s, uri, k - 1);
        let w = without_uri(s, uri, k - 1);
        let w2 = without_uri(s, uri, k);
        assert forall|j: int| 0 <= j < w2.len() implies #[trigger] in_prefix(s, k, w2[j]) by {
            if j < w.len() {
                assert(w2[j] == w[j]);
                assert(in_prefix(s, k - 1, w[j]));
                let m = choose|m: int| 0 <= m < k - 1 && s[m] == w[j];
                assert(0 <= m < k && s[m] == w2[j]);
            } else {
                assert(w2[j] == s[k - 1]);
            }
        }
        assert forall|i: int, j: int| 0 <= i < j < w2.len() implies w2[i].name != w2[j].name by {
            if j >= w.len() {
                assert(w2[i] == w[i]);
                assert(in_prefix(s, k - 1, w[i]));
                let m = choose|m: int| 0 <= m < k - 1 && s[m] == w[i];
                assert(w2[j] == s[k - 1]);
            } else {
                assert(w2[i] == w[i] && w2[j] == w[j]);
            }
        }
    }
}

// ---------------------------------------------------------------------------
// The table
// ---------------------------------------------------------------------------

/// The symbols indexed from the open documents, each name at most once.
pub struct SymbolTable {
    entries: Vec<SymbolInfo>,
}

impl View for SymbolTable {
    type V = Seq<SymbolModel>;

    closed spec fn view(&self) -> Seq<SymbolModel> {
        symbol_models(self.entries@)
    }
}

impl SymbolTable {
    #[verifier::type_invariant]
    spec fn names_distinct(&self) -> bool {
        unique_names(symbol_models(self.entries@))
    }

    /// An empty table.
    pub fn new() -> (r: SymbolTable)
        ensures
            r@ == Seq::<SymbolModel>::empty(),
    {
        let r = SymbolTable { entries: Vec::new() };
        assert(r@ =~= Seq::<SymbolModel>::empty());
        r
    }

    /// The number of symbols.
    pub fn len(&self) -> (r: usize)
        ensures
            r == self@.len(),
    {
        self.entries.len()
    }

    /// The symbols of the table, in table order.
    pub fn symbols(&self) -> (r: &Vec<SymbolInfo>)
        ensures
            symbol_models(r@) == self@,
            unique_names(self@),
    {
        proof {
            use_type_invariant(self);
        }
        &self.entries
    }

    fn find(&self, name: &String) -> (r: Option<usize>)
        ensures
            match r {
                Some(i) => index_of_name(self@, name@) == i,
                None => index_of_name(self@, name@) == -1,
            },
    {
        let mut i: usize = 0;
        while i < self.entries.len()
            invariant
                i <= self.entries@.len(),
                self@ == symbol_models(self.entries@),
                index_of_name(self@, name@) == index_of_name_from(self@, name@, i as int),
            decreases self.entries.len() - i,
        {
            if self.entries[i].name == *name {
                return Some(i);
            }
            i = i + 1;
        }
        None
    }

    /// The symbol named `name`, if any.
    pub fn get(&self, name: &str) -> (r: Option<&SymbolInfo>)
        ensures
            match lookup(self@, name@) {
                Some(s) => r is Some && r->0@ == s,
                None => r is None,
            },
    {
        let key = String::from_str(name);
        proof {
            lemma_index_of_name_from(self@, name@, 0);
        }
        match self.find(&key) {
            Some(i) => Some(&self.entries[i]),
            None => None,
        }
    }

    /// Inserts a symbol, replacing the symbol of the same name.
    pub fn insert(&mut self, sym: SymbolInfo)
        ensures
            final(self)@ == insert_symbol(old(self)@, sym@),
    {
        proof {
            use_type_invariant(&*self);
            lemma_index_of_name_from(self@, sym@.name, 0);
            lemma_insert_unique(self@, sym@);
        }
        let name = sym.name.clone();
        match self.find(&name) {
            Some(i) => {
                let mut entries: Vec<SymbolInfo> = Vec::new();
                std::mem::swap(&mut entries, &mut self.entries);
                entries.set(i, sym);
                assert(symbol_models(entries@) =~= insert_symbol(old(self)@, sym@));
                self.entries = entries;
            },
            None => {
                let mut entries: Vec<SymbolInfo> = Vec::new();
                std::mem::swap(&mut entries, &mut self.entries);
                entries.push(sym);
                assert(symbol_models(entries@) =~= insert_symbol(old(self)@, sym@));
                self.entries = entries;
            },
        }
    }

    /// Removes the symbols of document `uri`.
    pub fn retain_other_uris(&mut self, uri: &str)
        ensures
            final(self)@ == drop_uri(old(self)@, uri@),
    {
        proof {
            use_type_invariant(&*self);
        }
        let ghost s = self@;
        let key = String::from_str(uri);
        let mut old_entries: Vec<SymbolInfo> = Vec::new();
        std::mem::swap(&mut old_entries, &mut self.entries);
        let mut kept: Vec<SymbolInfo> = Vec::new();
        let mut k: usize = 0;
        let n = old_entries.len();
        for e in it: old_entries.into_iter()
            invariant
                n == s.len(),
                key@ == uri@,
                it.seq() == old_entries@,
                symbol_models(old_entries@) == s,
                unique_names(s),
                symbol_models(kept@) == without_uri(s, uri@, it.index() as int),
        {
            let ghost j = it.index();
            assert(e == old_entries@[j]);
            assert(e@ == s[j]);
            let ghost before = symbol_models(kept@);
            let ghost ev = e@;
            if !(e.location.uri == key) {
                kept.push(e);
                assert(symbol_models(kept@) =~= before.push(ev));
                assert(ev.uri != uri@);
            } else {
                assert(ev.uri == uri@);
            }
            assert(without_uri(s, uri@, j + 1) == without_uri(s, uri@, j) + if s[j].uri != uri@ {
                seq![s[j]]
            } else {
                Seq::<SymbolModel>::empty()
            });
            assert(symbol_models(kept@) =~= without_uri(s, uri@, j + 1));
        }
        proof {
            lemma_without_uri_unique(s, uri@, s.len() as int);
        }
        self.entries = kept;
    }
}

/// Indexes a newly opened document: each symbol it defines is inserted in
/// line order.
pub fn index_document(table: &mut SymbolTable, uri: &str, content: &str)
    ensures
        final(table)@ == insert_all(old(table)@, symbols_of(content@, uri@)),
{
    let symbols = extract_symbols(content, uri);
    insert_symbols(table, symbols);
}

/// Re-indexes a changed document: its old symbols are removed, then each
/// symbol it now defines is inserted in line order.
pub fn reindex_document(table: &mut SymbolTable, uri: &str, content: &str)
    ensures
        final(table)@ == insert_all(drop_uri(old(table)@, uri@), symbols_of(content@, uri@)),
{
    let symbols = extract_symbols(content, uri);
    table.retain_other_uris(uri);
    insert_symbols(table, symbols);
}

fn insert_symbols(table: &mut SymbolTable, symbols: Vec<SymbolInfo>)
    ensures
        final(table)@ == insert_all(old(table)@, symbol_models(symbols@)),
{
    let ghost start = table@;
    let ghost all = symbol_models(symbols@);
    for sym in it: symbols.into_iter()
        invariant
            it.seq() == symbols@,
            all == symbol_models(symbols@),
            table@ == insert_all(start, all.take(it.index() as int)),
    {
        let ghost j = it.index();
        assert(sym@ == all[j]);
        table.insert(sym);
        assert(all.take(j + 1).drop_last() =~= all.take(j));
    }
    assert(all.take(all.len() as int) =~= all);
}

// ---------------------------------------------------------------------------
// Queries
// ---------------------------------------------------------------------------

/// A symbol as listed to the editor: name, kind and location.
#[derive(Debug)]
pub struct SymbolInformation {
    pub name: String,
    pub kind: SymbolKind,
    pub location: Location,
}

/// The plain value of a listed symbol.
pub struct InfoModel {
    pub name: Seq<char>,
    pub kind: SymbolKind,
    pub uri: Seq<char>,
    pub range: Range,
}

impl View for SymbolInformation {
    type V = InfoModel;

    open spec fn view(&self) -> InfoModel {
        InfoModel { name: self.name@, kind: self.kind, uri: self.location.uri@, range: self.location.range }
    }
}

/// The listing of a symbol.
pub open spec fn info_of(s: SymbolModel) -> InfoModel {
    InfoModel { name: s.name, kind: s.kind, uri: s.uri, range: s.range }
}

/// The views of a list of listed symbols.
pub open spec fn info_models(v: Seq<SymbolInformation>) -> Seq<InfoModel> {
    v.map_values(|s: SymbolInformation| s@)
}

fn info_from(s: &SymbolInfo) -> (r: SymbolInformation)
    ensures
        r@ == info_of(s@),
{
    SymbolInformation {
        name: s.name.clone(),
        kind: s.kind,
        location: Location { uri: s.location.uri.clone(), range: s.location.range },
    }
}

/// The location of the definition of `word`, if the table has a symbol of that name.
pub fn goto_definition(table: &SymbolTable, word: &str) -> (r: Option<Location>)
    ensures
        match lookup(table@, word@) {
            Some(s) => r is Some && r->0.uri@ == s.uri && r->0.range == s.range,
            None => r is None,
        },
{
    match table.get(word) {
        Some(info) => Some(Location { uri: info.location.uri.clone(), range: info.location.range }),
        None => None,
    }
}

/// The listings of the first `k` symbols that belong to document `uri`.
pub open spec fn in_document(s: Seq<SymbolModel>, uri: Seq<char>, k: int) -> Seq<InfoModel>
    decreases k,
{
    if k <= 0 {
        Seq::empty()
    } else {
        in_document(s, uri, k - 1) + if s[k - 1].uri == uri {
            seq![info_of(s[k - 1])]
        } else {
            Seq::empty()
        }
    }
}

/// The symbols of document `uri`, in table order.
pub fn get_document_symbols(table: &SymbolTable, uri: &str) -> (r: Vec<SymbolInformation>)
    ensures
        info_models(r@) == in_document(table@, uri@, table@.len() as int),
{
    let key = String::from_str(uri);
    let entries = table.symbols();
    let ghost s = table@;
    let mut out: Vec<SymbolInformation> = Vec::new();
    let mut k: usize = 0;
    while k < entries.len()
        invariant
            k <= entries@.len(),
            symbol_models(entries@) == s,
            key@ == uri@,
            info_models(out@) == in_document(s, uri@, k as int),
        decreases entries.len() - k,
    {
        let e = &entries[k];
        assert(e@ == s[k as int]);
        if e.location.uri == key {
            let info = info_from(e);
            out.push(info);
        }
        k = k + 1;
        assert(info_models(out@) =~= in_document(s, uri@, k as int));
    }
    out
}

// ---------------------------------------------------------------------------
// Workspace symbol search
// ---------------------------------------------------------------------------

/// Listed symbols are in non-decreasing order of name.
pub open spec fn sorted_by_name(s: Seq<InfoModel>) -> bool {
    forall|i: int, j: int| 0 <= i < j < s.len() ==> !lex_lt(s[j].name, s[i].name)
}

/// A symbol matches a lowercased query when the query is empty or occurs
/// in its lowercased name.
pub open spec fn matches_query(q: Seq<char>, s: SymbolModel) -> bool {
    q.len() == 0 || contains(lowercase(s.name), q)
}

/// The listings of the first `k` symbols that match the lowercased query `q`.
pub open spec fn matching(s: Seq<SymbolModel>, q: Seq<char>, k: int) -> Seq<InfoModel>
    decreases k,
{
    if k <= 0 {
        Seq::empty()
    } else {
        matching(s, q, k - 1) + if matches_query(q, s[k - 1]) {
            seq![info_of(s[k - 1])]
        } else {
            Seq::empty()
        }
    }
}

proof fn lemma_insert_multiset<A>(s: Seq<A>, p: int, x: A)
    requires
        0 <= p <= s.len(),
    ensures
        s.insert(p, x).to_multiset() =~= s.to_multiset().insert(x),
{
    let t = s.insert(p, x);
    assert(t.remove(p) =~= s);
    t.to_multiset_ensures();
    assert(t.contains(x)) by {
        assert(t[p] == x);
    }
    assert(t.to_multiset().count(x) > 0);
}

/// The symbols whose lowercased name contains the lowercased query (all of
/// them for an empty query), sorted by name.
pub fn search_workspace_symbols(table: &SymbolTable, query: &str) -> (r: Vec<SymbolInformation>)
    ensures
        sorted_by_name(info_models(r@)),
        info_models(r@).to_multiset() == matching(table@, lowercase(query@), table@.len() as int).to_multiset(),
{
    let q_string = to_lowercase(query);
    let q = chars_of(q_string.as_str());
    let entries = table.symbols();
    let ghost s = table@;
    let mut out: Vec<SymbolInformation> = Vec::new();
    assert(info_models(out@) =~= Seq::<InfoModel>::empty());
    let mut k: usize = 0;
    while k < entries.len()
        invariant
            k <= entries@.len(),
            symbol_models(entries@) == s,
            q@ == lowercase(query@),
            sorted_by_name(info_models(out@)),
            info_models(out@).to_multiset() == matching(s, q@, k as int).to_multiset(),
        decreases entries.len() - k,
    {
        let e = &entries[k];
        assert(e@ == s[k as int]);
        let lower = to_lowercase(e.name.as_str());
        let lower_chars = chars_of(lower.as_str());
        let ghost before = info_models(out@);
        if q.len() == 0 || contains_exec(lower_chars.as_slice(), q.as_slice()) {
            let info = info_from(e);
            let name_chars = chars_of(info.name.as_str());
            let mut p: usize = 0;
            while p < out.len()
                invariant_except_break
                    p <= out@.len(),
                    before == info_models(out@),
                    name_chars@ == info@.name,
                    forall|i: int| 0 <= i < p ==> !lex_lt(info@.name, before[i].name),
                ensures
                    p <= out@.len(),
                    before == info_models(out@),
                    forall|i: int| 0 <= i < p ==> !lex_lt(info@.name, before[i].name),
                    p < out@.len() ==> lex_lt(info@.name, before[p as int].name),
                decreases out.len() - p,
            {
                let other = chars_of(out[p].name.as_str());
                if lex_less(name_chars.as_slice(), other.as_slice()) {
                    break;
                }
                p = p + 1;
            }
            let ghost x = info@;
            out.insert(p, info);
            assert(info_models(out@) =~= before.insert(p as int, x));
            proof {
                lemma_insert_multiset(before, p as int, x);
                let after = info_models(out@);
                assert forall|i: int, j: int| 0 <= i < j < after.len() implies !lex_lt(after[j].name, after[i].name) by {
                    if j == p {
                        assert(after[i] == before[i]);
                    } else if i == p {
                        assert(after[j] == before[j - 1]);
                        assert(p < before.len());
                        if lex_lt(before[j - 1].name, x.name) {
                            lemma_lex_trans(before[j - 1].name, x.name, before[p as int].name, 0);
                            if j - 1 == p {
                                lemma_lex_irrefl(before[p as int].name, 0);
                            } else {
                                assert(sorted_by_name(before));
                                assert(!lex_lt(before[j - 1].name, before[p as int].name));
                            }
                        }
                    } else {
                        let i0 = if i < p { i } else { i - 1 };
                        let j0 = if j < p { j } else { j - 1 };
                        assert(after[i] == before[i0]);
                        assert(after[j] == before[j0]);
                    }
                }
            }
        }
        k = k + 1;
        assert(matching(s, q@, k as int) =~= matching(s, q@, k - 1) + if matches_query(q@, s[k - 1]) {
            seq![info_of(s[k - 1])]
        } else {
            Seq::empty()
        });
        proof {
            let m = matching(s, q@, k - 1);
            if matches_query(q@, s[k - 1]) {
                assert(matching(s, q@, k as int) =~= m.push(info_of(s[k - 1])));
                m.to_multiset_ensures();
            } else {
                assert(matching(s, q@, k as int) =~= m);
            }
        }
    }
    out
}

} // verus!
