//! The index of the official SKILL API functions: lookup by name and
//! prefix completion, both case-insensitive.
use vstd::prelude::*;
use crate::text::{
    chars_eq, chars_of, lemma_chars_deep_view, lemma_lex_trans,
    lex_less, lex_lt, lowercase, occurs_at, starts_with, to_lowercase,
};

verus! {

/// A function of the SKILL API reference.
#[derive(Debug)]
pub struct ApiFunction {
    pub name: String,
    pub signature: String,
    pub description: String,
    pub module: String,
    pub category: String,
}

/// The plain value of an API function.
pub struct ApiModel {
    pub name: Seq<char>,
    pub signature: Seq<char>,
    pub description: Seq<char>,
    pub module: Seq<char>,
    pub category: Seq<char>,
}

impl View for ApiFunction {
    type V = ApiModel;

    open spec fn view(&self) -> ApiModel {
        ApiModel {
            name: self.name@,
            signature: self.signature@,
            description: self.description@,
            module: self.module@,
            category: self.category@,
        }
    }
}

/// The key of a function in the index: its lowercased name.
pub open spec fn api_key(f: ApiModel) -> Seq<char> {
    lowercase(f.name)
}

/// The index of key `k` among the entries at or after `i`, or -1.
pub open spec fn key_index_from(e: Seq<(Seq<char>, ApiModel)>, k: Seq<char>, i: int) -> int
    decreases e.len() - i,
{
    if i < 0 || i >= e.len() {
        -1
    } else if e[i].0 == k {
        i
    } else {
        key_index_from(e, k, i + 1)
    }
}

/// The function stored under key `k`, if any.
pub open spec fn entry_lookup(e: Seq<(Seq<char>, ApiModel)>, k: Seq<char>) -> Option<ApiModel> {
    let i = key_index_from(e, k, 0);
    if i >= 0 {
        Some(e[i].1)
    } else {
        None
    }
}

/// The entries after storing `v` under `k`: it replaces what was stored
/// under `k`, or is added at the end.
pub open spec fn insert_entry(e: Seq<(Seq<char>, ApiModel)>, k: Seq<char>, v: ApiModel) -> Seq<(Seq<char>, ApiModel)> {
    let i = key_index_from(e, k, 0);
    if i >= 0 {
        e.update(i, (k, v))
    } else {
        e.push((k, v))
    }
}

/// The entries of the index built from `fs`: each function stored under its
/// lowercased name, in order, a later one replacing an earlier one.
pub open spec fn index_entries(fs: Seq<ApiModel>) -> Seq<(Seq<char>, ApiModel)>
    decreases fs.len(),
{
    if fs.len() == 0 {
        Seq::empty()
    } else {
        insert_entry(index_entries(fs.drop_last()), api_key(fs.last()), fs.last())
    }
}

/// The keys of entries.
pub open spec fn keys_of(e: Seq<(Seq<char>, ApiModel)>) -> Seq<Seq<char>> {
    e.map_values(|p: (Seq<char>, ApiModel)| p.0)
}

/// Strings in strictly increasing order.
pub open spec fn strictly_sorted(s: Seq<Seq<char>>) -> bool {
    forall|i: int, j: int| 0 <= i < j < s.len() ==> lex_lt(s[i], s[j])
}

/// No key occurs twice.
pub open spec fn distinct_keys(s: Seq<Seq<char>>) -> bool {
    forall|i: int, j: int| 0 <= i < j < s.len() ==> s[i] != s[j]
}

/// The plain value of the index: its entries, and the sorted keys.
pub struct ApiIndexModel {
    pub entries: Seq<(Seq<char>, ApiModel)>,
    pub names: Seq<Seq<char>>,
}

/// The index of API functions by lowercased name, with the lowercased names
/// sorted for prefix completion.
pub struct ApiIndex {
    keys: Vec<Vec<char>>,
    funcs: Vec<ApiFunction>,
    names_lower: Vec<Vec<char>>,
}

/// The entries of parallel key and function lists.
pub open spec fn entries_of(keys: Seq<Vec<char>>, funcs: Seq<ApiFunction>) -> Seq<(Seq<char>, ApiModel)> {
    Seq::new(keys.len(), |i: int| (keys[i]@, funcs[i]@))
}

impl View for ApiIndex {
    type V = ApiIndexModel;

    closed spec fn view(&self) -> ApiIndexModel {
        ApiIndexModel {
            entries: entries_of(self.keys@, self.funcs@),
            names: self.names_lower.deep_view(),
        }
    }
}

/// The index is consistent: keys distinct, names sorted, and the names are
/// exactly the keys.
pub open spec fn index_consistent(m: ApiIndexModel) -> bool {
    &&& distinct_keys(keys_of(m.entries))
    &&& strictly_sorted(m.names)
    &&& m.names.to_multiset() == keys_of(m.entries).to_multiset()
}

proof fn lemma_nested_deep_view(v: &Vec<Vec<char>>)
    ensures
        forall|i: int| 0 <= i < v@.len() ==> #[trigger] v.deep_view()[i] == v@[i]@,
{
    assert forall|i: int| 0 <= i < v@.len() implies #[trigger] v.deep_view()[i] == v@[i]@ by {
        lemma_chars_deep_view(&v@[i]);
    }
}

/// The first `n` elements of `s`, or all of them when there are fewer.
pub open spec fn first_n<A>(s: Seq<A>, n: int) -> Seq<A> {
    if n < s.len() {
        s.take(n)
    } else {
        s
    }
}

/// The key index found from `i` is -1 or an index at or after `i` holding the key;
/// when -1, no entry from `i` on holds it.
pub proof fn lemma_key_index_from(e: Seq<(Seq<char>, ApiModel)>, k: Seq<char>, i: int)
    requires
        0 <= i <= e.len(),
    ensures
        key_index_from(e, k, i) == -1 || (i <= key_index_from(e, k, i) < e.len() && e[key_index_from(
            e,
            k,
            i,
        )].0 == k),
        key_index_from(e, k, i) == -1 ==> forall|m: int| i <= m < e.len() ==> e[m].0 != k,
    decreases e.len() - i,
{
    if i < e.len() && e[i].0 != k {
        lemma_key_index_from(e, k, i + 1);
    }
}

fn find_key(keys: &Vec<Vec<char>>, key: &[char]) -> (r: Option<usize>)
    ensures
        match r {
            Some(i) => i < keys@.len() && keys@[i as int]@ == key@ && forall|m: int|
                0 <= m < i ==> keys@[m]@ != key@,
            None => forall|m: int| 0 <= m < keys@.len() ==> keys@[m]@ != key@,
        },
{
    let mut i: usize = 0;
    while i < keys.len()
        invariant
            i <= keys@.len(),
            forall|m: int| 0 <= m < i ==> keys@[m]@ != key@,
        decreases keys.len() - i,
    {
        if chars_eq(keys[i].as_slice(), key) {
            return Some(i);
        }
        i = i + 1;
    }
    None
}

/// The first entry that holds a key is the one the key finds.
pub proof fn lemma_first_key(e: Seq<(Seq<char>, ApiModel)>, k: Seq<char>, i: int)
    requires
        0 <= i < e.len(),
        e[i].0 == k,
        forall|m: int| 0 <= m < i ==> e[m].0 != k,
    ensures
        key_index_from(e, k, 0) == i,
{
    lemma_key_index_from(e, k, 0);
    if key_index_from(e, k, 0) != i {
        lemma_key_index_from(e, k, 0);
    }
    lemma_key_index_prefix(e, k, 0, i);
}

proof fn lemma_key_index_prefix(e: Seq<(Seq<char>, ApiModel)>, k: Seq<char>, j: int, i: int)
    requires
        0 <= j <= i < e.len(),
        e[i].0 == k,
        forall|m: int| 0 <= m < i ==> e[m].0 != k,
    ensures
        key_index_from(e, k, j) == i,
    decreases i - j,
{
    if j < i {
        lemma_key_index_prefix(e, k, j + 1, i);
    }
}

proof fn lemma_insert_multiset<A>(s: Seq<A>, p: int, x: A)
    requires
        0 <= p <= s.len(),
    ensures
        s.insert(p, x).to_multiset() =~= s.to_multiset().insert(x),
{
    let t = s.insert(p, x);
    assert(t.remove(p) =~= s);
    t.to_multiset_ensures();
    assert(t.contains(x)) by {
        assert(t[p] == x);
    }
    assert(t.to_multiset().count(x) > 0);
}

/// Builds the index from the list of API functions.
pub fn init(functions: Vec<ApiFunction>) -> (r: ApiIndex)
    ensures
        r@.entries == index_entries(functions@.map_values(|f: ApiFunction| f@)),
        index_consistent(r@),
{
    let ghost fs = functions@.map_values(|f: ApiFunction| f@);
    let mut keys: Vec<Vec<char>> = Vec::new();
    let mut funcs: Vec<ApiFunction> = Vec::new();
    assert(entries_of(keys@, funcs@) =~= index_entries(fs.take(0)));
    for f in it: functions.into_iter()
        invariant
            it.seq() == functions@,
            fs == functions@.map_values(|f: ApiFunction| f@),
            keys@.len() == funcs@.len(),
            entries_of(keys@, funcs@) == index_entries(fs.take(it.index() as int)),
            distinct_keys(keys.deep_view()),
    {
        let ghost j = it.index();
        assert(f@ == fs[j]);
        let lower = to_lowercase(f.name.as_str());
        let key = chars_of(lower.as_str());
        let ghost before = entries_of(keys@, funcs@);
        assert(fs.take(j + 1).drop_last() =~= fs.take(j));
        assert(fs.take(j + 1).last() == f@);
        match find_key(&keys, key.as_slice()) {
            Some(i) => {
                proof {
                    lemma_first_key(before, key@, i as int);
                }
                funcs.set(i, f);
                assert(entries_of(keys@, funcs@) =~= before.update(i as int, (key@, fs[j])));
            },
            None => {
                proof {
                    lemma_key_index_from(before, key@, 0);
                    if key_index_from(before, key@, 0) != -1 {
                        let m = key_index_from(before, key@, 0);
                        assert(before[m].0 == keys@[m]@);
                    }
                    lemma_chars_deep_view(&key);
                }
                let ghost old_keys = keys.deep_view();
                keys.push(key);
                funcs.push(f);
                assert(entries_of(keys@, funcs@) =~= before.push((key@, fs[j])));
                assert(keys.deep_view() =~= old_keys.push(key@));
                assert forall|a: int, b: int| 0 <= a < b < keys.deep_view().len() implies keys.deep_view()[a]
                    != keys.deep_view()[b] by {
                    if b == old_keys.len() {
                        assert(keys.deep_view()[a] == keys@[a]@);
                    }
                }
            },
        }
    }
    assert(fs.take(fs.len() as int) =~= fs);
    let ghost entries = entries_of(keys@, funcs@);
    proof {
        lemma_nested_deep_view(&keys);
    }
    assert(keys_of(entries) =~= keys.deep_view());
    let names = sorted_names(&keys);
    let r = ApiIndex { keys, funcs, names_lower: names };
    r
}

/// The keys, sorted.
fn sorted_names(keys: &Vec<Vec<char>>) -> (r: Vec<Vec<char>>)
    requires
        distinct_keys(keys.deep_view()),
    ensures
        strictly_sorted(r.deep_view()),
        r.deep_view().to_multiset() == keys.deep_view().to_multiset(),
{
    let ghost kv = keys.deep_view();
    let mut out: Vec<Vec<char>> = Vec::new();
    assert(out.deep_view() =~= kv.take(0));
    let mut k: usize = 0;
    while k < keys.len()
        invariant
            k <= keys@.len(),
            kv == keys.deep_view(),
            distinct_keys(kv),
            strictly_sorted(out.deep_view()),
            out.deep_view().to_multiset() == kv.take(k as int).to_multiset(),
        decreases keys.len() - k,
    {
        let x = crate::text::copy_range(keys[k].as_slice(), 0, keys[k].len());
        proof {
            lemma_chars_deep_view(&x);
            lemma_chars_deep_view(&keys@[k as int]);
            assert(keys@[k as int]@.subrange(0, keys@[k as int]@.len() as int) =~= keys@[k as int]@);
        }
        assert(x@ == kv[k as int]);
        let ghost before = out.deep_view();
        proof {
            // x is not among the keys placed so far
            assert(!kv.take(k as int).contains(x@)) by {
                if kv.take(k as int).contains(x@) {
                    let m = choose|m: int| 0 <= m < k && kv.take(k as int)[m] == x@;
                    assert(kv[m] == kv[k as int]);
                }
            }
            kv.take(k as int).to_multiset_ensures();
            before.to_multiset_ensures();
            assert(before.to_multiset().count(x@) == kv.take(k as int).to_multiset().count(x@));
            assert(!before.contains(x@));
        }
        let mut p: usize = out.len();
        while p > 0
            invariant_except_break
                p <= out@.len(),
                before == out.deep_view(),
                x@ == kv[k as int],
                forall|i: int| p <= i < before.len() ==> lex_lt(x@, before[i]),
            ensures
                p <= out@.len(),
                before == out.deep_view(),
                forall|i: int| p <= i < before.len() ==> lex_lt(x@, before[i]),
                p > 0 ==> !lex_lt(x@, before[p - 1]),
            decreases p,
        {
            proof {
                lemma_chars_deep_view(&out@[p - 1]);
            }
            if !lex_less(x.as_slice(), out[p - 1].as_slice()) {
                break;
            }
            p = p - 1;
        }
        let ghost xv = x@;
        out.insert(p, x);
        proof {
            let after = out.deep_view();
            assert(after =~= before.insert(p as int, xv));
            lemma_insert_multiset(before, p as int, xv);
            assert(kv.take(k + 1) =~= kv.take(k as int).push(xv));
            kv.take(k as int).to_multiset_ensures();
            assert forall|i: int, j: int| 0 <= i < j < after.len() implies lex_lt(after[i], after[j]) by {
                if j == p {
                    assert(after[i] == before[i]);
                    assert(!lex_lt(xv, before[p - 1]));
                    assert(xv != before[p - 1]) by {
                        assert(before.contains(before[p - 1]));
                    }
                    crate::text::lemma_lex_total_full(xv, before[p - 1]);
                    if i < p - 1 {
                        assert(strictly_sorted(before));
                        assert(lex_lt(before[i], before[p - 1]));
                        lemma_lex_trans(before[i], before[p - 1], xv, 0);
                    }
                } else if i == p {
                    assert(after[j] == before[j - 1]);
                } else {
                    let i0 = if i < p { i } else { i - 1 };
                    let j0 = if j < p { j } else { j - 1 };
                    assert(after[i] == before[i0]);
                    assert(after[j] == before[j0]);
                }
            }
        }
        k = k + 1;
    }
    assert(kv.take(kv.len() as int) =~= kv);
    out
}

impl ApiIndex {
    #[verifier::type_invariant]
    spec fn consistent(&self) -> bool {
        &&& self.keys@.len() == self.funcs@.len()
        &&& index_consistent(self@)
    }

    /// The number of distinct (lowercased) function names.
    pub fn len(&self) -> (r: usize)
        ensures
            r == self@.entries.len(),
    {
        proof {
            use_type_invariant(self);
        }
        self.keys.len()
    }

    /// The function stored under the key `key`, if any.
    fn get_key(&self, key: &[char]) -> (r: Option<&ApiFunction>)
        ensures
            match entry_lookup(self@.entries, key@) {
                Some(f) => r is Some && r->0@ == f,
                None => r is None,
            },
    {
        proof {
            use_type_invariant(self);
            lemma_key_index_from(self@.entries, key@, 0);
        }
        match find_key(&self.keys, key) {
            Some(i) => {
                proof {
                    lemma_first_key(self@.entries, key@, i as int);
                }
                Some(&self.funcs[i])
            },
            None => None,
        }
    }

    /// Exact, case-insensitive lookup by function name.
    pub fn get(&self, name: &str) -> (r: Option<&ApiFunction>)
        ensures
            match entry_lookup(self@.entries, lowercase(name@)) {
                Some(f) => r is Some && r->0@ == f,
                None => r is None,
            },
    {
        let lower = to_lowercase(name);
        let key = chars_of(lower.as_str());
        self.get_key(key.as_slice())
    }

    /// The case-insensitive prefix matches, ordered by name, at most `limit` of them.
    pub fn completions(&self, prefix: &str, limit: usize) -> (r: Vec<&ApiFunction>)
        ensures
            r@.map_values(|f: &ApiFunction| f@) == completion_models(self@, lowercase(prefix@), limit as int),
    {
        proof {
            use_type_invariant(self);
        }
        let lower = to_lowercase(prefix);
        let needle = chars_of(lower.as_str());
        let mut out: Vec<&ApiFunction> = Vec::new();
        if needle.len() == 0 {
            assert(out@.map_values(|f: &ApiFunction| f@) =~= Seq::<ApiModel>::empty());
            return out;
        }
        let ghost names = self@.names;
        let mut picked: Vec<usize> = Vec::new();
        assert(picked@.map_values(|m: usize| names[m as int]) =~= first_n(prefixed(names, needle@, 0), limit as int));
        let mut k: usize = 0;
        while k < self.names_lower.len()
            invariant
                k <= names.len(),
                names == self.names_lower.deep_view(),
                picked@.len() <= limit,
                forall|m: int| 0 <= m < picked@.len() ==> picked@[m] < names.len(),
                picked@.map_values(|m: usize| names[m as int]) == first_n(
                    prefixed(names, needle@, k as int),
                    limit as int,
                ),
            decreases self.names_lower.len() - k,
        {
            let name = &self.names_lower[k];
            proof {
                lemma_chars_deep_view(name);
            }
            assert(names[k as int] == name@);
            let ghost pre = prefixed(names, needle@, k as int);
            if starts_with(name.as_slice(), needle.as_slice()) && picked.len() < limit {
                let ghost before = picked@;
                picked.push(k);
                assert(picked@.map_values(|m: usize| names[m as int]) =~= before.map_values(
                    |m: usize| names[m as int],
                ).push(names[k as int]));
                assert(pre.len() == before.len());
            }
            k = k + 1;
            proof {
                let pre2 = prefixed(names, needle@, k as int);
                if occurs_at(names[k - 1], needle@, 0) {
                    assert(pre2 == pre.push(names[k - 1]));
                } else {
                    assert(pre2 == pre);
                }
            }
            assert(picked@.map_values(|m: usize| names[m as int]) =~= first_n(
                prefixed(names, needle@, k as int),
                limit as int,
            ));
        }
        let ghost chosen = first_n(prefixed(names, needle@, names.len() as int), limit as int);
        let mut j: usize = 0;
        while j < picked.len()
            invariant
                j <= picked@.len(),
                names == self.names_lower.deep_view(),
                forall|m: int| 0 <= m < picked@.len() ==> picked@[m] < names.len(),
                picked@.map_values(|m: usize| names[m as int]) == chosen,
                out@.map_values(|f: &ApiFunction| f@) == lookups(self@.entries, chosen.take(j as int)),
            decreases picked.len() - j,
        {
            let name = &self.names_lower[picked[j]];
            proof {
                lemma_chars_deep_view(name);
            }
            assert(chosen[j as int] == name@);
            let ghost before = out@.map_values(|f: &ApiFunction| f@);
            assert(chosen.take(j + 1).drop_last() =~= chosen.take(j as int));
            match self.get_key(name.as_slice()) {
                Some(f) => {
                    out.push(f);
                    assert(out@.map_values(|f: &ApiFunction| f@) =~= before.push(f@));
                },
                None => {},
            }
            j = j + 1;
        }
        assert(chosen.take(chosen.len() as int) =~= chosen);
        out
    }
}

/// The names among the first `k` that start with `needle`, in order.
pub open spec fn prefixed(names: Seq<Seq<char>>, needle: Seq<char>, k: int) -> Seq<Seq<char>>
    decreases k,
{
    if k <= 0 {
        Seq::empty()
    } else {
        prefixed(names, needle, k - 1) + if occurs_at(names[k - 1], needle, 0) {
            seq![names[k - 1]]
        } else {
            Seq::empty()
        }
    }
}

/// The functions stored under each of `ns` that has one, in order.
pub open spec fn lookups(e: Seq<(Seq<char>, ApiModel)>, ns: Seq<Seq<char>>) -> Seq<ApiModel>
    decreases ns.len(),
{
    if ns.len() == 0 {
        Seq::empty()
    } else {
        lookups(e, ns.drop_last()) + match entry_lookup(e, ns.last()) {
            Some(f) => seq![f],
            None => Seq::empty(),
        }
    }
}

/// The completions of a lowercased prefix: none for an empty prefix; else
/// the functions of the first `limit` sorted names that start with it.
pub open spec fn completion_models(m: ApiIndexModel, needle: Seq<char>, limit: int) -> Seq<ApiModel> {
    if needle.len() == 0 {
        Seq::empty()
    } else {
        lookups(m.entries, first_n(prefixed(m.names, needle, m.names.len() as int), limit))
    }
}

} // verus!
