//! In-memory geographic indexes: a sorted list of keys, each with what it
//! leads to (the codes of districts, or a place for the postal index).
use vstd::prelude::*;
use crate::entry::Iris;
use crate::error::{StorageError, StorageResult};
use crate::keys::{
    chars_contains, chars_lt, chars_of, key_le, key_lt, key_matches, lemma_key_lt_irreflexive,
    lemma_key_lt_transitive, to_upper,
};

verus! {

/// The texts of a list of strings.
pub open spec fn texts(v: Seq<String>) -> Seq<Seq<char>> {
    v.map_values(|s: String| s@)
}

pub proof fn lemma_texts_push(s: Seq<String>, x: String)
    ensures
        texts(s.push(x)) == texts(s).push(x@),
{
    assert(texts(s.push(x)) =~= texts(s).push(x@));
}

/// The keys of an index, in its order.
pub open spec fn key_seq<V>(entries: Seq<(String, V)>) -> Seq<Seq<char>> {
    entries.map_values(|p: (String, V)| p.0@)
}

/// Keys in strictly increasing order, hence pairwise distinct.
pub open spec fn sorted_keys(keys: Seq<Seq<char>>) -> bool {
    forall|i: int, j: int| 0 <= i < j < keys.len() ==> key_lt(#[trigger] keys[i], #[trigger] keys[j])
}

/// A key lies in the range that a search is narrowed to: with a start `p`,
/// from `p` included up to `p` followed by `z` excluded.
pub open spec fn in_scope(key: Seq<char>, start: Option<Seq<char>>) -> bool {
    match start {
        None => true,
        Some(p) => key_le(p, key) && key_lt(key, p.push('z')),
    }
}

pub open spec fn selected(key: Seq<char>, query: Seq<char>, start: Option<Seq<char>>) -> bool {
    in_scope(key, start) && key_matches(key, query)
}

pub open spec fn selector(query: Seq<char>, start: Option<Seq<char>>) -> spec_fn(Seq<char>) -> bool {
    |k: Seq<char>| selected(k, query, start)
}

/// The keys that a search gives, in index order.
pub open spec fn search_of(keys: Seq<Seq<char>>, query: Seq<char>, start: Option<Seq<char>>) -> Seq<
    Seq<char>,
> {
    keys.filter(selector(query, start))
}

pub open spec fn opt_text(s: Option<String>) -> Option<Seq<char>> {
    match s {
        Some(t) => Some(t@),
        None => None,
    }
}

/// An exact copy of a list of strings.
pub fn copy_texts(v: &Vec<String>) -> (r: Vec<String>)
    ensures
        r@ == v@,
{
    let mut r: Vec<String> = Vec::new();
    let mut i: usize = 0;
    while i < v.len()
        invariant
            i <= v.len(),
            r@ == v@.subrange(0, i as int),
        decreases v.len() - i,
    {
        r.push(v[i].clone());
        i = i + 1;
    }
    assert(r@ =~= v@);
    r
}

pub(crate) fn keys_sorted<V>(entries: &Vec<(String, V)>) -> (r: bool)
    ensures
        r == sorted_keys(key_seq(entries@)),
{
    let ghost keys = key_seq(entries@);
    let mut i: usize = 1;
    if entries.len() == 0 {
        return true;
    }
    let mut prev = chars_of(entries[0].0.as_str());
    while i < entries.len()
        invariant
            keys == key_seq(entries@),
            1 <= i <= entries.len(),
            prev@ == keys[i - 1],
            forall|a: int, b: int| 0 <= a < b < i ==> key_lt(#[trigger] keys[a], #[trigger] keys[b]),
        decreases entries.len() - i,
    {
        let cur = chars_of(entries[i].0.as_str());
        if !chars_lt(&prev, &cur) {
            assert(!key_lt(keys[i - 1], keys[i as int]));
            return false;
        }
        proof {
            assert forall|a: int, b: int| 0 <= a < b < i + 1 implies key_lt(
                #[trigger] keys[a],
                #[trigger] keys[b],
            ) by {
                if b == i && a < i - 1 {
                    lemma_key_lt_transitive(keys[a], keys[i - 1], keys[b]);
                }
            }
        }
        prev = cur;
        i = i + 1;
    }
    true
}

/// Where `key` stands in the index, if it does.
fn position_of<V>(entries: &Vec<(String, V)>, key: &String) -> (r: Option<usize>)
    ensures
        match r {
            Some(i) => i < entries@.len() && entries@[i as int].0@ == key@,
            None => !key_seq(entries@).contains(key@),
        },
{
    let mut i: usize = 0;
    while i < entries.len()
        invariant
            i <= entries.len(),
            forall|j: int| 0 <= j < i ==> entries@[j].0@ != key@,
        decreases entries.len() - i,
    {
        if entries[i].0 == *key {
            return Some(i);
        }
        i = i + 1;
    }
    proof {
        if key_seq(entries@).contains(key@) {
            let j = choose|j: int| 0 <= j < key_seq(entries@).len() && key_seq(entries@)[j] == key@;
            assert(entries@[j].0@ == key@);
        }
    }
    None
}

fn all_keys<V>(entries: &Vec<(String, V)>) -> (r: Vec<String>)
    ensures
        texts(r@) == key_seq(entries@),
{
    let mut r: Vec<String> = Vec::new();
    let mut i: usize = 0;
    while i < entries.len()
        invariant
            i <= entries.len(),
            texts(r@) == key_seq(entries@).subrange(0, i as int),
        decreases entries.len() - i,
    {
        let k = entries[i].0.clone();
        assert(k@ == entries@[i as int].0@);
        proof {
            lemma_texts_push(r@, k);
        }
        r.push(k);
        assert(texts(r@) =~= key_seq(entries@).subrange(0, i + 1));
        i = i + 1;
    }
    assert(key_seq(entries@).subrange(0, i as int) =~= key_seq(entries@));
    r
}

proof fn lemma_filter_none<A>(s: Seq<A>, f: spec_fn(A) -> bool)
    requires
        forall|t: int| 0 <= t < s.len() ==> !f(#[trigger] s[t]),
    ensures
        s.filter(f) == Seq::<A>::empty(),
    decreases s.len(),
{
    reveal(Seq::filter);
    if s.len() > 0 {
        assert forall|t: int| 0 <= t < s.drop_last().len() implies !f(#[trigger] s.drop_last()[t]) by {
            assert(s.drop_last()[t] == s[t]);
        }
        lemma_filter_none(s.drop_last(), f);
        assert(!f(s[s.len() - 1]));
    }
}

/// Where the keys stop being below `low` in sorted keys.
pub(crate) fn lower_bound<V>(entries: &Vec<(String, V)>, low: &Vec<char>) -> (r: usize)
    requires
        sorted_keys(key_seq(entries@)),
    ensures
        r <= entries@.len(),
        forall|t: int| 0 <= t < r ==> key_lt(#[trigger] key_seq(entries@)[t], low@),
        forall|t: int| r <= t < entries@.len() ==> !key_lt(#[trigger] key_seq(entries@)[t], low@),
{
    let ghost keys = key_seq(entries@);
    let mut lo: usize = 0;
    let mut hi: usize = entries.len();
    while lo < hi
        invariant
            keys == key_seq(entries@),
            sorted_keys(keys),
            lo <= hi <= entries@.len(),
            forall|t: int| 0 <= t < lo ==> key_lt(#[trigger] keys[t], low@),
            forall|t: int| hi <= t < entries@.len() ==> !key_lt(#[trigger] keys[t], low@),
        decreases hi - lo,
    {
        let mid = lo + (hi - lo) / 2;
        let kc = chars_of(entries[mid].0.as_str());
        assert(kc@ == keys[mid as int]);
        if chars_lt(&kc, low) {
            proof {
                assert forall|t: int| 0 <= t < mid + 1 implies key_lt(#[trigger] keys[t], low@) by {
                    if t < mid {
                        lemma_key_lt_transitive(keys[t], keys[mid as int], low@);
                    }
                }
            }
            lo = mid + 1;
        } else {
            proof {
                assert forall|t: int| mid <= t < entries@.len() implies !key_lt(#[trigger] keys[t], low@) by {
                    if t > mid && key_lt(keys[t], low@) {
                        lemma_key_lt_transitive(keys[mid as int], keys[t], low@);
                    }
                }
            }
            hi = mid;
        }
    }
    lo
}

/// The keys that a search gives. With a start, the range is found by binary
/// search and walked until it ends.
fn search_keys<V>(entries: &Vec<(String, V)>, query: &str, start: &Option<String>) -> (r: Vec<
    String,
>)
    requires
        sorted_keys(key_seq(entries@)),
    ensures
        texts(r@) == search_of(key_seq(entries@), query@, opt_text(*start)),
        query@.len() == 0 && start is None ==> texts(r@) == key_seq(entries@),
{
    let ghost keys = key_seq(entries@);
    let ghost f = selector(query@, opt_text(*start));
    let upper_query = to_upper(query);
    let qc = chars_of(upper_query.as_str());
    let bounds: Option<(Vec<char>, Vec<char>, String)> = match start {
        Some(p) => {
            let pc = chars_of(p.as_str());
            let mut top = p.clone();
            top.append("z");
            proof {
                reveal_strlit("z");
            }
            let tc = chars_of(top.as_str());
            assert(tc@ == p@.push('z'));
            Some((pc, tc, top))
        },
        None => None,
    };
    let lo: usize = match &bounds {
        Some((pc, _, _)) => lower_bound(entries, pc),
        None => 0,
    };
    proof {
        if let Some((pc, tc, top)) = &bounds {
            assert forall|t: int| 0 <= t < lo implies !f(#[trigger] keys.take(lo as int)[t]) by {
                let k = keys[t];
                assert(keys.take(lo as int)[t] == k);
                assert(key_lt(k, pc@));
                if key_le(pc@, k) {
                    if pc@ == k {
                        lemma_key_lt_irreflexive(k);
                    } else {
                        lemma_key_lt_transitive(k, pc@, k);
                        lemma_key_lt_irreflexive(k);
                    }
                }
            }
            lemma_filter_none(keys.take(lo as int), f);
        } else {
            assert(keys.take(0) =~= Seq::<Seq<char>>::empty());
        }
        assert(keys.subrange(lo as int, lo as int) =~= Seq::<Seq<char>>::empty());
        reveal(Seq::filter);
    }
    let mut r: Vec<String> = Vec::new();
    let mut i: usize = lo;
    let mut done = false;
    while i < entries.len() && !done
        invariant
            keys == key_seq(entries@),
            sorted_keys(keys),
            f == selector(query@, opt_text(*start)),
            lo <= i <= entries.len(),
            qc@ == crate::keys::upper_of(query@),
            match bounds {
                Some((pc, tc, top)) => start matches Some(p) && pc@ == p@ && tc@ == p@.push('z')
                    && top@ == p@.push('z'),
                None => start is None && lo == 0,
            },
            keys.take(lo as int).filter(f) == Seq::<Seq<char>>::empty(),
            texts(r@) == keys.subrange(lo as int, i as int).filter(f),
            done ==> forall|t: int| i <= t < keys.len() ==> !f(#[trigger] keys[t]),
            done ==> start is Some,
            query@.len() == 0 ==> qc@.len() == 0,
            query@.len() == 0 && start is None ==> texts(r@) == keys.take(i as int),
        decreases entries.len() - i + (if done { 0int } else { 1int }),
    {
        let key = &entries[i].0;
        let kc = chars_of(key.as_str());
        let past = match &bounds {
            Some((_, tc, top)) => *key == *top || chars_lt(tc, &kc),
            None => false,
        };
        if past {
            proof {
                if let Some((pc, tc, top)) = &bounds {
                    assert forall|t: int| i <= t < keys.len() implies !f(#[trigger] keys[t]) by {
                        let k = keys[t];
                        if t > i {
                            if keys[i as int] == tc@ {
                                assert(key_lt(keys[i as int], k));
                            } else {
                                lemma_key_lt_transitive(tc@, keys[i as int], k);
                            }
                        }
                        assert(k == tc@ || key_lt(tc@, k));
                        if key_lt(k, tc@) {
                            if k == tc@ {
                                lemma_key_lt_irreflexive(k);
                            } else {
                                lemma_key_lt_transitive(k, tc@, k);
                                lemma_key_lt_irreflexive(k);
                            }
                        }
                    }
                }
            }
            done = true;
        } else {
            let scoped = match &bounds {
                Some((pc, tc, top)) => {
                    let above = match start {
                        Some(p) => *key == *p,
                        None => false,
                    } || chars_lt(pc, &kc);
                    let below = chars_lt(&kc, tc);
                    above && below
                },
                None => true,
            };
            let hit = if scoped {
                let upper_key = to_upper(key.as_str());
                let kcu = chars_of(upper_key.as_str());
                proof {
                    if qc@.len() == 0 {
                        assert(kcu@.subrange(0int, 0int + qc@.len()) =~= qc@);
                        assert(crate::keys::seq_contains(kcu@, qc@));
                    }
                }
                chars_contains(&kcu, &qc)
            } else {
                false
            };
            assert(hit == f(keys[i as int]));
            assert(query@.len() == 0 && start is None ==> hit);
            proof {
                reveal(Seq::filter);
                assert(keys.subrange(lo as int, i + 1).drop_last() =~= keys.subrange(lo as int, i as int));
                assert(keys.subrange(lo as int, i + 1).last() == keys[i as int]);
                assert(keys.take(i + 1).drop_last() =~= keys.take(i as int));
            }
            if hit {
                let k = key.clone();
                proof {
                    lemma_texts_push(r@, k);
                }
                r.push(k);
                assert(texts(r@) =~= keys.subrange(lo as int, i as int).filter(f).push(keys[i as int]));
                assert(query@.len() == 0 && start is None ==> texts(r@) =~= keys.take(i + 1));
            }
            i = i + 1;
        }
    }
    proof {
        let hi = i as int;
        assert forall|t: int| 0 <= t < keys.skip(hi).len() implies !f(#[trigger] keys.skip(hi)[t]) by {
            assert(keys.skip(hi)[t] == keys[hi + t]);
        }
        lemma_filter_none(keys.skip(hi), f);
        assert(keys =~= keys.take(lo as int) + keys.subrange(lo as int, hi) + keys.skip(hi));
        Seq::filter_distributes_over_add(keys.take(lo as int) + keys.subrange(lo as int, hi), keys.skip(hi), f);
        Seq::filter_distributes_over_add(keys.take(lo as int), keys.subrange(lo as int, hi), f);
        assert(keys.subrange(lo as int, hi).filter(f) =~= Seq::<Seq<char>>::empty() + keys.subrange(lo as int, hi).filter(f) + Seq::<Seq<char>>::empty());
        if query@.len() == 0 && start is None {
            assert(keys.take(hi) =~= keys);
        }
    }
    r
}

/// The entries of a code index as texts.
pub open spec fn entries_view(v: Seq<(String, Vec<String>)>) -> Seq<(Seq<char>, Seq<Seq<char>>)> {
    v.map_values(|p: (String, Vec<String>)| (p.0@, texts(p.1@)))
}

/// Entries that make a well-formed code index: keys strictly increasing,
/// each with at least one code.
pub open spec fn entries_wf(v: Seq<(Seq<char>, Seq<Seq<char>>)>) -> bool {
    &&& sorted_keys(v.map_values(|p: (Seq<char>, Seq<Seq<char>>)| p.0))
    &&& forall|i: int| 0 <= i < v.len() ==> (#[trigger] v[i]).1.len() > 0
}

/// What a JSON text gives when read as an object from keys to lists of
/// codes, in key order; `None` when it is no such object.
pub uninterp spec fn json_code_index(text: Seq<char>) -> Option<Seq<(Seq<char>, Seq<Seq<char>>)>>;

/// Relies on `serde_json::from_str` reading the text into a
/// `BTreeMap<String, Vec<String>>`, whose entries come out in key order: the
/// outcome depends on the text alone.
#[verifier::external_body]
fn parse_code_index(text: &str) -> (r: Option<Vec<(String, Vec<String>)>>)
    ensures
        match r {
            Some(v) => json_code_index(text@) == Some(entries_view(v@)),
            None => json_code_index(text@) is None,
        },
{
    match serde_json::from_str::<std::collections::BTreeMap<String, Vec<String>>>(text) {
        Ok(m) => Some(m.into_iter().collect()),
        Err(_) => None,
    }
}

/// An index from a key (a region, a department, a city code) to the codes of
/// the districts it holds.
pub struct MemoryIndexStorage {
    pub index: Vec<(String, Vec<String>)>,
}

impl MemoryIndexStorage {
    /// Keys in strictly increasing order, each with at least one code.
    pub open spec fn wf(&self) -> bool {
        &&& sorted_keys(self.keys())
        &&& forall|i: int| 0 <= i < self.index@.len() ==> (#[trigger] self.index@[i]).1@.len() > 0
    }

    pub open spec fn keys(&self) -> Seq<Seq<char>> {
        key_seq(self.index@)
    }

    /// The codes at position `i`.
    pub open spec fn codes_at(&self, i: int) -> Seq<Seq<char>> {
        texts(self.index@[i].1@)
    }

    /// The codes that `key` leads to, if it is in the index.
    pub open spec fn lookup(&self, key: Seq<char>) -> Option<Seq<Seq<char>>> {
        if self.keys().contains(key) {
            Some(self.codes_at(self.keys().index_of(key)))
        } else {
            None
        }
    }

    /// Builds an index from its entries, which must come with strictly
    /// increasing keys, each with at least one code.
    pub fn from_entries(entries: Vec<(String, Vec<String>)>) -> (r: StorageResult<Self>)
        ensures
            match r {
                Ok(ix) => ix.wf() && ix.index@ == entries@,
                Err(e) => e == StorageError::CreationImpossible && !(sorted_keys(
                    key_seq(entries@),
                ) && forall|i: int|
                    0 <= i < entries@.len() ==> (#[trigger] entries@[i]).1@.len() > 0),
            },
    {
        if !keys_sorted(&entries) {
            return Err(StorageError::CreationImpossible);
        }
        let mut i: usize = 0;
        while i < entries.len()
            invariant
                i <= entries.len(),
                forall|j: int| 0 <= j < i ==> (#[trigger] entries@[j]).1@.len() > 0,
            decreases entries.len() - i,
        {
            if entries[i].1.len() == 0 {
                return Err(StorageError::CreationImpossible);
            }
            i = i + 1;
        }
        Ok(MemoryIndexStorage { index: entries })
    }

    /// Reads an index from its JSON form: an object from keys to lists of
    /// codes.
    pub fn from_json(text: &str) -> (r: StorageResult<Self>)
        ensures
            match r {
                Ok(ix) => ix.wf() && json_code_index(text@) == Some(entries_view(ix.index@)),
                Err(e) => e == StorageError::CreationImpossible && match json_code_index(text@) {
                    Some(v) => !entries_wf(v),
                    None => true,
                },
            },
    {
        match parse_code_index(text) {
            Some(entries) => {
                let ghost v = entries_view(entries@);
                proof {
                    assert(v.map_values(|p: (Seq<char>, Seq<Seq<char>>)| p.0) =~= key_seq(entries@));
                    assert forall|i: int| 0 <= i < v.len() implies (#[trigger] v[i]).1.len()
                        == entries@[i].1@.len() by {
                        assert(v[i].1 == texts(entries@[i].1@));
                    }
                    if forall|i: int| 0 <= i < v.len() ==> (#[trigger] v[i]).1.len() > 0 {
                        assert forall|i: int| 0 <= i < entries@.len() implies (
                        #[trigger] entries@[i]).1@.len() > 0 by {
                            assert(v[i].1.len() > 0);
                        }
                    }
                    if forall|i: int| 0 <= i < entries@.len() ==> (#[trigger] entries@[i]).1@.len() > 0 {
                        assert forall|i: int| 0 <= i < v.len() implies (#[trigger] v[i]).1.len() > 0 by {
                            assert(entries@[i].1@.len() > 0);
                        }
                    }
                }
                MemoryIndexStorage::from_entries(entries)
            },
            None => Err(StorageError::CreationImpossible),
        }
    }

    /// Nothing to load: the entries are given at construction.
    pub fn load_index(&self) -> (r: StorageResult<()>)
        ensures
            r is Ok,
    {
        Ok(())
    }

    /// The keys whose upper-cased text holds the upper-cased `query`; with a
    /// start `p`, only those from `p` up to, not
    /// including, `p` followed by `z`.
    pub fn search_on_key(&self, query: &str, start_with: &Option<String>) -> (r: StorageResult<
        Vec<String>,
    >)
        requires
            self.wf(),
        ensures
            r matches Ok(v) && texts(v@) == search_of(self.keys(), query@, opt_text(*start_with)),
            r matches Ok(v) && (query@.len() == 0 && start_with is None ==> texts(v@) == self.keys()),
    {
        Ok(search_keys(&self.index, query, start_with))
    }

    /// The codes that `value` leads to, or `None` when it is no key.
    pub fn get_index(&self, value: &String) -> (r: StorageResult<Option<Vec<String>>>)
        requires
            self.wf(),
        ensures
            r matches Ok(o) && match o {
                Some(v) => self.lookup(value@) == Some(texts(v@)),
                None => self.lookup(value@) is None,
            },
    {
        match position_of(&self.index, value) {
            Some(i) => {
                proof {
                    self.lemma_index_of(i as int);
                }
                Ok(Some(copy_texts(&self.index[i].1)))
            },
            None => Ok(None),
        }
    }

    /// All codes, key after key.
    pub fn get_all_values(&self) -> (r: StorageResult<Vec<String>>)
        ensures
            r matches Ok(v) && texts(v@) == Seq::new(self.index@.len(), |i: int| self.codes_at(i)).flatten(),
    {
        let ghost all = Seq::new(self.index@.len(), |i: int| self.codes_at(i));
        let mut r: Vec<String> = Vec::new();
        let mut i: usize = 0;
        while i < self.index.len()
            invariant
                i <= self.index@.len(),
                all == Seq::new(self.index@.len(), |i: int| self.codes_at(i)),
                texts(r@) == all.take(i as int).flatten(),
            decreases self.index.len() - i,
        {
            let codes = &self.index[i].1;
            let mut j: usize = 0;
            let ghost before = texts(r@);
            while j < codes.len()
                invariant
                    i < self.index@.len(),
                    j <= codes@.len(),
                    *codes == self.index@[i as int].1,
                    texts(r@) == before + texts(codes@).take(j as int),
                decreases codes.len() - j,
            {
                let c = codes[j].clone();
                assert(c@ == codes@[j as int]@);
                proof {
                    lemma_texts_push(r@, c);
                }
                r.push(c);
                assert(texts(r@) =~= before + texts(codes@).take(j + 1));
                j = j + 1;
            }
            proof {
                assert(texts(codes@).take(j as int) =~= texts(codes@));
                assert(all.take(i + 1).drop_last() =~= all.take(i as int));
                all.take(i as int).lemma_flatten_push(all[i as int]);
                assert(all.take(i + 1) =~= all.take(i as int).push(all[i as int]));
            }
            i = i + 1;
        }
        assert(all.take(i as int) =~= all);
        Ok(r)
    }

    /// All keys, in increasing order.
    pub fn get_all_keys(&self) -> (r: StorageResult<Vec<String>>)
        ensures
            r matches Ok(v) && texts(v@) == self.keys(),
    {
        Ok(all_keys(&self.index))
    }

    proof fn lemma_index_of(&self, i: int)
        requires
            self.wf(),
            0 <= i < self.index@.len(),
        ensures
            self.lookup(self.keys()[i]) == Some(self.codes_at(i)),
    {
        let k = self.keys()[i];
        assert(self.keys().contains(k));
        let j = self.keys().index_of(k);
        if j != i {
            if j < i {
                assert(key_lt(self.keys()[j], self.keys()[i]));
            } else {
                assert(key_lt(self.keys()[i], self.keys()[j]));
            }
            lemma_key_lt_irreflexive(k);
        }
    }
}

/// The postal index: from a city key (`"<postal code> - <name>"`) to the code
/// of the city and its place.
pub struct MemoryIndexStoragePostal {
    pub index: Vec<(String, Iris)>,
}

impl MemoryIndexStoragePostal {
    /// Keys in strictly increasing order.
    pub open spec fn wf(&self) -> bool {
        sorted_keys(self.keys())
    }

    pub open spec fn keys(&self) -> Seq<Seq<char>> {
        key_seq(self.index@)
    }

    /// The place that `key` leads to, if it is in the index.
    pub open spec fn lookup(&self, key: Seq<char>) -> Option<Iris> {
        if self.keys().contains(key) {
            Some(self.index@[self.keys().index_of(key)].1)
        } else {
            None
        }
    }

    /// Builds an index from its entries, which must come with strictly
    /// increasing keys.
    pub fn from_entries(entries: Vec<(String, Iris)>) -> (r: StorageResult<Self>)
        ensures
            match r {
                Ok(ix) => ix.wf() && ix.index@ == entries@,
                Err(e) => e == StorageError::CreationImpossible && !sorted_keys(
                    key_seq(entries@),
                ),
            },
    {
        if !keys_sorted(&entries) {
            return Err(StorageError::CreationImpossible);
        }
        Ok(MemoryIndexStoragePostal { index: entries })
    }

    /// The keys whose upper-cased text holds the upper-cased `query`; with a
    /// start `p`, only those from `p` up to, not
    /// including, `p` followed by `z`.
    pub fn search_on_key(&self, query: &str, start_with: &Option<String>) -> (r: StorageResult<
        Vec<String>,
    >)
        requires
            self.wf(),
        ensures
            r matches Ok(v) && texts(v@) == search_of(self.keys(), query@, opt_text(*start_with)),
            r matches Ok(v) && (query@.len() == 0 && start_with is None ==> texts(v@) == self.keys()),
    {
        Ok(search_keys(&self.index, query, start_with))
    }

    /// The place that `value` leads to, or `None` when it is no key.
    pub fn get_index(&self, value: &String) -> (r: StorageResult<Option<Iris>>)
        requires
            self.wf(),
        ensures
            r matches Ok(o) && o == self.lookup(value@),
    {
        match position_of(&self.index, value) {
            Some(i) => {
                proof {
                    let k = self.keys()[i as int];
                    assert(self.keys().contains(k));
                    let j = self.keys().index_of(k);
                    if j != i {
                        if j < i {
                            assert(key_lt(self.keys()[j], self.keys()[i as int]));
                        } else {
                            assert(key_lt(self.keys()[i as int], self.keys()[j]));
                        }
                        lemma_key_lt_irreflexive(k);
                    }
                }
                Ok(Some(self.index[i].1.duplicate()))
            },
            None => Ok(None),
        }
    }

    /// All places, in key order.
    pub fn get_all_values(&self) -> (r: StorageResult<Vec<Iris>>)
        ensures
            r matches Ok(v) && v@ == self.index@.map_values(|p: (String, Iris)| p.1),
    {
        let mut r: Vec<Iris> = Vec::new();
        let mut i: usize = 0;
        while i < self.index.len()
            invariant
                i <= self.index@.len(),
                r@ == self.index@.map_values(|p: (String, Iris)| p.1).take(i as int),
            decreases self.index.len() - i,
        {
            r.push(self.index[i].1.duplicate());
            assert(r@ =~= self.index@.map_values(|p: (String, Iris)| p.1).take(i + 1));
            i = i + 1;
        }
        assert(self.index@.map_values(|p: (String, Iris)| p.1).take(i as int) =~= self.index@.map_values(|p: (String, Iris)| p.1));
        Ok(r)
    }

    /// All keys, in increasing order.
    pub fn get_all_keys(&self) -> (r: StorageResult<Vec<String>>)
        ensures
            r matches Ok(v) && texts(v@) == self.keys(),
    {
        Ok(all_keys(&self.index))
    }
}


/// An index from a key to the codes of the districts it holds, as the queries
/// consume it.
pub trait IndexStorageTrait {
    /// The keys, in index order.
    spec fn index_keys(&self) -> Seq<Seq<char>>;

    /// The codes that a key leads to, if it is a key.
    spec fn index_lookup(&self, key: Seq<char>) -> Option<Seq<Seq<char>>>;

    spec fn index_wf(&self) -> bool;

    /// The keys whose upper-cased text holds the upper-cased `query`; with a
    /// start `p`, only those from `p` up to, not
    /// including, `p` followed by `z`.
    fn search_on_key(&self, query: &str, start_with: &Option<String>) -> (r: StorageResult<
        Vec<String>,
    >)
        requires
            self.index_wf(),
        ensures
            r matches Ok(v) ==> texts(v@) == search_of(
                self.index_keys(),
                query@,
                opt_text(*start_with),
            ),
    ;

    /// The codes that `value` leads to, or `None` when it is no key.
    fn get_index(&self, value: &String) -> (r: StorageResult<Option<Vec<String>>>)
        requires
            self.index_wf(),
        ensures
            r matches Ok(o) ==> match o {
                Some(v) => self.index_lookup(value@) == Some(texts(v@)),
                None => self.index_lookup(value@) is None,
            },
    ;

    /// All keys, in index order.
    fn get_all_keys(&self) -> (r: StorageResult<Vec<String>>)
        ensures
            r matches Ok(v) ==> texts(v@) == self.index_keys(),
    ;
}

impl IndexStorageTrait for MemoryIndexStorage {
    open spec fn index_keys(&self) -> Seq<Seq<char>> {
        self.keys()
    }

    open spec fn index_lookup(&self, key: Seq<char>) -> Option<Seq<Seq<char>>> {
        self.lookup(key)
    }

    open spec fn index_wf(&self) -> bool {
        self.wf()
    }

    fn search_on_key(&self, query: &str, start_with: &Option<String>) -> (r: StorageResult<
        Vec<String>,
    >) {
        MemoryIndexStorage::search_on_key(self, query, start_with)
    }

    fn get_index(&self, value: &String) -> (r: StorageResult<Option<Vec<String>>>) {
        MemoryIndexStorage::get_index(self, value)
    }

    fn get_all_keys(&self) -> (r: StorageResult<Vec<String>>) {
        MemoryIndexStorage::get_all_keys(self)
    }
}

/// The postal index, as the queries consume it.
pub trait IndexStoragePostalTrait {
    spec fn postal_keys(&self) -> Seq<Seq<char>>;

    spec fn postal_lookup(&self, key: Seq<char>) -> Option<Iris>;

    spec fn postal_wf(&self) -> bool;

    fn search_on_key(&self, query: &str, start_with: &Option<String>) -> (r: StorageResult<
        Vec<String>,
    >)
        requires
            self.postal_wf(),
        ensures
            r matches Ok(v) ==> texts(v@) == search_of(
                self.postal_keys(),
                query@,
                opt_text(*start_with),
            ),
    ;

    fn get_index(&self, value: &String) -> (r: StorageResult<Option<Iris>>)
        requires
            self.postal_wf(),
        ensures
            r matches Ok(o) ==> o == self.postal_lookup(value@),
    ;

    fn get_all_keys(&self) -> (r: StorageResult<Vec<String>>)
        ensures
            r matches Ok(v) ==> texts(v@) == self.postal_keys(),
    ;
}

impl IndexStoragePostalTrait for MemoryIndexStoragePostal {
    open spec fn postal_keys(&self) -> Seq<Seq<char>> {
        self.keys()
    }

    open spec fn postal_lookup(&self, key: Seq<char>) -> Option<Iris> {
        self.lookup(key)
    }

    open spec fn postal_wf(&self) -> bool {
        self.wf()
    }

    fn search_on_key(&self, query: &str, start_with: &Option<String>) -> (r: StorageResult<
        Vec<String>,
    >) {
        MemoryIndexStoragePostal::search_on_key(self, query, start_with)
    }

    fn get_index(&self, value: &String) -> (r: StorageResult<Option<Iris>>) {
        MemoryIndexStoragePostal::get_index(self, value)
    }

    fn get_all_keys(&self) -> (r: StorageResult<Vec<String>>) {
        MemoryIndexStoragePostal::get_all_keys(self)
    }
}

} // verus!
