//! Grouping the rows of a table by key: the step that turns the district
//! table into the entries of a geographic index.
use vstd::prelude::*;
use crate::entry::Iris;
use crate::index::{key_seq, sorted_keys, texts};
use crate::keys::{chars_lt, chars_of, key_lt, lemma_key_lt_irreflexive, lemma_key_lt_total, lemma_key_lt_transitive};

verus! {

/// The codes that `key` is paired with in `rows`, each once, in the order of
/// their first rows.
pub open spec fn codes_for(rows: Seq<(Seq<char>, Seq<char>)>, key: Seq<char>) -> Seq<Seq<char>>
    decreases rows.len(),
{
    if rows.len() == 0 {
        Seq::empty()
    } else {
        let prev = codes_for(rows.drop_last(), key);
        if rows.last().0 == key && !prev.contains(rows.last().1) {
            prev.push(rows.last().1)
        } else {
            prev
        }
    }
}

/// The codes of a key hold no code twice.
pub proof fn lemma_codes_for_distinct(rows: Seq<(Seq<char>, Seq<char>)>, key: Seq<char>)
    ensures
        codes_for(rows, key).no_duplicates(),
    decreases rows.len(),
{
    if rows.len() > 0 {
        lemma_codes_for_distinct(rows.drop_last(), key);
        let prev = codes_for(rows.drop_last(), key);
        let x = rows.last().1;
        if rows.last().0 == key && !prev.contains(x) {
            let cur = prev.push(x);
            assert forall|a: int, b: int| 0 <= a < cur.len() && 0 <= b < cur.len() && a != b implies cur[a]
                != cur[b] by {
                if a == prev.len() {
                    assert(cur[b] == prev[b]);
                } else if b == prev.len() {
                    assert(cur[a] == prev[a]);
                } else {
                    assert(cur[a] == prev[a] && cur[b] == prev[b]);
                }
            }
        }
    }
}

pub open spec fn pair_texts(rows: Seq<(String, String)>) -> Seq<(Seq<char>, Seq<char>)> {
    rows.map_values(|p: (String, String)| (p.0@, p.1@))
}

pub proof fn lemma_pair_texts_push(s: Seq<(String, String)>, x: (String, String))
    ensures
        pair_texts(s.push(x)) == pair_texts(s).push((x.0@, x.1@)),
{
    assert(pair_texts(s.push(x)) =~= pair_texts(s).push((x.0@, x.1@)));
}

/// `groups` holds, in increasing key order, each key of `rows` once, with the
/// codes paired with it in row order.
pub open spec fn grouped(groups: Seq<(String, Vec<String>)>, rows: Seq<(Seq<char>, Seq<char>)>) -> bool {
    &&& sorted_keys(key_seq(groups))
    &&& forall|t: int|
        0 <= t < groups.len() ==> texts((#[trigger] groups[t]).1@) == codes_for(rows, groups[t].0@)
            && groups[t].1@.len() > 0
    &&& forall|k: Seq<char>| #[trigger] codes_for(rows, k).len() > 0 ==> key_seq(groups).contains(k)
}

proof fn lemma_codes_for_step(rows: Seq<(Seq<char>, Seq<char>)>, i: int, key: Seq<char>)
    requires
        0 <= i < rows.len(),
    ensures
        codes_for(rows.take(i + 1), key) == if rows[i].0 == key && !codes_for(
            rows.take(i),
            key,
        ).contains(rows[i].1) {
            codes_for(rows.take(i), key).push(rows[i].1)
        } else {
            codes_for(rows.take(i), key)
        },
{
    assert(rows.take(i + 1).drop_last() =~= rows.take(i));
}

/// Whether `s` is among the texts of `v`.
fn contains_text(v: &Vec<String>, s: &String) -> (r: bool)
    ensures
        r == texts(v@).contains(s@),
{
    let mut i: usize = 0;
    while i < v.len()
        invariant
            i <= v@.len(),
            forall|t: int| 0 <= t < i ==> v@[t]@ != s@,
        decreases v.len() - i,
    {
        if v[i] == *s {
            assert(texts(v@)[i as int] == s@);
            return true;
        }
        i = i + 1;
    }
    proof {
        if texts(v@).contains(s@) {
            let t = texts(v@).index_of(s@);
            assert(texts(v@)[t] == v@[t]@);
        }
    }
    false
}

/// Where `k` stands among sorted keys, or where it would go.
fn find_slot(keys: &Vec<Vec<char>>, k: &Vec<char>) -> (r: (bool, usize))
    requires
        forall|a: int, b: int|
            0 <= a < b < keys@.len() ==> key_lt(#[trigger] keys@[a]@, #[trigger] keys@[b]@),
    ensures
        r.1 <= keys@.len(),
        r.0 ==> r.1 < keys@.len() && keys@[r.1 as int]@ == k@,
        !r.0 ==> (forall|t: int| 0 <= t < r.1 ==> key_lt(#[trigger] keys@[t]@, k@)) && (forall|t: int|
            r.1 <= t < keys@.len() ==> key_lt(k@, #[trigger] keys@[t]@)),
{
    let mut lo: usize = 0;
    let mut hi: usize = keys.len();
    while lo < hi
        invariant
            lo <= hi <= keys@.len(),
            forall|a: int, b: int|
                0 <= a < b < keys@.len() ==> key_lt(#[trigger] keys@[a]@, #[trigger] keys@[b]@),
            forall|t: int| 0 <= t < lo ==> key_lt(#[trigger] keys@[t]@, k@),
            forall|t: int| hi <= t < keys@.len() ==> key_lt(k@, #[trigger] keys@[t]@),
        decreases hi - lo,
    {
        let mid = lo + (hi - lo) / 2;
        if chars_lt(&keys[mid], k) {
            proof {
                assert forall|t: int| 0 <= t < mid + 1 implies key_lt(#[trigger] keys@[t]@, k@) by {
                    if t < mid {
                        lemma_key_lt_transitive(keys@[t]@, keys@[mid as int]@, k@);
                    }
                }
            }
            lo = mid + 1;
        } else if chars_lt(k, &keys[mid]) {
            proof {
                assert forall|t: int| mid <= t < keys@.len() implies key_lt(k@, #[trigger] keys@[t]@) by {
                    if t > mid {
                        lemma_key_lt_transitive(k@, keys@[mid as int]@, keys@[t]@);
                    }
                }
            }
            hi = mid;
        } else {
            proof {
                lemma_key_lt_total(keys@[mid as int]@, k@);
            }
            return (true, mid);
        }
    }
    (false, lo)
}

/// Groups `(key, code)` rows by key: each key once, in increasing order,
/// with its codes in row order.
pub fn group_codes(rows: &Vec<(String, String)>) -> (r: Vec<(String, Vec<String>)>)
    ensures
        grouped(r@, pair_texts(rows@)),
{
    let ghost all = pair_texts(rows@);
    let mut groups: Vec<(String, Vec<String>)> = Vec::new();
    let mut kcs: Vec<Vec<char>> = Vec::new();
    let mut i: usize = 0;
    assert(all.take(0) =~= Seq::<(Seq<char>, Seq<char>)>::empty());
    assert(key_seq(groups@) =~= Seq::<Seq<char>>::empty());
    while i < rows.len()
        invariant
            all == pair_texts(rows@),
            i <= rows@.len(),
            grouped(groups@, all.take(i as int)),
            kcs@.len() == groups@.len(),
            forall|t: int| 0 <= t < kcs@.len() ==> (#[trigger] kcs@[t])@ == groups@[t].0@,
        decreases rows.len() - i,
    {
        let ghost before = all.take(i as int);
        let ghost after = all.take(i + 1);
        let ghost old_groups = groups@;
        let key = &rows[i].0;
        let code = &rows[i].1;
        assert(all[i as int] == (key@, code@));
        let kc = chars_of(key.as_str());
        proof {
            assert forall|a: int, b: int| 0 <= a < b < kcs@.len() implies key_lt(
                #[trigger] kcs@[a]@,
                #[trigger] kcs@[b]@,
            ) by {
                assert(key_seq(groups@)[a] == groups@[a].0@);
                assert(key_seq(groups@)[b] == groups@[b].0@);
            }
            assert forall|k: Seq<char>| true implies codes_for(after, k) == if k == key@
                && !codes_for(before, k).contains(code@) {
                codes_for(before, k).push(code@)
            } else {
                codes_for(before, k)
            } by {
                lemma_codes_for_step(all, i as int, k);
            }
        }
        let (found, pos) = find_slot(&kcs, &kc);
        if found {
            let present = contains_text(&groups[pos].1, code);
            if !present {
                let c = code.clone();
                let mut g = groups[pos].1.clone();
                proof {
                    assert(g@.len() == old_groups[pos as int].1@.len());
                    assert forall|t: int| 0 <= t < g@.len() implies g@[t] == old_groups[pos as int].1@[t] by {}
                    assert(g@ =~= old_groups[pos as int].1@);
                }
                g.push(c);
                let entry = (groups[pos].0.clone(), g);
                groups.set(pos, entry);
                proof {
                    assert(texts(g@) =~= texts(old_groups[pos as int].1@).push(code@));
                    assert(key_seq(groups@) =~= key_seq(old_groups));
                    assert forall|t: int| 0 <= t < groups@.len() implies texts(
                        (#[trigger] groups@[t]).1@,
                    ) == codes_for(after, groups@[t].0@) && groups@[t].1@.len() > 0 by {
                        if t != pos {
                            assert(groups@[t] == old_groups[t]);
                            if groups@[t].0@ == key@ {
                                assert(key_seq(old_groups)[t] == old_groups[t].0@);
                                assert(key_seq(old_groups)[pos as int] == old_groups[pos as int].0@);
                                if t < pos {
                                    assert(key_lt(key_seq(old_groups)[t], key_seq(old_groups)[pos as int]));
                                } else {
                                    assert(key_lt(key_seq(old_groups)[pos as int], key_seq(old_groups)[t]));
                                }
                                lemma_key_lt_irreflexive(key@);
                            }
                        }
                    }
                    assert forall|k: Seq<char>| #[trigger] codes_for(after, k).len() > 0 implies key_seq(
                        groups@,
                    ).contains(k) by {
                        if k == key@ {
                            assert(key_seq(groups@)[pos as int] == k);
                        } else {
                            assert(codes_for(before, k).len() > 0);
                        }
                    }
                }
            } else {
                proof {
                    assert(texts(old_groups[pos as int].1@) == codes_for(before, key@));
                    assert forall|k: Seq<char>| true implies codes_for(after, k) == codes_for(before, k) by {}
                    assert forall|t: int| 0 <= t < groups@.len() implies texts(
                        (#[trigger] groups@[t]).1@,
                    ) == codes_for(after, groups@[t].0@) && groups@[t].1@.len() > 0 by {}
                    assert forall|k: Seq<char>| #[trigger] codes_for(after, k).len() > 0 implies key_seq(
                        groups@,
                    ).contains(k) by {
                        assert(codes_for(before, k).len() > 0);
                    }
                }
            }
        } else {
            let ghost old_kcs = kcs@;
            let mut g: Vec<String> = Vec::new();
            g.push(code.clone());
            groups.insert(pos, (key.clone(), g));
            kcs.insert(pos, kc);
            proof {
                assert(codes_for(before, key@).len() == 0) by {
                    if codes_for(before, key@).len() > 0 {
                        assert(key_seq(old_groups).contains(key@));
                        let t = key_seq(old_groups).index_of(key@);
                        assert(key_seq(old_groups)[t] == old_groups[t].0@);
                        assert(old_kcs[t]@ == key@);
                        if t < pos {
                            assert(key_lt(old_kcs[t]@, kc@));
                        } else {
                            assert(key_lt(kc@, old_kcs[t]@));
                        }
                        lemma_key_lt_irreflexive(key@);
                    }
                }
                assert(texts(g@) =~= seq![code@]);
                assert(codes_for(after, key@) =~= seq![code@]);
                assert forall|t: int| 0 <= t < kcs@.len() implies (#[trigger] kcs@[t])@ == groups@[t].0@ by {
                    if t < pos {
                        assert(kcs@[t] == old_kcs[t] && groups@[t] == old_groups[t]);
                    } else if t > pos {
                        assert(kcs@[t] == old_kcs[t - 1] && groups@[t] == old_groups[t - 1]);
                    }
                }
                assert forall|a: int, b: int| 0 <= a < b < groups@.len() implies key_lt(
                    #[trigger] key_seq(groups@)[a],
                    #[trigger] key_seq(groups@)[b],
                ) by {
                    assert(key_seq(groups@)[a] == kcs@[a]@);
                    assert(key_seq(groups@)[b] == kcs@[b]@);
                    if b < pos {
                        assert(kcs@[a] == old_kcs[a] && kcs@[b] == old_kcs[b]);
                        assert(key_seq(old_groups)[a] == old_groups[a].0@);
                        assert(key_seq(old_groups)[b] == old_groups[b].0@);
                    } else if a > pos {
                        assert(kcs@[a] == old_kcs[a - 1] && kcs@[b] == old_kcs[b - 1]);
                        assert(key_seq(old_groups)[a - 1] == old_groups[a - 1].0@);
                        assert(key_seq(old_groups)[b - 1] == old_groups[b - 1].0@);
                    } else if a == pos {
                        assert(kcs@[b] == old_kcs[b - 1]);
                    } else if b == pos {
                        assert(kcs@[a] == old_kcs[a]);
                    } else {
                        assert(kcs@[a] == old_kcs[a] && kcs@[b] == old_kcs[b - 1]);
                        lemma_key_lt_transitive(old_kcs[a]@, kc@, old_kcs[b - 1]@);
                    }
                }
                assert forall|t: int| 0 <= t < groups@.len() implies texts(
                    (#[trigger] groups@[t]).1@,
                ) == codes_for(after, groups@[t].0@) && groups@[t].1@.len() > 0 by {
                    if t != pos {
                        let s = if t < pos { t } else { t - 1 };
                        assert(groups@[t] == old_groups[s]);
                        assert(kcs@[t] == old_kcs[s]);
                        if groups@[t].0@ == key@ {
                            if t < pos {
                                assert(key_lt(old_kcs[s]@, kc@));
                            } else {
                                assert(key_lt(kc@, old_kcs[s]@));
                            }
                            lemma_key_lt_irreflexive(key@);
                        }
                    }
                }
                assert forall|k: Seq<char>| #[trigger] codes_for(after, k).len() > 0 implies key_seq(
                    groups@,
                ).contains(k) by {
                    if k == key@ {
                        assert(key_seq(groups@)[pos as int] == k);
                    } else {
                        assert(codes_for(before, k).len() > 0);
                        let t = key_seq(old_groups).index_of(k);
                        assert(key_seq(old_groups)[t] == old_groups[t].0@);
                        let u = if t < pos { t } else { t + 1 };
                        assert(groups@[u] == old_groups[t]);
                        assert(key_seq(groups@)[u] == k);
                    }
                }
            }
        }
        i = i + 1;
    }
    assert(all.take(i as int) =~= all);
    groups
}


/// The place that the last of `pairs` with key `k` carries.
pub open spec fn last_for(pairs: Seq<(Seq<char>, Iris)>, k: Seq<char>) -> Option<Iris>
    decreases pairs.len(),
{
    if pairs.len() == 0 {
        None
    } else if pairs.last().0 == k {
        Some(pairs.last().1)
    } else {
        last_for(pairs.drop_last(), k)
    }
}

pub open spec fn place_texts(pairs: Seq<(String, Iris)>) -> Seq<(Seq<char>, Iris)> {
    pairs.map_values(|p: (String, Iris)| (p.0@, p.1))
}

/// `r` holds, in increasing key order, each key of `pairs` once, with the
/// place of the last pair that has it.
pub open spec fn latest_by_key(r: Seq<(String, Iris)>, pairs: Seq<(Seq<char>, Iris)>) -> bool {
    &&& sorted_keys(key_seq(r))
    &&& forall|t: int| 0 <= t < r.len() ==> last_for(pairs, (#[trigger] r[t]).0@) == Some(r[t].1)
    &&& forall|k: Seq<char>| #[trigger] last_for(pairs, k) is Some ==> key_seq(r).contains(k)
}

/// Keeps, for each key of `pairs`, the place of its last pair, in
/// increasing key order.
pub fn keep_latest(pairs: &Vec<(String, Iris)>) -> (r: Vec<(String, Iris)>)
    ensures
        latest_by_key(r@, place_texts(pairs@)),
{
    let ghost all = place_texts(pairs@);
    let mut out: Vec<(String, Iris)> = Vec::new();
    let mut kcs: Vec<Vec<char>> = Vec::new();
    let mut i: usize = 0;
    assert(all.take(0) =~= Seq::<(Seq<char>, Iris)>::empty());
    assert(key_seq(out@) =~= Seq::<Seq<char>>::empty());
    while i < pairs.len()
        invariant
            all == place_texts(pairs@),
            i <= pairs@.len(),
            latest_by_key(out@, all.take(i as int)),
            kcs@.len() == out@.len(),
            forall|t: int| 0 <= t < kcs@.len() ==> (#[trigger] kcs@[t])@ == out@[t].0@,
        decreases pairs.len() - i,
    {
        let ghost before = all.take(i as int);
        let ghost after = all.take(i + 1);
        let ghost old_out = out@;
        let ghost old_kcs = kcs@;
        let key = &pairs[i].0;
        let place = pairs[i].1.duplicate();
        assert(all[i as int] == (key@, place));
        let kc = chars_of(key.as_str());
        proof {
            assert(after.drop_last() =~= before);
            assert forall|a: int, b: int| 0 <= a < b < kcs@.len() implies key_lt(
                #[trigger] kcs@[a]@,
                #[trigger] kcs@[b]@,
            ) by {
                assert(key_seq(out@)[a] == out@[a].0@);
                assert(key_seq(out@)[b] == out@[b].0@);
            }
        }
        let (found, pos) = find_slot(&kcs, &kc);
        if found {
            let entry = (out[pos].0.clone(), place);
            out.set(pos, entry);
            proof {
                assert(key_seq(out@) =~= key_seq(old_out));
                assert forall|t: int| 0 <= t < out@.len() implies last_for(after, (#[trigger] out@[t]).0@)
                    == Some(out@[t].1) by {
                    if t != pos {
                        assert(out@[t] == old_out[t]);
                        if out@[t].0@ == key@ {
                            assert(key_seq(old_out)[t] == old_out[t].0@);
                            assert(key_seq(old_out)[pos as int] == old_out[pos as int].0@);
                            if t < pos {
                                assert(key_lt(key_seq(old_out)[t], key_seq(old_out)[pos as int]));
                            } else {
                                assert(key_lt(key_seq(old_out)[pos as int], key_seq(old_out)[t]));
                            }
                            lemma_key_lt_irreflexive(key@);
                        }
                    }
                }
                assert forall|k: Seq<char>| #[trigger] last_for(after, k) is Some implies key_seq(
                    out@,
                ).contains(k) by {
                    if k == key@ {
                        assert(key_seq(out@)[pos as int] == k);
                    } else {
                        assert(last_for(before, k) is Some);
                    }
                }
            }
        } else {
            out.insert(pos, (key.clone(), place));
            kcs.insert(pos, kc);
            proof {
                assert(last_for(before, key@) is None) by {
                    if last_for(before, key@) is Some {
                        assert(key_seq(old_out).contains(key@));
                        let t = key_seq(old_out).index_of(key@);
                        assert(key_seq(old_out)[t] == old_out[t].0@);
                        assert(old_kcs[t]@ == key@);
                        if t < pos {
                            assert(key_lt(old_kcs[t]@, kc@));
                        } else {
                            assert(key_lt(kc@, old_kcs[t]@));
                        }
                        lemma_key_lt_irreflexive(key@);
                    }
                }
                assert forall|t: int| 0 <= t < kcs@.len() implies (#[trigger] kcs@[t])@ == out@[t].0@ by {
                    if t < pos {
                        assert(kcs@[t] == old_kcs[t] && out@[t] == old_out[t]);
                    } else if t > pos {
                        assert(kcs@[t] == old_kcs[t - 1] && out@[t] == old_out[t - 1]);
                    }
                }
                assert forall|a: int, b: int| 0 <= a < b < out@.len() implies key_lt(
                    #[trigger] key_seq(out@)[a],
                    #[trigger] key_seq(out@)[b],
                ) by {
                    assert(key_seq(out@)[a] == kcs@[a]@);
                    assert(key_seq(out@)[b] == kcs@[b]@);
                    if b < pos {
                        assert(kcs@[a] == old_kcs[a] && kcs@[b] == old_kcs[b]);
                    } else if a > pos {
                        assert(kcs@[a] == old_kcs[a - 1] && kcs@[b] == old_kcs[b - 1]);
                    } else if a == pos {
                        assert(kcs@[b] == old_kcs[b - 1]);
                    } else if b == pos {
                        assert(kcs@[a] == old_kcs[a]);
                    } else {
                        assert(kcs@[a] == old_kcs[a] && kcs@[b] == old_kcs[b - 1]);
                        lemma_key_lt_transitive(old_kcs[a]@, kc@, old_kcs[b - 1]@);
                    }
                }
                assert forall|t: int| 0 <= t < out@.len() implies last_for(after, (#[trigger] out@[t]).0@)
                    == Some(out@[t].1) by {
                    if t != pos {
                        let s = if t < pos { t } else { t - 1 };
                        assert(out@[t] == old_out[s]);
                        assert(kcs@[t] == old_kcs[s]);
                        if out@[t].0@ == key@ {
                            if t < pos {
                                assert(key_lt(old_kcs[s]@, kc@));
                            } else {
                                assert(key_lt(kc@, old_kcs[s]@));
                            }
                            lemma_key_lt_irreflexive(key@);
                        }
                    }
                }
                assert forall|k: Seq<char>| #[trigger] last_for(after, k) is Some implies key_seq(
                    out@,
                ).contains(k) by {
                    if k == key@ {
                        assert(key_seq(out@)[pos as int] == k);
                    } else {
                        assert(last_for(before, k) is Some);
                        let t = key_seq(old_out).index_of(k);
                        assert(key_seq(old_out)[t] == old_out[t].0@);
                        let u = if t < pos { t } else { t + 1 };
                        assert(out@[u] == old_out[t]);
                        assert(key_seq(out@)[u] == k);
                    }
                }
            }
        }
        i = i + 1;
    }
    assert(all.take(i as int) =~= all);
    out
}

} // verus!
