//! The record store: one record per district, by district code.
use vstd::prelude::*;
use crate::entry::Entry;
use crate::error::{StorageError, StorageResult};
use crate::index::{key_seq, keys_sorted, lower_bound, sorted_keys};
use crate::keys::{chars_of, key_lt, lemma_key_lt_irreflexive, lemma_key_lt_total, lemma_key_lt_transitive};

verus! {

/// The record that a map of records holds at `code`, if any.
pub open spec fn record_at(m: Map<Seq<char>, Entry>, code: Seq<char>) -> Option<Entry> {
    if m.dom().contains(code) {
        Some(m[code])
    } else {
        None
    }
}

/// A store of district records. A store may fail to answer (`Err`); when it
/// answers, it answers from the records it holds.
pub trait EntryStorageTrait {
    /// The records held, by district code.
    spec fn stored(&self) -> Map<Seq<char>, Entry>;

    /// What the store's own representation keeps true.
    spec fn wf(&self) -> bool;

    /// The store always answers: it has no medium that can fail.
    spec fn infallible(&self) -> bool;

    /// The record at `iris_code`, or `None` when there is none.
    fn get_entry(&self, iris_code: &String) -> (r: StorageResult<Option<Entry>>)
        requires
            self.wf(),
        ensures
            self.infallible() ==> r is Ok,
            r matches Ok(o) ==> o == record_at(self.stored(), iris_code@),
    ;

    /// Any one record, or `None` when the store is empty.
    fn get_first_entry(&self) -> (r: StorageResult<Option<Entry>>)
        requires
            self.wf(),
        ensures
            self.infallible() ==> r is Ok,
            r matches Ok(o) ==> match o {
                Some(e) => exists|k: Seq<char>|
                    #[trigger] self.stored().dom().contains(k) && self.stored()[k] == e,
                None => self.stored().dom().len() == 0,
            },
    ;
}

/// A store held in memory, sorted by district code.
pub struct MemoryEntryStorage {
    entries: Vec<(String, Entry)>,
}

impl MemoryEntryStorage {
    pub fn new() -> (r: Self)
        ensures
            r.wf(),
            r.stored() == Map::<Seq<char>, Entry>::empty(),
    {
        let r = MemoryEntryStorage { entries: Vec::new() };
        assert(r.stored() =~= Map::<Seq<char>, Entry>::empty());
        r
    }

    /// A store of the given records, whose codes must come in strictly
    /// increasing order (the order of a sorted key-value store).
    pub fn from_entries(entries: Vec<(String, Entry)>) -> (r: StorageResult<Self>)
        ensures
            match r {
                Ok(st) => st.wf() && forall|i: int|
                    0 <= i < entries@.len() ==> #[trigger] record_at(st.stored(), entries@[i].0@)
                        == Some(entries@[i].1),
                Err(e) => e == StorageError::CreationImpossible && !sorted_keys(key_seq(entries@)),
            },
    {
        if !keys_sorted(&entries) {
            return Err(StorageError::CreationImpossible);
        }
        let st = MemoryEntryStorage { entries };
        proof {
            assert forall|i: int| 0 <= i < st.entries@.len() implies #[trigger] record_at(
                st.stored(),
                st.entries@[i].0@,
            ) == Some(st.entries@[i].1) by {
                st.lemma_stored_at(i);
            }
        }
        Ok(st)
    }

    /// Where `code` stands, or where it would go.
    fn slot(&self, code: &String) -> (r: (bool, usize))
        requires
            self.wf(),
        ensures
            r.1 <= self.entries@.len(),
            r.0 ==> r.1 < self.entries@.len() && self.entries@[r.1 as int].0@ == code@,
            !r.0 ==> !key_seq(self.entries@).contains(code@),
            !r.0 ==> forall|t: int| 0 <= t < r.1 ==> key_lt(#[trigger] key_seq(self.entries@)[t], code@),
            !r.0 ==> forall|t: int|
                r.1 <= t < self.entries@.len() ==> key_lt(code@, #[trigger] key_seq(self.entries@)[t]),
    {
        let ghost ks = key_seq(self.entries@);
        let cc = chars_of(code.as_str());
        let pos = lower_bound(&self.entries, &cc);
        if pos < self.entries.len() && self.entries[pos].0 == *code {
            return (true, pos);
        }
        proof {
            if pos < ks.len() {
                assert(ks[pos as int] == self.entries@[pos as int].0@);
                lemma_key_lt_total(ks[pos as int], code@);
            }
            assert forall|t: int| pos <= t < ks.len() implies key_lt(code@, #[trigger] ks[t]) by {
                if t > pos {
                    lemma_key_lt_transitive(code@, ks[pos as int], ks[t]);
                }
            }
            if ks.contains(code@) {
                let t = ks.index_of(code@);
                if t < pos {
                    lemma_key_lt_irreflexive(code@);
                } else {
                    lemma_key_lt_irreflexive(code@);
                }
            }
        }
        (false, pos)
    }

    /// Puts `entry` at `iris_code`, in place of what stood there.
    pub fn create(&mut self, iris_code: String, entry: Entry)
        requires
            old(self).wf(),
        ensures
            final(self).wf(),
            final(self).stored() == old(self).stored().insert(iris_code@, entry),
    {
        let ghost prev = *self;
        let ghost code = iris_code@;
        let (found, pos) = self.slot(&iris_code);
        if found {
            self.entries.set(pos, (iris_code, entry));
            proof {
                assert(key_seq(self.entries@) =~= key_seq(prev.entries@));
                self.lemma_changed(prev, pos as int, 0, code, entry);
            }
        } else {
            self.entries.insert(pos, (iris_code, entry));
            proof {
                let ks = key_seq(self.entries@);
                let old_ks = key_seq(prev.entries@);
                assert forall|t: int| 0 <= t < ks.len() implies #[trigger] ks[t] == if t < pos {
                    old_ks[t]
                } else if t == pos {
                    code
                } else {
                    old_ks[t - 1]
                } by {
                    assert(ks[t] == self.entries@[t].0@);
                    if t < pos {
                        assert(old_ks[t] == prev.entries@[t].0@);
                    } else if t > pos {
                        assert(old_ks[t - 1] == prev.entries@[t - 1].0@);
                    }
                }
                assert forall|a: int, b: int| 0 <= a < b < ks.len() implies key_lt(
                    #[trigger] ks[a],
                    #[trigger] ks[b],
                ) by {
                    if b < pos {
                        assert(key_lt(old_ks[a], old_ks[b]));
                    } else if a > pos {
                        assert(key_lt(old_ks[a - 1], old_ks[b - 1]));
                    } else if a == pos {
                        assert(key_lt(code, old_ks[b - 1]));
                    } else if b == pos {
                        assert(key_lt(old_ks[a], code));
                    } else {
                        assert(key_lt(old_ks[a], code));
                        assert(key_lt(code, old_ks[b - 1]));
                        lemma_key_lt_transitive(old_ks[a], code, old_ks[b - 1]);
                    }
                }
                self.lemma_changed(prev, pos as int, 1, code, entry);
            }
        }
    }

    /// The store after the record at position `pos` was put in place of the
    /// one there (`shift` 0) or inserted before it (`shift` 1).
    proof fn lemma_changed(&self, prev: Self, pos: int, shift: int, code: Seq<char>, entry: Entry)
        requires
            self.wf(),
            prev.wf(),
            shift == 0 || shift == 1,
            0 <= pos < self.entries@.len(),
            self.entries@.len() == prev.entries@.len() + shift,
            self.entries@[pos].0@ == code,
            self.entries@[pos].1 == entry,
            shift == 0 ==> prev.entries@[pos].0@ == code,
            shift == 1 ==> !key_seq(prev.entries@).contains(code),
            forall|t: int| 0 <= t < pos ==> #[trigger] self.entries@[t] == prev.entries@[t],
            forall|t: int|
                pos < t < self.entries@.len() ==> #[trigger] self.entries@[t] == prev.entries@[t
                    - shift],
        ensures
            self.stored() == prev.stored().insert(code, entry),
    {
        self.lemma_stored_at(pos);
        assert forall|k: Seq<char>| #[trigger] self.stored().dom().contains(k) <==> prev.stored().insert(
            code,
            entry,
        ).dom().contains(k) by {
            if k != code {
                if self.stored().dom().contains(k) {
                    let t = key_seq(self.entries@).index_of(k);
                    assert(key_seq(self.entries@)[t] == self.entries@[t].0@);
                    assert(t != pos);
                    let u = if t < pos { t } else { t - shift };
                    assert(self.entries@[t] == prev.entries@[u]);
                    prev.lemma_stored_at(u);
                }
                if prev.stored().dom().contains(k) {
                    let u = key_seq(prev.entries@).index_of(k);
                    assert(key_seq(prev.entries@)[u] == prev.entries@[u].0@);
                    let t = if u < pos { u } else { u + shift };
                    if shift == 0 {
                        assert(u != pos);
                    }
                    assert(self.entries@[t] == prev.entries@[u]);
                    self.lemma_stored_at(t);
                }
            }
        }
        assert forall|k: Seq<char>| #[trigger] self.stored().dom().contains(k) implies self.stored()[k]
            == prev.stored().insert(code, entry)[k] by {
            if k != code {
                let t = key_seq(self.entries@).index_of(k);
                assert(key_seq(self.entries@)[t] == self.entries@[t].0@);
                assert(t != pos);
                let u = if t < pos { t } else { t - shift };
                assert(self.entries@[t] == prev.entries@[u]);
                self.lemma_stored_at(t);
                prev.lemma_stored_at(u);
            }
        }
        assert(self.stored() =~= prev.stored().insert(code, entry));
    }

    proof fn lemma_stored_at(&self, i: int)
        requires
            self.wf(),
            0 <= i < self.entries@.len(),
        ensures
            self.stored().dom().contains(self.entries@[i].0@),
            self.stored()[self.entries@[i].0@] == self.entries@[i].1,
    {
        let ks = key_seq(self.entries@);
        assert(ks[i] == self.entries@[i].0@);
        assert(ks.contains(ks[i]));
        let j = ks.index_of(ks[i]);
        if j != i {
            if j < i {
                assert(key_lt(ks[j], ks[i]));
            } else {
                assert(key_lt(ks[i], ks[j]));
            }
            lemma_key_lt_irreflexive(ks[i]);
        }
    }
}

impl EntryStorageTrait for MemoryEntryStorage {
    /// Codes in strictly increasing order.
    closed spec fn wf(&self) -> bool {
        sorted_keys(key_seq(self.entries@))
    }

    /// Held in memory, the store always answers.
    open spec fn infallible(&self) -> bool {
        true
    }

    closed spec fn stored(&self) -> Map<Seq<char>, Entry> {
        Map::new(
            |k: Seq<char>| key_seq(self.entries@).contains(k),
            |k: Seq<char>| self.entries@[key_seq(self.entries@).index_of(k)].1,
        )
    }

    fn get_entry(&self, iris_code: &String) -> (r: StorageResult<Option<Entry>>) {
        let (found, pos) = self.slot(iris_code);
        if found {
            proof {
                self.lemma_stored_at(pos as int);
            }
            Ok(Some(self.entries[pos].1.duplicate()))
        } else {
            Ok(None)
        }
    }

    fn get_first_entry(&self) -> (r: StorageResult<Option<Entry>>) {
        if self.entries.len() == 0 {
            assert(self.stored().dom() =~= Set::<Seq<char>>::empty());
            Ok(None)
        } else {
            proof {
                self.lemma_stored_at(0);
            }
            Ok(Some(self.entries[0].1.duplicate()))
        }
    }
}

} // verus!
