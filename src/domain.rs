//! The query surface: composes index lookups, store fetches and aggregation.
use vstd::prelude::*;
use crate::aggregate::{aggregate, aggregate_of, all_complete};
use crate::entry::{departmental_view, national_view, regional_view, CityDetail, District, Entry, SearchResult};
use crate::error::{EntryDomainError, EntryDomainResult};
use crate::index::{search_of, texts, MemoryIndexStorage, MemoryIndexStoragePostal};
use crate::store::{record_at, EntryStorageTrait};

verus! {

/// The number of cities on one page of a department.
pub const PAGE_SIZE: usize = 5;

/// The store failed underneath.
pub open spec fn is_storage_failure(e: EntryDomainError) -> bool {
    e is Storage
}

/// `r` is what was expected, unless a store that can fail failed.
pub open spec fn answers<T>(r: EntryDomainResult<T>, expected: EntryDomainResult<T>, infallible: bool) -> bool {
    r == expected || (!infallible && (r matches Err(e) && is_storage_failure(e)))
}

pub open spec fn pairs_view(v: Seq<(String, Entry)>) -> Seq<(Seq<char>, Entry)> {
    v.map_values(|p: (String, Entry)| (p.0@, p.1))
}

pub open spec fn pairs_result(r: EntryDomainResult<Vec<(String, Entry)>>) -> EntryDomainResult<
    Seq<(Seq<char>, Entry)>,
> {
    match r {
        Ok(v) => Ok(pairs_view(v@)),
        Err(e) => Err(e),
    }
}

/// Applies `f` to each key in turn, pairing each key with its result; the
/// first failure is the outcome.
pub open spec fn collect(
    items: Seq<Seq<char>>,
    f: spec_fn(Seq<char>) -> EntryDomainResult<Entry>,
) -> EntryDomainResult<Seq<(Seq<char>, Entry)>>
    decreases items.len(),
{
    if items.len() == 0 {
        Ok(Seq::empty())
    } else {
        match collect(items.drop_last(), f) {
            Err(e) => Err(e),
            Ok(v) => match f(items.last()) {
                Err(e) => Err(e),
                Ok(x) => Ok(v.push((items.last(), x))),
            },
        }
    }
}

pub proof fn lemma_collect_step(
    items: Seq<Seq<char>>,
    f: spec_fn(Seq<char>) -> EntryDomainResult<Entry>,
    i: int,
)
    requires
        0 <= i < items.len(),
    ensures
        collect(items.take(i + 1), f) == match collect(items.take(i), f) {
            Err(e) => Err(e),
            Ok(v) => match f(items[i]) {
                Err(e) => Err(e),
                Ok(x) => Ok(v.push((items[i], x))),
            },
        },
{
    assert(items.take(i + 1).drop_last() =~= items.take(i));
}

pub proof fn lemma_collect_err_persists(
    items: Seq<Seq<char>>,
    f: spec_fn(Seq<char>) -> EntryDomainResult<Entry>,
    i: int,
    j: int,
)
    requires
        0 <= i <= j <= items.len(),
        collect(items.take(i), f) is Err,
    ensures
        collect(items.take(j), f) == collect(items.take(i), f),
    decreases j - i,
{
    if j > i {
        lemma_collect_err_persists(items, f, i, j - 1);
        lemma_collect_step(items, f, j - 1);
    }
}

pub proof fn lemma_collect_no_storage(
    items: Seq<Seq<char>>,
    f: spec_fn(Seq<char>) -> EntryDomainResult<Entry>,
)
    requires
        forall|k: Seq<char>| (#[trigger] f(k)) is Err ==> !is_storage_failure(f(k)->Err_0),
    ensures
        collect(items, f) matches Err(e) ==> !is_storage_failure(e),
    decreases items.len(),
{
    if items.len() > 0 {
        lemma_collect_no_storage(items.drop_last(), f);
        assert(f(items.last()) is Err ==> !is_storage_failure(f(items.last())->Err_0));
    }
}

/// One step of a fold: a success extends what was collected, a failure is
/// the outcome of the whole fold.
pub proof fn lemma_collect_next(
    items: Seq<Seq<char>>,
    f: spec_fn(Seq<char>) -> EntryDomainResult<Entry>,
    i: int,
    done: Seq<(Seq<char>, Entry)>,
)
    requires
        0 <= i < items.len(),
        collect(items.take(i), f) == Ok::<Seq<(Seq<char>, Entry)>, EntryDomainError>(done),
    ensures
        f(items[i]) matches Ok(x) ==> collect(items.take(i + 1), f) == Ok::<
            Seq<(Seq<char>, Entry)>,
            EntryDomainError,
        >(done.push((items[i], x))),
        f(items[i]) matches Err(e) ==> collect(items, f) == Err::<
            Seq<(Seq<char>, Entry)>,
            EntryDomainError,
        >(e),
{
    lemma_collect_step(items, f, i);
    if f(items[i]) is Err {
        lemma_collect_err_persists(items, f, i + 1, items.len() as int);
        assert(items.take(items.len() as int) =~= items);
    }
}

pub proof fn lemma_pairs_push(v: Seq<(String, Entry)>, p: (String, Entry))
    ensures
        pairs_view(v.push(p)) == pairs_view(v).push((p.0@, p.1)),
{
    assert(pairs_view(v.push(p)) =~= pairs_view(v).push((p.0@, p.1)));
}

/// The keys of a collected list.
pub open spec fn firsts(v: Seq<(Seq<char>, Entry)>) -> Seq<Seq<char>> {
    v.map_values(|p: (Seq<char>, Entry)| p.0)
}

/// The records of a collected list.
pub open spec fn seconds(v: Seq<(Seq<char>, Entry)>) -> Seq<Entry> {
    v.map_values(|p: (Seq<char>, Entry)| p.1)
}

pub proof fn lemma_collect_keys(items: Seq<Seq<char>>, f: spec_fn(Seq<char>) -> EntryDomainResult<Entry>)
    ensures
        collect(items, f) matches Ok(v) ==> firsts(v) == items,
    decreases items.len(),
{
    if items.len() > 0 {
        lemma_collect_keys(items.drop_last(), f);
        if let Ok(v) = collect(items, f) {
            let w = collect(items.drop_last(), f)->Ok_0;
            assert(firsts(v) =~= firsts(w).push(items.last()));
            assert(items =~= items.drop_last().push(items.last()));
        }
    }
}

/// The start of page `page` (counted from 1) in a list of keys.
pub open spec fn page_start(page: int) -> int {
    (page - 1) * 5
}

/// The keys on page `page`: five of them, fewer on the last page.
pub open spec fn page_keys(keys: Seq<Seq<char>>, page: int) -> Seq<Seq<char>> {
    let start = page_start(page);
    let end = if page * 5 < keys.len() {
        page * 5
    } else {
        keys.len() as int
    };
    keys.subrange(start, end)
}

/// A page that holds at least one key.
pub open spec fn page_exists(len: int, page: int) -> bool {
    1 <= page && page_start(page) < len
}

/// The designation of the district at `code`, or the empty text.
pub open spec fn designation_of(m: Map<Seq<char>, Entry>, code: Seq<char>) -> Seq<char> {
    match record_at(m, code) {
        Some(e) => match e.iris_code_designation {
            Some(d) => d@,
            None => Seq::empty(),
        },
        None => Seq::empty(),
    }
}

pub open spec fn district_view(d: District) -> (Seq<char>, Seq<char>) {
    (d.code_iris@, d.designation@)
}

/// The single query surface over the indexes and the record store.
pub struct EntryDomain<S: EntryStorageTrait> {
    pub idx_regions: MemoryIndexStorage,
    pub idx_departments: MemoryIndexStorage,
    pub idx_cities: MemoryIndexStoragePostal,
    pub idx_departments_by_region: MemoryIndexStorage,
    pub idx_insee_coms: MemoryIndexStorage,
    pub entry_datastore: S,
}

impl<S: EntryStorageTrait> EntryDomain<S> {
    pub open spec fn wf(&self) -> bool {
        &&& self.idx_regions.wf()
        &&& self.idx_departments.wf()
        &&& self.idx_cities.wf()
        &&& self.idx_departments_by_region.wf()
        &&& self.idx_insee_coms.wf()
        &&& self.entry_datastore.wf()
    }

    pub open spec fn stored(&self) -> Map<Seq<char>, Entry> {
        self.entry_datastore.stored()
    }

    /// The record at `code`.
    pub open spec fn fetch_of(&self, code: Seq<char>) -> EntryDomainResult<Entry> {
        match record_at(self.stored(), code) {
            Some(e) => Ok(e),
            None => Err(EntryDomainError::NotFoundError),
        }
    }

    pub open spec fn fetch_fn(&self) -> spec_fn(Seq<char>) -> EntryDomainResult<Entry> {
        |c: Seq<char>| self.fetch_of(c)
    }

    /// The record of the first district of `key` in `ix`.
    pub open spec fn first_record_of(&self, ix: MemoryIndexStorage, key: Seq<char>) -> EntryDomainResult<Entry> {
        match ix.lookup(key) {
            Some(codes) => self.fetch_of(codes[0]),
            None => Err(EntryDomainError::NotFoundError),
        }
    }

    /// The regional values of a region, read from its first district.
    pub open spec fn regional_of(&self, region: Seq<char>) -> EntryDomainResult<Entry> {
        match self.first_record_of(self.idx_regions, region) {
            Ok(e) => Ok(regional_view(e)),
            Err(x) => Err(x),
        }
    }

    pub open spec fn regional_fn(&self) -> spec_fn(Seq<char>) -> EntryDomainResult<Entry> {
        |k: Seq<char>| self.regional_of(k)
    }

    /// The departmental values of a department, read from its first district.
    pub open spec fn departmental_of(&self, department: Seq<char>) -> EntryDomainResult<Entry> {
        match self.first_record_of(self.idx_departments, department) {
            Ok(e) => Ok(departmental_view(e)),
            Err(x) => Err(x),
        }
    }

    pub open spec fn departmental_fn(&self) -> spec_fn(Seq<char>) -> EntryDomainResult<Entry> {
        |k: Seq<char>| self.departmental_of(k)
    }

    /// The districts of a city with their records, in index order.
    pub open spec fn city_districts_of(&self, code: Seq<char>) -> EntryDomainResult<
        Seq<(Seq<char>, Entry)>,
    > {
        match self.idx_insee_coms.lookup(code) {
            Some(codes) => collect(codes, self.fetch_fn()),
            None => Err(EntryDomainError::NotFoundError),
        }
    }

    /// The aggregate of all the districts of a city.
    pub open spec fn city_of(&self, code: Seq<char>) -> EntryDomainResult<Entry> {
        match self.city_districts_of(code) {
            Ok(v) => if all_complete(seconds(v)) {
                Ok(aggregate_of(seconds(v)))
            } else {
                Err(EntryDomainError::MissingValueError)
            },
            Err(e) => Err(e),
        }
    }

    /// The city code that a key of the postal index leads to, or the empty
    /// text.
    pub open spec fn city_code_of(&self, key: Seq<char>) -> Seq<char> {
        match self.idx_cities.lookup(key) {
            Some(iris) => match iris.code {
                Some(c) => c@,
                None => Seq::empty(),
            },
            None => Seq::empty(),
        }
    }

    pub open spec fn city_by_key_fn(&self) -> spec_fn(Seq<char>) -> EntryDomainResult<Entry> {
        |k: Seq<char>| self.city_of(self.city_code_of(k))
    }

    /// The district codes of a city, or none when the city is unknown.
    pub open spec fn district_codes_of(&self, city_code: Seq<char>) -> Seq<Seq<char>> {
        match self.idx_insee_coms.lookup(city_code) {
            Some(codes) => codes,
            None => Seq::empty(),
        }
    }

    /// The city keys of a department, in index order.
    pub open spec fn department_cities(&self, department: Seq<char>) -> Seq<Seq<char>> {
        search_of(self.idx_cities.keys(), Seq::empty(), Some(department))
    }

    /// The aggregates of one page of the cities of a department.
    pub open spec fn in_departmental_of(&self, department: Seq<char>, page: int) -> EntryDomainResult<
        Seq<(Seq<char>, Entry)>,
    > {
        let keys = self.department_cities(department);
        if page_exists(keys.len() as int, page) {
            collect(page_keys(keys, page), self.city_by_key_fn())
        } else {
            Err(EntryDomainError::NotFoundError)
        }
    }

    /// The departmental values of each department of a region.
    pub open spec fn in_regional_of(&self, region: Seq<char>) -> EntryDomainResult<
        Seq<(Seq<char>, Entry)>,
    > {
        match self.idx_departments_by_region.lookup(region) {
            Some(depts) => collect(depts, self.departmental_fn()),
            None => Err(EntryDomainError::NotFoundError),
        }
    }

    /// The regional values of each region.
    pub open spec fn all_regions_of(&self) -> EntryDomainResult<Seq<(Seq<char>, Entry)>> {
        collect(self.idx_departments_by_region.keys(), self.regional_fn())
    }

    /// A found city as a search reports it: its key, its code, and each of its
    /// districts with its designation.
    pub open spec fn city_detail_ok(&self, c: (String, CityDetail), key: Seq<char>) -> bool {
        let code = self.city_code_of(key);
        let codes = self.district_codes_of(code);
        &&& c.0@ == key
        &&& c.1.code_insee matches Some(ci) && ci@ == code
        &&& c.1.districts matches Some(ds) && ds@.len() == codes.len() && forall|j: int|
            0 <= j < codes.len() ==> district_view(#[trigger] ds@[j]) == (
                codes[j],
                designation_of(self.stored(), codes[j]),
            )
    }

    /// What a search for `query` among the cities of `department` reports.
    pub open spec fn search_cities_ok(
        &self,
        res: SearchResult,
        department: Seq<char>,
        query: Seq<char>,
    ) -> bool {
        let keys = search_of(self.idx_cities.keys(), query, Some(department));
        &&& res.cities@.len() == keys.len()
        &&& forall|i: int|
            0 <= i < keys.len() ==> self.city_detail_ok(#[trigger] res.cities@[i], keys[i])
    }

    pub fn new(
        idx_regions: MemoryIndexStorage,
        idx_departments: MemoryIndexStorage,
        idx_cities: MemoryIndexStoragePostal,
        idx_insee_coms: MemoryIndexStorage,
        idx_departments_by_region: MemoryIndexStorage,
        entry_datastore: S,
    ) -> (r: Self)
        ensures
            r == (EntryDomain {
                idx_regions,
                idx_departments,
                idx_cities,
                idx_departments_by_region,
                idx_insee_coms,
                entry_datastore,
            }),
    {
        EntryDomain {
            idx_regions,
            idx_departments,
            idx_cities,
            idx_insee_coms,
            idx_departments_by_region,
            entry_datastore,
        }
    }

    fn fetch(&self, code: &String) -> (r: EntryDomainResult<Entry>)
        requires
            self.wf(),
        ensures
            answers(r, self.fetch_of(code@), self.entry_datastore.infallible()),
    {
        match self.entry_datastore.get_entry(code) {
            Ok(Some(e)) => Ok(e),
            Ok(None) => Err(EntryDomainError::NotFoundError),
            Err(source) => Err(EntryDomainError::Storage { source }),
        }
    }

    /// All region keys.
    pub fn get_regions(&self) -> (r: EntryDomainResult<Vec<String>>)
        ensures
            r matches Ok(v) && texts(v@) == self.idx_regions.keys(),
    {
        match self.idx_regions.get_all_keys() {
            Ok(v) => Ok(v),
            Err(source) => Err(EntryDomainError::Storage { source }),
        }
    }

    /// All department keys.
    pub fn get_departments(&self) -> (r: EntryDomainResult<Vec<String>>)
        ensures
            r matches Ok(v) && texts(v@) == self.idx_departments.keys(),
    {
        match self.idx_departments.get_all_keys() {
            Ok(v) => Ok(v),
            Err(source) => Err(EntryDomainError::Storage { source }),
        }
    }

    /// All city keys of the postal index.
    pub fn get_cities(&self) -> (r: EntryDomainResult<Vec<String>>)
        ensures
            r matches Ok(v) && texts(v@) == self.idx_cities.keys(),
    {
        match self.idx_cities.get_all_keys() {
            Ok(v) => Ok(v),
            Err(source) => Err(EntryDomainError::Storage { source }),
        }
    }

    /// The national values, read from any one record: they are the same in
    /// every record.
    pub fn get_national_index(&self) -> (r: EntryDomainResult<Entry>)
        requires
            self.wf(),
        ensures
            r matches Ok(x) ==> exists|k: Seq<char>|
                #[trigger] self.stored().dom().contains(k) && x == national_view(self.stored()[k]),
            r matches Err(e) ==> is_storage_failure(e) || (e == EntryDomainError::NotFoundError
                && self.stored().dom().len() == 0),
    {
        match self.entry_datastore.get_first_entry() {
            Ok(Some(e)) => {
                let n = e.national();
                proof {
                    let k = choose|k: Seq<char>|
                        #[trigger] self.stored().dom().contains(k) && self.stored()[k] == e;
                    assert(self.stored().dom().contains(k) && n == national_view(self.stored()[k]));
                }
                Ok(n)
            },
            Ok(None) => Err(EntryDomainError::NotFoundError),
            Err(source) => Err(EntryDomainError::Storage { source }),
        }
    }

    fn first_record(&self, ix: &MemoryIndexStorage, key: &String) -> (r: EntryDomainResult<Entry>)
        requires
            self.wf(),
            ix.wf(),
        ensures
            answers(r, self.first_record_of(*ix, key@), self.entry_datastore.infallible()),
            ix.lookup(key@) is None ==> (r matches Err(e) && e == EntryDomainError::NotFoundError),
    {
        match ix.get_index(key) {
            Ok(Some(codes)) => {
                assert(codes@.len() > 0) by {
                    assert(ix.keys().contains(key@));
                    let i = ix.keys().index_of(key@);
                    assert(0 <= i < ix.index@.len());
                    assert(ix.index@[i].1@.len() > 0);
                    assert(texts(codes@) == texts(ix.index@[i].1@));
                    assert(texts(codes@).len() == codes@.len());
                }
                self.fetch(&codes[0])
            },
            Ok(None) => Err(EntryDomainError::NotFoundError),
            Err(source) => Err(EntryDomainError::Storage { source }),
        }
    }

    /// The regional values of `region`, read from the record of the first
    /// district that the region index gives for it.
    pub fn get_regional_index(&self, region: &String) -> (r: EntryDomainResult<Entry>)
        requires
            self.wf(),
        ensures
            answers(r, self.regional_of(region@), self.entry_datastore.infallible()),
            self.idx_regions.lookup(region@) is None ==> (r matches Err(e) && e == EntryDomainError::NotFoundError),
    {
        match self.first_record(&self.idx_regions, region) {
            Ok(e) => Ok(e.regional()),
            Err(x) => Err(x),
        }
    }

    /// The departmental values of `department`, read from the record of the
    /// first district that the department index gives for it.
    pub fn get_departmental_index(&self, department: &String) -> (r: EntryDomainResult<Entry>)
        requires
            self.wf(),
        ensures
            answers(r, self.departmental_of(department@), self.entry_datastore.infallible()),
            self.idx_departments.lookup(department@) is None ==> (r matches Err(e) && e == EntryDomainError::NotFoundError),
    {
        match self.first_record(&self.idx_departments, department) {
            Ok(e) => Ok(e.departmental()),
            Err(x) => Err(x),
        }
    }

    /// The record of one district.
    pub fn get_district_index(&self, iriscode: &String) -> (r: EntryDomainResult<Entry>)
        requires
            self.wf(),
        ensures
            answers(r, self.fetch_of(iriscode@), self.entry_datastore.infallible()),
    {
        self.fetch(iriscode)
    }

    /// The districts of the city `code_insee` with their records, in the order
    /// of the city index.
    pub fn get_city_districts_index(&self, code_insee: &String) -> (r: EntryDomainResult<
        Vec<(String, Entry)>,
    >)
        requires
            self.wf(),
        ensures
            answers(pairs_result(r), self.city_districts_of(code_insee@), self.entry_datastore.infallible()),
            self.idx_insee_coms.lookup(code_insee@) is None ==> (r matches Err(e) && e == EntryDomainError::NotFoundError),
    {
        let codes = match self.idx_insee_coms.get_index(code_insee) {
            Ok(Some(codes)) => codes,
            Ok(None) => return Err(EntryDomainError::NotFoundError),
            Err(source) => return Err(EntryDomainError::Storage { source }),
        };
        let ghost items = texts(codes@);
        let ghost f = self.fetch_fn();
        let mut out: Vec<(String, Entry)> = Vec::new();
        let mut i: usize = 0;
        assert(items.take(0) =~= Seq::<Seq<char>>::empty());
        assert(pairs_view(out@) =~= Seq::<(Seq<char>, Entry)>::empty());
        while i < codes.len()
            invariant
                self.wf(),
                items == texts(codes@),
                f == self.fetch_fn(),
                self.city_districts_of(code_insee@) == collect(items, f),
                self.idx_insee_coms.lookup(code_insee@) is Some,
                i <= codes.len(),
                collect(items.take(i as int), f) == Ok::<Seq<(Seq<char>, Entry)>, EntryDomainError>(pairs_view(out@)),
            decreases codes.len() - i,
        {
            let fetched = self.fetch(&codes[i]);
            proof {
                lemma_collect_next(items, f, i as int, pairs_view(out@));
            }
            match fetched {
                Ok(e) => {
                    let c = codes[i].clone();
                    proof {
                        lemma_pairs_push(out@, (c, e));
                    }
                    out.push((c, e));
                },
                Err(x) => return Err(x),
            }
            i = i + 1;
        }
        assert(items.take(i as int) =~= items);
        Ok(out)
    }

    /// The record of the city `code_insee`: the aggregate of the records of
    /// all its districts.
    pub fn get_city_index(&self, code_insee: &String) -> (r: EntryDomainResult<Entry>)
        requires
            self.wf(),
        ensures
            answers(r, self.city_of(code_insee@), self.entry_datastore.infallible()),
            self.idx_insee_coms.lookup(code_insee@) is None ==> (r matches Err(e) && e == EntryDomainError::NotFoundError),
            self.city_of(code_insee@) matches Err(e) ==> !is_storage_failure(e),
    {
        proof {
            if let Some(codes) = self.idx_insee_coms.lookup(code_insee@) {
                let f = self.fetch_fn();
                assert forall|k: Seq<char>| (#[trigger] f(k)) is Err implies !is_storage_failure(
                    f(k)->Err_0,
                ) by {}
                lemma_collect_no_storage(codes, f);
            }
        }
        let districts = match self.get_city_districts_index(code_insee) {
            Ok(d) => d,
            Err(x) => return Err(x),
        };
        let mut records: Vec<Entry> = Vec::new();
        let mut i: usize = 0;
        while i < districts.len()
            invariant
                i <= districts.len(),
                records@ == seconds(pairs_view(districts@)).take(i as int),
            decreases districts.len() - i,
        {
            records.push(districts[i].1.duplicate());
            assert(records@ =~= seconds(pairs_view(districts@)).take(i + 1));
            i = i + 1;
        }
        assert(records@ =~= seconds(pairs_view(districts@)));
        match aggregate(&records) {
            Some(e) => Ok(e),
            None => Err(EntryDomainError::MissingValueError),
        }
    }

    /// The departmental values of each department of `region`, in the order
    /// of the department-by-region index.
    pub fn get_in_regional_index(&self, region: &String) -> (r: EntryDomainResult<
        Vec<(String, Entry)>,
    >)
        requires
            self.wf(),
        ensures
            answers(pairs_result(r), self.in_regional_of(region@), self.entry_datastore.infallible()),
            self.idx_departments_by_region.lookup(region@) is None ==> (r matches Err(e) && e == EntryDomainError::NotFoundError),
    {
        let depts = match self.idx_departments_by_region.get_index(region) {
            Ok(Some(d)) => d,
            Ok(None) => return Err(EntryDomainError::NotFoundError),
            Err(source) => return Err(EntryDomainError::Storage { source }),
        };
        let ghost items = texts(depts@);
        let ghost f = self.departmental_fn();
        let mut out: Vec<(String, Entry)> = Vec::new();
        let mut i: usize = 0;
        assert(items.take(0) =~= Seq::<Seq<char>>::empty());
        assert(pairs_view(out@) =~= Seq::<(Seq<char>, Entry)>::empty());
        while i < depts.len()
            invariant
                self.wf(),
                items == texts(depts@),
                f == self.departmental_fn(),
                self.in_regional_of(region@) == collect(items, f),
                self.idx_departments_by_region.lookup(region@) is Some,
                i <= depts.len(),
                collect(items.take(i as int), f) == Ok::<Seq<(Seq<char>, Entry)>, EntryDomainError>(pairs_view(out@)),
            decreases depts.len() - i,
        {
            let got = self.get_departmental_index(&depts[i]);
            proof {
                lemma_collect_next(items, f, i as int, pairs_view(out@));
            }
            match got {
                Ok(e) => {
                    let c = depts[i].clone();
                    proof {
                        lemma_pairs_push(out@, (c, e));
                    }
                    out.push((c, e));
                },
                Err(x) => return Err(x),
            }
            i = i + 1;
        }
        assert(items.take(i as int) =~= items);
        Ok(out)
    }

    /// The regional values of each region of the department-by-region index,
    /// in its key order.
    pub fn get_all_regions_index(&self) -> (r: EntryDomainResult<Vec<(String, Entry)>>)
        requires
            self.wf(),
        ensures
            answers(pairs_result(r), self.all_regions_of(), self.entry_datastore.infallible()),
            self.idx_departments_by_region.keys().len() == 0 ==> (r matches Ok(v) && v@.len() == 0),
    {
        let regions = match self.idx_departments_by_region.get_all_keys() {
            Ok(k) => k,
            Err(source) => return Err(EntryDomainError::Storage { source }),
        };
        let ghost items = texts(regions@);
        let ghost f = self.regional_fn();
        let mut out: Vec<(String, Entry)> = Vec::new();
        let mut i: usize = 0;
        assert(items.take(0) =~= Seq::<Seq<char>>::empty());
        assert(pairs_view(out@) =~= Seq::<(Seq<char>, Entry)>::empty());
        while i < regions.len()
            invariant
                self.wf(),
                items == texts(regions@),
                f == self.regional_fn(),
                self.all_regions_of() == collect(items, f),
                items == self.idx_departments_by_region.keys(),
                out@.len() == i,
                i <= regions.len(),
                collect(items.take(i as int), f) == Ok::<Seq<(Seq<char>, Entry)>, EntryDomainError>(pairs_view(out@)),
            decreases regions.len() - i,
        {
            let got = self.get_regional_index(&regions[i]);
            proof {
                lemma_collect_next(items, f, i as int, pairs_view(out@));
            }
            match got {
                Ok(e) => {
                    let c = regions[i].clone();
                    proof {
                        lemma_pairs_push(out@, (c, e));
                    }
                    out.push((c, e));
                },
                Err(x) => return Err(x),
            }
            i = i + 1;
        }
        assert(items.take(i as int) =~= items);
        Ok(out)
    }

    /// The city code that a key of the postal index leads to.
    fn city_code(&self, key: &String) -> (r: String)
        requires
            self.wf(),
        ensures
            r@ == self.city_code_of(key@),
    {
        match self.idx_cities.get_index(key) {
            Ok(Some(iris)) => match iris.code {
                Some(c) => c,
                None => String::new(),
            },
            _ => String::new(),
        }
    }

    /// The aggregates of page `page` (counted from 1) of the cities of
    /// `department`, five cities to a page in key order. A page with no city
    /// on it is `NotFoundError`.
    pub fn get_in_departmental_index(&self, department: &String, page: i32) -> (r: EntryDomainResult<
        Vec<(String, Entry)>,
    >)
        requires
            self.wf(),
        ensures
            answers(pairs_result(r), self.in_departmental_of(department@, page as int), self.entry_datastore.infallible()),
            !page_exists(self.department_cities(department@).len() as int, page as int) ==> (r matches Err(e)
                && e == EntryDomainError::NotFoundError),
    {
        let empty = String::new();
        let keys = match self.idx_cities.search_on_key(empty.as_str(), &Some(department.clone())) {
            Ok(k) => k,
            Err(source) => return Err(EntryDomainError::Storage { source }),
        };
        let ghost all = texts(keys@);
        assert(all == self.department_cities(department@));
        if page < 1 || ((page - 1) as usize) >= keys.len() / PAGE_SIZE + 1 || ((page - 1) as usize)
            * PAGE_SIZE >= keys.len() {
            return Err(EntryDomainError::NotFoundError);
        }
        let start: usize = ((page - 1) as usize) * PAGE_SIZE;
        let end: usize = if keys.len() - start > PAGE_SIZE {
            start + PAGE_SIZE
        } else {
            keys.len()
        };
        let ghost items = page_keys(all, page as int);
        assert(items =~= all.subrange(start as int, end as int));
        let ghost f = self.city_by_key_fn();
        let mut out: Vec<(String, Entry)> = Vec::new();
        let mut i: usize = start;
        assert(items.take(0) =~= Seq::<Seq<char>>::empty());
        assert(pairs_view(out@) =~= Seq::<(Seq<char>, Entry)>::empty());
        while i < end
            invariant
                self.wf(),
                all == texts(keys@),
                start <= i <= end <= keys.len(),
                items == all.subrange(start as int, end as int),
                f == self.city_by_key_fn(),
                self.in_departmental_of(department@, page as int) == collect(items, f),
                page_exists(self.department_cities(department@).len() as int, page as int),
                collect(items.take(i - start), f) == Ok::<Seq<(Seq<char>, Entry)>, EntryDomainError>(pairs_view(out@)),
            decreases end - i,
        {
            let code = self.city_code(&keys[i]);
            let got = self.get_city_index(&code);
            proof {
                lemma_collect_next(items, f, i - start, pairs_view(out@));
            }
            match got {
                Ok(e) => {
                    let c = keys[i].clone();
                    proof {
                        lemma_pairs_push(out@, (c, e));
                    }
                    out.push((c, e));
                },
                Err(x) => return Err(x),
            }
            i = i + 1;
        }
        assert(items.take(i - start) =~= items);
        Ok(out)
    }
    /// The cities of `department` whose key holds `query` (compared
    /// upper-cased), each with its code and its districts.
    pub fn search_cities(&self, department: &String, query: &String) -> (r: EntryDomainResult<
        SearchResult,
    >)
        requires
            self.wf(),
        ensures
            match r {
                Ok(res) => self.search_cities_ok(res, department@, query@),
                Err(e) => is_storage_failure(e),
            },
            self.entry_datastore.infallible() ==> r is Ok,
            (forall|i: int|
                0 <= i < search_of(self.idx_cities.keys(), query@, Some(department@)).len()
                    ==> self.district_codes_of(
                    self.city_code_of(
                        #[trigger] search_of(self.idx_cities.keys(), query@, Some(department@))[i],
                    ),
                ).len() == 0) ==> r is Ok,
    {
        let keys = match self.idx_cities.search_on_key(query.as_str(), &Some(department.clone())) {
            Ok(k) => k,
            Err(source) => return Err(EntryDomainError::Storage { source }),
        };
        let ghost all = texts(keys@);
        let mut result = SearchResult::new();
        let mut i: usize = 0;
        while i < keys.len()
            invariant
                self.wf(),
                all == texts(keys@),
                all == search_of(self.idx_cities.keys(), query@, Some(department@)),
                i <= keys.len(),
                result.cities@.len() == i,
                forall|t: int| 0 <= t < i ==> self.city_detail_ok(#[trigger] result.cities@[t], all[t]),
            decreases keys.len() - i,
        {
            let code = self.city_code(&keys[i]);
            let codes = match self.idx_insee_coms.get_index(&code) {
                Ok(Some(c)) => c,
                _ => Vec::new(),
            };
            assert(texts(codes@) == self.district_codes_of(code@));
            let mut districts: Vec<District> = Vec::new();
            let mut j: usize = 0;
            while j < codes.len()
                invariant
                    self.wf(),
                    texts(codes@) == self.district_codes_of(code@),
                    i < all.len(),
                    all == search_of(self.idx_cities.keys(), query@, Some(department@)),
                    code@ == self.city_code_of(all[i as int]),
                    j <= codes.len(),
                    districts@.len() == j,
                    forall|t: int|
                        0 <= t < j ==> district_view(#[trigger] districts@[t]) == (
                            codes@[t]@,
                            designation_of(self.stored(), codes@[t]@),
                        ),
                decreases codes.len() - j,
            {
                let designation = match self.entry_datastore.get_entry(&codes[j]) {
                    Ok(Some(e)) => match e.iris_code_designation {
                        Some(d) => d,
                        None => String::new(),
                    },
                    Ok(None) => String::new(),
                    Err(source) => {
                        proof {
                            assert(texts(codes@).len() > 0);
                            assert(self.district_codes_of(self.city_code_of(all[i as int])).len() > 0);
                        }
                        return Err(EntryDomainError::Storage { source });
                    },
                };
                districts.push(District::new(codes[j].clone(), designation));
                j = j + 1;
            }
            let key = keys[i].clone();
            let detail = CityDetail { code_insee: Some(code), districts: Some(districts) };
            let ghost before = result.cities@;
            result.cities.push((key, detail));
            proof {
                assert(result.cities@[i as int] == (key, detail));
                let codes_s = self.district_codes_of(code@);
                assert forall|t: int| 0 <= t < codes_s.len() implies district_view(
                    #[trigger] districts@[t],
                ) == (codes_s[t], designation_of(self.stored(), codes_s[t])) by {
                    assert(codes_s[t] == codes@[t]@);
                }
                assert(self.city_detail_ok(result.cities@[i as int], all[i as int]));
                assert forall|t: int| 0 <= t < i + 1 implies self.city_detail_ok(
                    #[trigger] result.cities@[t],
                    all[t],
                ) by {
                    if t < i {
                        assert(result.cities@[t] == before[t]);
                    }
                }
            }
            i = i + 1;
        }
        Ok(result)
    }
}

} // verus!
