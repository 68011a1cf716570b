//! What holds of the indexes, the aggregates and the queries together.
use vstd::prelude::*;
use crate::aggregate::{aggregate_of, all_complete, axis, axis_mean, axis_sum, complete, sum_fits};
use crate::domain::{firsts, lemma_collect_keys, page_exists, page_keys, seconds, EntryDomain};
use crate::entry::{blank_entry, Entry};
use crate::error::EntryDomainError;
use crate::index::{in_scope, search_of, selector, sorted_keys, MemoryIndexStorage};
use crate::keys::{key_lt, key_matches, upper_of};
use crate::store::{record_at, EntryStorageTrait};

verus! {

proof fn lemma_axis_sum_fits(s: Seq<Entry>, k: int)
    requires
        0 <= k < 5,
        all_complete(s),
    ensures
        sum_fits(axis_sum(s, k), s.len() as int),
    decreases s.len(),
{
    if s.len() > 0 {
        assert(all_complete(s.drop_last())) by {
            assert forall|i: int| 0 <= i < s.drop_last().len() implies complete(
                #[trigger] s.drop_last()[i],
            ) by {
                assert(s.drop_last()[i] == s[i]);
            }
        }
        lemma_axis_sum_fits(s.drop_last(), k);
        assert(complete(s[s.len() - 1]));
        assert(axis(s.last(), k) is Some);
    }
}

/// The mean of `n` values of `i64` is again a value of `i64`.
proof fn lemma_mean_fits(sum: int, n: int)
    requires
        n > 0,
        sum_fits(sum, n),
    ensures
        -0x8000_0000_0000_0000 <= sum / n <= 0x7fff_ffff_ffff_ffff,
{
    let q = sum / n;
    let r = sum % n;
    vstd::arithmetic::div_mod::lemma_fundamental_div_mod(sum, n);
    assert(-0x8000_0000_0000_0000 <= q <= 0x7fff_ffff_ffff_ffff) by (nonlinear_arith)
        requires
            sum == n * q + r,
            0 <= r < n,
            n > 0,
            -n * 0x8000_0000_0000_0000 <= sum <= n * 0x7fff_ffff_ffff_ffff,
    ;
}

/// For a non-empty list of records that carry all five axis values, the
/// aggregate holds at its own level the mean of each axis (rounded down to
/// the fixed-point unit, and exact in `i64`), and the region, department and
/// national scopes of the first record.
pub proof fn law_aggregate_is_mean(records: Seq<Entry>)
    requires
        records.len() > 0,
        all_complete(records),
    ensures
        forall|k: int|
            0 <= k < 5 ==> #[trigger] axis(aggregate_of(records), k) == Some(
                axis_mean(records, k) as i64,
            ) && -0x8000_0000_0000_0000 <= axis_mean(records, k) <= 0x7fff_ffff_ffff_ffff,
        aggregate_of(records).global_region == records[0].global_region,
        aggregate_of(records).global_dept == records[0].global_dept,
        aggregate_of(records).global_national == records[0].global_national,
        aggregate_of(records).information_access->0.global_region
            == records[0].information_access->0.global_region,
        aggregate_of(records).information_access->0.global_dept
            == records[0].information_access->0.global_dept,
        aggregate_of(records).information_access->0.global_national
            == records[0].information_access->0.global_national,
        aggregate_of(records).numeric_interfaces_access->0.global_region
            == records[0].numeric_interfaces_access->0.global_region,
        aggregate_of(records).numeric_interfaces_access->0.global_dept
            == records[0].numeric_interfaces_access->0.global_dept,
        aggregate_of(records).numeric_interfaces_access->0.global_national
            == records[0].numeric_interfaces_access->0.global_national,
        aggregate_of(records).administrative_competencies->0.global_region
            == records[0].administrative_competencies->0.global_region,
        aggregate_of(records).administrative_competencies->0.global_dept
            == records[0].administrative_competencies->0.global_dept,
        aggregate_of(records).administrative_competencies->0.global_national
            == records[0].administrative_competencies->0.global_national,
        aggregate_of(records).numeric_competencies->0.global_region
            == records[0].numeric_competencies->0.global_region,
        aggregate_of(records).numeric_competencies->0.global_dept
            == records[0].numeric_competencies->0.global_dept,
        aggregate_of(records).numeric_competencies->0.global_national
            == records[0].numeric_competencies->0.global_national,
{
    assert forall|k: int| 0 <= k < 5 implies #[trigger] axis(aggregate_of(records), k) == Some(
        axis_mean(records, k) as i64,
    ) && -0x8000_0000_0000_0000 <= axis_mean(records, k) <= 0x7fff_ffff_ffff_ffff by {
        lemma_axis_sum_fits(records, k);
        lemma_mean_fits(axis_sum(records, k), records.len() as int);
    }
}

/// Aggregating no record at all succeeds, with every value absent.
pub proof fn law_aggregate_empty()
    ensures
        all_complete(Seq::<Entry>::empty()),
        aggregate_of(Seq::<Entry>::empty()) == blank_entry(),
{
}

/// Every code of an index is the code of a stored record.
pub open spec fn backed_by(ix: MemoryIndexStorage, stored: Map<Seq<char>, Entry>) -> bool {
    forall|i: int, j: int|
        0 <= i < ix.index@.len() && 0 <= j < ix.codes_at(i).len() ==> stored.dom().contains(
            #[trigger] ix.codes_at(i)[j],
        )
}

/// A key of a well-formed index leads to at least one code, and when the
/// index is backed by the store, every one of those codes resolves to a
/// record.
pub proof fn law_present_key_resolves(
    ix: MemoryIndexStorage,
    stored: Map<Seq<char>, Entry>,
    key: Seq<char>,
)
    requires
        ix.wf(),
        ix.keys().contains(key),
    ensures
        ix.lookup(key) matches Some(codes) && codes.len() > 0,
        backed_by(ix, stored) ==> (ix.lookup(key) matches Some(codes) && forall|j: int|
            0 <= j < codes.len() ==> #[trigger] record_at(stored, codes[j]) is Some),
{
    let i = ix.keys().index_of(key);
    assert(ix.index@[i].1@.len() > 0);
    if backed_by(ix, stored) {
        let codes = ix.codes_at(i);
        assert forall|j: int| 0 <= j < codes.len() implies #[trigger] record_at(stored, codes[j]) is Some by {
            assert(stored.dom().contains(ix.codes_at(i)[j]));
        }
    }
}

/// A key that is not in its index is `NotFoundError` at every level that
/// starts from that index; it is never an empty success.
pub proof fn law_absent_key_not_found<S: EntryStorageTrait>(d: EntryDomain<S>, key: Seq<char>)
    ensures
        !d.idx_regions.keys().contains(key) ==> d.idx_regions.lookup(key) is None && d.regional_of(
            key,
        ) == Err::<Entry, EntryDomainError>(EntryDomainError::NotFoundError),
        !d.idx_departments.keys().contains(key) ==> d.idx_departments.lookup(key) is None
            && d.departmental_of(key) == Err::<Entry, EntryDomainError>(
            EntryDomainError::NotFoundError,
        ),
        !d.idx_insee_coms.keys().contains(key) ==> d.idx_insee_coms.lookup(key) is None
            && d.city_of(key) == Err::<Entry, EntryDomainError>(EntryDomainError::NotFoundError)
            && d.city_districts_of(key) is Err,
        !d.idx_departments_by_region.keys().contains(key) ==> d.in_regional_of(key) is Err,
{
}

/// The keys that a search gives are keys of the index, in index order.
pub proof fn law_search_within_keys(
    keys: Seq<Seq<char>>,
    query: Seq<char>,
    start: Option<Seq<char>>,
    key: Seq<char>,
)
    ensures
        search_of(keys, query, start).contains(key) <==> keys.contains(key) && in_scope(key, start)
            && key_matches(key, query),
{
    let f = selector(query, start);
    if search_of(keys, query, start).contains(key) {
        keys.lemma_filter_contains_rev(f, key);
        let i = choose|i: int| 0 <= i < keys.filter(f).len() && keys.filter(f)[i] == key;
        keys.lemma_filter_pred(f, i);
    }
    if keys.contains(key) && in_scope(key, start) && key_matches(key, query) {
        let i = keys.index_of(key);
        keys.lemma_filter_contains(f, i);
    }
}

/// A search compares upper-cased texts: two queries with the same upper-cased
/// text give the same keys.
pub proof fn law_search_ignores_case(
    keys: Seq<Seq<char>>,
    q1: Seq<char>,
    q2: Seq<char>,
    start: Option<Seq<char>>,
)
    requires
        upper_of(q1) == upper_of(q2),
    ensures
        search_of(keys, q1, start) == search_of(keys, q2, start),
{
    assert(selector(q1, start) =~= selector(q2, start));
}

/// A search over sorted keys gives sorted keys.
pub proof fn law_search_sorted(keys: Seq<Seq<char>>, query: Seq<char>, start: Option<Seq<char>>)
    requires
        sorted_keys(keys),
    ensures
        sorted_keys(search_of(keys, query, start)),
{
    lemma_filter_sorted(keys, selector(query, start));
}

proof fn lemma_filter_sorted(keys: Seq<Seq<char>>, f: spec_fn(Seq<char>) -> bool)
    requires
        sorted_keys(keys),
    ensures
        sorted_keys(keys.filter(f)),
    decreases keys.len(),
{
    reveal(Seq::filter);
    if keys.len() > 0 {
        let init = keys.drop_last();
        assert(sorted_keys(init)) by {
            assert forall|a: int, b: int| 0 <= a < b < init.len() implies key_lt(
                #[trigger] init[a],
                #[trigger] init[b],
            ) by {
                assert(init[a] == keys[a] && init[b] == keys[b]);
            }
        }
        lemma_filter_sorted(init, f);
        let sub = init.filter(f);
        if f(keys.last()) {
            let out = sub.push(keys.last());
            assert forall|a: int, b: int| 0 <= a < b < out.len() implies key_lt(
                #[trigger] out[a],
                #[trigger] out[b],
            ) by {
                if b == sub.len() {
                    assert(sub.contains(sub[a]));
                    init.lemma_filter_contains_rev(f, sub[a]);
                    let j = init.index_of(sub[a]);
                    assert(keys[j] == init[j]);
                    assert(key_lt(keys[j], keys[keys.len() - 1]));
                } else {
                    assert(out[a] == sub[a] && out[b] == sub[b]);
                }
            }
        }
    }
}

/// The pages of a department's cities: page `p` (from 1) holds the keys from
/// position `5 * (p - 1)` on, five of them or the rest; a page with no city
/// on it fails with `NotFoundError` instead of being empty.
pub proof fn law_pages<S: EntryStorageTrait>(d: EntryDomain<S>, department: Seq<char>, page: int)
    ensures
        page_exists(d.department_cities(department).len() as int, page) ==> (d.in_departmental_of(
            department,
            page,
        ) matches Ok(v) ==> firsts(v) == page_keys(d.department_cities(department), page)),
        !page_exists(d.department_cities(department).len() as int, page) ==> d.in_departmental_of(
            department,
            page,
        ) == Err::<Seq<(Seq<char>, Entry)>, EntryDomainError>(EntryDomainError::NotFoundError),
        d.idx_cities.wf() ==> sorted_keys(d.department_cities(department)),
{
    let keys = d.department_cities(department);
    if page_exists(keys.len() as int, page) {
        lemma_collect_keys(page_keys(keys, page), d.city_by_key_fn());
    }
    if d.idx_cities.wf() {
        law_search_sorted(d.idx_cities.keys(), Seq::empty(), Some(department));
    }
}

/// The detail view of a city and its summary agree: the summary folds
/// exactly the records that the detail view lists, in the same order, and
/// both fail together when the city or one of its records is missing.
pub proof fn law_city_views_agree<S: EntryStorageTrait>(d: EntryDomain<S>, code: Seq<char>)
    ensures
        d.city_districts_of(code) matches Ok(v) ==> (d.idx_insee_coms.lookup(code) == Some(firsts(v))
            && d.city_of(code) == if all_complete(seconds(v)) {
            Ok::<Entry, EntryDomainError>(aggregate_of(seconds(v)))
        } else {
            Err::<Entry, EntryDomainError>(EntryDomainError::MissingValueError)
        }),
        d.city_districts_of(code) matches Err(e) ==> d.city_of(code) == Err::<Entry, EntryDomainError>(e),
{
    if let Some(codes) = d.idx_insee_coms.lookup(code) {
        lemma_collect_keys(codes, d.fetch_fn());
    }
}

} // verus!
