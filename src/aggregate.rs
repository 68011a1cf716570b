//! Folding the records of the districts of one unit into one record.
use vstd::prelude::*;
use vstd::arithmetic::div_mod::{lemma_fundamental_div_mod, lemma_fundamental_div_mod_converse};
use crate::entry::{
    blank_entry, AdministrativeCompetencies, Entry, InformationAccess, NumericCompetencies,
    NumericInterfacesAccess,
};

verus! {

/// The number of axes that an aggregate averages.
pub const AXES: usize = 5;

/// The own-level value of axis `k` of a record: the overall score, then
/// information access, digital-interface access, administrative competency
/// and digital competency.
pub open spec fn axis(e: Entry, k: int) -> Option<i64> {
    if k == 0 {
        e.global
    } else if k == 1 {
        match e.information_access {
            Some(a) => a.global,
            None => None,
        }
    } else if k == 2 {
        match e.numeric_interfaces_access {
            Some(a) => a.global,
            None => None,
        }
    } else if k == 3 {
        match e.administrative_competencies {
            Some(a) => a.global,
            None => None,
        }
    } else {
        match e.numeric_competencies {
            Some(a) => a.global,
            None => None,
        }
    }
}

/// A record that carries all five own-level axis values.
pub open spec fn complete(e: Entry) -> bool {
    forall|k: int| 0 <= k < 5 ==> (#[trigger] axis(e, k)) is Some
}

pub open spec fn all_complete(s: Seq<Entry>) -> bool {
    forall|i: int| 0 <= i < s.len() ==> complete(#[trigger] s[i])
}

/// The sum of axis `k` over the records.
pub open spec fn axis_sum(s: Seq<Entry>, k: int) -> int
    decreases s.len(),
{
    if s.len() == 0 {
        0
    } else {
        axis_sum(s.drop_last(), k) + match axis(s.last(), k) {
            Some(v) => v as int,
            None => 0,
        }
    }
}

/// The arithmetic mean of axis `k` over the records, rounded down to the
/// fixed-point unit.
pub open spec fn axis_mean(s: Seq<Entry>, k: int) -> int {
    axis_sum(s, k) / (s.len() as int)
}

/// The record that stands for a non-empty group of districts: the mean of
/// each axis at the own level, and the other scopes of the first record.
pub open spec fn aggregate_of(s: Seq<Entry>) -> Entry {
    if s.len() == 0 {
        blank_entry()
    } else {
        let f = s[0];
        Entry {
            global: Some(axis_mean(s, 0) as i64),
            global_region: f.global_region,
            global_dept: f.global_dept,
            global_national: f.global_national,
            iris_code: None,
            iris_code_designation: None,
            information_access: Some(
                InformationAccess {
                    global: Some(axis_mean(s, 1) as i64),
                    global_region: f.information_access->0.global_region,
                    global_dept: f.information_access->0.global_dept,
                    global_national: f.information_access->0.global_national,
                    monoparental_families_percent: None,
                    single_person_percent: None,
                    number_of_public_service_per_citizen: None,
                    number_of_public_services: None,
                },
            ),
            numeric_interfaces_access: Some(
                NumericInterfacesAccess {
                    global: Some(axis_mean(s, 2) as i64),
                    global_region: f.numeric_interfaces_access->0.global_region,
                    global_dept: f.numeric_interfaces_access->0.global_dept,
                    global_national: f.numeric_interfaces_access->0.global_national,
                    high_speed_internet_access_percent: None,
                    mobile_network_availability_percent: None,
                    percent_of_poor_people: None,
                    available_median_salary: None,
                },
            ),
            administrative_competencies: Some(
                AdministrativeCompetencies {
                    global: Some(axis_mean(s, 3) as i64),
                    global_region: f.administrative_competencies->0.global_region,
                    global_dept: f.administrative_competencies->0.global_dept,
                    global_national: f.administrative_competencies->0.global_national,
                    unemployed_percent: None,
                    _15_29_percent: None,
                },
            ),
            numeric_competencies: Some(
                NumericCompetencies {
                    global: Some(axis_mean(s, 4) as i64),
                    global_region: f.numeric_competencies->0.global_region,
                    global_dept: f.numeric_competencies->0.global_dept,
                    global_national: f.numeric_competencies->0.global_national,
                    percent_of_65_plus_people: None,
                    percent_of_people_without_grade: None,
                },
            ),
        }
    }
}

/// The sum of `n` values of `i64` lies in these bounds.
pub open spec fn sum_fits(sum: int, n: int) -> bool {
    -n * 0x8000_0000_0000_0000 <= sum <= n * 0x7fff_ffff_ffff_ffff
}

/// The mean of `n` values of `i64` whose sum is `sum`, rounded down.
fn mean_of(sum: i128, n: usize) -> (q: i64)
    requires
        n > 0,
        sum_fits(sum as int, n as int),
    ensures
        q as int == sum as int / (n as int),
{
    let d = n as u128;
    if sum >= 0 {
        let m = sum as u128;
        let a = m / d;
        let b = m % d;
        proof {
            lemma_fundamental_div_mod(m as int, d as int);
            let (s, nn, aa, bb) = (sum as int, n as int, a as int, b as int);
            assert(s == aa * nn + bb) by (nonlinear_arith)
                requires
                    s == nn * aa + bb,
            ;
            lemma_fundamental_div_mod_converse(s, nn, aa, bb);
            assert(aa <= 0x7fff_ffff_ffff_ffff) by (nonlinear_arith)
                requires
                    s == aa * nn + bb,
                    bb >= 0,
                    nn > 0,
                    s <= nn * 0x7fff_ffff_ffff_ffff,
            ;
        }
        a as i64
    } else {
        let m = (0 - sum) as u128;
        let a = m / d;
        let b = m % d;
        proof {
            lemma_fundamental_div_mod(m as int, d as int);
        }
        if b == 0 {
            proof {
                let (s, nn, aa) = (sum as int, n as int, a as int);
                assert(s == (-aa) * nn + 0) by (nonlinear_arith)
                    requires
                        -s == nn * aa + 0,
                ;
                lemma_fundamental_div_mod_converse(s, nn, -aa, 0);
                assert(aa <= 0x8000_0000_0000_0000) by (nonlinear_arith)
                    requires
                        s == -aa * nn,
                        nn > 0,
                        s >= -nn * 0x8000_0000_0000_0000,
                ;
            }
            (0 - (a as i128)) as i64
        } else {
            proof {
                let (s, nn, aa, bb) = (sum as int, n as int, a as int, b as int);
                assert(s == (-aa - 1) * nn + (nn - bb)) by (nonlinear_arith)
                    requires
                        -s == nn * aa + bb,
                ;
                lemma_fundamental_div_mod_converse(s, nn, -aa - 1, nn - bb);
                assert(aa + 1 <= 0x8000_0000_0000_0000) by (nonlinear_arith)
                    requires
                        s == -(aa + 1) * nn + (nn - bb),
                        0 < bb < nn,
                        s >= -nn * 0x8000_0000_0000_0000,
                ;
            }
            (0 - (a as i128) - 1) as i64
        }
    }
}

proof fn lemma_axis_sum_step(s: Seq<Entry>, i: int, k: int)
    requires
        0 <= i < s.len(),
    ensures
        axis_sum(s.take(i + 1), k) == axis_sum(s.take(i), k) + match axis(s[i], k) {
            Some(v) => v as int,
            None => 0,
        },
{
    assert(s.take(i + 1).drop_last() =~= s.take(i));
}

/// Folds the records of the districts of one unit into one record.
///
/// Each axis of the result is the mean of that axis over the records, and the
/// region, department and national scopes are those of the first record.
/// With no records the result is the record in which every value is absent.
/// A record that lacks one of the five axis values makes the whole fold fail
/// (`None`): skipping it would bias the means.
pub fn aggregate(records: &Vec<Entry>) -> (r: Option<Entry>)
    ensures
        r is Some <==> all_complete(records@),
        r matches Some(e) ==> e == aggregate_of(records@),
{
    let n = records.len();
    if n == 0 {
        return Some(Entry::blank());
    }
    let mut sums: [i128; 5] = [0, 0, 0, 0, 0];
    let mut i: usize = 0;
    while i < n
        invariant
            n == records@.len(),
            i <= n,
            forall|j: int| 0 <= j < i ==> complete(#[trigger] records@[j]),
            forall|k: int|
                0 <= k < 5 ==> #[trigger] sums@[k] as int == axis_sum(records@.take(i as int), k)
                    && sum_fits(sums@[k] as int, i as int),
        decreases n - i,
    {
        let e = &records[i];
        let values: [Option<i64>; 5] = [
            e.global,
            match e.information_access {
                Some(a) => a.global,
                None => None,
            },
            match e.numeric_interfaces_access {
                Some(a) => a.global,
                None => None,
            },
            match e.administrative_competencies {
                Some(a) => a.global,
                None => None,
            },
            match e.numeric_competencies {
                Some(a) => a.global,
                None => None,
            },
        ];
        assert(forall|k: int| 0 <= k < 5 ==> #[trigger] values@[k] == axis(records@[i as int], k));
        let ghost old_sums = sums;
        let mut k: usize = 0;
        while k < AXES
            invariant
                0 <= k <= 5,
                i < n,
                n == records@.len(),
                forall|t: int| 0 <= t < 5 ==> #[trigger] values@[t] == axis(records@[i as int], t),
                forall|t: int| 0 <= t < k ==> (#[trigger] axis(records@[i as int], t)) is Some,
                forall|t: int|
                    0 <= t < k ==> #[trigger] sums@[t] as int == old_sums@[t] as int + axis(
                        records@[i as int],
                        t,
                    )->0 as int,
                forall|t: int| k <= t < 5 ==> #[trigger] sums@[t] == old_sums@[t],
                forall|t: int|
                    0 <= t < 5 ==> #[trigger] sum_fits(old_sums@[t] as int, i as int),
            decreases 5 - k,
        {
            match values[k] {
                Some(v) => {
                    assert(sum_fits(old_sums@[k as int] as int, i as int));
                    assert(sum_fits(old_sums@[k as int] as int + v as int, i + 1));
                    sums[k] = sums[k] + v as i128;
                },
                None => {
                    proof {
                        assert(!complete(records@[i as int]));
                    }
                    return None;
                },
            }
            k = k + 1;
        }
        proof {
            assert(complete(records@[i as int]));
            assert forall|t: int| 0 <= t < 5 implies #[trigger] sums@[t] as int == axis_sum(
                records@.take(i + 1),
                t,
            ) && sum_fits(sums@[t] as int, i + 1) by {
                lemma_axis_sum_step(records@, i as int, t);
            }
        }
        i = i + 1;
    }
    assert(records@.take(n as int) =~= records@);
    let f = &records[0];
    assert(complete(records@[0]));
    assert(axis(records@[0], 1) is Some && axis(records@[0], 2) is Some && axis(records@[0], 3)
        is Some && axis(records@[0], 4) is Some);
    let ia = f.information_access.unwrap();
    let nia = f.numeric_interfaces_access.unwrap();
    let ac = f.administrative_competencies.unwrap();
    let nc = f.numeric_competencies.unwrap();
    Some(
        Entry::new(
            Some(mean_of(sums[0], n)),
            f.global_region,
            f.global_dept,
            f.global_national,
            None,
            None,
            Some(
                InformationAccess::new(
                    Some(mean_of(sums[1], n)),
                    ia.global_region,
                    ia.global_dept,
                    ia.global_national,
                    None,
                    None,
                    None,
                    None,
                ),
            ),
            Some(
                NumericInterfacesAccess::new(
                    Some(mean_of(sums[2], n)),
                    nia.global_region,
                    nia.global_dept,
                    nia.global_national,
                    None,
                    None,
                    None,
                    None,
                ),
            ),
            Some(
                AdministrativeCompetencies::new(
                    Some(mean_of(sums[3], n)),
                    ac.global_region,
                    ac.global_dept,
                    ac.global_national,
                    None,
                    None,
                ),
            ),
            Some(
                NumericCompetencies::new(
                    Some(mean_of(sums[4], n)),
                    nc.global_region,
                    nc.global_dept,
                    nc.global_national,
                    None,
                    None,
                ),
            ),
        ),
    )
}

} // verus!
