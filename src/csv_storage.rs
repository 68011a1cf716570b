//! The rows of the district table and of the postal table, and the indexes
//! that are built from them.
use vstd::prelude::*;
use crate::grouping::{codes_for, group_codes, lemma_codes_for_distinct, keep_latest, latest_by_key, lemma_pair_texts_push, pair_texts, place_texts};
use crate::index::{key_seq, lemma_texts_push, texts};
use crate::keys::{blank, composite_key, concat_name, is_blank};
use crate::aggregate::{aggregate, aggregate_of, all_complete, axis};
use crate::decimal::{cell_value, clean_and_parse};
use crate::entry::{
    AdministrativeCompetencies, Entry, GeoLoc, InformationAccess, Iris, NumericCompetencies,
    NumericInterfacesAccess,
};

verus! {

fn copy_cell(t: &Option<String>) -> (r: Option<String>)
    ensures
        r == *t,
{
    match t {
        Some(s) => Some(s.clone()),
        None => None,
    }
}

/// One row of the district table, as far as the library reads it: its keys
/// and the cells from which its record is made.
#[derive(Clone, Debug)]
pub struct EntryCSV {
    /// The district code.
    pub code_iris: String,
    /// The department code.
    pub dep: String,
    /// The department name.
    pub nom_dep: String,
    /// The region name.
    pub nom_reg: String,
    /// The city code.
    pub insee_com: String,
    /// The district code as the record carries it.
    pub iris: String,
    /// The district name.
    pub nom_iris: String,
    pub score_global_region_star: String,
    pub acces_information_region_1: String,
    pub global_acces_region_1: String,
    pub part_des_familles_monoparentales: String,
    pub part_des_menages_personne: String,
    pub service_publics: String,
    pub acces_aux_interfaces_numeriques_region_1: String,
    pub cm_revenue_median_region: String,
    pub competences_administatives_region_1: String,
    pub part_des_personnes_agees_de_15_29_ans: String,
    pub competences_numeriques_scolaires_region_1: String,
    pub part_des_personnes_agees_de_65_ans_plus: String,
    pub part_des_non_peu_diplomes_population_non_scolarisee_15_ans_plus: String,
    pub taux_couv_hd_thd_1: Option<String>,
    pub taux_couv_mobile: Option<String>,
    pub taux_pauvrete: Option<String>,
    pub part_chomeurs: Option<String>,
}

impl EntryCSV {
    /// An exact copy.
    pub fn duplicate(&self) -> (r: EntryCSV)
        ensures
            r == *self,
    {
        EntryCSV {
            code_iris: self.code_iris.clone(),
            dep: self.dep.clone(),
            nom_dep: self.nom_dep.clone(),
            nom_reg: self.nom_reg.clone(),
            insee_com: self.insee_com.clone(),
            iris: self.iris.clone(),
            nom_iris: self.nom_iris.clone(),
            score_global_region_star: self.score_global_region_star.clone(),
            acces_information_region_1: self.acces_information_region_1.clone(),
            global_acces_region_1: self.global_acces_region_1.clone(),
            part_des_familles_monoparentales: self.part_des_familles_monoparentales.clone(),
            part_des_menages_personne: self.part_des_menages_personne.clone(),
            service_publics: self.service_publics.clone(),
            acces_aux_interfaces_numeriques_region_1: self.acces_aux_interfaces_numeriques_region_1.clone(),
            cm_revenue_median_region: self.cm_revenue_median_region.clone(),
            competences_administatives_region_1: self.competences_administatives_region_1.clone(),
            part_des_personnes_agees_de_15_29_ans: self.part_des_personnes_agees_de_15_29_ans.clone(),
            competences_numeriques_scolaires_region_1: self.competences_numeriques_scolaires_region_1.clone(),
            part_des_personnes_agees_de_65_ans_plus: self.part_des_personnes_agees_de_65_ans_plus.clone(),
            part_des_non_peu_diplomes_population_non_scolarisee_15_ans_plus: self.part_des_non_peu_diplomes_population_non_scolarisee_15_ans_plus.clone(),
            taux_couv_hd_thd_1: copy_cell(&self.taux_couv_hd_thd_1),
            taux_couv_mobile: copy_cell(&self.taux_couv_mobile),
            taux_pauvrete: copy_cell(&self.taux_pauvrete),
            part_chomeurs: copy_cell(&self.part_chomeurs),
        }
    }

    /// The department key of the row: `"<code> - <name>"`, or empty when the
    /// name is blank.
    pub fn department_key(&self) -> (r: String)
        ensures
            r@ == department_key_of(*self),
    {
        concat_name(self.dep.as_str(), self.nom_dep.as_str())
    }
}

pub open spec fn department_key_of(e: EntryCSV) -> Seq<char> {
    composite_key(e.dep@, e.nom_dep@)
}

pub open spec fn region_key_of(e: EntryCSV) -> Seq<char> {
    e.nom_reg@
}

pub open spec fn city_key_of(e: EntryCSV) -> Seq<char> {
    e.insee_com@
}

/// The `(key, district code)` pairs of the rows, for one choice of key.
pub open spec fn keyed_rows(rows: Seq<EntryCSV>, key: spec_fn(EntryCSV) -> Seq<char>) -> Seq<
    (Seq<char>, Seq<char>),
> {
    rows.map_values(|e: EntryCSV| (key(e), e.code_iris@))
}

/// The keys of a grouped index: those of the rows, each once, in increasing
/// order.
pub open spec fn distinct_keys_of(keys: Seq<Seq<char>>, rows: Seq<(Seq<char>, Seq<char>)>) -> bool {
    &&& crate::index::sorted_keys(keys)
    &&& forall|k: Seq<char>| keys.contains(k) <==> exists|i: int| 0 <= i < rows.len() && #[trigger] rows[i].0 == k
}

/// An index built from rows: grouped by key, each code once under its key,
/// with the empty key left out.
pub open spec fn index_of_rows(r: Seq<(String, Vec<String>)>, rows: Seq<(Seq<char>, Seq<char>)>) -> bool {
    &&& crate::index::sorted_keys(key_seq(r))
    &&& forall|t: int|
        0 <= t < r.len() ==> texts((#[trigger] r[t]).1@) == codes_for(rows, r[t].0@) && r[t].1@.len()
            > 0 && r[t].0@.len() > 0
            && texts(r[t].1@).no_duplicates()
    &&& forall|k: Seq<char>|
        #[trigger] codes_for(rows, k).len() > 0 && k.len() > 0 ==> key_seq(r).contains(k)
}

pub proof fn lemma_codes_for_nonempty(rows: Seq<(Seq<char>, Seq<char>)>, k: Seq<char>)
    ensures
        codes_for(rows, k).len() > 0 <==> exists|i: int| 0 <= i < rows.len() && #[trigger] rows[i].0 == k,
    decreases rows.len(),
{
    if rows.len() > 0 {
        lemma_codes_for_nonempty(rows.drop_last(), k);
        if exists|i: int| 0 <= i < rows.len() && #[trigger] rows[i].0 == k {
            let i = choose|i: int| 0 <= i < rows.len() && #[trigger] rows[i].0 == k;
            if i < rows.len() - 1 {
                assert(rows.drop_last()[i].0 == k);
            }
        }
        if exists|i: int| 0 <= i < rows.len() - 1 && #[trigger] rows.drop_last()[i].0 == k {
            let i = choose|i: int| 0 <= i < rows.len() - 1 && #[trigger] rows.drop_last()[i].0 == k;
            assert(rows[i].0 == k);
        }
    }
}

/// The keys of the groups of `rows`.
fn group_keys(rows: &Vec<(String, String)>) -> (r: Vec<String>)
    ensures
        distinct_keys_of(texts(r@), pair_texts(rows@)),
{
    let groups = group_codes(rows);
    let mut r: Vec<String> = Vec::new();
    let mut i: usize = 0;
    while i < groups.len()
        invariant
            i <= groups@.len(),
            texts(r@) == key_seq(groups@).take(i as int),
        decreases groups.len() - i,
    {
        let k = groups[i].0.clone();
        proof {
            lemma_texts_push(r@, k);
            assert(key_seq(groups@)[i as int] == k@);
        }
        r.push(k);
        assert(texts(r@) =~= key_seq(groups@).take(i + 1));
        i = i + 1;
    }
    proof {
        assert(texts(r@) =~= key_seq(groups@));
        let rows_t = pair_texts(rows@);
        assert forall|k: Seq<char>| texts(r@).contains(k) <==> exists|i: int|
            0 <= i < rows_t.len() && #[trigger] rows_t[i].0 == k by {
            lemma_codes_for_nonempty(rows_t, k);
            if texts(r@).contains(k) {
                let t = key_seq(groups@).index_of(k);
                assert(key_seq(groups@)[t] == groups@[t].0@);
                assert(texts(groups@[t].1@).len() > 0);
            }
        }
    }
    r
}

/// The groups of `rows`, without the group of the empty key.
fn index_rows(rows: &Vec<(String, String)>) -> (r: Vec<(String, Vec<String>)>)
    ensures
        index_of_rows(r@, pair_texts(rows@)),
{
    let mut groups = group_codes(rows);
    let ghost g = groups@;
    let ghost rows_t = pair_texts(rows@);
    if groups.len() > 0 && groups[0].0.as_str().unicode_len() == 0 {
        groups.remove(0);
        proof {
            assert(groups@ =~= g.subrange(1, g.len() as int));
            assert(key_seq(groups@) =~= key_seq(g).subrange(1, g.len() as int));
            assert forall|t: int| 0 <= t < groups@.len() implies texts((#[trigger] groups@[t]).1@)
                == codes_for(rows_t, groups@[t].0@) && groups@[t].1@.len() > 0 && groups@[t].0@.len()
                > 0 by {
                assert(groups@[t] == g[t + 1]);
                assert(key_seq(g)[0] == g[0].0@);
                assert(key_seq(g)[t + 1] == g[t + 1].0@);
                assert(crate::keys::key_lt(key_seq(g)[0], key_seq(g)[t + 1]));
                if g[t + 1].0@.len() == 0 {
                    assert(g[t + 1].0@ =~= g[0].0@);
                    crate::keys::lemma_key_lt_irreflexive(g[0].0@);
                }
            }
            assert forall|k: Seq<char>| #[trigger] codes_for(rows_t, k).len() > 0 && k.len() > 0
                implies key_seq(groups@).contains(k) by {
                let t = key_seq(g).index_of(k);
                assert(key_seq(g)[t] == k);
                assert(key_seq(g)[0] == g[0].0@);
                assert(t != 0);
                assert(key_seq(groups@)[t - 1] == k);
            }
        }
    } else {
        proof {
            assert forall|t: int| 0 <= t < groups@.len() implies texts((#[trigger] groups@[t]).1@)
                == codes_for(rows_t, groups@[t].0@) && groups@[t].1@.len() > 0 && groups@[t].0@.len()
                > 0 by {
                if groups@[t].0@.len() == 0 {
                    assert(key_seq(g)[0] == g[0].0@);
                    assert(key_seq(g)[t] == g[t].0@);
                    if t > 0 {
                        assert(crate::keys::key_lt(key_seq(g)[0], key_seq(g)[t]));
                    }
                }
            }
        }
    }
    proof {
        assert forall|t: int| 0 <= t < groups@.len() implies texts((#[trigger] groups@[t]).1@).no_duplicates() by {
            lemma_codes_for_distinct(rows_t, groups@[t].0@);
        }
    }
    groups
}

/// What an optional cell holds.
pub open spec fn opt_cell(o: Option<String>) -> Option<i64> {
    match o {
        Some(t) => cell_value(t@),
        None => None,
    }
}

/// The five axis values of a row, as the averages of a unit read them.
pub open spec fn stat_entry_of(e: EntryCSV) -> Entry {
    Entry {
        global: cell_value(e.score_global_region_star@),
        global_region: None,
        global_dept: None,
        global_national: None,
        iris_code: None,
        iris_code_designation: None,
        information_access: Some(
            InformationAccess {
                global: cell_value(e.acces_information_region_1@),
                global_region: None,
                global_dept: None,
                global_national: None,
                monoparental_families_percent: None,
                single_person_percent: None,
                number_of_public_service_per_citizen: None,
                number_of_public_services: None,
            },
        ),
        numeric_interfaces_access: Some(
            NumericInterfacesAccess {
                global: cell_value(e.acces_aux_interfaces_numeriques_region_1@),
                global_region: None,
                global_dept: None,
                global_national: None,
                high_speed_internet_access_percent: None,
                mobile_network_availability_percent: None,
                percent_of_poor_people: None,
                available_median_salary: None,
            },
        ),
        administrative_competencies: Some(
            AdministrativeCompetencies {
                global: cell_value(e.competences_administatives_region_1@),
                global_region: None,
                global_dept: None,
                global_national: None,
                unemployed_percent: None,
                _15_29_percent: None,
            },
        ),
        numeric_competencies: Some(
            NumericCompetencies {
                global: cell_value(e.competences_numeriques_scolaires_region_1@),
                global_region: None,
                global_dept: None,
                global_national: None,
                percent_of_65_plus_people: None,
                percent_of_people_without_grade: None,
            },
        ),
    }
}

pub open spec fn stat_entries(rows: Seq<EntryCSV>) -> Seq<Entry> {
    rows.map_values(|e: EntryCSV| stat_entry_of(e))
}

/// The averages of a group of rows: present when every row has all five
/// values (with no row, every average is absent).
pub open spec fn stats_of(rows: Seq<EntryCSV>) -> Option<Entry> {
    if all_complete(stat_entries(rows)) {
        Some(aggregate_of(stat_entries(rows)))
    } else {
        None
    }
}

/// Axis `k` of the averages of a unit, when there are averages.
pub open spec fn scope_of(stats: Option<Entry>, k: int) -> Option<i64> {
    match stats {
        Some(a) => axis(a, k),
        None => None,
    }
}

/// The record of a row, given the averages of its nation, region and
/// department.
pub open spec fn entry_of(
    e: EntryCSV,
    national: Option<Entry>,
    region: Option<Entry>,
    dept: Option<Entry>,
) -> Entry {
    Entry {
        global: cell_value(e.score_global_region_star@),
        global_region: scope_of(region, 0),
        global_dept: scope_of(dept, 0),
        global_national: scope_of(national, 0),
        iris_code: Some(e.iris),
        iris_code_designation: Some(e.nom_iris),
        information_access: Some(
            InformationAccess {
                global: cell_value(e.global_acces_region_1@),
                global_region: scope_of(region, 1),
                global_dept: scope_of(dept, 1),
                global_national: scope_of(national, 1),
                monoparental_families_percent: cell_value(e.part_des_familles_monoparentales@),
                single_person_percent: cell_value(e.part_des_menages_personne@),
                number_of_public_service_per_citizen: cell_value(e.service_publics@),
                number_of_public_services: None,
            },
        ),
        numeric_interfaces_access: Some(
            NumericInterfacesAccess {
                global: cell_value(e.acces_aux_interfaces_numeriques_region_1@),
                global_region: scope_of(region, 2),
                global_dept: scope_of(dept, 2),
                global_national: scope_of(national, 2),
                high_speed_internet_access_percent: opt_cell(e.taux_couv_hd_thd_1),
                mobile_network_availability_percent: opt_cell(e.taux_couv_mobile),
                percent_of_poor_people: opt_cell(e.taux_pauvrete),
                available_median_salary: cell_value(e.cm_revenue_median_region@),
            },
        ),
        administrative_competencies: Some(
            AdministrativeCompetencies {
                global: cell_value(e.competences_administatives_region_1@),
                global_region: scope_of(region, 3),
                global_dept: scope_of(dept, 3),
                global_national: scope_of(national, 3),
                unemployed_percent: opt_cell(e.part_chomeurs),
                _15_29_percent: cell_value(e.part_des_personnes_agees_de_15_29_ans@),
            },
        ),
        numeric_competencies: Some(
            NumericCompetencies {
                global: cell_value(e.competences_numeriques_scolaires_region_1@),
                global_region: scope_of(region, 4),
                global_dept: scope_of(dept, 4),
                global_national: scope_of(national, 4),
                percent_of_65_plus_people: cell_value(e.part_des_personnes_agees_de_65_ans_plus@),
                percent_of_people_without_grade: cell_value(
                    e.part_des_non_peu_diplomes_population_non_scolarisee_15_ans_plus@,
                ),
            },
        ),
    }
}

fn opt_parse(o: &Option<String>) -> (r: Option<i64>)
    ensures
        r == opt_cell(*o),
{
    match o {
        Some(t) => clean_and_parse(t.as_str()),
        None => None,
    }
}

fn scope(stats: &Option<Entry>, k: usize) -> (r: Option<i64>)
    requires
        k < 5,
    ensures
        r == scope_of(*stats, k as int),
{
    match stats {
        Some(a) => if k == 0 {
            a.global
        } else if k == 1 {
            match a.information_access {
                Some(x) => x.global,
                None => None,
            }
        } else if k == 2 {
            match a.numeric_interfaces_access {
                Some(x) => x.global,
                None => None,
            }
        } else if k == 3 {
            match a.administrative_competencies {
                Some(x) => x.global,
                None => None,
            }
        } else {
            match a.numeric_competencies {
                Some(x) => x.global,
                None => None,
            }
        },
        None => None,
    }
}

impl EntryCSV {
    /// The five axis values of this row, for the averages of its units.
    pub fn stat_entry(&self) -> (r: Entry)
        ensures
            r == stat_entry_of(*self),
    {
        Entry::new(
            clean_and_parse(self.score_global_region_star.as_str()),
            None,
            None,
            None,
            None,
            None,
            Some(InformationAccess::new(
                clean_and_parse(self.acces_information_region_1.as_str()),
                None, None, None, None, None, None, None,
            )),
            Some(NumericInterfacesAccess::new(
                clean_and_parse(self.acces_aux_interfaces_numeriques_region_1.as_str()),
                None, None, None, None, None, None, None,
            )),
            Some(AdministrativeCompetencies::new(
                clean_and_parse(self.competences_administatives_region_1.as_str()),
                None, None, None, None, None,
            )),
            Some(NumericCompetencies::new(
                clean_and_parse(self.competences_numeriques_scolaires_region_1.as_str()),
                None, None, None, None, None,
            )),
        )
    }

    /// The record of this row, given the averages of its nation, region and
    /// department.
    pub fn to_entry(
        &self,
        national_stats: &Option<Entry>,
        regions_stats: &Option<Entry>,
        departments_stats: &Option<Entry>,
    ) -> (r: Entry)
        ensures
            r == entry_of(*self, *national_stats, *regions_stats, *departments_stats),
    {
        let (n, g, d) = (national_stats, regions_stats, departments_stats);
        let information_access = InformationAccess::new(
            clean_and_parse(self.global_acces_region_1.as_str()),
            scope(g, 1),
            scope(d, 1),
            scope(n, 1),
            clean_and_parse(self.part_des_familles_monoparentales.as_str()),
            clean_and_parse(self.part_des_menages_personne.as_str()),
            clean_and_parse(self.service_publics.as_str()),
            None,
        );
        let numeric_interfaces_access = NumericInterfacesAccess::new(
            clean_and_parse(self.acces_aux_interfaces_numeriques_region_1.as_str()),
            scope(g, 2),
            scope(d, 2),
            scope(n, 2),
            opt_parse(&self.taux_couv_hd_thd_1),
            opt_parse(&self.taux_couv_mobile),
            opt_parse(&self.taux_pauvrete),
            clean_and_parse(self.cm_revenue_median_region.as_str()),
        );
        let administrative_competencies = AdministrativeCompetencies::new(
            clean_and_parse(self.competences_administatives_region_1.as_str()),
            scope(g, 3),
            scope(d, 3),
            scope(n, 3),
            opt_parse(&self.part_chomeurs),
            clean_and_parse(self.part_des_personnes_agees_de_15_29_ans.as_str()),
        );
        let numeric_competencies = NumericCompetencies::new(
            clean_and_parse(self.competences_numeriques_scolaires_region_1.as_str()),
            scope(g, 4),
            scope(d, 4),
            scope(n, 4),
            clean_and_parse(self.part_des_personnes_agees_de_65_ans_plus.as_str()),
            clean_and_parse(
                self.part_des_non_peu_diplomes_population_non_scolarisee_15_ans_plus.as_str(),
            ),
        );
        Entry::new(
            clean_and_parse(self.score_global_region_star.as_str()),
            scope(g, 0),
            scope(d, 0),
            scope(n, 0),
            Some(self.iris.clone()),
            Some(self.nom_iris.clone()),
            Some(information_access),
            Some(numeric_interfaces_access),
            Some(administrative_competencies),
            Some(numeric_competencies),
        )
    }
}

/// The averages of the five axes over `csv_entries`: present when every row
/// carries all five values.
pub fn get_stats(csv_entries: &Vec<EntryCSV>) -> (r: Option<Entry>)
    ensures
        r == stats_of(csv_entries@),
{
    let mut stats: Vec<Entry> = Vec::new();
    let mut i: usize = 0;
    while i < csv_entries.len()
        invariant
            i <= csv_entries@.len(),
            stats@ == stat_entries(csv_entries@).take(i as int),
        decreases csv_entries.len() - i,
    {
        stats.push(csv_entries[i].stat_entry());
        assert(stats@ =~= stat_entries(csv_entries@).take(i + 1));
        i = i + 1;
    }
    assert(stats@ =~= stat_entries(csv_entries@));
    aggregate(&stats)
}

/// The unit that a row belongs to, one level at a time.
pub enum Level {
    Region,
    Department,
}

pub open spec fn level_key(level: Level, e: EntryCSV) -> Seq<char> {
    match level {
        Level::Region => region_key_of(e),
        Level::Department => department_key_of(e),
    }
}

pub open spec fn in_unit(level: Level, k: Seq<char>) -> spec_fn(EntryCSV) -> bool {
    |e: EntryCSV| level_key(level, e) == k
}

fn row_key(level: &Level, e: &EntryCSV) -> (r: String)
    ensures
        r@ == level_key(*level, *e),
{
    match level {
        Level::Region => e.nom_reg.clone(),
        Level::Department => e.department_key(),
    }
}

/// The rows of the unit `k`, in row order.
fn rows_of_unit(rows: &Vec<EntryCSV>, level: &Level, k: &String) -> (r: Vec<EntryCSV>)
    ensures
        r@ == rows@.filter(in_unit(*level, k@)),
{
    let ghost f = in_unit(*level, k@);
    let mut r: Vec<EntryCSV> = Vec::new();
    let mut i: usize = 0;
    assert(rows@.take(0) =~= Seq::<EntryCSV>::empty());
    proof {
        reveal(Seq::filter);
    }
    while i < rows.len()
        invariant
            f == in_unit(*level, k@),
            i <= rows@.len(),
            r@ == rows@.take(i as int).filter(f),
        decreases rows.len() - i,
    {
        let key = row_key(level, &rows[i]);
        proof {
            reveal(Seq::filter);
            assert(rows@.take(i + 1).drop_last() =~= rows@.take(i as int));
            assert(rows@.take(i + 1).last() == rows@[i as int]);
        }
        if key == *k {
            r.push(rows[i].duplicate());
        }
        i = i + 1;
    }
    assert(rows@.take(i as int) =~= rows@);
    r
}

/// The averages of each unit of a level, by unit key.
fn unit_stats(rows: &Vec<EntryCSV>, level: &Level, keys: &Vec<String>) -> (r: Vec<(String, Option<Entry>)>)
    ensures
        r@.len() == keys@.len(),
        forall|t: int|
            0 <= t < keys@.len() ==> (#[trigger] r@[t]).0@ == keys@[t]@ && r@[t].1 == stats_of(
                rows@.filter(in_unit(*level, keys@[t]@)),
            ),
{
    let mut r: Vec<(String, Option<Entry>)> = Vec::new();
    let mut i: usize = 0;
    while i < keys.len()
        invariant
            i <= keys@.len(),
            r@.len() == i,
            forall|t: int|
                0 <= t < i ==> (#[trigger] r@[t]).0@ == keys@[t]@ && r@[t].1 == stats_of(
                    rows@.filter(in_unit(*level, keys@[t]@)),
                ),
        decreases keys.len() - i,
    {
        let unit = rows_of_unit(rows, level, &keys[i]);
        let st = get_stats(&unit);
        r.push((keys[i].clone(), st));
        i = i + 1;
    }
    r
}

/// The averages of the unit `k`, from the list of all units of its level.
fn stats_for(list: &Vec<(String, Option<Entry>)>, k: &String, rows: Ghost<Seq<EntryCSV>>, level: Ghost<Level>) -> (r: Option<Entry>)
    requires
        exists|t: int| 0 <= t < list@.len() && (#[trigger] list@[t]).0@ == k@,
        forall|t: int|
            0 <= t < list@.len() ==> (#[trigger] list@[t]).1 == stats_of(
                rows@.filter(in_unit(level@, list@[t].0@)),
            ),
    ensures
        r == stats_of(rows@.filter(in_unit(level@, k@))),
{
    let mut i: usize = 0;
    while i < list.len()
        invariant
            i <= list@.len(),
            forall|t: int| 0 <= t < i ==> (#[trigger] list@[t]).0@ != k@,
            forall|t: int|
                0 <= t < list@.len() ==> (#[trigger] list@[t]).1 == stats_of(
                    rows@.filter(in_unit(level@, list@[t].0@)),
                ),
        decreases list.len() - i,
    {
        if list[i].0 == *k {
            return match &list[i].1 {
                Some(e) => Some(e.duplicate()),
                None => None,
            };
        }
        i = i + 1;
    }
    proof {
        let t = choose|t: int| 0 <= t < list@.len() && (#[trigger] list@[t]).0@ == k@;
        assert(list@[t].0@ != k@);
    }
    None
}

/// The table of districts, once read.
pub struct CSVEntryStorage {
    pub path: String,
    pub entries: Option<Vec<EntryCSV>>,
}

impl CSVEntryStorage {
    /// The rows read so far (none before the table is read).
    pub open spec fn rows(&self) -> Seq<EntryCSV> {
        match self.entries {
            Some(v) => v@,
            None => Seq::empty(),
        }
    }

    pub fn new(path: String) -> (r: Self)
        ensures
            r.path == path,
            r.entries is None,
    {
        CSVEntryStorage { path, entries: None }
    }

    /// A copy of the rows read so far.
    pub fn get_csv_entries(&self) -> (r: Vec<EntryCSV>)
        ensures
            r@ == self.rows(),
    {
        let mut r: Vec<EntryCSV> = Vec::new();
        match &self.entries {
            Some(v) => {
                let mut i: usize = 0;
                while i < v.len()
                    invariant
                        i <= v@.len(),
                        r@ == v@.take(i as int),
                    decreases v.len() - i,
                {
                    r.push(v[i].duplicate());
                    assert(r@ =~= v@.take(i + 1));
                    i = i + 1;
                }
                assert(v@.take(i as int) =~= v@);
            },
            None => {},
        }
        assert(r@ =~= self.rows());
        r
    }

    fn department_rows(&self) -> (r: Vec<(String, String)>)
        ensures
            pair_texts(r@) == keyed_rows(self.rows(), |e: EntryCSV| department_key_of(e)),
    {
        let rows = self.get_csv_entries();
        let ghost want = keyed_rows(self.rows(), |e: EntryCSV| department_key_of(e));
        let mut r: Vec<(String, String)> = Vec::new();
        let mut i: usize = 0;
        while i < rows.len()
            invariant
                rows@ == self.rows(),
                want == keyed_rows(self.rows(), |e: EntryCSV| department_key_of(e)),
                i <= rows@.len(),
                pair_texts(r@) == want.take(i as int),
            decreases rows.len() - i,
        {
            let e = &rows[i];
            let pair = (e.department_key(), e.code_iris.clone());
            proof {
                lemma_pair_texts_push(r@, pair);
                assert(pair.0@ == department_key_of(rows@[i as int]) && pair.1@ == rows@[i as int].code_iris@);
            }
            r.push(pair);
            assert(pair_texts(r@) =~= want.take(i + 1));
            i = i + 1;
        }
        assert(want.take(i as int) =~= want);
        r
    }

    fn region_rows(&self) -> (r: Vec<(String, String)>)
        ensures
            pair_texts(r@) == keyed_rows(self.rows(), |e: EntryCSV| region_key_of(e)),
    {
        let rows = self.get_csv_entries();
        let ghost want = keyed_rows(self.rows(), |e: EntryCSV| region_key_of(e));
        let mut r: Vec<(String, String)> = Vec::new();
        let mut i: usize = 0;
        while i < rows.len()
            invariant
                rows@ == self.rows(),
                want == keyed_rows(self.rows(), |e: EntryCSV| region_key_of(e)),
                i <= rows@.len(),
                pair_texts(r@) == want.take(i as int),
            decreases rows.len() - i,
        {
            let e = &rows[i];
            let pair = (e.nom_reg.clone(), e.code_iris.clone());
            proof {
                lemma_pair_texts_push(r@, pair);
                assert(pair.0@ == region_key_of(rows@[i as int]) && pair.1@ == rows@[i as int].code_iris@);
            }
            r.push(pair);
            assert(pair_texts(r@) =~= want.take(i + 1));
            i = i + 1;
        }
        assert(want.take(i as int) =~= want);
        r
    }

    fn city_rows(&self) -> (r: Vec<(String, String)>)
        ensures
            pair_texts(r@) == keyed_rows(self.rows(), |e: EntryCSV| city_key_of(e)),
    {
        let rows = self.get_csv_entries();
        let ghost want = keyed_rows(self.rows(), |e: EntryCSV| city_key_of(e));
        let mut r: Vec<(String, String)> = Vec::new();
        let mut i: usize = 0;
        while i < rows.len()
            invariant
                rows@ == self.rows(),
                want == keyed_rows(self.rows(), |e: EntryCSV| city_key_of(e)),
                i <= rows@.len(),
                pair_texts(r@) == want.take(i as int),
            decreases rows.len() - i,
        {
            let e = &rows[i];
            let pair = (e.insee_com.clone(), e.code_iris.clone());
            proof {
                lemma_pair_texts_push(r@, pair);
                assert(pair.0@ == city_key_of(rows@[i as int]) && pair.1@ == rows@[i as int].code_iris@);
            }
            r.push(pair);
            assert(pair_texts(r@) =~= want.take(i + 1));
            i = i + 1;
        }
        assert(want.take(i as int) =~= want);
        r
    }

    /// The record of each row, in row order, with the averages of the
    /// nation, of its region and of its department.
    pub fn get_entries(&self) -> (r: Vec<Entry>)
        ensures
            r@.len() == self.rows().len(),
            forall|i: int|
                0 <= i < self.rows().len() ==> #[trigger] r@[i] == entry_of(
                    self.rows()[i],
                    stats_of(self.rows()),
                    stats_of(self.rows().filter(in_unit(Level::Region, region_key_of(self.rows()[i])))),
                    stats_of(
                        self.rows().filter(in_unit(Level::Department, department_key_of(self.rows()[i]))),
                    ),
                ),
    {
        let rows = self.get_csv_entries();
        let national = get_stats(&rows);
        let region_level = Level::Region;
        let dept_level = Level::Department;
        let regions = self.get_regions();
        let departments = self.get_departments();
        let region_stats = unit_stats(&rows, &region_level, &regions);
        let dept_stats = unit_stats(&rows, &dept_level, &departments);
        let mut r: Vec<Entry> = Vec::new();
        let mut i: usize = 0;
        while i < rows.len()
            invariant
                rows@ == self.rows(),
                national == stats_of(self.rows()),
                i <= rows@.len(),
                r@.len() == i,
                region_stats@.len() == regions@.len(),
                dept_stats@.len() == departments@.len(),
                distinct_keys_of(texts(regions@), keyed_rows(self.rows(), |e: EntryCSV| region_key_of(e))),
                distinct_keys_of(
                    texts(departments@),
                    keyed_rows(self.rows(), |e: EntryCSV| department_key_of(e)),
                ),
                forall|t: int|
                    0 <= t < regions@.len() ==> (#[trigger] region_stats@[t]).0@ == regions@[t]@
                        && region_stats@[t].1 == stats_of(
                        rows@.filter(in_unit(Level::Region, regions@[t]@)),
                    ),
                forall|t: int|
                    0 <= t < departments@.len() ==> (#[trigger] dept_stats@[t]).0@ == departments@[t]@
                        && dept_stats@[t].1 == stats_of(
                        rows@.filter(in_unit(Level::Department, departments@[t]@)),
                    ),
                forall|j: int|
                    0 <= j < i ==> #[trigger] r@[j] == entry_of(
                        self.rows()[j],
                        stats_of(self.rows()),
                        stats_of(self.rows().filter(in_unit(Level::Region, region_key_of(self.rows()[j])))),
                        stats_of(
                            self.rows().filter(
                                in_unit(Level::Department, department_key_of(self.rows()[j])),
                            ),
                        ),
                    ),
            decreases rows.len() - i,
        {
            let row = &rows[i];
            let rk = row.nom_reg.clone();
            let dk = row.department_key();
            proof {
                let kr = keyed_rows(self.rows(), |e: EntryCSV| region_key_of(e));
                assert(kr[i as int].0 == rk@);
                assert(texts(regions@).contains(rk@));
                let t = texts(regions@).index_of(rk@);
                assert(regions@[t]@ == rk@);
                assert(region_stats@[t].0@ == rk@);
                let kd = keyed_rows(self.rows(), |e: EntryCSV| department_key_of(e));
                assert(kd[i as int].0 == dk@);
                assert(texts(departments@).contains(dk@));
                let u = texts(departments@).index_of(dk@);
                assert(departments@[u]@ == dk@);
                assert(dept_stats@[u].0@ == dk@);
            }
            let rs = stats_for(&region_stats, &rk, Ghost(rows@), Ghost(Level::Region));
            let ds = stats_for(&dept_stats, &dk, Ghost(rows@), Ghost(Level::Department));
            let e = row.to_entry(&national, &rs, &ds);
            r.push(e);
            i = i + 1;
        }
        r
    }

    /// The department keys of the rows, each once, in increasing order.
    pub fn get_departments(&self) -> (r: Vec<String>)
        ensures
            distinct_keys_of(texts(r@), keyed_rows(self.rows(), |e: EntryCSV| department_key_of(e))),
    {
        group_keys(&self.department_rows())
    }

    /// The city codes of the rows, each once, in increasing order.
    pub fn get_insee_coms(&self) -> (r: Vec<String>)
        ensures
            distinct_keys_of(texts(r@), keyed_rows(self.rows(), |e: EntryCSV| city_key_of(e))),
    {
        group_keys(&self.city_rows())
    }

    /// The region names of the rows, each once, in increasing order.
    pub fn get_regions(&self) -> (r: Vec<String>)
        ensures
            distinct_keys_of(texts(r@), keyed_rows(self.rows(), |e: EntryCSV| region_key_of(e))),
    {
        group_keys(&self.region_rows())
    }

    /// The city index: each city code with the codes of its districts.
    pub fn get_insee_com_with_iris(&self) -> (r: Vec<(String, Vec<String>)>)
        ensures
            index_of_rows(r@, keyed_rows(self.rows(), |e: EntryCSV| city_key_of(e))),
    {
        index_rows(&self.city_rows())
    }

    /// The region index: each region name with the codes of its districts.
    pub fn get_regions_with_iris(&self) -> (r: Vec<(String, Vec<String>)>)
        ensures
            index_of_rows(r@, keyed_rows(self.rows(), |e: EntryCSV| region_key_of(e))),
    {
        index_rows(&self.region_rows())
    }

    /// The department index: each department key with the codes of its
    /// districts.
    pub fn get_departements_with_iris(&self) -> (r: Vec<(String, Vec<String>)>)
        ensures
            index_of_rows(r@, keyed_rows(self.rows(), |e: EntryCSV| department_key_of(e))),
    {
        index_rows(&self.department_rows())
    }
}

/// One row of the postal table, as far as the index reads it.
#[derive(Clone, Debug)]
pub struct PostalCodeIrisCodeCSV {
    /// The city code.
    pub iris_code: String,
    /// The city name.
    pub nom_com: String,
    pub postal_code: String,
}

/// The code under which a postal row is filed: its postal code, or the first
/// two characters of its city code when the postal code is blank.
pub open spec fn postal_code_of(p: PostalCodeIrisCodeCSV) -> Seq<char> {
    if is_blank(p.postal_code@) {
        p.iris_code@.take(if p.iris_code@.len() < 2 { p.iris_code@.len() as int } else { 2 })
    } else {
        p.postal_code@
    }
}

/// The key of a postal row: `"<code> - <name>"`, or the bare name when the
/// code is blank.
pub open spec fn postal_key(code: Seq<char>, name: Seq<char>) -> Seq<char> {
    if is_blank(code) {
        name
    } else {
        code + " - "@ + name
    }
}

impl PostalCodeIrisCodeCSV {
    pub fn get_code(&self) -> (r: String)
        ensures
            r@ == postal_code_of(*self),
    {
        if blank(self.postal_code.as_str()) {
            let n = self.iris_code.as_str().unicode_len();
            let end: usize = if n < 2 { n } else { 2 };
            let s = self.iris_code.as_str().substring_char(0, end);
            String::from_str(s)
        } else {
            self.postal_code.clone()
        }
    }

    /// An exact copy.
    pub fn duplicate(&self) -> (r: PostalCodeIrisCodeCSV)
        ensures
            r == *self,
    {
        PostalCodeIrisCodeCSV {
            iris_code: self.iris_code.clone(),
            nom_com: self.nom_com.clone(),
            postal_code: self.postal_code.clone(),
        }
    }

    /// The key under which this row goes into the postal index.
    pub fn postal_key(&self) -> (r: String)
        ensures
            r@ == postal_key(postal_code_of(*self), self.nom_com@),
    {
        let code = self.get_code();
        if blank(code.as_str()) {
            self.nom_com.clone()
        } else {
            let mut r = code;
            r.append(" - ");
            r.append(self.nom_com.as_str());
            r
        }
    }
}

/// Each postal row with its key and its place.
pub open spec fn postal_pairs(rows: Seq<PostalCodeIrisCodeCSV>, geo_locs: Seq<Option<GeoLoc>>) -> Seq<
    (Seq<char>, Iris),
> {
    Seq::new(
        rows.len(),
        |i: int|
            (
                postal_key(postal_code_of(rows[i]), rows[i].nom_com@),
                Iris { code: Some(rows[i].iris_code), geo_loc: geo_locs[i] },
            ),
    )
}

/// The table of postal codes, once read.
pub struct PostalCodeCsvStorage {
    pub path: String,
    pub postal_codes: Option<Vec<PostalCodeIrisCodeCSV>>,
}

impl PostalCodeCsvStorage {
    pub open spec fn rows(&self) -> Seq<PostalCodeIrisCodeCSV> {
        match self.postal_codes {
            Some(v) => v@,
            None => Seq::empty(),
        }
    }

    pub fn new(path: String) -> (r: Self)
        ensures
            r.path == path,
            r.postal_codes is None,
    {
        PostalCodeCsvStorage { path, postal_codes: None }
    }

    /// The entries of the postal index: each row filed under its key with its
    /// city code and the place given for it in `geo_locs` (one per row, in
    /// row order); of rows with the same key the last one counts. Keys come in
    /// increasing order.
    pub fn get_iris_and_geoloc_with_postal_code(&self, geo_locs: &Vec<Option<GeoLoc>>) -> (r: Vec<
        (String, Iris),
    >)
        requires
            geo_locs@.len() == self.rows().len(),
        ensures
            latest_by_key(r@, postal_pairs(self.rows(), geo_locs@)),
    {
        let rows = self.get_csv_postal_codes();
        let ghost want = postal_pairs(self.rows(), geo_locs@);
        let mut pairs: Vec<(String, Iris)> = Vec::new();
        let mut i: usize = 0;
        while i < rows.len()
            invariant
                rows@ == self.rows(),
                geo_locs@.len() == rows@.len(),
                want == postal_pairs(self.rows(), geo_locs@),
                i <= rows@.len(),
                place_texts(pairs@) == want.take(i as int),
            decreases rows.len() - i,
        {
            let row = &rows[i];
            let pair = (row.postal_key(), Iris::new(Some(row.iris_code.clone()), geo_locs[i]));
            assert(pair.0@ == want[i as int].0 && pair.1 == want[i as int].1);
            assert(place_texts(pairs@.push(pair)) =~= place_texts(pairs@).push((pair.0@, pair.1)));
            pairs.push(pair);
            assert(place_texts(pairs@) =~= want.take(i + 1));
            i = i + 1;
        }
        assert(want.take(i as int) =~= want);
        keep_latest(&pairs)
    }

    /// A copy of the rows read so far.
    pub fn get_csv_postal_codes(&self) -> (r: Vec<PostalCodeIrisCodeCSV>)
        ensures
            r@ == self.rows(),
    {
        let mut r: Vec<PostalCodeIrisCodeCSV> = Vec::new();
        match &self.postal_codes {
            Some(v) => {
                let mut i: usize = 0;
                while i < v.len()
                    invariant
                        i <= v@.len(),
                        r@ == v@.take(i as int),
                    decreases v.len() - i,
                {
                    r.push(v[i].duplicate());
                    assert(r@ =~= v@.take(i + 1));
                    i = i + 1;
                }
                assert(v@.take(i as int) =~= v@);
            },
            None => {},
        }
        assert(r@ =~= self.rows());
        r
    }
}

} // verus!
