use iris_stats::csv_storage::{CSVEntryStorage, EntryCSV, PostalCodeCsvStorage};
use iris_stats::domain::EntryDomain;
use iris_stats::entry::{
    AdministrativeCompetencies, Entry, InformationAccess, Iris, NumericCompetencies,
    NumericInterfacesAccess, SearchResult, District,
};
use iris_stats::error::{EntryDomainError, StorageError};
use iris_stats::index::{MemoryIndexStorage, MemoryIndexStoragePostal};
use iris_stats::store::{EntryStorageTrait, MemoryEntryStorage};

fn s(x: &str) -> String {
    x.to_string()
}

fn record(code: &str, global: i64) -> Entry {
    Entry::new(
        Some(global),
        Some(50),
        Some(60),
        Some(70),
        Some(s(code)),
        Some(format!("Quartier {}", code)),
        Some(InformationAccess::new(Some(global), Some(51), Some(61), Some(71), None, None, None, None)),
        Some(NumericInterfacesAccess::new(Some(global), Some(52), Some(62), Some(72), None, None, None, None)),
        Some(AdministrativeCompetencies::new(Some(global), Some(53), Some(63), Some(73), None, None)),
        Some(NumericCompetencies::new(Some(global), Some(54), Some(64), Some(74), None, None)),
    )
}

fn index(entries: Vec<(&str, Vec<&str>)>) -> MemoryIndexStorage {
    MemoryIndexStorage::from_entries(
        entries.into_iter().map(|(k, v)| (s(k), v.into_iter().map(s).collect())).collect(),
    )
    .unwrap()
}

/// Seven cities in department 75, each with one district, and a city with
/// two districts scored 10 and 20.
fn domain() -> EntryDomain<MemoryEntryStorage> {
    let mut store = MemoryEntryStorage::new();
    store.create(s("75101"), record("75101", 10));
    store.create(s("75102"), record("75102", 20));
    let mut postal = Vec::new();
    let mut insee = vec![(s("75056"), vec![s("75101"), s("75102")])];
    for i in 1..=7 {
        let code = format!("7510{}X", i);
        let district = format!("D{}", i);
        store.create(district.clone(), record(&district, 100 * i as i64));
        postal.push((format!("7500{} - PARIS", i), Iris::new(Some(code.clone()), None)));
        insee.push((code, vec![district]));
    }
    postal.push((s("76000 - ROUEN"), Iris::new(Some(s("76540")), None)));
    insee.sort();
    EntryDomain::new(
        index(vec![("Île-de-France", vec!["75101", "75102"])]),
        index(vec![("75 - Paris", vec!["75102", "75101"])]),
        MemoryIndexStoragePostal::from_entries(postal).unwrap(),
        MemoryIndexStorage::from_entries(insee).unwrap(),
        index(vec![("Île-de-France", vec!["75 - Paris"])]),
        store,
    )
}

#[test]
fn regional_index_reads_first_district() {
    let d = domain();
    let r = d.get_regional_index(&s("Île-de-France")).unwrap();
    assert_eq!(r.global, Some(50));
    assert_eq!(r.global_national, Some(70));
    assert_eq!(r.information_access.unwrap().global, Some(51));
}

#[test]
fn city_aggregate_of_two_districts() {
    let d = domain();
    let c = d.get_city_index(&s("75056")).unwrap();
    assert_eq!(c.global, Some(15));
    assert_eq!(c.global_region, Some(50));
    assert_eq!(c.numeric_competencies.unwrap().global, Some(15));
}

#[test]
fn departmental_index_reads_first_district() {
    let d = domain();
    let r = d.get_departmental_index(&s("75 - Paris")).unwrap();
    assert_eq!(r.global, Some(60));
    assert_eq!(r.global_region, Some(50));
    assert_eq!(r.global_dept, None);
}

#[test]
fn national_index_from_any_record() {
    let d = domain();
    let n = d.get_national_index().unwrap();
    assert_eq!(n.global, Some(70));
    assert_eq!(n.administrative_competencies.unwrap().global, Some(73));
    let empty = EntryDomain::new(
        index(vec![]),
        index(vec![]),
        MemoryIndexStoragePostal::from_entries(vec![]).unwrap(),
        index(vec![]),
        index(vec![]),
        MemoryEntryStorage::new(),
    );
    assert!(matches!(empty.get_national_index(), Err(EntryDomainError::NotFoundError)));
}

#[test]
fn districts_and_aggregate_agree() {
    let d = domain();
    let ds = d.get_city_districts_index(&s("75056")).unwrap();
    let codes: Vec<&str> = ds.iter().map(|(c, _)| c.as_str()).collect();
    assert_eq!(codes, vec!["75101", "75102"]);
    assert_eq!(ds[1].1.global, Some(20));
    let mean = ds.iter().map(|(_, e)| e.global.unwrap()).sum::<i64>() / ds.len() as i64;
    assert_eq!(d.get_city_index(&s("75056")).unwrap().global, Some(mean));
}

#[test]
fn absent_keys_are_not_found() {
    let d = domain();
    assert!(matches!(d.get_regional_index(&s("Bretagne")), Err(EntryDomainError::NotFoundError)));
    assert!(matches!(d.get_departmental_index(&s("75")), Err(EntryDomainError::NotFoundError)));
    assert!(matches!(d.get_city_index(&s("99999")), Err(EntryDomainError::NotFoundError)));
    assert!(matches!(d.get_city_districts_index(&s("99999")), Err(EntryDomainError::NotFoundError)));
    assert!(matches!(d.get_district_index(&s("00000")), Err(EntryDomainError::NotFoundError)));
    assert!(matches!(d.get_in_regional_index(&s("Corse")), Err(EntryDomainError::NotFoundError)));
}

#[test]
fn district_index_is_the_stored_record() {
    let d = domain();
    let e = d.get_district_index(&s("75102")).unwrap();
    assert_eq!(e.global, Some(20));
    assert_eq!(e.iris_code, Some(s("75102")));
}

#[test]
fn pages_of_five_cities() {
    let d = domain();
    let first = d.get_in_departmental_index(&s("75"), 1).unwrap();
    let keys: Vec<&str> = first.iter().map(|(k, _)| k.as_str()).collect();
    assert_eq!(keys, vec!["75001 - PARIS", "75002 - PARIS", "75003 - PARIS", "75004 - PARIS", "75005 - PARIS"]);
    assert_eq!(first[0].1.global, Some(100));
    let second = d.get_in_departmental_index(&s("75"), 2).unwrap();
    let keys: Vec<&str> = second.iter().map(|(k, _)| k.as_str()).collect();
    assert_eq!(keys, vec!["75006 - PARIS", "75007 - PARIS"]);
    assert_eq!(second[1].1.global, Some(700));
    assert!(matches!(d.get_in_departmental_index(&s("75"), 3), Err(EntryDomainError::NotFoundError)));
    assert!(matches!(d.get_in_departmental_index(&s("75"), 0), Err(EntryDomainError::NotFoundError)));
    assert!(matches!(d.get_in_departmental_index(&s("13"), 1), Err(EntryDomainError::NotFoundError)));
}

#[test]
fn in_regional_index_by_department() {
    let d = domain();
    let r = d.get_in_regional_index(&s("Île-de-France")).unwrap();
    assert_eq!(r.len(), 1);
    assert_eq!(r[0].0, "75 - Paris");
    assert_eq!(r[0].1.global, Some(60));
    let all = d.get_all_regions_index().unwrap();
    assert_eq!(all.len(), 1);
    assert_eq!(all[0].1.global, Some(50));
}

#[test]
fn search_cities_lists_districts() {
    let d = domain();
    let res: SearchResult = d.search_cities(&s("75"), &s("paris")).unwrap();
    assert_eq!(res.cities.len(), 7);
    let (key, detail) = &res.cities[0];
    assert_eq!(key, "75001 - PARIS");
    assert_eq!(detail.code_insee, Some(s("75101X")));
    let ds: &Vec<District> = detail.districts.as_ref().unwrap();
    assert_eq!(ds.len(), 1);
    assert_eq!(ds[0].code_iris, "D1");
    assert_eq!(ds[0].designation, "Quartier D1");
    let none = d.search_cities(&s("75"), &s("rouen")).unwrap();
    assert!(none.cities.is_empty());
    assert!(SearchResult::new().cities.is_empty());
}

#[test]
fn key_lists() {
    let d = domain();
    assert_eq!(d.get_regions().unwrap(), vec![s("Île-de-France")]);
    assert_eq!(d.get_departments().unwrap(), vec![s("75 - Paris")]);
    assert_eq!(d.get_cities().unwrap().len(), 8);
}

#[test]
fn store_replaces_on_same_code() {
    let mut st = MemoryEntryStorage::new();
    st.create(s("a"), record("a", 1));
    st.create(s("a"), record("a", 2));
    assert_eq!(st.get_entry(&s("a")).unwrap().unwrap().global, Some(2));
    assert!(st.get_entry(&s("b")).unwrap().is_none());
    assert_eq!(st.get_first_entry().unwrap().unwrap().global, Some(2));
}

fn row(code: &str, dep: &str, nom_dep: &str, reg: &str, com: &str) -> EntryCSV {
    EntryCSV {
        code_iris: s(code),
        dep: s(dep),
        nom_dep: s(nom_dep),
        nom_reg: s(reg),
        insee_com: s(com),
        iris: s(code),
        nom_iris: format!("Quartier {}", code),
        score_global_region_star: s("10"),
        acces_information_region_1: s("1"),
        global_acces_region_1: s("2"),
        part_des_familles_monoparentales: s(""),
        part_des_menages_personne: s(""),
        service_publics: s(""),
        acces_aux_interfaces_numeriques_region_1: s("3"),
        cm_revenue_median_region: s(""),
        competences_administatives_region_1: s("4"),
        part_des_personnes_agees_de_15_29_ans: s(""),
        competences_numeriques_scolaires_region_1: s("5"),
        part_des_personnes_agees_de_65_ans_plus: s(""),
        part_des_non_peu_diplomes_population_non_scolarisee_15_ans_plus: s(""),
        taux_couv_hd_thd_1: None,
        taux_couv_mobile: None,
        taux_pauvrete: None,
        part_chomeurs: None,
    }
}

#[test]
fn indexes_built_from_rows() {
    let mut st = CSVEntryStorage::new(s("full.csv"));
    assert!(st.get_csv_entries().is_empty());
    st.entries = Some(vec![
        row("75102", "75", "Paris", "Île-de-France", "75056"),
        row("29001", "29", "Finistère", "Bretagne", "29019"),
        row("75101", "75", "Paris", "Île-de-France", "75056"),
        row("00000", "", " ", "", ""),
    ]);
    assert_eq!(st.get_csv_entries().len(), 4);
    assert_eq!(st.get_regions(), vec![s(""), s("Bretagne"), s("Île-de-France")]);
    assert_eq!(st.get_departments(), vec![s(""), s("29 - Finistère"), s("75 - Paris")]);
    assert_eq!(st.get_insee_coms(), vec![s(""), s("29019"), s("75056")]);
    assert_eq!(
        st.get_regions_with_iris(),
        vec![(s("Bretagne"), vec![s("29001")]), (s("Île-de-France"), vec![s("75102"), s("75101")])]
    );
    assert_eq!(
        st.get_departements_with_iris(),
        vec![(s("29 - Finistère"), vec![s("29001")]), (s("75 - Paris"), vec![s("75102"), s("75101")])]
    );
    assert_eq!(
        st.get_insee_com_with_iris(),
        vec![(s("29019"), vec![s("29001")]), (s("75056"), vec![s("75102"), s("75101")])]
    );
    assert!(MemoryIndexStorage::from_entries(st.get_insee_com_with_iris()).is_ok());
    let postal = PostalCodeCsvStorage::new(s("postal.csv"));
    assert!(postal.get_csv_postal_codes().is_empty());
}

#[test]
fn region_reads_first_code_and_city_averages() {
    let mut store = MemoryEntryStorage::new();
    store.create(s("75101"), record("75101", 10_000_000));
    store.create(s("75102"), record("75102", 20_000_000));
    let mut first = record("75101", 10_000_000);
    first.global_region = Some(11_000_000);
    store.create(s("75101"), first);
    let d = EntryDomain::new(
        index(vec![("Île-de-France", vec!["75101", "75102"])]),
        index(vec![]),
        MemoryIndexStoragePostal::from_entries(vec![]).unwrap(),
        index(vec![("75056", vec!["75101", "75102"])]),
        index(vec![]),
        store,
    );
    let r = d.get_regional_index(&s("Île-de-France")).unwrap();
    assert_eq!(r.global, Some(11_000_000));
    let c = d.get_city_index(&s("75056")).unwrap();
    assert_eq!(c.global, Some(15_000_000));
    assert_eq!(c.global_region, Some(11_000_000));
}

#[test]
fn store_from_sorted_records() {
    let st = MemoryEntryStorage::from_entries(vec![(s("a"), record("a", 1)), (s("b"), record("b", 2))]).unwrap();
    assert_eq!(st.get_entry(&s("b")).unwrap().unwrap().global, Some(2));
    let unsorted = MemoryEntryStorage::from_entries(vec![(s("b"), record("b", 2)), (s("a"), record("a", 1))]);
    assert!(unsorted.is_err());
}

#[test]
fn incomplete_record_fails_city_aggregate() {
    let mut store = MemoryEntryStorage::new();
    let mut broken = record("75101", 10);
    broken.numeric_competencies = None;
    store.create(s("75101"), broken);
    store.create(s("75102"), record("75102", 20));
    let d = EntryDomain::new(
        index(vec![]),
        index(vec![]),
        MemoryIndexStoragePostal::from_entries(vec![]).unwrap(),
        index(vec![("75056", vec!["75101", "75102"]), ("75057", vec!["75102", "75103"])]),
        index(vec![]),
        store,
    );
    assert!(matches!(d.get_city_index(&s("75056")), Err(EntryDomainError::MissingValueError)));
    assert_eq!(d.get_city_districts_index(&s("75056")).unwrap().len(), 2);
    assert!(matches!(d.get_city_index(&s("75057")), Err(EntryDomainError::NotFoundError)));
    assert!(matches!(d.get_city_districts_index(&s("75057")), Err(EntryDomainError::NotFoundError)));
}

#[test]
fn storage_errors_convert() {
    assert_eq!(
        EntryDomainError::from(StorageError::Io),
        EntryDomainError::Storage { source: StorageError::Io }
    );
}

#[test]
fn repeated_rows_give_each_code_once() {
    let mut st = CSVEntryStorage::new(s("full.csv"));
    st.entries = Some(vec![
        row("75101", "75", "Paris", "Île-de-France", "75056"),
        row("75102", "75", "Paris", "Île-de-France", "75056"),
        row("75101", "75", "Paris", "Île-de-France", "75056"),
    ]);
    assert_eq!(st.get_insee_com_with_iris(), vec![(s("75056"), vec![s("75101"), s("75102")])]);
    assert_eq!(st.get_regions_with_iris(), vec![(s("Île-de-France"), vec![s("75101"), s("75102")])]);
    assert_eq!(st.get_departements_with_iris(), vec![(s("75 - Paris"), vec![s("75101"), s("75102")])]);
}
