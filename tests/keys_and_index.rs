use iris_stats::csv_storage::{PostalCodeCsvStorage, PostalCodeIrisCodeCSV};
use iris_stats::entry::{GeoLoc, Iris};
use iris_stats::error::StorageError;
use iris_stats::index::{MemoryIndexStorage, MemoryIndexStoragePostal};
use iris_stats::keys::{concat_name, matches_key};

fn s(x: &str) -> String {
    x.to_string()
}

fn regions() -> MemoryIndexStorage {
    MemoryIndexStorage::from_entries(vec![
        (s("Bretagne"), vec![s("29001"), s("35001")]),
        (s("Corse"), vec![s("2A001")]),
        (s("Île-de-France"), vec![s("75101"), s("75102")]),
    ])
    .unwrap()
}

#[test]
fn composite_key_of_department() {
    assert_eq!(concat_name("75", "Paris"), "75 - Paris");
    assert_eq!(concat_name("75", "   "), "");
    assert_eq!(concat_name("75", ""), "");
}

#[test]
fn matching_ignores_case() {
    assert!(matches_key("75001 - PARIS", "paris"));
    assert!(matches_key("75001 - Paris", "PAR"));
    assert!(!matches_key("75001 - PARIS", "lyon"));
    assert!(matches_key("anything", ""));
}

#[test]
fn present_key_gives_its_codes() {
    let ix = regions();
    assert_eq!(ix.get_index(&s("Île-de-France")).unwrap(), Some(vec![s("75101"), s("75102")]));
    assert_eq!(ix.get_index(&s("Corse")).unwrap(), Some(vec![s("2A001")]));
}

#[test]
fn absent_key_is_none() {
    let ix = regions();
    assert_eq!(ix.get_index(&s("Bourgogne")).unwrap(), None);
    assert_eq!(ix.get_index(&s("corse")).unwrap(), None);
}

#[test]
fn unsorted_or_empty_entries_are_refused() {
    let unsorted = MemoryIndexStorage::from_entries(vec![
        (s("b"), vec![s("1")]),
        (s("a"), vec![s("2")]),
    ]);
    assert_eq!(unsorted.err(), Some(StorageError::CreationImpossible));
    let twice = MemoryIndexStorage::from_entries(vec![
        (s("a"), vec![s("1")]),
        (s("a"), vec![s("2")]),
    ]);
    assert_eq!(twice.err(), Some(StorageError::CreationImpossible));
    let empty = MemoryIndexStorage::from_entries(vec![(s("a"), vec![])]);
    assert_eq!(empty.err(), Some(StorageError::CreationImpossible));
}

#[test]
fn empty_search_gives_all_keys() {
    let ix = regions();
    let all = ix.get_all_keys().unwrap();
    assert_eq!(all, vec![s("Bretagne"), s("Corse"), s("Île-de-France")]);
    assert_eq!(ix.search_on_key("", &None).unwrap(), all);
}

#[test]
fn search_is_case_insensitive_subset() {
    let ix = regions();
    assert_eq!(ix.search_on_key("BRE", &None).unwrap(), vec![s("Bretagne")]);
    assert_eq!(ix.search_on_key("or", &None).unwrap(), vec![s("Corse")]);
    assert_eq!(ix.search_on_key("zzz", &None).unwrap(), Vec::<String>::new());
}

#[test]
fn search_within_start_range() {
    let ix = MemoryIndexStorage::from_entries(vec![
        (s("74000 - ANNECY"), vec![s("1")]),
        (s("75001 - PARIS"), vec![s("2")]),
        (s("75002 - PARIS"), vec![s("3")]),
        (s("76000 - ROUEN"), vec![s("4")]),
    ])
    .unwrap();
    assert_eq!(
        ix.search_on_key("", &Some(s("75"))).unwrap(),
        vec![s("75001 - PARIS"), s("75002 - PARIS")]
    );
    assert_eq!(ix.search_on_key("002", &Some(s("75"))).unwrap(), vec![s("75002 - PARIS")]);
    assert_eq!(ix.search_on_key("rouen", &Some(s("75"))).unwrap(), Vec::<String>::new());
}

#[test]
fn all_values_follow_key_order() {
    let ix = regions();
    assert_eq!(
        ix.get_all_values().unwrap(),
        vec![s("29001"), s("35001"), s("2A001"), s("75101"), s("75102")]
    );
    assert!(ix.load_index().is_ok());
}

#[test]
fn postal_index_lookup() {
    let ix = MemoryIndexStoragePostal::from_entries(vec![
        (s("75001 - PARIS"), Iris::new(Some(s("75101")), Some(GeoLoc::new(48, 2)))),
        (s("75002 - PARIS"), Iris::new(Some(s("75102")), None)),
    ])
    .unwrap();
    let found = ix.get_index(&s("75001 - PARIS")).unwrap().unwrap();
    assert_eq!(found.code, Some(s("75101")));
    assert_eq!(found.geo_loc.unwrap().lat, 48);
    assert!(ix.get_index(&s("75003 - PARIS")).unwrap().is_none());
    assert_eq!(ix.get_all_values().unwrap().len(), 2);
    assert_eq!(ix.search_on_key("paris", &None).unwrap().len(), 2);
}

#[test]
fn postal_code_falls_back_to_city_code() {
    let row = PostalCodeIrisCodeCSV { iris_code: s("2A004"), nom_com: s("AJACCIO"), postal_code: s(" ") };
    assert_eq!(row.get_code(), "2A");
    assert_eq!(row.postal_key(), "2A - AJACCIO");
    let row = PostalCodeIrisCodeCSV { iris_code: s("75101"), nom_com: s("PARIS"), postal_code: s("75001") };
    assert_eq!(row.get_code(), "75001");
    assert_eq!(row.postal_key(), "75001 - PARIS");
    let row = PostalCodeIrisCodeCSV { iris_code: s(""), nom_com: s("NOWHERE"), postal_code: s("") };
    assert_eq!(row.postal_key(), "NOWHERE");
}

#[test]
fn postal_index_entries_from_rows() {
    let mut st = PostalCodeCsvStorage::new(s("postal.csv"));
    st.postal_codes = Some(vec![
        PostalCodeIrisCodeCSV { iris_code: s("75102"), nom_com: s("PARIS"), postal_code: s("75002") },
        PostalCodeIrisCodeCSV { iris_code: s("75101"), nom_com: s("PARIS"), postal_code: s("75001") },
        PostalCodeIrisCodeCSV { iris_code: s("75199"), nom_com: s("PARIS"), postal_code: s("75002") },
    ]);
    let geo = vec![Some(GeoLoc::new(1, 2)), None, Some(GeoLoc::new(3, 4))];
    let entries = st.get_iris_and_geoloc_with_postal_code(&geo);
    let keys: Vec<&str> = entries.iter().map(|(k, _)| k.as_str()).collect();
    assert_eq!(keys, vec!["75001 - PARIS", "75002 - PARIS"]);
    assert_eq!(entries[1].1.code, Some(s("75199")));
    assert_eq!(entries[1].1.geo_loc.unwrap().lat, 3);
    assert!(entries[0].1.geo_loc.is_none());
    assert!(MemoryIndexStoragePostal::from_entries(entries).is_ok());
}

#[test]
fn range_end_is_excluded() {
    let ix = MemoryIndexStorage::from_entries(vec![
        (s("75"), vec![s("1")]),
        (s("75y"), vec![s("2")]),
        (s("75z"), vec![s("3")]),
        (s("75za"), vec![s("4")]),
    ])
    .unwrap();
    assert_eq!(ix.search_on_key("", &Some(s("75"))).unwrap(), vec![s("75"), s("75y")]);
}
