use iris_stats::csv_storage::{get_stats, CSVEntryStorage, EntryCSV};
use iris_stats::decimal::clean_and_parse;
use iris_stats::error::StorageError;
use iris_stats::index::MemoryIndexStorage;

fn s(x: &str) -> String {
    x.to_string()
}

fn row(code: &str, dep: &str, reg: &str, score: &str, info: &str) -> EntryCSV {
    EntryCSV {
        code_iris: s(code),
        dep: s(dep),
        nom_dep: format!("Dep {}", dep),
        nom_reg: s(reg),
        insee_com: format!("{}000", dep),
        iris: s(code),
        nom_iris: format!("Iris {}", code),
        score_global_region_star: s(score),
        acces_information_region_1: s(info),
        global_acces_region_1: s("7,5"),
        part_des_familles_monoparentales: s("12,25"),
        part_des_menages_personne: s(""),
        service_publics: s("0.5"),
        acces_aux_interfaces_numeriques_region_1: s("1"),
        cm_revenue_median_region: s("20000"),
        competences_administatives_region_1: s("2"),
        part_des_personnes_agees_de_15_29_ans: s("15"),
        competences_numeriques_scolaires_region_1: s("3"),
        part_des_personnes_agees_de_65_ans_plus: s("20"),
        part_des_non_peu_diplomes_population_non_scolarisee_15_ans_plus: s("30"),
        taux_couv_hd_thd_1: Some(s("99,9")),
        taux_couv_mobile: None,
        taux_pauvrete: Some(s("  ")),
        part_chomeurs: Some(s("8")),
    }
}

#[test]
fn decimal_cells() {
    assert_eq!(clean_and_parse("12,5"), Some(12_500_000));
    assert_eq!(clean_and_parse("-3.25"), Some(-3_250_000));
    assert_eq!(clean_and_parse("40"), Some(40_000_000));
    assert_eq!(clean_and_parse("0,1234567"), Some(123_456));
    assert_eq!(clean_and_parse("7."), Some(7_000_000));
    assert_eq!(clean_and_parse("   "), None);
    assert_eq!(clean_and_parse(""), None);
    assert_eq!(clean_and_parse("abc"), None);
    assert_eq!(clean_and_parse(",5"), None);
    assert_eq!(clean_and_parse("1,2,3"), None);
    assert_eq!(clean_and_parse("99999999999999999999"), None);
    assert_eq!(clean_and_parse("9223372036854"), Some(9_223_372_036_854_000_000));
}

#[test]
fn stats_are_means() {
    let rows = vec![row("1", "75", "IDF", "10", "4"), row("2", "75", "IDF", "20", "6")];
    let st = get_stats(&rows).unwrap();
    assert_eq!(st.global, Some(15_000_000));
    assert_eq!(st.information_access.unwrap().global, Some(5_000_000));
    let missing = vec![row("1", "75", "IDF", "10", "4"), row("2", "75", "IDF", "", "6")];
    assert!(get_stats(&missing).is_none());
    assert_eq!(get_stats(&vec![]).unwrap().global, None);
}

#[test]
fn records_carry_unit_averages() {
    let mut st = CSVEntryStorage::new(s("full.csv"));
    st.entries = Some(vec![
        row("1", "75", "IDF", "10", "4"),
        row("2", "75", "IDF", "20", "6"),
        row("3", "29", "BRE", "30", "8"),
    ]);
    let es = st.get_entries();
    assert_eq!(es.len(), 3);
    let e = &es[0];
    assert_eq!(e.global, Some(10_000_000));
    assert_eq!(e.global_region, Some(15_000_000));
    assert_eq!(e.global_dept, Some(15_000_000));
    assert_eq!(e.global_national, Some(20_000_000));
    assert_eq!(e.iris_code, Some(s("1")));
    assert_eq!(e.iris_code_designation, Some(s("Iris 1")));
    let ia = e.information_access.unwrap();
    assert_eq!(ia.global, Some(7_500_000));
    assert_eq!(ia.global_region, Some(5_000_000));
    assert_eq!(ia.global_national, Some(6_000_000));
    assert_eq!(ia.monoparental_families_percent, Some(12_250_000));
    assert_eq!(ia.single_person_percent, None);
    let nia = e.numeric_interfaces_access.unwrap();
    assert_eq!(nia.high_speed_internet_access_percent, Some(99_900_000));
    assert_eq!(nia.mobile_network_availability_percent, None);
    assert_eq!(nia.percent_of_poor_people, None);
    assert_eq!(e.administrative_competencies.unwrap().unemployed_percent, Some(8_000_000));
    let b = &es[2];
    assert_eq!(b.global_region, Some(30_000_000));
    assert_eq!(b.global_dept, Some(30_000_000));
}

#[test]
fn index_from_json_text() {
    let ix = MemoryIndexStorage::from_json(r#"{"Corse": ["2A001"], "Bretagne": ["29001", "35001"]}"#).unwrap();
    assert_eq!(ix.get_all_keys().unwrap(), vec![s("Bretagne"), s("Corse")]);
    assert_eq!(ix.get_index(&s("Bretagne")).unwrap(), Some(vec![s("29001"), s("35001")]));
    assert_eq!(MemoryIndexStorage::from_json("not json").err(), Some(StorageError::CreationImpossible));
    assert_eq!(MemoryIndexStorage::from_json(r#"{"a": []}"#).err(), Some(StorageError::CreationImpossible));
}
