use iris_stats::aggregate::aggregate;
use iris_stats::entry::{
    AdministrativeCompetencies, Entry, InformationAccess, NumericCompetencies,
    NumericInterfacesAccess,
};

fn record(code: &str, global: i64, axes: [i64; 4], scope: i64) -> Entry {
    Entry::new(
        Some(global),
        Some(scope),
        Some(scope + 1),
        Some(scope + 2),
        Some(code.to_string()),
        Some(format!("district {}", code)),
        Some(InformationAccess::new(
            Some(axes[0]),
            Some(scope + 3),
            Some(scope + 4),
            Some(scope + 5),
            Some(1),
            Some(2),
            Some(3),
            Some(4),
        )),
        Some(NumericInterfacesAccess::new(
            Some(axes[1]),
            Some(scope + 6),
            Some(scope + 7),
            Some(scope + 8),
            Some(1),
            Some(2),
            Some(3),
            Some(4),
        )),
        Some(AdministrativeCompetencies::new(
            Some(axes[2]),
            Some(scope + 9),
            Some(scope + 10),
            Some(scope + 11),
            Some(1),
            Some(2),
        )),
        Some(NumericCompetencies::new(
            Some(axes[3]),
            Some(scope + 12),
            Some(scope + 13),
            Some(scope + 14),
            Some(1),
            Some(2),
        )),
    )
}

#[test]
fn mean_of_two_districts() {
    let rs = vec![
        record("75101", 10, [1, 2, 3, 4], 100),
        record("75102", 20, [3, 4, 5, 6], 200),
    ];
    let a = aggregate(&rs).unwrap();
    assert_eq!(a.global, Some(15));
    assert_eq!(a.information_access.unwrap().global, Some(2));
    assert_eq!(a.numeric_interfaces_access.unwrap().global, Some(3));
    assert_eq!(a.administrative_competencies.unwrap().global, Some(4));
    assert_eq!(a.numeric_competencies.unwrap().global, Some(5));
}

#[test]
fn scopes_come_from_first_record() {
    let rs = vec![
        record("1", 10, [1, 2, 3, 4], 100),
        record("2", 20, [3, 4, 5, 6], 200),
    ];
    let a = aggregate(&rs).unwrap();
    assert_eq!(a.global_region, Some(100));
    assert_eq!(a.global_dept, Some(101));
    assert_eq!(a.global_national, Some(102));
    let ia = a.information_access.unwrap();
    assert_eq!((ia.global_region, ia.global_dept, ia.global_national), (Some(103), Some(104), Some(105)));
    assert_eq!(ia.monoparental_families_percent, None);
    let nc = a.numeric_competencies.unwrap();
    assert_eq!((nc.global_region, nc.global_dept, nc.global_national), (Some(112), Some(113), Some(114)));
    assert_eq!(a.iris_code, None);
    assert_eq!(a.iris_code_designation, None);
}

#[test]
fn mean_rounds_down() {
    let rs = vec![
        record("1", 1, [0, 0, 0, -1], 0),
        record("2", 2, [0, 0, 0, 0], 0),
    ];
    let a = aggregate(&rs).unwrap();
    assert_eq!(a.global, Some(1));
    assert_eq!(a.numeric_competencies.unwrap().global, Some(-1));
}

#[test]
fn mean_of_extreme_values() {
    let rs = vec![
        record("1", i64::MAX, [i64::MIN, 0, 0, 0], 0),
        record("2", i64::MAX, [i64::MIN, 0, 0, 0], 0),
        record("3", i64::MAX, [i64::MIN, 0, 0, 0], 0),
    ];
    let a = aggregate(&rs).unwrap();
    assert_eq!(a.global, Some(i64::MAX));
    assert_eq!(a.information_access.unwrap().global, Some(i64::MIN));
}

#[test]
fn empty_aggregate_is_blank() {
    let a = aggregate(&Vec::new()).unwrap();
    assert_eq!(a.global, None);
    assert_eq!(a.global_region, None);
    assert!(a.information_access.is_none());
    assert!(a.numeric_competencies.is_none());
}

#[test]
fn missing_axis_fails_whole_aggregate() {
    let mut second = record("2", 20, [3, 4, 5, 6], 200);
    second.administrative_competencies = None;
    let rs = vec![record("1", 10, [1, 2, 3, 4], 100), second];
    assert!(aggregate(&rs).is_none());
    let mut third = record("3", 20, [3, 4, 5, 6], 200);
    third.global = None;
    assert!(aggregate(&vec![third]).is_none());
}

#[test]
fn projections_move_scopes() {
    let e = record("1", 10, [1, 2, 3, 4], 100);
    let n = e.national();
    assert_eq!(n.global, Some(102));
    assert_eq!(n.global_national, None);
    assert_eq!(n.information_access.unwrap().global, Some(105));
    let r = e.regional();
    assert_eq!((r.global, r.global_national), (Some(100), Some(102)));
    assert_eq!(r.numeric_interfaces_access.unwrap().global, Some(106));
    let d = e.departmental();
    assert_eq!((d.global, d.global_region, d.global_national), (Some(101), Some(100), Some(102)));
    assert_eq!(d.administrative_competencies.unwrap().global, Some(110));
}
