use std::collections::BTreeMap;

use rtop::cpu::{detect_cpu_model, parse_cpu_id_list, parse_logical_cpu_id, pick_cpu_temp, Sensor};
use rtop::pairs::{
    detect_cpu_pairs, detect_pairs_from_sysfs, fallback_pairs, pair_entries_count, sort_ids,
};
use rtop::reading::Reading;

fn lists(entries: &[(usize, &str)]) -> BTreeMap<usize, String> {
    entries.iter().map(|(id, text)| (*id, text.to_string())).collect()
}

fn sensor(label: &str, temperature: Option<f32>) -> Sensor {
    Sensor {
        label: label.to_string(),
        temperature: temperature.map(|t| Reading { bits: t.to_bits() }),
    }
}

#[test]
fn numbers_of_processors() {
    assert_eq!(parse_logical_cpu_id("cpu12", 3), 12);
    assert_eq!(parse_logical_cpu_id("cpu", 3), 3);
    assert_eq!(parse_logical_cpu_id("", 3), 3);
    assert_eq!(parse_logical_cpu_id("12a", 3), 3);
    assert_eq!(parse_logical_cpu_id("cpu007", 3), 7);
    assert_eq!(parse_logical_cpu_id("cpu99999999999999999999999", 3), 3);
}

#[test]
fn lists_of_numbers() {
    assert_eq!(parse_cpu_id_list("0,4"), vec![0, 4]);
    assert_eq!(parse_cpu_id_list("0-3"), vec![0, 1, 2, 3]);
    assert_eq!(parse_cpu_id_list("3-1, 7"), vec![1, 2, 3, 7]);
    assert_eq!(parse_cpu_id_list("a,1-b,,2-, 5 "), vec![5]);
    assert_eq!(parse_cpu_id_list(""), Vec::<usize>::new());
    assert_eq!(parse_cpu_id_list("1 - 2"), Vec::<usize>::new());
}

#[test]
fn counting_names_in_pairs() {
    assert_eq!(pair_entries_count(&[]), 0);
    assert_eq!(pair_entries_count(&[(0, Some(1)), (2, None)]), 3);
}

#[test]
fn pairs_by_count() {
    assert_eq!(fallback_pairs(&[0, 1, 2, 3]), vec![(0, Some(2)), (1, Some(3))]);
    assert_eq!(fallback_pairs(&[0, 1, 2]), vec![(0, Some(1)), (2, None)]);
    assert_eq!(fallback_pairs(&[5]), vec![(5, None)]);
    assert_eq!(fallback_pairs(&[]), Vec::new());
    for n in 0..20 {
        let ids = (0..n).collect::<Vec<usize>>();
        assert_eq!(pair_entries_count(&fallback_pairs(&ids)), n);
    }
}

#[test]
fn pairs_by_siblings() {
    let siblings = lists(&[(0, "0,2\n"), (1, "1,3\n"), (2, "0,2\n"), (3, "1,3\n")]);
    let pairs = detect_pairs_from_sysfs(&[0, 1, 2, 3], &siblings);
    assert_eq!(pairs, Some(vec![(0, Some(2)), (1, Some(3))]));
}

#[test]
fn cores_of_more_than_two() {
    let siblings = lists(&[(0, "0-3"), (1, "0-3"), (2, "0-3"), (3, "0-3"), (4, "4")]);
    let pairs = detect_pairs_from_sysfs(&[0, 1, 2, 3, 4], &siblings).unwrap();
    assert_eq!(pairs, vec![(0, Some(1)), (2, None), (3, None), (4, None)]);
    assert_eq!(pair_entries_count(&pairs), 5);
}

#[test]
fn siblings_that_do_not_exist_are_passed_over() {
    let siblings = lists(&[(0, "0,8"), (1, "9"), (2, "2,0")]);
    let pairs = detect_pairs_from_sysfs(&[0, 1, 2], &siblings).unwrap();
    assert_eq!(pairs, vec![(0, Some(2)), (1, None)]);
}

#[test]
fn unknown_siblings_give_no_pairs() {
    assert_eq!(detect_pairs_from_sysfs(&[0, 1], &lists(&[(0, "0-1")])), None);
    assert_eq!(detect_pairs_from_sysfs(&[0], &lists(&[(0, "7")])), None);
    assert_eq!(detect_pairs_from_sysfs(&[], &lists(&[])), None);
}

#[test]
fn siblings_in_disagreement_name_a_processor_twice() {
    let siblings = lists(&[(0, "0-1"), (1, "1")]);
    let pairs = detect_pairs_from_sysfs(&[0, 1], &siblings).unwrap();
    assert_eq!(pairs, vec![(0, Some(1)), (1, None)]);
}

#[test]
fn pairs_of_all_processors() {
    assert_eq!(sort_ids(&vec![3, 1, 2, 1]), vec![1, 1, 2, 3]);
    assert_eq!(detect_cpu_pairs(vec![3, 0, 2, 1], &lists(&[])), vec![(0, Some(2)), (1, Some(3))]);
    let siblings = lists(&[(0, "0-1"), (1, "0-1"), (2, "2-3"), (3, "2-3")]);
    assert_eq!(detect_cpu_pairs(vec![3, 0, 2, 1], &siblings), vec![(0, Some(1)), (2, Some(3))]);
}

#[test]
fn models() {
    assert_eq!(detect_cpu_model(Some((" Ryzen 7 ", "cpu0"))), "Ryzen 7");
    assert_eq!(detect_cpu_model(Some(("  ", " cpu0 "))), "cpu0");
    assert_eq!(detect_cpu_model(Some(("", ""))), "Unknown CPU");
    assert_eq!(detect_cpu_model(None), "Unknown CPU");
}

#[test]
fn temperatures() {
    let sensors = vec![
        sensor("nvme", Some(30.0)),
        sensor("CPU fan", Some(40.0)),
        sensor("Package id 0", Some(50.0)),
        sensor("Package id 1", Some(51.0)),
        sensor("k10temp Tctl", None),
    ];
    assert_eq!(pick_cpu_temp(&sensors), Some(Reading { bits: 50.0f32.to_bits() }));
    assert_eq!(
        pick_cpu_temp(&vec![sensor("a", Some(1.0)), sensor("b", Some(2.0))]),
        Some(Reading { bits: 1.0f32.to_bits() })
    );
    assert_eq!(
        pick_cpu_temp(&vec![sensor("tdie", Some(1.0)), sensor("TCTL", Some(2.0))]),
        Some(Reading { bits: 2.0f32.to_bits() })
    );
    assert_eq!(pick_cpu_temp(&vec![sensor("a", None)]), None);
    assert_eq!(pick_cpu_temp(&vec![]), None);
}

#[test]
fn the_order_of_the_numbers_does_not_matter() {
    let topology = lists(&[(0, "0,2"), (1, "1,3"), (2, "0,2"), (3, "1,3")]);
    let expected = detect_cpu_pairs(vec![0, 1, 2, 3], &topology);
    assert_eq!(expected, vec![(0, Some(2)), (1, Some(3))]);
    assert_eq!(detect_cpu_pairs(vec![3, 1, 0, 2], &topology), expected);
    let none = lists(&[]);
    assert_eq!(detect_cpu_pairs(vec![4, 0, 2], &none), detect_cpu_pairs(vec![0, 2, 4], &none));
}
