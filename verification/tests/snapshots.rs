use axiom_core::snapshot::{parse_u64, retention_plan, snapshot_entries, sort_entries};

fn names(list: &[&str]) -> Vec<String> {
    list.iter().map(|s| s.to_string()).collect()
}

#[test]
fn retention_keeps_the_latest() {
    let report = retention_plan("r", &vec![1, 2, 3, 4, 5], 2);
    assert_eq!(report.run_id, "r");
    assert_eq!(report.deleted_sequences, vec![1, 2, 3]);
    assert_eq!(report.retained_sequences, vec![4, 5]);
}

#[test]
fn retention_with_room_for_all_deletes_nothing() {
    let report = retention_plan("r", &vec![7, 9], 5);
    assert!(report.deleted_sequences.is_empty());
    assert_eq!(report.retained_sequences, vec![7, 9]);
    let none = retention_plan("r", &vec![7, 9], 0);
    assert_eq!(none.deleted_sequences, vec![7, 9]);
    assert!(none.retained_sequences.is_empty());
}

#[test]
fn parse_u64_matches_std() {
    for s in ["0", "42", "+7", "00000000000000000042", "18446744073709551615", "", "+", "-1", "1a", "18446744073709551616", " 1"] {
        let expected = s.parse::<u64>().map_err(|e| e.to_string());
        assert_eq!(parse_u64(s), expected, "input {s:?}");
    }
}

#[test]
fn parse_u64_error_messages() {
    assert_eq!(parse_u64(""), Err("cannot parse integer from empty string".to_string()));
    assert_eq!(parse_u64("x"), Err("invalid digit found in string".to_string()));
    assert_eq!(parse_u64("99999999999999999999"), Err("number too large to fit in target type".to_string()));
}

#[test]
fn sort_entries_orders_by_sequence_stably() {
    assert_eq!(
        sort_entries(&vec![(5, 0), (1, 1), (4, 2), (1, 3), (3, 4)]),
        vec![(1, 1), (1, 3), (3, 4), (4, 2), (5, 0)]
    );
    assert_eq!(sort_entries(&vec![]), Vec::<(u64, usize)>::new());
}

#[test]
fn snapshot_entries_reads_json_stems() {
    let found = snapshot_entries(&names(&[
        "00000000000000000010.json",
        "notes.txt",
        "00000000000000000002.json",
        ".json",
        "..",
        "README",
        "2.json",
    ]))
    .unwrap();
    assert_eq!(found, vec![(2, 2), (2, 6), (10, 0)]);
}

#[test]
fn snapshot_entries_refuses_a_bad_stem() {
    assert_eq!(
        snapshot_entries(&names(&["00000000000000000001.json", "latest.json"])),
        Err("invalid digit found in string".to_string())
    );
}
