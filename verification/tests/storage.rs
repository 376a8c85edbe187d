use substitution_scanner::detector::Snapshot;
use substitution_scanner::json::{decode, Json, Numeral};
use substitution_scanner::registry::ClassesAndUsers;
use substitution_scanner::schedule::SubstitutionSchedule;
use substitution_scanner::storage::{
    entries_from, entries_to_json, entry_from, entry_to_json, load_registry, load_snapshot,
    registry_document, registry_from, registry_text, schedule_from, snapshot_document,
    snapshot_file_name, snapshot_text, users_from, users_to_json, CorruptRecord,
};
use substitution_scanner::weekday::Weekdays;

fn cells(texts: &[&str]) -> Vec<String> {
    texts.iter().map(|text| text.to_string()).collect()
}

fn sample_schedule() -> SubstitutionSchedule {
    let mut schedule = SubstitutionSchedule::new();
    schedule.record("BGYM191".to_string(), cells(&["1", "Room 101 → Room 204"]));
    schedule.record("BGT201".to_string(), cells(&[]));
    schedule.record("BGYM191".to_string(), cells(&["5", "\"quoted\""]));
    schedule
}

fn text(s: &str) -> Json {
    Json::Text(s.to_string())
}

#[test]
fn a_snapshot_lists_each_group_with_its_entries() {
    assert_eq!(
        snapshot_document(&sample_schedule()),
        Json::Object(vec![
            (
                "BGYM191".to_string(),
                Json::Array(vec![
                    Json::Array(vec![text("1"), text("Room 101 → Room 204")]),
                    Json::Array(vec![text("5"), text("\"quoted\"")]),
                ])
            ),
            ("BGT201".to_string(), Json::Array(vec![Json::Array(Vec::new())])),
        ])
    );
    assert_eq!(snapshot_document(&SubstitutionSchedule::new()), Json::Object(Vec::new()));
}

#[test]
fn a_stored_schedule_reads_back_exactly() {
    let written = sample_schedule();
    let stored = snapshot_text(&written).unwrap();
    match load_snapshot(Some(&stored)) {
        Snapshot::Present(loaded) => {
            for group in ["BGYM191", "BGT201", "unknown"] {
                assert!(written.equal_entries(&loaded, group));
                assert_eq!(written.get_entries(group), loaded.get_entries(group));
            }
            assert_eq!(loaded.group_names().len(), 2);
        },
        other => panic!("no schedule was read: {:?}", other),
    }
}

#[test]
fn an_empty_schedule_reads_back_empty() {
    let stored = snapshot_text(&SubstitutionSchedule::new()).unwrap();
    assert_eq!(stored, "{}");
    match load_snapshot(Some(&stored)) {
        Snapshot::Present(loaded) => assert!(loaded.group_names().is_empty()),
        other => panic!("no schedule was read: {:?}", other),
    }
}

#[test]
fn no_stored_text_is_an_absent_snapshot() {
    assert!(matches!(load_snapshot(None), Snapshot::Absent));
}

#[test]
fn an_unreadable_text_is_a_corrupt_snapshot() {
    assert!(matches!(load_snapshot(Some("")), Snapshot::Corrupt));
    assert!(matches!(load_snapshot(Some("{\"BGYM191\": [[\"x\"]")), Snapshot::Corrupt));
    assert!(matches!(load_snapshot(Some("[]")), Snapshot::Corrupt));
    assert!(matches!(load_snapshot(Some("{\"BGYM191\": \"x\"}")), Snapshot::Corrupt));
    assert!(matches!(load_snapshot(Some("{\"BGYM191\": [\"x\"]}")), Snapshot::Corrupt));
    assert!(matches!(load_snapshot(Some("{\"BGYM191\": [[1]]}")), Snapshot::Corrupt));
    assert!(matches!(load_snapshot(Some("{\"A\": [[\"x\"]], \"B\": null}")), Snapshot::Corrupt));
}

#[test]
fn a_snapshot_is_read_from_a_document() {
    let document = decode(r#"{"B34": [], "A12": [["x", "y"], []]}"#).unwrap();
    let loaded = schedule_from(&document).unwrap();
    assert_eq!(loaded.get_entries("A12"), Some(&vec![cells(&["x", "y"]), cells(&[])]));
    assert_eq!(loaded.get_entries("B34"), Some(&Vec::new()));
    assert_eq!(loaded.get_entries("C56"), None);
    assert!(schedule_from(&Json::Null).is_none());
    assert!(schedule_from(&Json::Array(Vec::new())).is_none());
}

#[test]
fn a_group_listed_twice_keeps_both_listings_in_order() {
    let document = Json::Object(vec![
        ("A12".to_string(), Json::Array(vec![Json::Array(vec![text("1")])])),
        ("B34".to_string(), Json::Array(Vec::new())),
        ("A12".to_string(), Json::Array(vec![Json::Array(vec![text("2")])])),
    ]);
    let loaded = schedule_from(&document).unwrap();
    assert_eq!(loaded.get_entries("A12"), Some(&vec![cells(&["1"]), cells(&["2"])]));
}

#[test]
fn entries_are_written_and_read_as_arrays_of_texts() {
    let written = entry_to_json(&cells(&["a", "b"]));
    assert_eq!(written, Json::Array(vec![text("a"), text("b")]));
    assert_eq!(entry_from(&written), Some(cells(&["a", "b"])));
    assert_eq!(entry_from(&Json::Array(vec![text("a"), Json::Null])), None);
    assert_eq!(entry_from(&text("a")), None);
    let entries = vec![cells(&["a"]), cells(&[]), cells(&["b", "c"])];
    let written = entries_to_json(&entries);
    assert_eq!(entries_from(&written), Some(entries));
    assert_eq!(entries_from(&Json::Array(vec![text("a")])), None);
    assert_eq!(entries_from(&Json::Object(Vec::new())), None);
}

#[test]
fn users_are_written_and_read_as_arrays_of_integers() {
    let written = users_to_json(&vec![7, 0, u64::MAX]);
    assert_eq!(
        written,
        Json::Array(vec![
            Json::Number(Numeral::Unsigned(7)),
            Json::Number(Numeral::Unsigned(0)),
            Json::Number(Numeral::Unsigned(u64::MAX)),
        ])
    );
    assert_eq!(users_from(&written), Some(vec![7, 0, u64::MAX]));
    assert_eq!(users_from(&Json::Array(vec![Json::Number(Numeral::Negative(-1))])), None);
    assert_eq!(
        users_from(&Json::Array(vec![Json::Number(Numeral::Decimal("1.5".to_string()))])),
        None
    );
    assert_eq!(users_from(&Json::Array(vec![text("7")])), None);
    assert_eq!(users_from(&Json::Null), None);
}

#[test]
fn a_stored_registry_reads_back_exactly() {
    let mut registry = ClassesAndUsers::default();
    registry.insert_user("BGYM191".to_string(), 191594115907977225);
    registry.insert_user("BGT201".to_string(), 8);
    registry.insert_user("BGYM191".to_string(), 191594115907977225);
    let stored = registry_text(&registry).unwrap();
    let loaded = load_registry(Some(&stored)).unwrap();
    assert_eq!(
        loaded.subscribers_of("BGYM191"),
        vec![191594115907977225, 191594115907977225]
    );
    assert_eq!(loaded.subscribers_of("BGT201"), vec![8]);
    assert_eq!(loaded.get_classes().len(), 2);
}

#[test]
fn the_registry_record_has_one_member_for_the_classes() {
    let mut registry = ClassesAndUsers::default();
    registry.insert_user("BGYM191".to_string(), 7);
    assert_eq!(
        registry_document(&registry),
        Json::Object(vec![(
            "classes_and_users".to_string(),
            Json::Object(vec![(
                "BGYM191".to_string(),
                Json::Array(vec![Json::Number(Numeral::Unsigned(7))])
            )])
        )])
    );
    assert_eq!(
        registry_text(&registry).unwrap(),
        "{\n  \"classes_and_users\": {\n    \"BGYM191\": [\n      7\n    ]\n  }\n}"
    );
}

#[test]
fn no_stored_text_is_a_registry_without_classes() {
    let registry = load_registry(None).unwrap();
    assert!(registry.get_classes().is_empty());
}

#[test]
fn a_registry_record_is_read_from_a_text() {
    let registry =
        load_registry(Some(r#"{"classes_and_users": {"BGYM191": [1, 2, 1], "BGT201": []}}"#))
            .unwrap();
    assert_eq!(registry.subscribers_of("BGYM191"), vec![1, 2, 1]);
    assert_eq!(registry.subscribers_of("BGT201"), Vec::<u64>::new());
    assert_eq!(registry.get_classes().len(), 2);
}

#[test]
fn an_unreadable_registry_record_is_refused() {
    assert_eq!(load_registry(Some("")).err(), Some(CorruptRecord::NotJson));
    assert_eq!(load_registry(Some("{\"classes_and_users\": ")).err(), Some(CorruptRecord::NotJson));
    assert_eq!(load_registry(Some("{}")).err(), Some(CorruptRecord::WrongShape));
    assert_eq!(load_registry(Some("[]")).err(), Some(CorruptRecord::WrongShape));
    assert_eq!(
        load_registry(Some(r#"{"classes_and_users": []}"#)).err(),
        Some(CorruptRecord::WrongShape)
    );
    assert_eq!(
        load_registry(Some(r#"{"classes_and_users": {"A12": [-1]}}"#)).err(),
        Some(CorruptRecord::WrongShape)
    );
    assert_eq!(
        load_registry(Some(r#"{"classes_and_users": {"A12": [1.5]}}"#)).err(),
        Some(CorruptRecord::WrongShape)
    );
    assert_eq!(
        load_registry(Some(r#"{"classes_and_users": {"A12": 1}}"#)).err(),
        Some(CorruptRecord::WrongShape)
    );
    assert!(registry_from(&Json::Null).is_none());
}

#[test]
fn each_weekday_has_a_record_of_its_own() {
    assert_eq!(snapshot_file_name(Weekdays::Monday), "Monday.json");
    assert_eq!(snapshot_file_name(Weekdays::Tuesday), "Tuesday.json");
    assert_eq!(snapshot_file_name(Weekdays::Wednesday), "Wednesday.json");
    assert_eq!(snapshot_file_name(Weekdays::Thursday), "Thursday.json");
    assert_eq!(snapshot_file_name(Weekdays::Friday), "Friday.json");
}
