use substitution_scanner::grouping::Group;
use substitution_scanner::json::Numeral;
use substitution_scanner::schedule::{MalformedTableError, SubstitutionSchedule};
use substitution_scanner::table::{Cell, Row, Table};

fn cell(text: &str) -> Cell {
    Cell {
        top: Numeral::Unsigned(0),
        left: Numeral::Unsigned(0),
        width: Numeral::Unsigned(10),
        height: Numeral::Unsigned(10),
        text: text.to_string(),
    }
}

fn row(texts: &[&str]) -> Row {
    Row { row: texts.iter().map(|text| cell(text)).collect() }
}

fn table(rows: &[&[&str]]) -> Table {
    Table { rows: rows.iter().map(|texts| row(texts)).collect() }
}

fn entry(texts: &[&str]) -> Vec<String> {
    texts.iter().map(|text| text.to_string()).collect()
}

#[test]
fn rows_are_grouped_under_their_first_cell() {
    let tables = vec![table(&[
        &["BGYM191", "1", "Room 101 → Room 204"],
        &["BGT201", "3", "cancelled"],
        &["BGYM191", "5", "Room 7"],
    ])];
    let schedule = SubstitutionSchedule::build(&tables).unwrap();
    assert_eq!(
        schedule.get_entries("BGYM191"),
        Some(&vec![entry(&["1", "Room 101 → Room 204"]), entry(&["5", "Room 7"])])
    );
    assert_eq!(schedule.get_entries("BGT201"), Some(&vec![entry(&["3", "cancelled"])]));
}

#[test]
fn entries_of_later_tables_follow_those_of_earlier_ones() {
    let tables = vec![
        table(&[&["A12", "first"], &["B34", "x"]]),
        table(&[&["A12", "second"]]),
        table(&[&["C56", "y"], &["A12", "third"]]),
    ];
    let schedule = SubstitutionSchedule::build(&tables).unwrap();
    assert_eq!(
        schedule.get_entries("A12"),
        Some(&vec![entry(&["first"]), entry(&["second"]), entry(&["third"])])
    );
    let mut names = schedule.group_names();
    names.sort();
    assert_eq!(names, vec!["A12".to_string(), "B34".to_string(), "C56".to_string()]);
}

#[test]
fn a_group_that_no_row_names_is_absent() {
    let tables = vec![table(&[&["BGYM191", "x"]])];
    let schedule = SubstitutionSchedule::build(&tables).unwrap();
    assert_eq!(schedule.get_entries("BGT201"), None);
    assert_eq!(schedule.get_entries(""), None);
}

#[test]
fn a_row_of_one_cell_gives_an_entry_without_cells() {
    let tables = vec![table(&[&["BGYM191"]])];
    let schedule = SubstitutionSchedule::build(&tables).unwrap();
    assert_eq!(schedule.get_entries("BGYM191"), Some(&vec![entry(&[])]));
}

#[test]
fn no_tables_give_an_empty_schedule() {
    let schedule = SubstitutionSchedule::build(&Vec::new()).unwrap();
    assert!(schedule.group_names().is_empty());
    assert_eq!(schedule.get_entries("BGYM191"), None);
}

#[test]
fn a_table_without_rows_is_refused() {
    let tables = vec![table(&[&["A12", "x"]]), table(&[])];
    assert_eq!(
        SubstitutionSchedule::build(&tables).err(),
        Some(MalformedTableError::EmptyTable { table: 1 })
    );
}

#[test]
fn a_row_without_cells_is_refused() {
    let tables = vec![table(&[&["A12", "x"], &["B34", "y"], &[]])];
    assert_eq!(
        SubstitutionSchedule::build(&tables).err(),
        Some(MalformedTableError::EmptyRow { table: 0, row: 2 })
    );
}

#[test]
fn the_first_fault_is_reported() {
    let tables = vec![table(&[&["A12", "x"]]), table(&[&["B34"], &[], &[]]), table(&[])];
    assert_eq!(
        SubstitutionSchedule::build(&tables).err(),
        Some(MalformedTableError::EmptyRow { table: 1, row: 1 })
    );
    let tables = vec![table(&[]), table(&[&[]])];
    assert_eq!(
        SubstitutionSchedule::build(&tables).err(),
        Some(MalformedTableError::EmptyTable { table: 0 })
    );
}

#[test]
fn building_twice_from_the_same_tables_gives_equal_entries() {
    let tables = vec![
        table(&[&["BGYM191", "1", "Room 101 → Room 204"], &["BGT201", "3", "cancelled"]]),
        table(&[&["BGYM191", "5", "Room 7"]]),
    ];
    let first = SubstitutionSchedule::build(&tables).unwrap();
    let second = SubstitutionSchedule::build(&tables).unwrap();
    for group in ["BGYM191", "BGT201", "unknown"] {
        assert!(first.equal_entries(&second, group));
        assert_eq!(first.get_entries(group), second.get_entries(group));
    }
}

#[test]
fn equal_entries_compares_element_by_element() {
    let first = SubstitutionSchedule::build(&vec![table(&[&["A12", "x", "y"], &["B34", "z"]])]).unwrap();
    let other_text = SubstitutionSchedule::build(&vec![table(&[&["A12", "x", "Y"], &["B34", "z"]])]).unwrap();
    let other_order = SubstitutionSchedule::build(&vec![table(&[&["B34", "z"], &["A12", "x", "y"]])]).unwrap();
    let longer = SubstitutionSchedule::build(&vec![table(&[&["A12", "x", "y"], &["A12", "x", "y"]])]).unwrap();
    assert!(!first.equal_entries(&other_text, "A12"));
    assert!(first.equal_entries(&other_text, "B34"));
    assert!(first.equal_entries(&other_order, "A12"));
    assert!(first.equal_entries(&other_order, "B34"));
    assert!(!first.equal_entries(&longer, "A12"));
    assert!(!first.equal_entries(&longer, "B34"));
    assert!(first.equal_entries(&longer, "C56"));
}

#[test]
fn record_adds_an_entry_after_the_others() {
    let mut schedule = SubstitutionSchedule::new();
    assert_eq!(schedule.get_entries("A12"), None);
    schedule.record("A12".to_string(), entry(&["x"]));
    schedule.record("B34".to_string(), entry(&["y"]));
    schedule.record("A12".to_string(), entry(&["z"]));
    assert_eq!(schedule.get_entries("A12"), Some(&vec![entry(&["x"]), entry(&["z"])]));
    assert_eq!(schedule.get_entries("B34"), Some(&vec![entry(&["y"])]));
}

#[test]
fn a_schedule_turns_into_records_and_back() {
    let tables = vec![table(&[&["A12", "x"], &["B34", "y"], &["A12", "z"]])];
    let schedule = SubstitutionSchedule::build(&tables).unwrap();
    let records: Vec<Group<Vec<String>>> = schedule
        .to_groups()
        .iter()
        .map(|group| Group { name: group.name.clone(), items: group.items.clone() })
        .collect();
    assert_eq!(records.len(), 2);
    let back = SubstitutionSchedule::from_groups(records);
    for group in ["A12", "B34", "C56"] {
        assert!(schedule.equal_entries(&back, group));
    }
}

#[test]
fn records_for_one_group_are_merged_in_order() {
    let schedule = SubstitutionSchedule::from_groups(vec![
        Group { name: "A12".to_string(), items: vec![entry(&["1"])] },
        Group { name: "B34".to_string(), items: vec![entry(&["2"])] },
        Group { name: "A12".to_string(), items: vec![entry(&["3"]), entry(&["4"])] },
        Group { name: "C56".to_string(), items: Vec::new() },
    ]);
    assert_eq!(
        schedule.get_entries("A12"),
        Some(&vec![entry(&["1"]), entry(&["3"]), entry(&["4"])])
    );
    assert_eq!(schedule.get_entries("B34"), Some(&vec![entry(&["2"])]));
    assert_eq!(schedule.get_entries("C56"), Some(&Vec::new()));
}

#[test]
fn extract_text_keeps_the_order_and_drops_the_positions() {
    let mut first = row(&["BGYM191", "1", "Room 7"]);
    assert_eq!(first.extract_text(), entry(&["BGYM191", "1", "Room 7"]));
    assert_eq!(first, row(&["BGYM191", "1", "Room 7"]));
    assert_eq!(first.texts(), entry(&["BGYM191", "1", "Room 7"]));
    assert_eq!(first.row[2].text(), "Room 7");
    let table = Table { rows: vec![first, Row { row: Vec::new() }] };
    assert_eq!(table.text_rows(), vec![entry(&["BGYM191", "1", "Room 7"]), entry(&[])]);
}

#[test]
fn cells_are_equal_by_their_text_alone() {
    let here = cell("Room 7");
    let there = Cell {
        top: Numeral::Decimal("85.2".to_string()),
        left: Numeral::Negative(-1),
        width: Numeral::Unsigned(1),
        height: Numeral::Unsigned(2),
        text: "Room 7".to_string(),
    };
    assert_eq!(here, there);
    assert_ne!(here, cell("Room 8"));
    assert_eq!(Row { row: vec![here] }, Row { row: vec![there] });
}
