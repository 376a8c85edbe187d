use substitution_scanner::json::{Json, Numeral};
use substitution_scanner::table::{Cell, Table};
use substitution_scanner::tabula_json_parser::{
    cell_from, extract_tables, parse, row_from, table_from, tables_from, ExtractionError,
};

const OUTPUT: &str = r#"[
  {
    "extraction_method": "lattice",
    "top": 85.2,
    "data": [
      [
        {"top": 85.2, "left": 56, "width": 40.5, "height": 12, "text": "BGYM191"},
        {"top": 85.2, "left": 96.5, "width": 120, "height": 12, "text": "Room 101 → Room 204"}
      ],
      [
        {"top": 97.2, "left": 56, "width": 40.5, "height": 12, "text": "BGT201"},
        {"top": 97.2, "left": -1, "width": 120, "height": 12, "text": ""}
      ]
    ]
  },
  {
    "data": [
      [
        {"text": "BGYM191", "height": 1, "width": 2, "left": 3, "top": 4, "extra": null}
      ]
    ]
  }
]"#;

fn row_texts(cells: &[&str]) -> Vec<String> {
    cells.iter().map(|cell| cell.to_string()).collect()
}

fn cell_json(text: &str) -> Json {
    Json::Object(vec![
        ("height".to_string(), Json::Number(Numeral::Unsigned(1))),
        ("left".to_string(), Json::Number(Numeral::Negative(-3))),
        ("text".to_string(), Json::Text(text.to_string())),
        ("top".to_string(), Json::Number(Numeral::Decimal("4.5".to_string()))),
        ("width".to_string(), Json::Number(Numeral::Unsigned(2))),
    ])
}

fn entry_json(rows: Vec<Json>) -> Json {
    Json::Object(vec![("data".to_string(), Json::Array(rows))])
}

#[test]
fn parse_gives_the_texts_row_by_row() {
    assert_eq!(
        parse(OUTPUT),
        Ok(vec![
            row_texts(&["BGYM191", "Room 101 → Room 204"]),
            row_texts(&["BGT201", ""]),
            row_texts(&["BGYM191"]),
        ])
    );
}

fn position(cell: &Cell) -> (&Numeral, &Numeral, &Numeral, &Numeral) {
    (&cell.top, &cell.left, &cell.width, &cell.height)
}

#[test]
fn tables_keep_the_positions_of_the_cells() {
    let tables = extract_tables(OUTPUT).unwrap();
    assert_eq!(tables.len(), 2);
    assert_eq!(tables[0].rows.len(), 2);
    let first = &tables[0].rows[0].row[0];
    assert_eq!(first.text, "BGYM191");
    assert_eq!(
        position(first),
        (
            &Numeral::Decimal("85.2".to_string()),
            &Numeral::Unsigned(56),
            &Numeral::Decimal("40.5".to_string()),
            &Numeral::Unsigned(12),
        )
    );
    assert_eq!(tables[0].rows[1].row[1].left, Numeral::Negative(-1));
    assert_eq!(tables[1].rows.len(), 1);
    assert_eq!(tables[1].rows[0].row.len(), 1);
    let last = &tables[1].rows[0].row[0];
    assert_eq!(last.text, "BGYM191");
    assert_eq!(
        position(last),
        (
            &Numeral::Unsigned(4),
            &Numeral::Unsigned(3),
            &Numeral::Unsigned(2),
            &Numeral::Unsigned(1),
        )
    );
}

#[test]
fn an_empty_array_holds_no_tables() {
    assert_eq!(parse("[]"), Ok(Vec::new()));
    assert_eq!(extract_tables(" [ ] "), Ok(Vec::new()));
}

#[test]
fn an_entry_without_rows_is_a_table_without_rows() {
    assert_eq!(extract_tables(r#"[{"data": []}]"#), Ok(vec![Table { rows: Vec::new() }]));
    assert_eq!(parse(r#"[{"data": []}, {"data": [[]]}]"#), Ok(vec![Vec::new()]));
}

#[test]
fn a_text_that_is_no_json_is_refused() {
    assert_eq!(parse("not json"), Err(ExtractionError::NotJson));
    assert_eq!(parse(""), Err(ExtractionError::NotJson));
    assert_eq!(parse("[1, 2"), Err(ExtractionError::NotJson));
    assert_eq!(extract_tables("[] []"), Err(ExtractionError::NotJson));
}

#[test]
fn a_document_that_is_no_array_is_refused() {
    assert_eq!(parse(r#"{"data": []}"#), Err(ExtractionError::NotAnArray));
    assert_eq!(parse("null"), Err(ExtractionError::NotAnArray));
    assert_eq!(parse("\"text\""), Err(ExtractionError::NotAnArray));
}

#[test]
fn an_entry_that_is_no_object_is_refused() {
    assert_eq!(
        parse(r#"[{"data": []}, 5]"#),
        Err(ExtractionError::EntryNotAnObject { entry: 1 })
    );
    assert_eq!(parse("[[]]"), Err(ExtractionError::EntryNotAnObject { entry: 0 }));
}

#[test]
fn an_entry_without_data_is_refused() {
    assert_eq!(
        parse(r#"[{"data": []}, {"data": []}, {"rows": []}]"#),
        Err(ExtractionError::DataMissing { entry: 2 })
    );
}

#[test]
fn data_that_is_no_array_is_refused() {
    assert_eq!(parse(r#"[{"data": {}}]"#), Err(ExtractionError::DataNotAnArray { entry: 0 }));
    assert_eq!(parse(r#"[{"data": null}]"#), Err(ExtractionError::DataNotAnArray { entry: 0 }));
}

#[test]
fn a_row_that_is_no_array_of_cells_is_refused() {
    assert_eq!(
        parse(r#"[{"data": [[], 7]}]"#),
        Err(ExtractionError::MalformedRow { entry: 0, row: 1 })
    );
    assert_eq!(
        parse(r#"[{"data": []}, {"data": [[{"top": 1, "left": 1, "width": 1, "height": 1}]]}]"#),
        Err(ExtractionError::MalformedRow { entry: 1, row: 0 })
    );
    assert_eq!(
        parse(r#"[{"data": [[{"top": "1", "left": 1, "width": 1, "height": 1, "text": "x"}]]}]"#),
        Err(ExtractionError::MalformedRow { entry: 0, row: 0 })
    );
    assert_eq!(
        parse(r#"[{"data": [[{"top": 1, "left": 1, "width": 1, "height": 1, "text": 5}]]}]"#),
        Err(ExtractionError::MalformedRow { entry: 0, row: 0 })
    );
}

#[test]
fn the_first_fault_of_an_output_is_reported() {
    assert_eq!(
        parse(r#"[{"data": [[], 7, 8]}, 5]"#),
        Err(ExtractionError::MalformedRow { entry: 0, row: 1 })
    );
    assert_eq!(
        parse(r#"[{"other": 1}, {"data": [7]}]"#),
        Err(ExtractionError::DataMissing { entry: 0 })
    );
}

#[test]
fn a_cell_needs_four_numbers_and_a_text() {
    let cell = cell_from(&cell_json("x")).unwrap();
    assert_eq!(cell.text, "x");
    assert_eq!(
        position(&cell),
        (
            &Numeral::Decimal("4.5".to_string()),
            &Numeral::Negative(-3),
            &Numeral::Unsigned(2),
            &Numeral::Unsigned(1),
        )
    );
    assert_eq!(cell_from(&Json::Null), None);
    assert_eq!(cell_from(&Json::Array(Vec::new())), None);
    assert_eq!(cell_from(&Json::Object(Vec::new())), None);
    for missing in ["top", "left", "width", "height", "text"] {
        let members = match cell_json("x") {
            Json::Object(members) => members,
            _ => unreachable!(),
        };
        let without: Vec<(String, Json)> =
            members.into_iter().filter(|(name, _)| name != missing).collect();
        assert_eq!(cell_from(&Json::Object(without)), None);
    }
}

#[test]
fn the_first_member_of_a_name_counts() {
    let value = Json::Object(vec![
        ("text".to_string(), Json::Text("first".to_string())),
        ("text".to_string(), Json::Text("second".to_string())),
        ("top".to_string(), Json::Number(Numeral::Unsigned(1))),
        ("left".to_string(), Json::Number(Numeral::Unsigned(2))),
        ("width".to_string(), Json::Number(Numeral::Unsigned(3))),
        ("height".to_string(), Json::Number(Numeral::Unsigned(4))),
    ]);
    assert_eq!(cell_from(&value).map(|cell| cell.text), Some("first".to_string()));
}

#[test]
fn rows_and_tables_are_read_from_documents() {
    let row = row_from(&Json::Array(vec![cell_json("a"), cell_json("b")])).unwrap();
    assert_eq!(row.texts(), row_texts(&["a", "b"]));
    assert_eq!(row_from(&Json::Array(vec![cell_json("a"), Json::Null])), None);
    assert_eq!(row_from(&cell_json("a")), None);
    let entry = entry_json(vec![Json::Array(vec![cell_json("a")]), Json::Array(Vec::new())]);
    let table = table_from(&entry, 3).unwrap();
    assert_eq!(table.text_rows(), vec![row_texts(&["a"]), row_texts(&[])]);
    assert_eq!(
        table_from(&entry_json(vec![Json::Array(Vec::new()), Json::Bool(true)]), 3),
        Err(ExtractionError::MalformedRow { entry: 3, row: 1 })
    );
    assert_eq!(table_from(&Json::Null, 2), Err(ExtractionError::EntryNotAnObject { entry: 2 }));
    assert_eq!(
        table_from(&Json::Object(Vec::new()), 2),
        Err(ExtractionError::DataMissing { entry: 2 })
    );
    assert_eq!(
        tables_from(&Json::Array(vec![entry, Json::Null])),
        Err(ExtractionError::EntryNotAnObject { entry: 1 })
    );
    assert_eq!(tables_from(&Json::Bool(false)), Err(ExtractionError::NotAnArray));
}
