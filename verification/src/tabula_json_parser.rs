//! Reading the output of the table extraction: a JSON array of entries, each an object whose
//! member `data` is an array of rows, each row an array of cells, each cell an object with
//! the numbers `top`, `left`, `width` and `height` and the text `text`.

use vstd::prelude::*;
use crate::json::{
    decode, each, json_decoding, lemma_array_view, lemma_each_next, lemma_each_none, member, Json,
    JsonModel, NumeralModel,
};
use crate::table::{lemma_table_text, models_of, text_rows_of, Cell, CellModel, Row, Table};
use crate::text::{Text, TextRow};

verus! {

/// Why a text is no extraction output.
#[derive(Clone, Copy, Debug, PartialEq, Eq, Structural)]
pub enum ExtractionError {
    /// The text is no JSON document.
    NotJson,
    /// The document is no array.
    NotAnArray,
    /// The entry at this position is no object.
    EntryNotAnObject { entry: usize },
    /// The entry at this position has no member `data`.
    DataMissing { entry: usize },
    /// The member `data` of the entry at this position is no array.
    DataNotAnArray { entry: usize },
    /// The row at this position of this entry is no array of cells.
    MalformedRow { entry: usize, row: usize },
}

/// The number that the first member called `name` holds, if it holds one.
pub open spec fn number_member(members: Seq<(Text, JsonModel)>, name: Text) -> Option<
    NumeralModel,
> {
    match member(members, name) {
        Some(JsonModel::Number(n)) => Some(n),
        _ => None,
    }
}

/// The text that the first member called `name` holds, if it holds one.
pub open spec fn text_member(members: Seq<(Text, JsonModel)>, name: Text) -> Option<Text> {
    match member(members, name) {
        Some(JsonModel::Text(s)) => Some(s),
        _ => None,
    }
}

/// The cell that a value describes: an object with the numbers `top`, `left`, `width` and
/// `height` and the text `text`. Other members are passed over.
pub open spec fn cell_of(value: JsonModel) -> Option<CellModel> {
    match value {
        JsonModel::Object(members) => {
            if number_member(members, "top"@).is_some() && number_member(
                members,
                "left"@,
            ).is_some() && number_member(members, "width"@).is_some() && number_member(
                members,
                "height"@,
            ).is_some() && text_member(members, "text"@).is_some() {
                Some(
                    CellModel {
                        top: number_member(members, "top"@).unwrap(),
                        left: number_member(members, "left"@).unwrap(),
                        width: number_member(members, "width"@).unwrap(),
                        height: number_member(members, "height"@).unwrap(),
                        text: text_member(members, "text"@).unwrap(),
                    },
                )
            } else {
                None
            }
        },
        _ => None,
    }
}

/// How cells are read from values.
pub open spec fn cell_reader() -> spec_fn(JsonModel) -> Option<CellModel> {
    |value: JsonModel| cell_of(value)
}

/// The row that a value describes: an array of cells.
pub open spec fn row_of(value: JsonModel) -> Option<Seq<CellModel>> {
    match value {
        JsonModel::Array(values) => each(values, cell_reader()),
        _ => None,
    }
}

/// The rows that a list of values describes, or the position of the first value that
/// describes none.
pub open spec fn rows_of(values: Seq<JsonModel>) -> Result<Seq<Seq<CellModel>>, int>
    decreases values.len(),
{
    if values.len() == 0 {
        Ok(Seq::empty())
    } else {
        match rows_of(values.drop_last()) {
            Err(first) => Err(first),
            Ok(before) => match row_of(values.last()) {
                Some(row) => Ok(before.push(row)),
                None => Err(values.len() - 1),
            },
        }
    }
}

/// The table that the entry at position `entry` describes: the rows of its member `data`.
pub open spec fn table_of(value: JsonModel, entry: usize) -> Result<
    Seq<Seq<CellModel>>,
    ExtractionError,
> {
    match value {
        JsonModel::Object(members) => match member(members, "data"@) {
            None => Err(ExtractionError::DataMissing { entry }),
            Some(JsonModel::Array(values)) => match rows_of(values) {
                Ok(rows) => Ok(rows),
                Err(row) => Err(ExtractionError::MalformedRow { entry, row: row as usize }),
            },
            Some(_) => Err(ExtractionError::DataNotAnArray { entry }),
        },
        _ => Err(ExtractionError::EntryNotAnObject { entry }),
    }
}

/// The tables that a list of entries describes, or what is wrong with the first entry that
/// describes none.
pub open spec fn tables_of_entries(entries: Seq<JsonModel>) -> Result<
    Seq<Seq<Seq<CellModel>>>,
    ExtractionError,
>
    decreases entries.len(),
{
    if entries.len() == 0 {
        Ok(Seq::empty())
    } else {
        match tables_of_entries(entries.drop_last()) {
            Err(fault) => Err(fault),
            Ok(before) => match table_of(entries.last(), (entries.len() - 1) as usize) {
                Ok(table) => Ok(before.push(table)),
                Err(fault) => Err(fault),
            },
        }
    }
}

/// The tables that a document describes: an array of entries, one table each.
pub open spec fn tables_of(document: JsonModel) -> Result<
    Seq<Seq<Seq<CellModel>>>,
    ExtractionError,
> {
    match document {
        JsonModel::Array(entries) => tables_of_entries(entries),
        _ => Err(ExtractionError::NotAnArray),
    }
}

/// The tables that a text describes: those of the JSON document that it holds.
pub open spec fn extraction(content: Text) -> Result<Seq<Seq<Seq<CellModel>>>, ExtractionError> {
    match json_decoding(content) {
        Some(document) => tables_of(document),
        None => Err(ExtractionError::NotJson),
    }
}

/// The rows of all tables as text: those of the first table, then those of the second, and
/// so on.
pub open spec fn rows_across(tables: Seq<Seq<Seq<CellModel>>>) -> Seq<TextRow>
    decreases tables.len(),
{
    if tables.len() == 0 {
        Seq::empty()
    } else {
        rows_across(tables.drop_last()) + text_rows_of(tables.last())
    }
}

/// The cell that a value describes, if it describes one.
pub fn cell_from(value: &Json) -> (cell: Option<Cell>)
    ensures
        match cell {
            Some(found) => cell_of(value@) == Some(found.model()),
            None => cell_of(value@).is_none(),
        },
{
    let top = match value.get("top") {
        Some(Json::Number(n)) => n.copy(),
        _ => {
            return None;
        },
    };
    let left = match value.get("left") {
        Some(Json::Number(n)) => n.copy(),
        _ => {
            return None;
        },
    };
    let width = match value.get("width") {
        Some(Json::Number(n)) => n.copy(),
        _ => {
            return None;
        },
    };
    let height = match value.get("height") {
        Some(Json::Number(n)) => n.copy(),
        _ => {
            return None;
        },
    };
    let text = match value.get("text") {
        Some(Json::Text(s)) => s.clone(),
        _ => {
            return None;
        },
    };
    Some(Cell { top, left, width, height, text })
}

/// The row that a value describes, if it describes one.
pub fn row_from(value: &Json) -> (row: Option<Row>)
    ensures
        match row {
            Some(found) => row_of(value@) == Some(found.model()),
            None => row_of(value@).is_none(),
        },
{
    match value {
        Json::Array(values) => {
            proof {
                lemma_array_view(*values);
            }
            let ghost all = value@->Array_0;
            let mut cells: Vec<Cell> = Vec::new();
            let mut i: usize = 0;
            assert(all.take(0) =~= Seq::<JsonModel>::empty());
            assert(Row { row: cells }.model() =~= Seq::<CellModel>::empty());
            while i < values.len()
                invariant
                    i <= values.len(),
                    value@ is Array,
                    all == value@->Array_0,
                    all.len() == values.len(),
                    forall|k: int| 0 <= k < values.len() ==> (#[trigger] all[k]) == values[k]@,
                    cells.len() == i,
                    each(all.take(i as int), cell_reader()) == Some(Row { row: cells }.model()),
                decreases values.len() - i,
            {
                let ghost before = Row { row: cells }.model();
                match cell_from(&values[i]) {
                    Some(cell) => {
                        let ghost added = cell.model();
                        proof {
                            lemma_each_next(all, cell_reader(), i as int, before, added);
                        }
                        cells.push(cell);
                        assert(Row { row: cells }.model() =~= before.push(added));
                    },
                    None => {
                        proof {
                            lemma_each_none(all, cell_reader(), i as int);
                        }
                        return None;
                    },
                }
                i += 1;
            }
            assert(all.take(i as int) =~= all);
            Some(Row { row: cells })
        },
        _ => None,
    }
}

/// Once a value describes no row, every longer list fails at the same position.
proof fn lemma_rows_fail(values: Seq<JsonModel>, i: int, first: int)
    requires
        0 <= i < values.len(),
        rows_of(values.take(i + 1)) == Err::<Seq<Seq<CellModel>>, int>(first),
    ensures
        rows_of(values) == Err::<Seq<Seq<CellModel>>, int>(first),
    decreases values.len(),
{
    if values.len() > i + 1 {
        assert(values.drop_last().take(i + 1) =~= values.take(i + 1));
        lemma_rows_fail(values.drop_last(), i, first);
    } else {
        assert(values.take(i + 1) =~= values);
    }
}

/// Once an entry describes no table, every longer list fails with the same fault.
proof fn lemma_entries_fail(entries: Seq<JsonModel>, i: int, fault: ExtractionError)
    requires
        0 <= i < entries.len(),
        tables_of_entries(entries.take(i + 1)) == Err::<Seq<Seq<Seq<CellModel>>>, ExtractionError>(
            fault,
        ),
    ensures
        tables_of_entries(entries) == Err::<Seq<Seq<Seq<CellModel>>>, ExtractionError>(fault),
    decreases entries.len(),
{
    if entries.len() > i + 1 {
        assert(entries.drop_last().take(i + 1) =~= entries.take(i + 1));
        lemma_entries_fail(entries.drop_last(), i, fault);
    } else {
        assert(entries.take(i + 1) =~= entries);
    }
}

/// The table that the entry at position `entry` describes, or what is wrong with the entry.
pub fn table_from(value: &Json, entry: usize) -> (table: Result<Table, ExtractionError>)
    ensures
        match table {
            Ok(found) => table_of(value@, entry) == Ok::<Seq<Seq<CellModel>>, ExtractionError>(
                found.model(),
            ),
            Err(fault) => table_of(value@, entry) == Err::<Seq<Seq<CellModel>>, ExtractionError>(
                fault,
            ),
        },
{
    match value {
        Json::Object(_) => {},
        _ => {
            return Err(ExtractionError::EntryNotAnObject { entry });
        },
    }
    let data = match value.get("data") {
        Some(data) => data,
        None => {
            return Err(ExtractionError::DataMissing { entry });
        },
    };
    match data {
        Json::Array(values) => {
            proof {
                lemma_array_view(*values);
            }
            let ghost all = data@->Array_0;
            let mut rows: Vec<Row> = Vec::new();
            let mut i: usize = 0;
            assert(all.take(0) =~= Seq::<JsonModel>::empty());
            assert(Seq::new(rows.len() as nat, |r: int| rows[r].model()) =~= Seq::<
                Seq<CellModel>,
            >::empty());
            while i < values.len()
                invariant
                    i <= values.len(),
                    value@ is Object,
                    member(value@->Object_0, "data"@) == Some(data@),
                    data@ is Array,
                    all == data@->Array_0,
                    all.len() == values.len(),
                    forall|k: int| 0 <= k < values.len() ==> (#[trigger] all[k]) == values[k]@,
                    rows.len() == i,
                    rows_of(all.take(i as int)) == Ok::<Seq<Seq<CellModel>>, int>(
                        Seq::new(rows.len() as nat, |r: int| rows[r].model()),
                    ),
                decreases values.len() - i,
            {
                let ghost before = Seq::new(rows.len() as nat, |r: int| rows[r].model());
                assert(all.take(i + 1).drop_last() =~= all.take(i as int));
                assert(all.take(i + 1).last() == all[i as int]);
                match row_from(&values[i]) {
                    Some(row) => {
                        let ghost added = row.model();
                        rows.push(row);
                        assert(Seq::new(rows.len() as nat, |r: int| rows[r].model())
                            =~= before.push(added));
                    },
                    None => {
                        proof {
                            lemma_rows_fail(all, i as int, i as int);
                        }
                        return Err(ExtractionError::MalformedRow { entry, row: i });
                    },
                }
                i += 1;
            }
            assert(all.take(i as int) =~= all);
            Ok(Table { rows })
        },
        _ => Err(ExtractionError::DataNotAnArray { entry }),
    }
}

/// The tables that a document describes, or what is wrong with the first entry that
/// describes none.
pub fn tables_from(document: &Json) -> (tables: Result<Vec<Table>, ExtractionError>)
    ensures
        match tables {
            Ok(found) => tables_of(document@) == Ok::<Seq<Seq<Seq<CellModel>>>, ExtractionError>(
                models_of(found@),
            ),
            Err(fault) => tables_of(document@) == Err::<
                Seq<Seq<Seq<CellModel>>>,
                ExtractionError,
            >(fault),
        },
{
    match document {
        Json::Array(entries) => {
            proof {
                lemma_array_view(*entries);
            }
            let ghost all = document@->Array_0;
            let mut tables: Vec<Table> = Vec::new();
            let mut i: usize = 0;
            assert(all.take(0) =~= Seq::<JsonModel>::empty());
            assert(models_of(tables@) =~= Seq::<Seq<Seq<CellModel>>>::empty());
            while i < entries.len()
                invariant
                    i <= entries.len(),
                    document@ is Array,
                    all == document@->Array_0,
                    all.len() == entries.len(),
                    forall|k: int| 0 <= k < entries.len() ==> (#[trigger] all[k]) == entries[k]@,
                    tables.len() == i,
                    tables_of_entries(all.take(i as int)) == Ok::<
                        Seq<Seq<Seq<CellModel>>>,
                        ExtractionError,
                    >(models_of(tables@)),
                decreases entries.len() - i,
            {
                let ghost before = models_of(tables@);
                assert(all.take(i + 1).drop_last() =~= all.take(i as int));
                assert(all.take(i + 1).last() == all[i as int]);
                match table_from(&entries[i], i) {
                    Ok(table) => {
                        let ghost added = table.model();
                        tables.push(table);
                        assert(models_of(tables@) =~= before.push(added));
                    },
                    Err(fault) => {
                        proof {
                            lemma_entries_fail(all, i as int, fault);
                        }
                        return Err(fault);
                    },
                }
                i += 1;
            }
            assert(all.take(i as int) =~= all);
            Ok(tables)
        },
        _ => Err(ExtractionError::NotAnArray),
    }
}

/// The tables that the text of an extraction output describes.
pub fn extract_tables(content: &str) -> (tables: Result<Vec<Table>, ExtractionError>)
    ensures
        match tables {
            Ok(found) => extraction(content@) == Ok::<Seq<Seq<Seq<CellModel>>>, ExtractionError>(
                models_of(found@),
            ),
            Err(fault) => extraction(content@) == Err::<
                Seq<Seq<Seq<CellModel>>>,
                ExtractionError,
            >(fault),
        },
{
    match decode(content) {
        Some(document) => tables_from(&document),
        None => Err(ExtractionError::NotJson),
    }
}

/// The texts of the rows that an extraction output holds, table after table, without the
/// positions of the cells.
pub fn parse(content: &str) -> (rows: Result<Vec<Vec<String>>, ExtractionError>)
    ensures
        match rows {
            Ok(found) => extraction(content@).is_ok() && found.deep_view() == rows_across(
                extraction(content@).unwrap(),
            ),
            Err(fault) => extraction(content@) == Err::<
                Seq<Seq<Seq<CellModel>>>,
                ExtractionError,
            >(fault),
        },
{
    let tables = match extract_tables(content) {
        Ok(tables) => tables,
        Err(fault) => {
            return Err(fault);
        },
    };
    let ghost all = models_of(tables@);
    let mut rows: Vec<Vec<String>> = Vec::new();
    let mut t: usize = 0;
    assert(rows.deep_view() =~= rows_across(all.take(0)));
    while t < tables.len()
        invariant
            t <= tables.len(),
            all == models_of(tables@),
            rows.deep_view() == rows_across(all.take(t as int)),
        decreases tables.len() - t,
    {
        let ghost before = rows.deep_view();
        let mut table_rows = tables[t].text_rows();
        proof {
            lemma_table_text(tables[t as int]);
            assert(all.take(t + 1).drop_last() =~= all.take(t as int));
            assert(all.take(t + 1).last() == all[t as int]);
        }
        let ghost added = table_rows.deep_view();
        rows.append(&mut table_rows);
        assert(rows.deep_view() =~= before + added);
        t += 1;
    }
    assert(all.take(t as int) =~= all);
    Ok(rows)
}

} // verus!
