//! Tables of text cells, as the extraction of a schedule document yields them.

use vstd::prelude::*;
use crate::json::{Numeral, NumeralModel};
use crate::text::{Text, TextRow};

verus! {

/// A cell of a table: its text, and where it stood on the page. The position is carried along
/// and plays no part in what the cell stands for: two cells with the same text are equal.
#[derive(Debug)]
pub struct Cell {
    pub top: Numeral,
    pub left: Numeral,
    pub width: Numeral,
    pub height: Numeral,
    pub text: String,
}

/// All that a [`Cell`] holds, position included.
pub struct CellModel {
    pub top: NumeralModel,
    pub left: NumeralModel,
    pub width: NumeralModel,
    pub height: NumeralModel,
    pub text: Text,
}

/// The texts of a row of cells, without their positions.
pub open spec fn texts_of(cells: Seq<CellModel>) -> TextRow {
    Seq::new(cells.len(), |c: int| cells[c].text)
}

/// The rows of a table as text.
pub open spec fn text_rows_of(rows: Seq<Seq<CellModel>>) -> Seq<TextRow> {
    Seq::new(rows.len(), |r: int| texts_of(rows[r]))
}

impl Cell {
    /// The text of the cell.
    pub fn text(&self) -> (text: &str)
        ensures
            text@ == self@,
    {
        self.text.as_str()
    }

    /// All that the cell holds, position included.
    pub open spec fn model(&self) -> CellModel {
        CellModel {
            top: self.top@,
            left: self.left@,
            width: self.width@,
            height: self.height@,
            text: self.text@,
        }
    }
}

impl PartialEq for Cell {
    fn eq(&self, other: &Cell) -> (equal: bool) {
        self.text == other.text
    }
}

impl vstd::std_specs::cmp::PartialEqSpecImpl for Cell {
    open spec fn obeys_eq_spec() -> bool {
        true
    }

    open spec fn eq_spec(&self, other: &Cell) -> bool {
        self.text@ == other.text@
    }
}

impl Eq for Cell {

}

impl DeepView for Cell {
    type V = Text;

    open spec fn deep_view(&self) -> Text {
        self.text@
    }
}

impl View for Cell {
    type V = Text;

    open spec fn view(&self) -> Text {
        self.deep_view()
    }
}

/// A row of a table: its cells from left to right.
#[derive(Debug, PartialEq, Eq)]
pub struct Row {
    pub row: Vec<Cell>,
}

impl DeepView for Row {
    type V = TextRow;

    open spec fn deep_view(&self) -> TextRow {
        self.row.deep_view()
    }
}

impl View for Row {
    type V = TextRow;

    open spec fn view(&self) -> TextRow {
        self.deep_view()
    }
}

impl Row {
    /// All that the cells of the row hold, positions included.
    pub open spec fn model(&self) -> Seq<CellModel> {
        Seq::new(self.row.len() as nat, |c: int| self.row[c].model())
    }

    /// The texts of the cells, in order, without their positions.
    pub fn texts(&self) -> (texts: Vec<String>)
        ensures
            texts.deep_view() == self@,
    {
        let mut texts: Vec<String> = Vec::new();
        let mut i: usize = 0;
        while i < self.row.len()
            invariant
                i <= self.row.len(),
                texts.len() == i,
                forall|k: int| 0 <= k < i ==> texts[k]@ == self.row[k].text@,
            decreases self.row.len() - i,
        {
            texts.push(self.row[i].text.clone());
            i += 1;
        }
        assert(texts.deep_view() =~= self@);
        texts
    }

    /// The texts of the cells, in order, without their positions. The row stays as it was.
    pub fn extract_text(&mut self) -> (texts: Vec<String>)
        ensures
            texts.deep_view() == old(self)@,
            *final(self) == *old(self),
    {
        self.texts()
    }
}

/// A table: its rows from top to bottom.
#[derive(Debug, PartialEq, Eq)]
pub struct Table {
    pub rows: Vec<Row>,
}

impl DeepView for Table {
    type V = Seq<TextRow>;

    open spec fn deep_view(&self) -> Seq<TextRow> {
        self.rows.deep_view()
    }
}

impl View for Table {
    type V = Seq<TextRow>;

    open spec fn view(&self) -> Seq<TextRow> {
        self.deep_view()
    }
}

impl Table {
    /// All that the rows of the table hold, positions included.
    pub open spec fn model(&self) -> Seq<Seq<CellModel>> {
        Seq::new(self.rows.len() as nat, |r: int| self.rows[r].model())
    }

    /// The rows of the table as text, in order.
    pub fn text_rows(&self) -> (rows: Vec<Vec<String>>)
        ensures
            rows.deep_view() == self@,
    {
        let mut rows: Vec<Vec<String>> = Vec::new();
        let mut i: usize = 0;
        while i < self.rows.len()
            invariant
                i <= self.rows.len(),
                rows.len() == i,
                forall|k: int| 0 <= k < i ==> rows[k].deep_view() == self.rows[k]@,
            decreases self.rows.len() - i,
        {
            rows.push(self.rows[i].texts());
            i += 1;
        }
        assert(rows.deep_view() =~= self@);
        rows
    }
}

/// All that a list of tables holds, positions included.
pub open spec fn models_of(tables: Seq<Table>) -> Seq<Seq<Seq<CellModel>>> {
    Seq::new(tables.len(), |t: int| tables[t].model())
}

/// What a table stands for is the text of what it holds.
pub proof fn lemma_table_text(table: Table)
    ensures
        table@ == text_rows_of(table.model()),
{
    assert forall|r: int| 0 <= r < table.rows.len() implies table@[r] == text_rows_of(
        table.model(),
    )[r] by {
        assert(table@[r] =~= texts_of(table.model()[r]));
    }
    assert(table@ =~= text_rows_of(table.model()));
}

} // verus!
