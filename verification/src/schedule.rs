//! The substitution schedule of one weekday: for each group, the entries that concern it.
//!
//! A schedule is built from the tables of one document. The first cell of a row names the
//! group that the row concerns; the cells after it are the entry. The entries of a group are
//! kept in the order in which the document lists them.

use vstd::prelude::*;
use crate::grouping::{distinct_names, held, listed, merged, pairs_of, Group, Grouping};
use crate::table::Table;
use crate::text::{same_rows, Text, TextRow};

verus! {

/// Why a list of tables yields no schedule.
#[derive(Clone, Copy, Debug, PartialEq, Eq, Structural)]
pub enum MalformedTableError {
    /// The table at this position has no rows.
    EmptyTable { table: usize },
    /// The row at this position of this table has no cells, so it names no group.
    EmptyRow { table: usize, row: usize },
}

/// The entries that `rows` hold for `group`, in order: of each row whose first cell is the
/// group's name, the cells after the first.
pub open spec fn entries_in(rows: Seq<TextRow>, group: Text) -> Seq<TextRow>
    decreases rows.len(),
{
    if rows.len() == 0 {
        Seq::empty()
    } else {
        let before = entries_in(rows.drop_last(), group);
        let row = rows.last();
        if row.len() > 0 && row[0] == group {
            before.push(row.skip(1))
        } else {
            before
        }
    }
}

/// The entries that `tables` hold for `group`: those of the first table, then those of the
/// second, and so on.
pub open spec fn entries_across(tables: Seq<Seq<TextRow>>, group: Text) -> Seq<TextRow>
    decreases tables.len(),
{
    if tables.len() == 0 {
        Seq::empty()
    } else {
        entries_across(tables.drop_last(), group) + entries_in(tables.last(), group)
    }
}

/// The schedule that `tables` describe: every group that some row names, with its entries.
pub open spec fn schedule_of(tables: Seq<Seq<TextRow>>) -> Map<Text, Seq<TextRow>> {
    Map::new(
        |group: Text| entries_across(tables, group).len() > 0,
        |group: Text| entries_across(tables, group),
    )
}

/// A table can be read when it has a row and each of its rows has a cell.
pub open spec fn table_is_sound(table: Seq<TextRow>) -> bool {
    &&& table.len() > 0
    &&& forall|r: int| 0 <= r < table.len() ==> (#[trigger] table[r]).len() > 0
}

/// `fault` names the first place, reading table by table and row by row, at which `tables`
/// cannot be read.
pub open spec fn is_first_fault(tables: Seq<Seq<TextRow>>, fault: MalformedTableError) -> bool {
    match fault {
        MalformedTableError::EmptyTable { table } => {
            &&& table < tables.len()
            &&& forall|t: int| 0 <= t < table ==> table_is_sound(#[trigger] tables[t])
            &&& tables[table as int].len() == 0
        },
        MalformedTableError::EmptyRow { table, row } => {
            &&& table < tables.len()
            &&& forall|t: int| 0 <= t < table ==> table_is_sound(#[trigger] tables[t])
            &&& row < tables[table as int].len()
            &&& forall|r: int| 0 <= r < row ==> (#[trigger] tables[table as int][r]).len() > 0
            &&& tables[table as int][row as int].len() == 0
        },
    }
}

/// The substitution schedule of one weekday.
#[derive(Debug)]
pub struct SubstitutionSchedule {
    groups: Grouping<Vec<String>>,
}

impl View for SubstitutionSchedule {
    type V = Map<Text, Seq<TextRow>>;

    closed spec fn view(&self) -> Map<Text, Seq<TextRow>> {
        self.groups@
    }
}

impl SubstitutionSchedule {
    /// The entries of `group`, or `None` where the schedule does not hold the group.
    pub open spec fn entries(&self, group: Text) -> Option<Seq<TextRow>> {
        if self@.dom().contains(group) {
            Some(self@[group])
        } else {
            None
        }
    }

    /// A schedule without groups.
    pub fn new() -> (schedule: SubstitutionSchedule)
        ensures
            schedule@ == Map::<Text, Seq<TextRow>>::empty(),
    {
        SubstitutionSchedule { groups: Grouping::new() }
    }

    /// Adds one entry after those that the schedule holds for `group`.
    pub fn record(&mut self, group: String, entry: Vec<String>)
        ensures
            final(self)@ == old(self)@.insert(
                group@,
                held(old(self)@, group@).push(entry.deep_view()),
            ),
    {
        self.groups.record(group, entry);
    }

    /// The entries of `group`, or `None` where the schedule does not hold the group.
    pub fn get_entries(&self, group: &str) -> (entries: Option<&Vec<Vec<String>>>)
        ensures
            match entries {
                Some(rows) => self.entries(group@) == Some(rows.deep_view()),
                None => self.entries(group@).is_none(),
            },
    {
        self.groups.get(group)
    }

    /// Whether the two schedules hold the same for `group`: both lack it, or both hold it
    /// with the same entries in the same order.
    pub fn equal_entries(&self, other: &SubstitutionSchedule, group: &str) -> (equal: bool)
        ensures
            equal == (self.entries(group@) == other.entries(group@)),
    {
        match (self.get_entries(group), other.get_entries(group)) {
            (Some(mine), Some(theirs)) => same_rows(mine, theirs),
            (None, None) => true,
            _ => false,
        }
    }

    /// The names of the groups that the schedule holds, each once.
    pub fn group_names(&self) -> (names: Vec<String>)
        ensures
            names.deep_view().no_duplicates(),
            names.deep_view().to_set() == self@.dom(),
    {
        self.groups.names()
    }

    /// The schedule as a list of plain records, one for each group.
    pub fn to_groups(&self) -> (list: &Vec<Group<Vec<String>>>)
        ensures
            distinct_names(pairs_of(list@)),
            listed(pairs_of(list@)) == self@,
    {
        self.groups.groups()
    }

    /// The schedule that a list of plain records stands for. Where the list has several
    /// records for one group, their entries follow one another in the order of the list.
    pub fn from_groups(list: Vec<Group<Vec<String>>>) -> (schedule: SubstitutionSchedule)
        ensures
            schedule@ == merged(pairs_of(list@)),
    {
        SubstitutionSchedule { groups: Grouping::from_groups(list) }
    }

    /// The schedule that the tables of one document describe. The first cell of a row names
    /// the group; the cells after it are the entry. A table without rows, or a row without
    /// cells, is refused.
    pub fn build(tables: &Vec<Table>) -> (outcome: Result<SubstitutionSchedule, MalformedTableError>)
        ensures
            match outcome {
                Ok(schedule) => {
                    &&& forall|t: int|
                        0 <= t < tables.len() ==> table_is_sound(#[trigger] tables.deep_view()[t])
                    &&& schedule@ == schedule_of(tables.deep_view())
                },
                Err(fault) => is_first_fault(tables.deep_view(), fault),
            },
    {
        let ghost all = tables.deep_view();
        let mut groups: Grouping<Vec<String>> = Grouping::new();
        assert(groups@ =~= partly(all.take(0), Seq::empty()));
        let mut t: usize = 0;
        while t < tables.len()
            invariant
                t <= tables.len(),
                all == tables.deep_view(),
                forall|k: int| 0 <= k < t ==> table_is_sound(#[trigger] all[k]),
                groups@ == partly(all.take(t as int), Seq::empty()),
            decreases tables.len() - t,
        {
            let table = &tables[t];
            assert(all[t as int] == table@);
            if table.rows.len() == 0 {
                return Err(MalformedTableError::EmptyTable { table: t });
            }
            let mut r: usize = 0;
            while r < table.rows.len()
                invariant
                    r <= table.rows.len(),
                    t < tables.len(),
                    all == tables.deep_view(),
                    all[t as int] == table@,
                    table.rows.len() > 0,
                    forall|k: int| 0 <= k < t ==> table_is_sound(#[trigger] all[k]),
                    forall|k: int| 0 <= k < r ==> (#[trigger] table@[k]).len() > 0,
                    groups@ == partly(all.take(t as int), table@.take(r as int)),
                decreases table.rows.len() - r,
            {
                let row = &table.rows[r];
                assert(table@[r as int] == row@);
                if row.row.len() == 0 {
                    return Err(MalformedTableError::EmptyRow { table: t, row: r });
                }
                let mut cells = row.texts();
                assert(cells.deep_view().len() == row.row.len());
                let group = cells.remove(0);
                assert(cells.deep_view() =~= row@.skip(1));
                proof {
                    lemma_partly_step(all.take(t as int), table@, r as int);
                }
                groups.record(group, cells);
                r += 1;
            }
            proof {
                assert(table@.take(r as int) =~= table@);
                lemma_partly_done(all, t as int);
            }
            t += 1;
        }
        proof {
            assert(all.take(t as int) =~= all);
            lemma_partly_none(all);
        }
        Ok(SubstitutionSchedule { groups })
    }
}

/// The schedule after all of `tables` and the first rows of the next table have been read.
spec fn partly(tables: Seq<Seq<TextRow>>, rows: Seq<TextRow>) -> Map<Text, Seq<TextRow>> {
    Map::new(
        |group: Text| (entries_across(tables, group) + entries_in(rows, group)).len() > 0,
        |group: Text| entries_across(tables, group) + entries_in(rows, group),
    )
}

/// Reading one more row records its entry under its group.
proof fn lemma_partly_step(tables: Seq<Seq<TextRow>>, rows: Seq<TextRow>, r: int)
    requires
        0 <= r < rows.len(),
        rows[r].len() > 0,
    ensures
        partly(tables, rows.take(r + 1)) == partly(tables, rows.take(r)).insert(
            rows[r][0],
            held(partly(tables, rows.take(r)), rows[r][0]).push(rows[r].skip(1)),
        ),
{
    let before = partly(tables, rows.take(r));
    let after = partly(tables, rows.take(r + 1));
    let name = rows[r][0];
    let expected = before.insert(name, held(before, name).push(rows[r].skip(1)));
    assert(rows.take(r + 1).drop_last() =~= rows.take(r));
    assert(rows.take(r + 1).last() == rows[r]);
    assert forall|g: Text| entries_across(tables, g) + entries_in(rows.take(r + 1), g) == if g
        == name {
        (entries_across(tables, g) + entries_in(rows.take(r), g)).push(rows[r].skip(1))
    } else {
        entries_across(tables, g) + entries_in(rows.take(r), g)
    } by {
        if g == name {
            assert(entries_across(tables, g) + entries_in(rows.take(r), g).push(rows[r].skip(1))
                =~= (entries_across(tables, g) + entries_in(rows.take(r), g)).push(
                rows[r].skip(1),
            ));
        }
    }
    let sum = entries_across(tables, name) + entries_in(rows.take(r), name);
    assert(held(before, name) =~= sum);
    assert(after =~= expected);
}

/// Once a table has been read to its end, it counts among the tables read.
proof fn lemma_partly_done(tables: Seq<Seq<TextRow>>, t: int)
    requires
        0 <= t < tables.len(),
    ensures
        partly(tables.take(t), tables[t]) == partly(tables.take(t + 1), Seq::empty()),
{
    assert(tables.take(t + 1).drop_last() =~= tables.take(t));
    assert(tables.take(t + 1).last() == tables[t]);
    assert forall|g: Text|
        entries_across(tables.take(t), g) + entries_in(tables[t], g) == entries_across(
            tables.take(t + 1),
            g,
        ) + entries_in(Seq::empty(), g) by {
        assert(entries_across(tables.take(t + 1), g) + Seq::<TextRow>::empty()
            =~= entries_across(tables.take(t + 1), g));
    }
    assert(partly(tables.take(t), tables[t]) =~= partly(tables.take(t + 1), Seq::empty()));
}

/// With no row of a further table read, the schedule is that of the tables read.
proof fn lemma_partly_none(tables: Seq<Seq<TextRow>>)
    ensures
        partly(tables, Seq::empty()) == schedule_of(tables),
{
    assert forall|g: Text|
        entries_across(tables, g) + entries_in(Seq::empty(), g) == entries_across(tables, g) by {
        assert(entries_across(tables, g) + Seq::<TextRow>::empty() =~= entries_across(tables, g));
    }
    assert(partly(tables, Seq::empty()) =~= schedule_of(tables));
}

/// Some row of `rows` names `group` in its first cell.
pub open spec fn names_in(rows: Seq<TextRow>, group: Text) -> bool {
    exists|r: int| 0 <= r < rows.len() && (#[trigger] rows[r]).len() > 0 && rows[r][0] == group
}

/// Some row of some table names `group` in its first cell.
pub open spec fn names_across(tables: Seq<Seq<TextRow>>, group: Text) -> bool {
    exists|t: int| 0 <= t < tables.len() && names_in(#[trigger] tables[t], group)
}

/// Rows hold an entry for a group exactly when one of them names the group.
pub proof fn lemma_entries_iff_named(rows: Seq<TextRow>, group: Text)
    ensures
        entries_in(rows, group).len() > 0 <==> names_in(rows, group),
    decreases rows.len(),
{
    if rows.len() > 0 {
        let front = rows.drop_last();
        lemma_entries_iff_named(front, group);
        if names_in(front, group) {
            let r = choose|r: int| 0 <= r < front.len() && (#[trigger] front[r]).len() > 0
                && front[r][0] == group;
            assert(rows[r] == front[r]);
        }
        if names_in(rows, group) {
            let r = choose|r: int| 0 <= r < rows.len() && (#[trigger] rows[r]).len() > 0 && rows[r][0]
                == group;
            if r < rows.len() - 1 {
                assert(front[r] == rows[r]);
            }
        }
        assert(rows[rows.len() - 1] == rows.last());
    }
}

/// A schedule holds exactly the groups that some row names.
pub proof fn lemma_held_iff_named(tables: Seq<Seq<TextRow>>, group: Text)
    ensures
        schedule_of(tables).dom().contains(group) <==> names_across(tables, group),
    decreases tables.len(),
{
    if tables.len() > 0 {
        let front = tables.drop_last();
        lemma_held_iff_named(front, group);
        lemma_entries_iff_named(tables.last(), group);
        if names_across(front, group) {
            let t = choose|t: int| 0 <= t < front.len() && names_in(#[trigger] front[t], group);
            assert(tables[t] == front[t]);
        }
        if names_across(tables, group) {
            let t = choose|t: int| 0 <= t < tables.len() && names_in(#[trigger] tables[t], group);
            if t < tables.len() - 1 {
                assert(front[t] == tables[t]);
            }
        }
        assert(tables[tables.len() - 1] == tables.last());
    }
}

/// Building is deterministic: two schedules built from the same tables hold the same for
/// every group.
pub proof fn lemma_same_tables_same_entries(
    first: SubstitutionSchedule,
    second: SubstitutionSchedule,
    tables: Seq<Seq<TextRow>>,
    group: Text,
)
    requires
        first@ == schedule_of(tables),
        second@ == schedule_of(tables),
    ensures
        first.entries(group) == second.entries(group),
{
}

} // verus!
