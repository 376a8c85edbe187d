//! The poll driver: which weekday a tick looks at, that no two cycles for one weekday run
//! at once, and what a cycle does at each of its steps.
//!
//! A cycle fetches the document of its weekday, has the tables extracted from it, builds the
//! schedule, compares it with the snapshot for each watched group, notifies where something
//! changed, and stores the schedule as the new snapshot. The fetching, the extraction, the
//! loading and the sending are done by the caller; the cycle says what is to be done next.

use vstd::prelude::*;
use crate::detector::{classification, classify, Snapshot, SnapshotModel};
use crate::storage::{load_snapshot, snapshot_of};
use crate::schedule::{is_first_fault, schedule_of, table_is_sound, MalformedTableError, SubstitutionSchedule};
use crate::table::{lemma_table_text, models_of, text_rows_of, CellModel, Table};
use crate::tabula_json_parser::{extract_tables, extraction, ExtractionError};
use crate::text::{Text, TextRow};
use crate::weekday::{CalendarDay, Weekdays};

verus! {

/// The weekdays for which a cycle is under way.
#[derive(Debug)]
pub struct InFlight {
    monday: bool,
    tuesday: bool,
    wednesday: bool,
    thursday: bool,
    friday: bool,
}

impl View for InFlight {
    type V = Set<Weekdays>;

    closed spec fn view(&self) -> Set<Weekdays> {
        Set::new(
            |day: Weekdays|
                match day {
                    Weekdays::Monday => self.monday,
                    Weekdays::Tuesday => self.tuesday,
                    Weekdays::Wednesday => self.wednesday,
                    Weekdays::Thursday => self.thursday,
                    Weekdays::Friday => self.friday,
                },
        )
    }
}

impl InFlight {
    /// No cycle is under way.
    pub fn new() -> (in_flight: InFlight)
        ensures
            in_flight@ == Set::<Weekdays>::empty(),
    {
        let in_flight = InFlight {
            monday: false,
            tuesday: false,
            wednesday: false,
            thursday: false,
            friday: false,
        };
        assert(in_flight@ =~= Set::<Weekdays>::empty());
        in_flight
    }

    /// Whether a cycle for `day` is under way.
    pub fn is_busy(&self, day: Weekdays) -> (busy: bool)
        ensures
            busy == self@.contains(day),
    {
        match day {
            Weekdays::Monday => self.monday,
            Weekdays::Tuesday => self.tuesday,
            Weekdays::Wednesday => self.wednesday,
            Weekdays::Thursday => self.thursday,
            Weekdays::Friday => self.friday,
        }
    }

    /// Claims `day` for a new cycle. Where a cycle for the day is under way already, the
    /// claim fails and nothing changes: the tick is dropped, not queued.
    pub fn try_begin(&mut self, day: Weekdays) -> (started: bool)
        ensures
            started == !old(self)@.contains(day),
            final(self)@ == old(self)@.insert(day),
    {
        if self.is_busy(day) {
            assert(self@ =~= self@.insert(day));
            return false;
        }
        match day {
            Weekdays::Monday => {
                self.monday = true;
            },
            Weekdays::Tuesday => {
                self.tuesday = true;
            },
            Weekdays::Wednesday => {
                self.wednesday = true;
            },
            Weekdays::Thursday => {
                self.thursday = true;
            },
            Weekdays::Friday => {
                self.friday = true;
            },
        }
        assert(self@ =~= old(self)@.insert(day));
        true
    }

    /// Releases `day` when its cycle has ended, however it ended.
    pub fn finish(&mut self, day: Weekdays)
        ensures
            final(self)@ == old(self)@.remove(day),
    {
        match day {
            Weekdays::Monday => {
                self.monday = false;
            },
            Weekdays::Tuesday => {
                self.tuesday = false;
            },
            Weekdays::Wednesday => {
                self.wednesday = false;
            },
            Weekdays::Thursday => {
                self.thursday = false;
            },
            Weekdays::Friday => {
                self.friday = false;
            },
        }
        assert(self@ =~= old(self)@.remove(day));
    }
}

/// Why a cycle ended without a comparison.
#[derive(Clone, Copy, Debug, PartialEq, Eq, Structural)]
pub enum CycleFailure {
    /// The document could not be fetched.
    FetchFailed,
    /// The extraction engine gave no output.
    ExtractionFailed,
    /// The output of the extraction engine cannot be read.
    Unreadable(ExtractionError),
    /// The tables yield no schedule.
    Malformed(MalformedTableError),
    /// Something was reported that the cycle was not waiting for.
    OutOfTurn,
}

/// Where a cycle stands.
#[derive(Debug)]
pub enum Cycle {
    /// The document of the weekday is being fetched.
    AwaitingDocument { day: Weekdays },
    /// The tables are being extracted from the document.
    AwaitingTables { day: Weekdays },
    /// The schedule is built and the snapshot of the weekday is being loaded.
    AwaitingSnapshot { day: Weekdays, schedule: SubstitutionSchedule },
    /// The cycle has ended.
    Finished,
}

/// What the caller reports to a cycle.
#[derive(Debug)]
pub enum CycleEvent {
    /// The document has arrived.
    DocumentFetched,
    /// The document could not be fetched.
    FetchFailed,
    /// The extraction engine has put out this text.
    TablesExtracted(String),
    /// The extraction engine has failed.
    ExtractionFailed,
    /// The snapshot store holds this text for the weekday, or none.
    SnapshotLoaded(Option<String>),
}

/// What the caller is to do next.
#[derive(Debug)]
pub enum CycleAction {
    /// Hand the document to the extraction engine.
    ExtractTables { day: Weekdays },
    /// Load the snapshot of the weekday.
    LoadSnapshot { day: Weekdays },
    /// Notify the subscribers of these groups, then store the schedule as the snapshot of
    /// the weekday.
    NotifyAndSave { day: Weekdays, notify: Vec<String>, schedule: SubstitutionSchedule },
    /// Nothing: the cycle has ended without a comparison. Nobody is notified and the
    /// snapshot stays as it is.
    GiveUp { failure: CycleFailure },
}

/// The characters of the text that the snapshot store holds, if it holds one.
pub open spec fn stored_text(record: Option<String>) -> Option<Text> {
    match record {
        Some(text) => Some(text@),
        None => None,
    }
}

/// The tables as text, without the positions of the cells.
pub open spec fn texts_of_tables(tables: Seq<Seq<Seq<CellModel>>>) -> Seq<Seq<TextRow>> {
    Seq::new(tables.len(), |t: int| text_rows_of(tables[t]))
}

/// The watched groups whose subscribers are to be notified, in the order of `watched`: those
/// that the comparison of the new schedule with the snapshot finds first seen or changed.
pub open spec fn groups_to_notify(
    watched: Seq<Text>,
    new_schedule: Map<Text, Seq<TextRow>>,
    snapshot: SnapshotModel,
) -> Seq<Text>
    decreases watched.len(),
{
    if watched.len() == 0 {
        Seq::empty()
    } else {
        let before = groups_to_notify(watched.drop_last(), new_schedule, snapshot);
        if classification(new_schedule, snapshot, watched.last()).notifies() {
            before.push(watched.last())
        } else {
            before
        }
    }
}

/// The watched groups whose subscribers are to be notified, in the order of `watched`.
pub fn plan_notifications(
    watched: &Vec<String>,
    new_schedule: &SubstitutionSchedule,
    snapshot: &Snapshot,
) -> (notify: Vec<String>)
    ensures
        notify.deep_view() == groups_to_notify(watched.deep_view(), new_schedule@, snapshot@),
{
    let ghost all = watched.deep_view();
    let mut notify: Vec<String> = Vec::new();
    let mut i: usize = 0;
    assert(notify.deep_view() =~= groups_to_notify(all.take(0), new_schedule@, snapshot@));
    while i < watched.len()
        invariant
            i <= watched.len(),
            all == watched.deep_view(),
            notify.deep_view() == groups_to_notify(all.take(i as int), new_schedule@, snapshot@),
        decreases watched.len() - i,
    {
        let ghost before = notify.deep_view();
        assert(all.take(i + 1).drop_last() =~= all.take(i as int));
        assert(all.take(i + 1).last() == watched[i as int]@);
        if classify(new_schedule, snapshot, watched[i].as_str()).notifies() {
            notify.push(watched[i].clone());
            assert(notify.deep_view() =~= before.push(watched[i as int]@));
        }
        i += 1;
    }
    assert(all.take(i as int) =~= all);
    notify
}

/// Whether a cycle that stood at `before` and was told `event` stands at `after` and asks
/// for `action`.
///
/// A failure to fetch or to extract, an output that cannot be read and tables that yield
/// no schedule end the cycle with nothing to do. Once the stored snapshot has been read, the
/// subscribers of the watched groups that are first seen or changed are notified and the
/// new schedule is stored, whatever the comparison found.
pub open spec fn steps(
    before: Cycle,
    event: CycleEvent,
    watched: Seq<Text>,
    after: Cycle,
    action: CycleAction,
) -> bool {
    match (before, event) {
        (Cycle::AwaitingDocument { day }, CycleEvent::DocumentFetched) => {
            &&& after == Cycle::AwaitingTables { day }
            &&& action == CycleAction::ExtractTables { day }
        },
        (Cycle::AwaitingDocument { day }, CycleEvent::FetchFailed) => {
            &&& after == Cycle::Finished
            &&& action == CycleAction::GiveUp { failure: CycleFailure::FetchFailed }
        },
        (Cycle::AwaitingTables { day }, CycleEvent::ExtractionFailed) => {
            &&& after == Cycle::Finished
            &&& action == CycleAction::GiveUp { failure: CycleFailure::ExtractionFailed }
        },
        (Cycle::AwaitingTables { day }, CycleEvent::TablesExtracted(content)) => {
            match extraction(content@) {
                Err(fault) => {
                    &&& after == Cycle::Finished
                    &&& action == CycleAction::GiveUp { failure: CycleFailure::Unreadable(fault) }
                },
                Ok(tables) => {
                    let texts = texts_of_tables(tables);
                    if forall|t: int| 0 <= t < texts.len() ==> table_is_sound(#[trigger] texts[t]) {
                        &&& after matches Cycle::AwaitingSnapshot { day: kept, schedule }
                        &&& kept == day
                        &&& schedule@ == schedule_of(texts)
                        &&& action == CycleAction::LoadSnapshot { day }
                    } else {
                        &&& after == Cycle::Finished
                        &&& action matches CycleAction::GiveUp {
                            failure: CycleFailure::Malformed(fault),
                        }
                        &&& is_first_fault(texts, fault)
                    }
                },
            }
        },
        (Cycle::AwaitingSnapshot { day, schedule }, CycleEvent::SnapshotLoaded(record)) => {
            &&& after == Cycle::Finished
            &&& action matches CycleAction::NotifyAndSave { day: kept, notify, schedule: saved }
            &&& kept == day
            &&& saved@ == schedule@
            &&& notify.deep_view() == groups_to_notify(
                watched,
                schedule@,
                snapshot_of(stored_text(record)),
            )
        },
        _ => {
            &&& after == Cycle::Finished
            &&& action == CycleAction::GiveUp { failure: CycleFailure::OutOfTurn }
        },
    }
}

impl Cycle {
    /// A cycle for `day` that waits for the document.
    pub fn begin(day: Weekdays) -> (cycle: Cycle)
        ensures
            cycle == (Cycle::AwaitingDocument { day }),
    {
        Cycle::AwaitingDocument { day }
    }

    /// Takes what the caller reports and says what is to be done next.
    pub fn step(self, event: CycleEvent, watched: &Vec<String>) -> (next: (Cycle, CycleAction))
        ensures
            steps(self, event, watched.deep_view(), next.0, next.1),
    {
        match (self, event) {
            (Cycle::AwaitingDocument { day }, CycleEvent::DocumentFetched) => (
                Cycle::AwaitingTables { day },
                CycleAction::ExtractTables { day },
            ),
            (Cycle::AwaitingDocument { day }, CycleEvent::FetchFailed) => (
                Cycle::Finished,
                CycleAction::GiveUp { failure: CycleFailure::FetchFailed },
            ),
            (Cycle::AwaitingTables { day }, CycleEvent::ExtractionFailed) => (
                Cycle::Finished,
                CycleAction::GiveUp { failure: CycleFailure::ExtractionFailed },
            ),
            (Cycle::AwaitingTables { day }, CycleEvent::TablesExtracted(content)) => {
                match extract_tables(content.as_str()) {
                    Err(fault) => (
                        Cycle::Finished,
                        CycleAction::GiveUp { failure: CycleFailure::Unreadable(fault) },
                    ),
                    Ok(tables) => {
                        proof {
                            lemma_tables_text(tables);
                        }
                        match SubstitutionSchedule::build(&tables) {
                            Ok(schedule) => (
                                Cycle::AwaitingSnapshot { day, schedule },
                                CycleAction::LoadSnapshot { day },
                            ),
                            Err(fault) => {
                                proof {
                                    lemma_fault_is_unsound(tables.deep_view(), fault);
                                }
                                (
                                    Cycle::Finished,
                                    CycleAction::GiveUp { failure: CycleFailure::Malformed(fault) },
                                )
                            },
                        }
                    },
                }
            },
            (Cycle::AwaitingSnapshot { day, schedule }, CycleEvent::SnapshotLoaded(record)) => {
                let snapshot = match &record {
                    Some(text) => load_snapshot(Some(text.as_str())),
                    None => load_snapshot(None),
                };
                let notify = plan_notifications(watched, &schedule, &snapshot);
                (Cycle::Finished, CycleAction::NotifyAndSave { day, notify, schedule })
            },
            _ => (Cycle::Finished, CycleAction::GiveUp { failure: CycleFailure::OutOfTurn }),
        }
    }
}

/// What a list of tables stands for is the text of what the tables hold.
proof fn lemma_tables_text(tables: Vec<Table>)
    ensures
        tables.deep_view() == texts_of_tables(models_of(tables@)),
{
    assert forall|t: int| 0 <= t < tables.len() implies tables.deep_view()[t] == texts_of_tables(
        models_of(tables@),
    )[t] by {
        lemma_table_text(tables[t]);
    }
    assert(tables.deep_view() =~= texts_of_tables(models_of(tables@)));
}

/// Where a fault is found, some table cannot be read.
proof fn lemma_fault_is_unsound(tables: Seq<Seq<TextRow>>, fault: MalformedTableError)
    requires
        is_first_fault(tables, fault),
    ensures
        !(forall|t: int| 0 <= t < tables.len() ==> table_is_sound(#[trigger] tables[t])),
{
    match fault {
        MalformedTableError::EmptyTable { table } => {
            assert(!table_is_sound(tables[table as int]));
        },
        MalformedTableError::EmptyRow { table, row } => {
            assert(tables[table as int][row as int].len() == 0);
            assert(!table_is_sound(tables[table as int]));
        },
    }
}

/// The poll driver: the watched groups, and the weekdays for which a cycle is under way.
#[derive(Debug)]
pub struct PollDriver {
    watched: Vec<String>,
    in_flight: InFlight,
}

impl PollDriver {
    /// The groups whose changes are watched.
    pub closed spec fn watched(&self) -> Seq<Text> {
        self.watched.deep_view()
    }

    /// The weekdays for which a cycle is under way.
    pub closed spec fn busy(&self) -> Set<Weekdays> {
        self.in_flight@
    }

    /// A driver that watches `watched`, with no cycle under way.
    pub fn new(watched: Vec<String>) -> (driver: PollDriver)
        ensures
            driver.watched() == watched.deep_view(),
            driver.busy() == Set::<Weekdays>::empty(),
    {
        PollDriver { watched, in_flight: InFlight::new() }
    }

    /// The groups whose changes are watched.
    pub fn watched_groups(&self) -> (watched: &Vec<String>)
        ensures
            watched.deep_view() == self.watched(),
    {
        &self.watched
    }

    /// A tick of the clock on calendar day `today`: starts a cycle for the school day to
    /// look at, unless one is under way for that day; then the tick is dropped.
    pub fn tick(&mut self, today: CalendarDay) -> (started: Option<Cycle>)
        ensures
            final(self).watched() == old(self).watched(),
            final(self).busy() == old(self).busy().insert(today.school_day()),
            match started {
                Some(cycle) => !old(self).busy().contains(today.school_day()) && cycle == (
                    Cycle::AwaitingDocument { day: today.school_day() }),
                None => old(self).busy().contains(today.school_day()),
            },
    {
        let day = Weekdays::from_calendar_day(today);
        if self.in_flight.try_begin(day) {
            Some(Cycle::begin(day))
        } else {
            None
        }
    }

    /// Notes that the cycle for `day` has ended, so that the next tick for the day starts a
    /// new one.
    pub fn complete(&mut self, day: Weekdays)
        ensures
            final(self).watched() == old(self).watched(),
            final(self).busy() == old(self).busy().remove(day),
    {
        self.in_flight.finish(day);
    }
}

/// The groups to notify are exactly the watched groups that the comparison finds first seen
/// or changed.
pub proof fn lemma_notified_iff_watched_and_changed(
    watched: Seq<Text>,
    new_schedule: Map<Text, Seq<TextRow>>,
    snapshot: SnapshotModel,
    group: Text,
)
    ensures
        groups_to_notify(watched, new_schedule, snapshot).contains(group) <==> watched.contains(
            group,
        ) && classification(new_schedule, snapshot, group).notifies(),
    decreases watched.len(),
{
    let notify = groups_to_notify(watched, new_schedule, snapshot);
    if watched.len() > 0 {
        let front = watched.drop_last();
        let before = groups_to_notify(front, new_schedule, snapshot);
        lemma_notified_iff_watched_and_changed(front, new_schedule, snapshot, group);
        let last = watched.last();
        if watched.contains(group) {
            let i = choose|i: int| 0 <= i < watched.len() && watched[i] == group;
            if i < watched.len() - 1 {
                assert(front[i] == group);
            }
        }
        if front.contains(group) {
            let i = choose|i: int| 0 <= i < front.len() && front[i] == group;
            assert(watched[i] == group);
        }
        if classification(new_schedule, snapshot, last).notifies() {
            assert(notify == before.push(last));
            assert(notify[notify.len() - 1] == last);
            if notify.contains(group) {
                let i = choose|i: int| 0 <= i < notify.len() && notify[i] == group;
                if i < before.len() {
                    assert(before[i] == group);
                }
            }
            if before.contains(group) {
                let i = choose|i: int| 0 <= i < before.len() && before[i] == group;
                assert(notify[i] == group);
            }
        }
        assert(watched[watched.len() - 1] == last);
    }
}

/// While a cycle for a weekday is under way, no second one starts for it: a claim that
/// follows a claim for the same day fails, and succeeds again once the day is released.
pub proof fn lemma_single_flight(busy: Set<Weekdays>, day: Weekdays)
    ensures
        busy.insert(day).contains(day),
        busy.insert(day).insert(day) == busy.insert(day),
        !busy.insert(day).remove(day).contains(day),
{
    assert(busy.insert(day).insert(day) =~= busy.insert(day));
}

} // verus!
