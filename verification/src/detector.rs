//! Change detection: how the schedule just built compares, for one watched group, with the
//! snapshot kept for the same weekday.

use vstd::prelude::*;
use crate::schedule::SubstitutionSchedule;
use crate::text::{Text, TextRow};

verus! {

/// What the snapshot store holds for a weekday.
#[derive(Debug)]
pub enum Snapshot {
    /// Nothing was stored for the weekday yet.
    Absent,
    /// A record is there, but no schedule can be read from it.
    Corrupt,
    /// The schedule stored last.
    Present(SubstitutionSchedule),
}

/// What a [`Snapshot`] stands for in contracts.
pub enum SnapshotModel {
    Absent,
    Corrupt,
    Present(Map<Text, Seq<TextRow>>),
}

impl View for Snapshot {
    type V = SnapshotModel;

    open spec fn view(&self) -> SnapshotModel {
        match self {
            Snapshot::Absent => SnapshotModel::Absent,
            Snapshot::Corrupt => SnapshotModel::Corrupt,
            Snapshot::Present(schedule) => SnapshotModel::Present(schedule@),
        }
    }
}

/// The outcome of change detection for one group.
#[derive(Clone, Copy, Debug, PartialEq, Eq, Structural)]
pub enum Classification {
    /// The new schedule does not hold the group.
    NoData,
    /// The new schedule holds the group and there is no snapshot to compare with.
    FirstSeen,
    /// The new schedule holds the group and the snapshot does not show the same entries.
    Changed,
    /// The new schedule holds the group with the entries that the snapshot shows.
    Unchanged,
}

impl Classification {
    /// Whether the subscribers of the group are to be notified.
    pub open spec fn notifies_spec(self) -> bool {
        self == Classification::FirstSeen || self == Classification::Changed
    }

    /// Whether the subscribers of the group are to be notified.
    #[verifier::when_used_as_spec(notifies_spec)]
    pub fn notifies(self) -> (notify: bool)
        ensures
            notify == self.notifies_spec(),
    {
        match self {
            Classification::FirstSeen => true,
            Classification::Changed => true,
            Classification::NoData => false,
            Classification::Unchanged => false,
        }
    }
}

/// The classification of `group`, given the new schedule and the snapshot.
///
/// A group that the new schedule lacks is `NoData`, whatever the snapshot. Otherwise a
/// missing snapshot gives `FirstSeen`, an unreadable one `Changed`, and a readable one
/// `Unchanged` where it holds the group with the same entries in the same order, else
/// `Changed`.
pub open spec fn classification(
    new_schedule: Map<Text, Seq<TextRow>>,
    snapshot: SnapshotModel,
    group: Text,
) -> Classification {
    if !new_schedule.dom().contains(group) {
        Classification::NoData
    } else {
        match snapshot {
            SnapshotModel::Absent => Classification::FirstSeen,
            SnapshotModel::Corrupt => Classification::Changed,
            SnapshotModel::Present(old_schedule) => {
                if old_schedule.dom().contains(group) && old_schedule[group] == new_schedule[group] {
                    Classification::Unchanged
                } else {
                    Classification::Changed
                }
            },
        }
    }
}

/// Classifies `group`: compares what the new schedule holds for it with the snapshot.
pub fn classify(new_schedule: &SubstitutionSchedule, snapshot: &Snapshot, group: &str) -> (outcome:
    Classification)
    ensures
        outcome == classification(new_schedule@, snapshot@, group@),
{
    match new_schedule.get_entries(group) {
        None => Classification::NoData,
        Some(new_entries) => match snapshot {
            Snapshot::Absent => Classification::FirstSeen,
            Snapshot::Corrupt => Classification::Changed,
            Snapshot::Present(old_schedule) => {
                if new_schedule.equal_entries(old_schedule, group) {
                    Classification::Unchanged
                } else {
                    Classification::Changed
                }
            },
        },
    }
}

/// Without a snapshot, every group that the new schedule holds is `FirstSeen`: its
/// subscribers are notified, and it is never taken for unchanged.
pub proof fn lemma_first_cycle_is_first_seen(new_schedule: Map<Text, Seq<TextRow>>, group: Text)
    requires
        new_schedule.dom().contains(group),
    ensures
        classification(new_schedule, SnapshotModel::Absent, group) == Classification::FirstSeen,
        classification(new_schedule, SnapshotModel::Absent, group).notifies(),
{
}

/// Where the snapshot holds for a group the entries that the new schedule holds, the group
/// is `Unchanged` and nobody is notified.
pub proof fn lemma_same_entries_are_unchanged(
    new_schedule: Map<Text, Seq<TextRow>>,
    old_schedule: Map<Text, Seq<TextRow>>,
    group: Text,
)
    requires
        new_schedule.dom().contains(group),
        old_schedule.dom().contains(group),
        old_schedule[group] == new_schedule[group],
    ensures
        classification(new_schedule, SnapshotModel::Present(old_schedule), group)
            == Classification::Unchanged,
        !classification(new_schedule, SnapshotModel::Present(old_schedule), group).notifies(),
{
}

/// Where the snapshot lacks a group that the new schedule holds, or holds other entries for
/// it, the group is `Changed` and its subscribers are notified.
pub proof fn lemma_other_entries_are_changed(
    new_schedule: Map<Text, Seq<TextRow>>,
    old_schedule: Map<Text, Seq<TextRow>>,
    group: Text,
)
    requires
        new_schedule.dom().contains(group),
        !old_schedule.dom().contains(group) || old_schedule[group] != new_schedule[group],
    ensures
        classification(new_schedule, SnapshotModel::Present(old_schedule), group)
            == Classification::Changed,
        classification(new_schedule, SnapshotModel::Present(old_schedule), group).notifies(),
{
}

/// An unreadable snapshot makes every group that the new schedule holds `Changed`, whatever
/// the record may have held.
pub proof fn lemma_corrupt_snapshot_is_changed(new_schedule: Map<Text, Seq<TextRow>>, group: Text)
    requires
        new_schedule.dom().contains(group),
    ensures
        classification(new_schedule, SnapshotModel::Corrupt, group) == Classification::Changed,
        classification(new_schedule, SnapshotModel::Corrupt, group).notifies(),
{
}

/// A group that the new schedule lacks is `NoData` whatever the snapshot, and nobody is
/// notified.
pub proof fn lemma_absent_group_is_no_data(
    new_schedule: Map<Text, Seq<TextRow>>,
    snapshot: SnapshotModel,
    group: Text,
)
    requires
        !new_schedule.dom().contains(group),
    ensures
        classification(new_schedule, snapshot, group) == Classification::NoData,
        !classification(new_schedule, snapshot, group).notifies(),
{
}

/// Groups are classified independently: the classification of a group depends on what the
/// new schedule and the snapshot hold for that group and on nothing else.
pub proof fn lemma_groups_are_independent(
    new_schedule: Map<Text, Seq<TextRow>>,
    old_schedule: Map<Text, Seq<TextRow>>,
    other_new: Map<Text, Seq<TextRow>>,
    other_old: Map<Text, Seq<TextRow>>,
    group: Text,
)
    requires
        new_schedule.dom().contains(group) == other_new.dom().contains(group),
        new_schedule.dom().contains(group) ==> new_schedule[group] == other_new[group],
        old_schedule.dom().contains(group) == other_old.dom().contains(group),
        old_schedule.dom().contains(group) ==> old_schedule[group] == other_old[group],
    ensures
        classification(new_schedule, SnapshotModel::Present(old_schedule), group)
            == classification(other_new, SnapshotModel::Present(other_old), group),
        classification(new_schedule, SnapshotModel::Absent, group) == classification(
            other_new,
            SnapshotModel::Absent,
            group,
        ),
        classification(new_schedule, SnapshotModel::Corrupt, group) == classification(
            other_new,
            SnapshotModel::Corrupt,
            group,
        ),
{
}

} // verus!
