//! The stored records: a schedule snapshot and the subscriber registry as JSON documents.
//!
//! A snapshot is an object with one member for each group: the name of the group and the
//! array of its entries, each entry an array of texts. The registry is an object whose
//! member `classes_and_users` is an object with one member for each class: the name of the
//! class and the array of its users, each a non-negative integer.

use vstd::prelude::*;
use vstd::string::StringExecFns;
use crate::detector::{Snapshot, SnapshotModel};
use crate::grouping::{distinct_names, listed, merged, pairs_of, Group, Pairs, lemma_merged_of_distinct};
use crate::json::{
    decode, each, encode, json_decoding, json_encoding, lemma_array_view, lemma_each_next,
    lemma_each_none, lemma_each_some, lemma_object_view, member, Json, JsonModel, Numeral,
    NumeralModel,
};
use crate::registry::ClassesAndUsers;
use crate::schedule::SubstitutionSchedule;
use crate::text::{Text, TextRow};
use crate::weekday::Weekdays;

verus! {

/// The text that a value holds, if it is a text.
pub open spec fn text_in(value: JsonModel) -> Option<Text> {
    match value {
        JsonModel::Text(text) => Some(text),
        _ => None,
    }
}

/// How texts are read from values.
pub open spec fn text_reader() -> spec_fn(JsonModel) -> Option<Text> {
    |v: JsonModel| text_in(v)
}

/// The items that a value holds, if it is an array of items.
pub open spec fn items_in<V>(value: JsonModel, read: spec_fn(JsonModel) -> Option<V>) -> Option<
    Seq<V>,
> {
    match value {
        JsonModel::Array(values) => each(values, read),
        _ => None,
    }
}

/// The entry that a value holds, if it is an array of texts.
pub open spec fn entry_in(value: JsonModel) -> Option<TextRow> {
    items_in(value, text_reader())
}

/// The user that a value holds, if it is a non-negative integer.
pub open spec fn user_in(value: JsonModel) -> Option<u64> {
    match value {
        JsonModel::Number(NumeralModel::Unsigned(user_id)) => Some(user_id),
        _ => None,
    }
}

/// How entries are read from values.
pub open spec fn entry_reader() -> spec_fn(JsonModel) -> Option<TextRow> {
    |v: JsonModel| entry_in(v)
}

/// How users are read from values.
pub open spec fn user_reader() -> spec_fn(JsonModel) -> Option<u64> {
    |v: JsonModel| user_in(v)
}

/// The name and items that a member holds, if its value is an array of items.
pub open spec fn pair_in<V>(member: (Text, JsonModel), read: spec_fn(JsonModel) -> Option<V>) -> Option<
    (Text, Seq<V>),
> {
    match items_in(member.1, read) {
        Some(items) => Some((member.0, items)),
        None => None,
    }
}

/// How the members of an object are read as names with their items.
pub open spec fn pair_reader<V>(read: spec_fn(JsonModel) -> Option<V>) -> spec_fn(
    (Text, JsonModel),
) -> Option<(Text, Seq<V>)> {
    |m: (Text, JsonModel)| pair_in(m, read)
}

/// The names with their items that a value holds, if it is an object whose members all hold
/// arrays of items.
pub open spec fn pairs_in<V>(value: JsonModel, read: spec_fn(JsonModel) -> Option<V>) -> Option<
    Pairs<V>,
> {
    match value {
        JsonModel::Object(members) => each(members, pair_reader(read)),
        _ => None,
    }
}

/// The schedule that a document holds, if it is a snapshot. Where the document lists a
/// group twice, the entries of the second listing follow those of the first.
pub open spec fn schedule_in(document: JsonModel) -> Option<Map<Text, Seq<TextRow>>> {
    match pairs_in(document, entry_reader()) {
        Some(pairs) => Some(merged(pairs)),
        None => None,
    }
}

/// The registry that a document holds, if it is a registry record.
pub open spec fn registry_in(document: JsonModel) -> Option<Map<Text, Seq<u64>>> {
    match document {
        JsonModel::Object(members) => match member(members, "classes_and_users"@) {
            Some(classes) => match pairs_in(classes, user_reader()) {
                Some(pairs) => Some(merged(pairs)),
                None => None,
            },
            None => None,
        },
        _ => None,
    }
}

/// The array that holds items, one value for each item, in order.
pub open spec fn items_json<V>(items: Seq<V>, write: spec_fn(V) -> JsonModel) -> JsonModel {
    JsonModel::Array(Seq::new(items.len(), |k: int| write(items[k])))
}

/// How texts are written as values.
pub open spec fn text_writer() -> spec_fn(Text) -> JsonModel {
    |text: Text| JsonModel::Text(text)
}

/// The array of texts that holds an entry.
pub open spec fn entry_json(entry: TextRow) -> JsonModel {
    items_json(entry, text_writer())
}

/// The number that holds a user.
pub open spec fn user_json(user_id: u64) -> JsonModel {
    JsonModel::Number(NumeralModel::Unsigned(user_id))
}

/// How entries are written as values.
pub open spec fn entry_writer() -> spec_fn(TextRow) -> JsonModel {
    |entry: TextRow| entry_json(entry)
}

/// How users are written as values.
pub open spec fn user_writer() -> spec_fn(u64) -> JsonModel {
    |user_id: u64| user_json(user_id)
}

/// The object that holds names with their items: one member for each pair, in order.
pub open spec fn pairs_json<V>(pairs: Pairs<V>, write: spec_fn(V) -> JsonModel) -> JsonModel {
    JsonModel::Object(
        Seq::new(
            pairs.len(),
            |i: int| (pairs[i].0, items_json(pairs[i].1, write)),
        ),
    )
}

/// `document` is a snapshot of `schedule`: it lists each group of the schedule once, with
/// its entries.
pub open spec fn is_snapshot_of(document: JsonModel, schedule: Map<Text, Seq<TextRow>>) -> bool {
    exists|pairs: Pairs<TextRow>|
        distinct_names(pairs) && listed(pairs) == schedule && document == #[trigger] pairs_json(
            pairs,
            entry_writer(),
        )
}

/// `document` is a record of `registry`: its member `classes_and_users` lists each class of
/// the registry once, with its users.
pub open spec fn is_record_of(document: JsonModel, registry: Map<Text, Seq<u64>>) -> bool {
    exists|pairs: Pairs<u64>|
        distinct_names(pairs) && listed(pairs) == registry && document == JsonModel::Object(
            seq![("classes_and_users"@, #[trigger] pairs_json(pairs, user_writer()))],
        )
}

/// What was written item by item reads back item by item.
pub proof fn lemma_pairs_read_back<V>(
    pairs: Pairs<V>,
    write: spec_fn(V) -> JsonModel,
    read: spec_fn(JsonModel) -> Option<V>,
)
    requires
        forall|item: V| read(#[trigger] write(item)) == Some(item),
    ensures
        pairs_in(pairs_json(pairs, write), read) == Some(pairs),
{
    let members = pairs_json(pairs, write)->Object_0;
    assert forall|i: int| 0 <= i < members.len() implies pair_reader(read)(#[trigger] members[i])
        == Some(pairs[i]) by {
        let values = members[i].1->Array_0;
        assert forall|k: int| 0 <= k < values.len() implies read(#[trigger] values[k]) == Some(
            pairs[i].1[k],
        ) by {
            assert(values[k] == write(pairs[i].1[k]));
        }
        lemma_each_some(values, read, pairs[i].1);
    }
    lemma_each_some(members, pair_reader(read), pairs);
}

/// An entry that was written reads back as it was.
pub proof fn lemma_entry_reads_back(entry: TextRow)
    ensures
        entry_in(entry_json(entry)) == Some(entry),
{
    let values = entry_json(entry)->Array_0;
    assert forall|k: int| 0 <= k < values.len() implies text_reader()(#[trigger] values[k])
        == Some(entry[k]) by {
        assert(values[k] == text_writer()(entry[k]));
    }
    lemma_each_some(values, text_reader(), entry);
}

/// A snapshot of a schedule reads back as that schedule: storing round-trips exactly.
pub proof fn lemma_snapshot_reads_back(document: JsonModel, schedule: Map<Text, Seq<TextRow>>)
    requires
        is_snapshot_of(document, schedule),
    ensures
        schedule_in(document) == Some(schedule),
{
    let pairs = choose|pairs: Pairs<TextRow>|
        distinct_names(pairs) && listed(pairs) == schedule && document == #[trigger] pairs_json(
            pairs,
            entry_writer(),
        );
    assert forall|entry: TextRow| entry_reader()(#[trigger] entry_writer()(entry)) == Some(
        entry,
    ) by {
        lemma_entry_reads_back(entry);
    }
    lemma_pairs_read_back(pairs, entry_writer(), entry_reader());
    lemma_merged_of_distinct(pairs);
}

/// A record of a registry reads back as that registry: storing round-trips exactly.
pub proof fn lemma_record_reads_back(document: JsonModel, registry: Map<Text, Seq<u64>>)
    requires
        is_record_of(document, registry),
    ensures
        registry_in(document) == Some(registry),
{
    let pairs = choose|pairs: Pairs<u64>|
        distinct_names(pairs) && listed(pairs) == registry && document == JsonModel::Object(
            seq![("classes_and_users"@, #[trigger] pairs_json(pairs, user_writer()))],
        );
    lemma_pairs_read_back(pairs, user_writer(), user_reader());
    lemma_merged_of_distinct(pairs);
    let members = seq![("classes_and_users"@, pairs_json(pairs, user_writer()))];
    assert(members[0].0 == "classes_and_users"@);
    assert(member(members, "classes_and_users"@) == Some(pairs_json(pairs, user_writer())));
}

/// Why a stored record is of no use.
#[derive(Clone, Copy, Debug, PartialEq, Eq, Structural)]
pub enum CorruptRecord {
    /// The record is no JSON document.
    NotJson,
    /// The document does not have the shape of the record.
    WrongShape,
}

/// The array of texts that holds an entry.
pub fn entry_to_json(entry: &Vec<String>) -> (value: Json)
    ensures
        value@ == entry_json(entry.deep_view()),
{
    let mut values: Vec<Json> = Vec::new();
    let mut i: usize = 0;
    while i < entry.len()
        invariant
            i <= entry.len(),
            values.len() == i,
            forall|k: int| 0 <= k < i ==> (#[trigger] values[k])@ == JsonModel::Text(entry[k]@),
        decreases entry.len() - i,
    {
        values.push(Json::Text(entry[i].clone()));
        i += 1;
    }
    proof {
        lemma_array_view(values);
        assert(Json::Array(values)@->Array_0 =~= entry_json(entry.deep_view())->Array_0);
    }
    Json::Array(values)
}

/// The array that holds the entries of one group.
pub fn entries_to_json(entries: &Vec<Vec<String>>) -> (value: Json)
    ensures
        value@ == items_json(entries.deep_view(), entry_writer()),
{
    let mut values: Vec<Json> = Vec::new();
    let mut i: usize = 0;
    while i < entries.len()
        invariant
            i <= entries.len(),
            values.len() == i,
            forall|k: int|
                0 <= k < i ==> (#[trigger] values[k])@ == entry_json(entries[k].deep_view()),
        decreases entries.len() - i,
    {
        values.push(entry_to_json(&entries[i]));
        i += 1;
    }
    proof {
        lemma_array_view(values);
        assert(Json::Array(values)@->Array_0 =~= items_json(
            entries.deep_view(),
            entry_writer(),
        )->Array_0);
    }
    Json::Array(values)
}

/// The array that holds the users of one class.
pub fn users_to_json(users: &Vec<u64>) -> (value: Json)
    ensures
        value@ == items_json(users@, user_writer()),
{
    let mut values: Vec<Json> = Vec::new();
    let mut i: usize = 0;
    while i < users.len()
        invariant
            i <= users.len(),
            values.len() == i,
            forall|k: int| 0 <= k < i ==> (#[trigger] values[k])@ == user_json(users[k]),
        decreases users.len() - i,
    {
        values.push(Json::Number(Numeral::Unsigned(users[i])));
        i += 1;
    }
    proof {
        lemma_array_view(values);
        assert(Json::Array(values)@->Array_0 =~= items_json(users@, user_writer())->Array_0);
    }
    Json::Array(values)
}

/// The snapshot that holds a schedule.
pub fn snapshot_document(schedule: &SubstitutionSchedule) -> (document: Json)
    ensures
        is_snapshot_of(document@, schedule@),
{
    let groups = schedule.to_groups();
    let ghost pairs = pairs_of(groups@);
    let mut members: Vec<(String, Json)> = Vec::new();
    let mut i: usize = 0;
    while i < groups.len()
        invariant
            i <= groups.len(),
            members.len() == i,
            pairs == pairs_of(groups@),
            forall|k: int|
                0 <= k < i ==> (#[trigger] members[k]).0@ == pairs[k].0 && members[k].1@
                    == items_json(pairs[k].1, entry_writer()),
        decreases groups.len() - i,
    {
        members.push((groups[i].name.clone(), entries_to_json(&groups[i].items)));
        i += 1;
    }
    proof {
        lemma_object_view(members);
        assert(Json::Object(members)@->Object_0 =~= pairs_json(pairs, entry_writer())->Object_0);
        assert(Json::Object(members)@ == pairs_json(pairs, entry_writer()));
    }
    Json::Object(members)
}

/// The record that holds the registry.
pub fn registry_document(registry: &ClassesAndUsers) -> (document: Json)
    ensures
        is_record_of(document@, registry@),
{
    let groups = registry.to_groups();
    let ghost pairs = pairs_of(groups@);
    let mut members: Vec<(String, Json)> = Vec::new();
    let mut i: usize = 0;
    while i < groups.len()
        invariant
            i <= groups.len(),
            members.len() == i,
            pairs == pairs_of(groups@),
            forall|k: int|
                0 <= k < i ==> (#[trigger] members[k]).0@ == pairs[k].0 && members[k].1@
                    == items_json(pairs[k].1, user_writer()),
        decreases groups.len() - i,
    {
        assert(groups[i as int].items.deep_view() =~= groups[i as int].items@);
        members.push((groups[i].name.clone(), users_to_json(&groups[i].items)));
        i += 1;
    }
    let mut outer: Vec<(String, Json)> = Vec::new();
    proof {
        lemma_object_view(members);
        assert(Json::Object(members)@->Object_0 =~= pairs_json(pairs, user_writer())->Object_0);
        assert(Json::Object(members)@ == pairs_json(pairs, user_writer()));
    }
    outer.push((String::from_str("classes_and_users"), Json::Object(members)));
    proof {
        lemma_object_view(outer);
        assert(Json::Object(outer)@->Object_0 =~= seq![
            ("classes_and_users"@, pairs_json(pairs, user_writer())),
        ]);
    }
    Json::Object(outer)
}

/// The entry that a value holds, if it is an array of texts.
pub fn entry_from(value: &Json) -> (entry: Option<Vec<String>>)
    ensures
        match entry {
            Some(found) => entry_in(value@) == Some(found.deep_view()),
            None => entry_in(value@).is_none(),
        },
{
    match value {
        Json::Array(values) => {
            proof {
                lemma_array_view(*values);
            }
            let ghost all = value@->Array_0;
            let mut texts: Vec<String> = Vec::new();
            let mut i: usize = 0;
            assert(all.take(0) =~= Seq::<JsonModel>::empty());
            assert(texts.deep_view() =~= Seq::<Text>::empty());
            while i < values.len()
                invariant
                    i <= values.len(),
                    value@ is Array,
                    all == value@->Array_0,
                    all.len() == values.len(),
                    forall|k: int| 0 <= k < values.len() ==> (#[trigger] all[k]) == values[k]@,
                    each(all.take(i as int), text_reader()) == Some(texts.deep_view()),
                decreases values.len() - i,
            {
                let ghost before = texts.deep_view();
                match &values[i] {
                    Json::Text(text) => {
                        proof {
                            lemma_each_next(all, text_reader(), i as int, before, text@);
                        }
                        texts.push(text.clone());
                        assert(texts.deep_view() =~= before.push(text@));
                    },
                    _ => {
                        proof {
                            lemma_each_none(all, text_reader(), i as int);
                        }
                        return None;
                    },
                }
                i += 1;
            }
            assert(all.take(i as int) =~= all);
            Some(texts)
        },
        _ => None,
    }
}

/// The entries that a value holds, if it is an array of entries.
pub fn entries_from(value: &Json) -> (entries: Option<Vec<Vec<String>>>)
    ensures
        match entries {
            Some(found) => items_in(value@, entry_reader()) == Some(found.deep_view()),
            None => items_in(value@, entry_reader()).is_none(),
        },
{
    match value {
        Json::Array(values) => {
            proof {
                lemma_array_view(*values);
            }
            let ghost all = value@->Array_0;
            let mut entries: Vec<Vec<String>> = Vec::new();
            let mut i: usize = 0;
            assert(all.take(0) =~= Seq::<JsonModel>::empty());
            assert(entries.deep_view() =~= Seq::<TextRow>::empty());
            while i < values.len()
                invariant
                    i <= values.len(),
                    value@ is Array,
                    all == value@->Array_0,
                    all.len() == values.len(),
                    forall|k: int| 0 <= k < values.len() ==> (#[trigger] all[k]) == values[k]@,
                    each(all.take(i as int), entry_reader()) == Some(entries.deep_view()),
                decreases values.len() - i,
            {
                let ghost before = entries.deep_view();
                match entry_from(&values[i]) {
                    Some(entry) => {
                        proof {
                            lemma_each_next(
                                all,
                                entry_reader(),
                                i as int,
                                before,
                                entry.deep_view(),
                            );
                        }
                        let ghost added = entry.deep_view();
                        entries.push(entry);
                        assert(entries.deep_view() =~= before.push(added));
                    },
                    None => {
                        proof {
                            lemma_each_none(all, entry_reader(), i as int);
                        }
                        return None;
                    },
                }
                i += 1;
            }
            assert(all.take(i as int) =~= all);
            Some(entries)
        },
        _ => None,
    }
}

/// The users that a value holds, if it is an array of non-negative integers.
pub fn users_from(value: &Json) -> (users: Option<Vec<u64>>)
    ensures
        match users {
            Some(found) => items_in(value@, user_reader()) == Some(found@),
            None => items_in(value@, user_reader()).is_none(),
        },
{
    match value {
        Json::Array(values) => {
            proof {
                lemma_array_view(*values);
            }
            let ghost all = value@->Array_0;
            let mut users: Vec<u64> = Vec::new();
            let mut i: usize = 0;
            assert(all.take(0) =~= Seq::<JsonModel>::empty());
            while i < values.len()
                invariant
                    i <= values.len(),
                    value@ is Array,
                    all == value@->Array_0,
                    all.len() == values.len(),
                    forall|k: int| 0 <= k < values.len() ==> (#[trigger] all[k]) == values[k]@,
                    each(all.take(i as int), user_reader()) == Some(users@),
                decreases values.len() - i,
            {
                match &values[i] {
                    Json::Number(Numeral::Unsigned(user_id)) => {
                        proof {
                            lemma_each_next(all, user_reader(), i as int, users@, *user_id);
                        }
                        users.push(*user_id);
                    },
                    _ => {
                        proof {
                            lemma_each_none(all, user_reader(), i as int);
                        }
                        return None;
                    },
                }
                i += 1;
            }
            assert(all.take(i as int) =~= all);
            Some(users)
        },
        _ => None,
    }
}

/// The schedule that a document holds, if it is a snapshot.
pub fn schedule_from(document: &Json) -> (schedule: Option<SubstitutionSchedule>)
    ensures
        match schedule {
            Some(found) => schedule_in(document@) == Some(found@),
            None => schedule_in(document@).is_none(),
        },
{
    match document {
        Json::Object(members) => {
            proof {
                lemma_object_view(*members);
            }
            let ghost all = document@->Object_0;
            let mut groups: Vec<Group<Vec<String>>> = Vec::new();
            let mut i: usize = 0;
            assert(all.take(0) =~= Seq::<(Text, JsonModel)>::empty());
            assert(pairs_of(groups@) =~= Seq::<(Text, Seq<TextRow>)>::empty());
            while i < members.len()
                invariant
                    i <= members.len(),
                    document@ is Object,
                    all == document@->Object_0,
                    all.len() == members.len(),
                    forall|k: int|
                        0 <= k < members.len() ==> (#[trigger] all[k]) == (
                            members[k].0@,
                            members[k].1@,
                        ),
                    each(all.take(i as int), pair_reader(entry_reader())) == Some(
                        pairs_of(groups@),
                    ),
                decreases members.len() - i,
            {
                let ghost before = pairs_of(groups@);
                match entries_from(&members[i].1) {
                    Some(entries) => {
                        let ghost added = (members[i as int].0@, entries.deep_view());
                        proof {
                            lemma_each_next(
                                all,
                                pair_reader(entry_reader()),
                                i as int,
                                before,
                                added,
                            );
                        }
                        groups.push(Group { name: members[i].0.clone(), items: entries });
                        assert(pairs_of(groups@) =~= before.push(added));
                    },
                    None => {
                        proof {
                            lemma_each_none(all, pair_reader(entry_reader()), i as int);
                        }
                        return None;
                    },
                }
                i += 1;
            }
            assert(all.take(i as int) =~= all);
            Some(SubstitutionSchedule::from_groups(groups))
        },
        _ => None,
    }
}

/// The registry that a document holds, if it is a registry record.
pub fn registry_from(document: &Json) -> (registry: Option<ClassesAndUsers>)
    ensures
        match registry {
            Some(found) => registry_in(document@) == Some(found@),
            None => registry_in(document@).is_none(),
        },
{
    let classes = match document.get("classes_and_users") {
        Some(classes) => classes,
        None => {
            return None;
        },
    };
    match classes {
        Json::Object(members) => {
            proof {
                lemma_object_view(*members);
            }
            let ghost all = classes@->Object_0;
            let mut groups: Vec<Group<u64>> = Vec::new();
            let mut i: usize = 0;
            assert(all.take(0) =~= Seq::<(Text, JsonModel)>::empty());
            assert(pairs_of(groups@) =~= Seq::<(Text, Seq<u64>)>::empty());
            while i < members.len()
                invariant
                    i <= members.len(),
                    document@ is Object,
                    member(document@->Object_0, "classes_and_users"@) == Some(classes@),
                    classes@ is Object,
                    all == classes@->Object_0,
                    all.len() == members.len(),
                    forall|k: int|
                        0 <= k < members.len() ==> (#[trigger] all[k]) == (
                            members[k].0@,
                            members[k].1@,
                        ),
                    each(all.take(i as int), pair_reader(user_reader())) == Some(pairs_of(groups@)),
                decreases members.len() - i,
            {
                let ghost before = pairs_of(groups@);
                match users_from(&members[i].1) {
                    Some(users) => {
                        let ghost added = (members[i as int].0@, users@);
                        proof {
                            lemma_each_next(
                                all,
                                pair_reader(user_reader()),
                                i as int,
                                before,
                                added,
                            );
                        }
                        assert(users.deep_view() =~= users@);
                        groups.push(Group { name: members[i].0.clone(), items: users });
                        assert(pairs_of(groups@) =~= before.push(added));
                    },
                    None => {
                        proof {
                            lemma_each_none(all, pair_reader(user_reader()), i as int);
                        }
                        return None;
                    },
                }
                i += 1;
            }
            assert(all.take(i as int) =~= all);
            Some(ClassesAndUsers::from_groups(groups))
        },
        _ => None,
    }
}

/// What the snapshot store holds for a weekday, given the text stored for it, if any: no
/// text is an absent snapshot; a text that is no JSON document, or whose document is no
/// snapshot, is a corrupt one.
pub open spec fn snapshot_of(record: Option<Text>) -> SnapshotModel {
    match record {
        None => SnapshotModel::Absent,
        Some(text) => match json_decoding(text) {
            None => SnapshotModel::Corrupt,
            Some(document) => match schedule_in(document) {
                None => SnapshotModel::Corrupt,
                Some(schedule) => SnapshotModel::Present(schedule),
            },
        },
    }
}

/// The registry to start with, given the text stored for it, if any: no text is a registry
/// without classes.
pub open spec fn registry_of(record: Option<Text>) -> Result<Map<Text, Seq<u64>>, CorruptRecord> {
    match record {
        None => Ok(Map::empty()),
        Some(text) => match json_decoding(text) {
            None => Err(CorruptRecord::NotJson),
            Some(document) => match registry_in(document) {
                None => Err(CorruptRecord::WrongShape),
                Some(registry) => Ok(registry),
            },
        },
    }
}

/// The characters of a stored text, if there is one.
pub open spec fn text_of(record: Option<&str>) -> Option<Text> {
    match record {
        Some(text) => Some(text@),
        None => None,
    }
}

/// Reads the snapshot of a weekday from the text stored for it, if any.
pub fn load_snapshot(record: Option<&str>) -> (snapshot: Snapshot)
    ensures
        snapshot@ == snapshot_of(text_of(record)),
{
    match record {
        None => Snapshot::Absent,
        Some(text) => match decode(text) {
            None => Snapshot::Corrupt,
            Some(document) => match schedule_from(&document) {
                None => Snapshot::Corrupt,
                Some(schedule) => Snapshot::Present(schedule),
            },
        },
    }
}

/// The text to store as the snapshot of a schedule: a snapshot of it, written as JSON;
/// `None` where it cannot be written.
pub fn snapshot_text(schedule: &SubstitutionSchedule) -> (text: Option<String>)
    ensures
        exists|document: JsonModel| #[trigger]
            is_snapshot_of(document, schedule@) && match text {
                Some(written) => json_encoding(document) == Some(written@),
                None => json_encoding(document).is_none(),
            },
{
    let document = snapshot_document(schedule);
    let text = encode(&document);
    assert(is_snapshot_of(document@, schedule@));
    text
}

/// Reads the registry to start with from the text stored for it, if any.
pub fn load_registry(record: Option<&str>) -> (registry: Result<ClassesAndUsers, CorruptRecord>)
    ensures
        match registry {
            Ok(found) => registry_of(text_of(record)) == Ok::<Map<Text, Seq<u64>>, CorruptRecord>(
                found@,
            ),
            Err(fault) => registry_of(text_of(record)) == Err::<
                Map<Text, Seq<u64>>,
                CorruptRecord,
            >(fault),
        },
{
    match record {
        None => Ok(ClassesAndUsers::default()),
        Some(text) => match decode(text) {
            None => Err(CorruptRecord::NotJson),
            Some(document) => match registry_from(&document) {
                None => Err(CorruptRecord::WrongShape),
                Some(registry) => Ok(registry),
            },
        },
    }
}

/// The text to store for the registry: a record of it, written as JSON; `None` where it
/// cannot be written.
pub fn registry_text(registry: &ClassesAndUsers) -> (text: Option<String>)
    ensures
        exists|document: JsonModel| #[trigger]
            is_record_of(document, registry@) && match text {
                Some(written) => json_encoding(document) == Some(written@),
                None => json_encoding(document).is_none(),
            },
{
    let document = registry_document(registry);
    let text = encode(&document);
    assert(is_record_of(document@, registry@));
    text
}

/// The name of the record that holds the snapshot of `day`.
pub open spec fn record_name(day: Weekdays) -> Text {
    day.name_spec() + ".json"@
}

/// The name of the record that holds the snapshot of `day`.
pub fn snapshot_file_name(day: Weekdays) -> (name: String)
    ensures
        name@ == record_name(day),
{
    let mut name = String::from_str(day.name());
    name.append(".json");
    name
}

/// Each weekday has a record of its own: no two days share a name.
pub proof fn lemma_one_record_per_weekday(first: Weekdays, second: Weekdays)
    requires
        first != second,
    ensures
        record_name(first) != record_name(second),
{
    reveal_strlit("Monday");
    reveal_strlit("Tuesday");
    reveal_strlit("Wednesday");
    reveal_strlit("Thursday");
    reveal_strlit("Friday");
    reveal_strlit(".json");
    assert(record_name(first).len() == first.name_spec().len() + 5);
    assert(record_name(second).len() == second.name_spec().len() + 5);
    assert(record_name(first)[0] == first.name_spec()[0]);
    assert(record_name(second)[0] == second.name_spec()[0]);
}

} // verus!
