//! JSON documents as trees of plain values. Reading a document from text and writing one as
//! text is `serde_json`'s work; everything else here is done on the tree.

use vstd::prelude::*;

verus! {

/// A JSON number: a non-negative integer, a negative integer, or any other number in its
/// decimal writing.
#[derive(Debug, PartialEq, Eq)]
pub enum Numeral {
    Unsigned(u64),
    Negative(i64),
    Decimal(String),
}

/// What a [`Numeral`] stands for in contracts.
pub enum NumeralModel {
    Unsigned(u64),
    Negative(i64),
    Decimal(Seq<char>),
}

impl View for Numeral {
    type V = NumeralModel;

    open spec fn view(&self) -> NumeralModel {
        match self {
            Numeral::Unsigned(n) => NumeralModel::Unsigned(*n),
            Numeral::Negative(n) => NumeralModel::Negative(*n),
            Numeral::Decimal(digits) => NumeralModel::Decimal(digits@),
        }
    }
}

impl Numeral {
    /// A copy of the number.
    pub fn copy(&self) -> (copy: Numeral)
        ensures
            copy@ == self@,
    {
        match self {
            Numeral::Unsigned(n) => Numeral::Unsigned(*n),
            Numeral::Negative(n) => Numeral::Negative(*n),
            Numeral::Decimal(digits) => Numeral::Decimal(digits.clone()),
        }
    }
}

/// A JSON document. An object holds its members as a list of names with their values.
#[derive(Debug, PartialEq, Eq)]
pub enum Json {
    Null,
    Bool(bool),
    Number(Numeral),
    Text(String),
    Array(Vec<Json>),
    Object(Vec<(String, Json)>),
}

/// What a [`Json`] document stands for in contracts.
pub enum JsonModel {
    Null,
    Bool(bool),
    Number(NumeralModel),
    Text(Seq<char>),
    Array(Seq<JsonModel>),
    Object(Seq<(Seq<char>, JsonModel)>),
}

/// What a document stands for: the same tree, with texts and lists by their contents.
pub open spec fn model_of(json: Json) -> JsonModel
    decreases json,
{
    match json {
        Json::Null => JsonModel::Null,
        Json::Bool(b) => JsonModel::Bool(b),
        Json::Number(n) => JsonModel::Number(n@),
        Json::Text(s) => JsonModel::Text(s@),
        Json::Array(items) => JsonModel::Array(
            Seq::new(
                items.len() as nat,
                |i: int|
                    if 0 <= i < items.len() {
                        model_of(items[i])
                    } else {
                        JsonModel::Null
                    },
            ),
        ),
        Json::Object(members) => JsonModel::Object(
            Seq::new(
                members.len() as nat,
                |i: int|
                    if 0 <= i < members.len() {
                        (members[i].0@, model_of(members[i].1))
                    } else {
                        (Seq::empty(), JsonModel::Null)
                    },
            ),
        ),
    }
}

impl View for Json {
    type V = JsonModel;

    open spec fn view(&self) -> JsonModel {
        model_of(*self)
    }
}

/// The value of the first member called `name`, if there is one.
pub open spec fn member(members: Seq<(Seq<char>, JsonModel)>, name: Seq<char>) -> Option<
    JsonModel,
>
    decreases members.len(),
{
    if members.len() == 0 {
        None
    } else if members[0].0 == name {
        Some(members[0].1)
    } else {
        member(members.drop_first(), name)
    }
}

/// What an object stands for: its members, one by one.
pub proof fn lemma_object_view(members: Vec<(String, Json)>)
    ensures
        Json::Object(members)@ is Object,
        Json::Object(members)@->Object_0.len() == members.len(),
        forall|k: int|
            0 <= k < members.len() ==> (#[trigger] Json::Object(members)@->Object_0[k]) == (
                members[k].0@,
                members[k].1@,
            ),
{
}

/// What an array stands for: its items, one by one.
pub proof fn lemma_array_view(items: Vec<Json>)
    ensures
        Json::Array(items)@ is Array,
        Json::Array(items)@->Array_0.len() == items.len(),
        forall|k: int|
            0 <= k < items.len() ==> (#[trigger] Json::Array(items)@->Array_0[k]) == items[k]@,
{
}

impl Json {
    /// The value of the first member called `name`, where this is an object that has one.
    pub fn get(&self, name: &str) -> (value: Option<&Json>)
        ensures
            match value {
                Some(found) => self@ is Object && member(self@->Object_0, name@) == Some(found@),
                None => self@ is Object ==> member(self@->Object_0, name@).is_none(),
            },
    {
        match self {
            Json::Object(members) => {
                let ghost all = self@->Object_0;
                proof {
                    lemma_object_view(*members);
                }
                let wanted = name.to_owned();
                let mut i: usize = 0;
                assert(all.skip(0) =~= all);
                while i < members.len()
                    invariant
                        i <= members.len(),
                        self@ is Object,
                        all == self@->Object_0,
                        all.len() == members.len(),
                        forall|k: int|
                            0 <= k < members.len() ==> (#[trigger] all[k]) == (
                                members[k].0@,
                                members[k].1@,
                            ),
                        wanted@ == name@,
                        member(all, name@) == member(all.skip(i as int), name@),
                    decreases members.len() - i,
                {
                    assert(all.skip(i as int)[0] == all[i as int]);
                    assert(all.skip(i as int).drop_first() =~= all.skip(i + 1));
                    if members[i].0 == wanted {
                        return Some(&members[i].1);
                    }
                    i += 1;
                }
                None
            },
            _ => None,
        }
    }
}

/// What each of the values reads as, in order, if each of them reads as something.
pub open spec fn each<A, B>(values: Seq<A>, read: spec_fn(A) -> Option<B>) -> Option<Seq<B>>
    decreases values.len(),
{
    if values.len() == 0 {
        Some(Seq::empty())
    } else {
        match (each(values.drop_last(), read), read(values.last())) {
            (Some(before), Some(value)) => Some(before.push(value)),
            _ => None,
        }
    }
}

/// Where the values before position `i` read as `before` and the value at `i` reads as
/// `value`, the values up to and with `i` read as `before` with `value` added.
pub proof fn lemma_each_next<A, B>(
    values: Seq<A>,
    read: spec_fn(A) -> Option<B>,
    i: int,
    before: Seq<B>,
    value: B,
)
    requires
        0 <= i < values.len(),
        each(values.take(i), read) == Some(before),
        read(values[i]) == Some(value),
    ensures
        each(values.take(i + 1), read) == Some(before.push(value)),
{
    assert(values.take(i + 1).drop_last() =~= values.take(i));
    assert(values.take(i + 1).last() == values[i]);
}

/// Where one value reads as nothing, the list reads as nothing.
pub proof fn lemma_each_none<A, B>(values: Seq<A>, read: spec_fn(A) -> Option<B>, i: int)
    requires
        0 <= i < values.len(),
        read(values[i]).is_none(),
    ensures
        each(values, read).is_none(),
    decreases values.len(),
{
    if i < values.len() - 1 {
        assert(values.drop_last()[i] == values[i]);
        lemma_each_none(values.drop_last(), read, i);
    }
}

/// Where each value reads as the item at its position in `items`, the list reads as `items`.
pub proof fn lemma_each_some<A, B>(values: Seq<A>, read: spec_fn(A) -> Option<B>, items: Seq<B>)
    requires
        items.len() == values.len(),
        forall|i: int| 0 <= i < values.len() ==> read(#[trigger] values[i]) == Some(items[i]),
    ensures
        each(values, read) == Some(items),
    decreases values.len(),
{
    if values.len() == 0 {
        assert(items =~= Seq::<B>::empty());
    } else {
        assert forall|i: int| 0 <= i < values.drop_last().len() implies read(
            #[trigger] values.drop_last()[i],
        ) == Some(items.drop_last()[i]) by {
            assert(values.drop_last()[i] == values[i]);
        }
        lemma_each_some(values.drop_last(), read, items.drop_last());
        assert(read(values[values.len() - 1]) == Some(items[values.len() - 1]));
        assert(items.drop_last().push(items.last()) =~= items);
    }
}

/// `serde_json`'s own document type. Nothing is known of what a value of it holds.
#[verifier::external_type_specification]
#[verifier::external_body]
pub struct ExJsonValue(serde_json::Value);

/// `serde_json`'s own number type. Nothing is known of what a value of it holds.
#[verifier::external_type_specification]
#[verifier::external_body]
pub struct ExJsonNumber(serde_json::Number);

/// The document that `serde_json` reads from a text, if it reads one.
pub uninterp spec fn json_decoding(text: Seq<char>) -> Option<JsonModel>;

/// `serde_json::Number::as_u64`, `as_i64` and `to_string`: the number as an unsigned integer
/// where it is one, else as a signed integer where it is one, else in its decimal writing.
#[verifier::external_body]
fn number_of(n: &serde_json::Number) -> Numeral {
    match (n.as_u64(), n.as_i64()) {
        (Some(u), _) => Numeral::Unsigned(u),
        (None, Some(i)) => Numeral::Negative(i),
        (None, None) => Numeral::Decimal(n.to_string()),
    }
}

/// A `serde_json::Value` taken apart, variant by variant, into a [`Json`] tree of the same
/// shape; the members of an object come in the order in which its map hands them out.
#[verifier::external_body]
fn tree_of(value: serde_json::Value) -> Json {
    match value {
        serde_json::Value::Null => Json::Null,
        serde_json::Value::Bool(b) => Json::Bool(b),
        serde_json::Value::Number(n) => Json::Number(number_of(&n)),
        serde_json::Value::String(s) => Json::Text(s),
        serde_json::Value::Array(items) => Json::Array(items.into_iter().map(tree_of).collect()),
        serde_json::Value::Object(members) => Json::Object(
            members.into_iter().map(|(name, v)| (name, tree_of(v))).collect(),
        ),
    }
}

/// `serde_json::from_str` at type `serde_json::Value`, with its result turned into a [`Json`]
/// tree: reads one JSON document from a text. Whether a document is read, and which, depends
/// on the text alone; `None` stands for any error that `serde_json` reports.
#[verifier::external_body]
fn read_json(text: &str) -> (document: Option<Json>)
    ensures
        match document {
            Some(tree) => json_decoding(text@) == Some(tree@),
            None => json_decoding(text@).is_none(),
        },
{
    serde_json::from_str::<serde_json::Value>(text).ok().map(tree_of)
}

/// Reads one JSON document from a text; `None` where the text holds none.
pub fn decode(text: &str) -> (document: Option<Json>)
    ensures
        match document {
            Some(tree) => json_decoding(text@) == Some(tree@),
            None => json_decoding(text@).is_none(),
        },
{
    read_json(text)
}

/// The text that `serde_json` writes for a document, if it writes one.
pub uninterp spec fn json_encoding(document: JsonModel) -> Option<Seq<char>>;

/// `serde_json::Value::from` for integers and `str::parse` at type `serde_json::Number`: the
/// value that holds the number; `null` for a decimal writing that `serde_json` does not read
/// as a number.
#[verifier::external_body]
fn value_of_number(n: &Numeral) -> serde_json::Value {
    match n {
        Numeral::Unsigned(u) => serde_json::Value::from(*u),
        Numeral::Negative(i) => serde_json::Value::from(*i),
        Numeral::Decimal(digits) => digits.parse::<serde_json::Number>().map_or(
            serde_json::Value::Null,
            serde_json::Value::Number,
        ),
    }
}

/// A [`Json`] tree put together, variant by variant, as a `serde_json::Value` of the same
/// shape. Where an object lists a name twice, the map keeps the later value.
#[verifier::external_body]
fn value_of(tree: &Json) -> serde_json::Value {
    match tree {
        Json::Null => serde_json::Value::Null,
        Json::Bool(b) => serde_json::Value::Bool(*b),
        Json::Number(n) => value_of_number(n),
        Json::Text(s) => serde_json::Value::String(s.clone()),
        Json::Array(items) => serde_json::Value::Array(items.iter().map(value_of).collect()),
        Json::Object(members) => serde_json::Value::Object(
            members.iter().map(|(name, v)| (name.clone(), value_of(v))).collect(),
        ),
    }
}

/// `serde_json::to_string_pretty` at type `serde_json::Value`, on the value put together from
/// a [`Json`] tree: writes a document as indented JSON text. Whether a text is written, and
/// which, depends on the document alone; `None` stands for any error that `serde_json`
/// reports.
#[verifier::external_body]
fn write_json(tree: &Json) -> (text: Option<String>)
    ensures
        match text {
            Some(written) => json_encoding(tree@) == Some(written@),
            None => json_encoding(tree@).is_none(),
        },
{
    serde_json::to_string_pretty(&value_of(tree)).ok()
}

/// Writes a document as indented JSON text; `None` where it cannot be written.
pub fn encode(document: &Json) -> (text: Option<String>)
    ensures
        match text {
            Some(written) => json_encoding(document@) == Some(written@),
            None => json_encoding(document@).is_none(),
        },
{
    write_json(document)
}

} // verus!
