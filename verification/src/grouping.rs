//! Items kept under names: for each name the items recorded under it, in the order in which
//! they were recorded.

use vstd::prelude::*;
use crate::text::Text;

verus! {

/// The items of one name, as a plain record.
#[derive(Debug, PartialEq, Eq)]
pub struct Group<T> {
    pub name: String,
    pub items: Vec<T>,
}

/// A list of names with their items, as contracts speak of it.
pub type Pairs<V> = Seq<(Text, Seq<V>)>;

/// The names and items of a list of records.
pub open spec fn pairs_of<T: DeepView>(list: Seq<Group<T>>) -> Pairs<T::V> {
    Seq::new(list.len(), |i: int| (list[i].name@, list[i].items.deep_view()))
}

/// Whether some pair of the list is for `name`.
pub open spec fn has_name<V>(pairs: Pairs<V>, name: Text) -> bool {
    exists|i: int| 0 <= i < pairs.len() && (#[trigger] pairs[i]).0 == name
}

/// The position of a pair for `name` in the list.
pub open spec fn place_of<V>(pairs: Pairs<V>, name: Text) -> int {
    choose|i: int| 0 <= i < pairs.len() && (#[trigger] pairs[i]).0 == name
}

/// No name has two pairs in the list.
pub open spec fn distinct_names<V>(pairs: Pairs<V>) -> bool {
    forall|i: int, j: int|
        0 <= i < j < pairs.len() ==> (#[trigger] pairs[i]).0 != (#[trigger] pairs[j]).0
}

/// The mapping that a list with one pair for each name stands for.
pub open spec fn listed<V>(pairs: Pairs<V>) -> Map<Text, Seq<V>> {
    Map::new(|name: Text| has_name(pairs, name), |name: Text| pairs[place_of(pairs, name)].1)
}

/// The items that a mapping holds for `name`; none where it does not hold the name.
pub open spec fn held<V>(mapping: Map<Text, Seq<V>>, name: Text) -> Seq<V> {
    if mapping.dom().contains(name) {
        mapping[name]
    } else {
        Seq::empty()
    }
}

/// The mapping that a list of pairs builds up, read from first to last: each pair adds its
/// items after those that its name already has.
pub open spec fn merged<V>(pairs: Pairs<V>) -> Map<Text, Seq<V>>
    decreases pairs.len(),
{
    if pairs.len() == 0 {
        Map::empty()
    } else {
        let before = merged(pairs.drop_last());
        let pair = pairs.last();
        before.insert(pair.0, held(before, pair.0) + pair.1)
    }
}

/// In a list with one pair for each name, the pair at position `i` is the one that the
/// mapping holds for its name.
pub proof fn lemma_listed_at<V>(pairs: Pairs<V>, i: int)
    requires
        distinct_names(pairs),
        0 <= i < pairs.len(),
    ensures
        listed(pairs).dom().contains(pairs[i].0),
        listed(pairs)[pairs[i].0] == pairs[i].1,
        place_of(pairs, pairs[i].0) == i,
{
    let name = pairs[i].0;
    assert(has_name(pairs, name));
    let p = place_of(pairs, name);
    assert(0 <= p < pairs.len() && pairs[p].0 == name);
    if p < i {
        assert(pairs[p].0 != pairs[i].0);
    } else if i < p {
        assert(pairs[i].0 != pairs[p].0);
    }
}

/// A list with one pair for each name stands for the mapping that holds exactly its pairs.
pub proof fn lemma_listed_is<V>(pairs: Pairs<V>, mapping: Map<Text, Seq<V>>)
    requires
        distinct_names(pairs),
        forall|i: int|
            0 <= i < pairs.len() ==> {
                &&& mapping.dom().contains((#[trigger] pairs[i]).0)
                &&& mapping[pairs[i].0] == pairs[i].1
            },
        forall|name: Text| #[trigger] mapping.dom().contains(name) ==> has_name(pairs, name),
    ensures
        listed(pairs) == mapping,
{
    assert forall|name: Text| #[trigger] listed(pairs).dom().contains(name) implies mapping.dom().contains(
        name,
    ) && listed(pairs)[name] == mapping[name] by {
        let p = place_of(pairs, name);
        assert(mapping.dom().contains(pairs[p].0));
    }
    assert(listed(pairs) =~= mapping);
}

/// A list with one pair for each name builds up the mapping that it stands for: what
/// [`Grouping::groups`] hands out, [`Grouping::from_groups`] turns back into the same
/// grouping.
pub proof fn lemma_merged_of_distinct<V>(pairs: Pairs<V>)
    requires
        distinct_names(pairs),
    ensures
        merged(pairs) == listed(pairs),
    decreases pairs.len(),
{
    if pairs.len() == 0 {
        assert(merged(pairs) =~= listed(pairs));
    } else {
        let front = pairs.drop_last();
        let pair = pairs.last();
        let n = pairs.len() - 1;
        assert forall|i: int, j: int| 0 <= i < j < front.len() implies (#[trigger] front[i]).0 != (
        #[trigger] front[j]).0 by {
            assert(pairs[i].0 != pairs[j].0);
        }
        lemma_merged_of_distinct(front);
        assert(!has_name(front, pair.0)) by {
            if has_name(front, pair.0) {
                let p = place_of(front, pair.0);
                assert(pairs[p].0 != pairs[n].0);
            }
        }
        assert(Seq::<V>::empty() + pair.1 =~= pair.1);
        let expected = listed(front).insert(pair.0, pair.1);
        assert forall|k: int| 0 <= k < pairs.len() implies expected.dom().contains(
            (#[trigger] pairs[k]).0,
        ) && expected[pairs[k].0] == pairs[k].1 by {
            if k < n {
                assert(pairs[k] == front[k]);
                lemma_listed_at(front, k);
                assert(pairs[k].0 != pairs[n].0);
            }
        }
        assert forall|name: Text| #[trigger] expected.dom().contains(name) implies has_name(
            pairs,
            name,
        ) by {
            let p = if name == pair.0 {
                n
            } else {
                place_of(front, name)
            };
            assert(pairs[p].0 == name);
        }
        lemma_listed_is(pairs, expected);
    }
}

/// Where a record for `name` stands in the list, if there is one.
fn find_name<T: DeepView>(list: &Vec<Group<T>>, name: &str) -> (place: Option<usize>)
    ensures
        match place {
            Some(i) => i < list.len() && list[i as int].name@ == name@,
            None => !has_name(pairs_of(list@), name@),
        },
{
    let wanted = name.to_owned();
    let mut i: usize = 0;
    while i < list.len()
        invariant
            i <= list.len(),
            wanted@ == name@,
            forall|k: int| 0 <= k < i ==> (#[trigger] list[k]).name@ != name@,
        decreases list.len() - i,
    {
        if list[i].name == wanted {
            return Some(i);
        }
        i += 1;
    }
    assert forall|k: int| 0 <= k < list.len() implies (#[trigger] pairs_of(list@)[k]).0
        != name@ by {
        assert(list[k].name@ != name@);
    }
    None
}

/// Adds `items` after those that the list holds for `name`.
fn extend_list<T: DeepView>(list: &mut Vec<Group<T>>, name: String, items: Vec<T>)
    requires
        distinct_names(pairs_of(old(list)@)),
    ensures
        distinct_names(pairs_of(final(list)@)),
        listed(pairs_of(final(list)@)) == listed(pairs_of(old(list)@)).insert(
            name@,
            held(listed(pairs_of(old(list)@)), name@) + items.deep_view(),
        ),
{
    let ghost before = pairs_of(list@);
    let ghost added = items.deep_view();
    let ghost expected = listed(before).insert(name@, held(listed(before), name@) + added);
    let place = find_name(list, name.as_str());
    match place {
        Some(i) => {
            let ghost old_list = list@;
            let mut items = items;
            list[i].items.append(&mut items);
            let ghost after = pairs_of(list@);
            assert(after.len() == before.len());
            assert(forall|k: int| 0 <= k < list.len() ==> list[k].name == old_list[k].name);
            assert(forall|k: int|
                0 <= k < list.len() && k != i ==> list[k].items == old_list[k].items);
            assert(forall|k: int| 0 <= k < after.len() ==> (#[trigger] after[k]).0 == before[k].0);
            assert(forall|k: int|
                0 <= k < after.len() && k != i ==> (#[trigger] after[k]).1 == before[k].1);
            assert(after[i as int].1 =~= before[i as int].1 + added);
            assert(distinct_names(after)) by {
                assert forall|a: int, b: int| 0 <= a < b < after.len() implies (
                #[trigger] after[a]).0 != (#[trigger] after[b]).0 by {
                    assert(before[a].0 != before[b].0);
                }
            }
            proof {
                lemma_listed_at(before, i as int);
                assert forall|k: int| 0 <= k < after.len() implies expected.dom().contains(
                    (#[trigger] after[k]).0,
                ) && expected[after[k].0] == after[k].1 by {
                    lemma_listed_at(before, k);
                    if k != i {
                        assert(before[k].0 != before[i as int].0);
                    }
                }
                assert forall|g: Text| #[trigger] expected.dom().contains(g) implies has_name(
                    after,
                    g,
                ) by {
                    let p = if g == name@ {
                        i as int
                    } else {
                        place_of(before, g)
                    };
                    assert(after[p].0 == g);
                }
                lemma_listed_is(after, expected);
            }
        },
        None => {
            list.push(Group { name, items });
            let ghost after = pairs_of(list@);
            let ghost n = before.len() as int;
            assert(after.len() == n + 1);
            assert(forall|k: int| 0 <= k < n ==> (#[trigger] after[k]) == before[k]);
            assert(after[n] == (name@, added));
            assert(distinct_names(after)) by {
                assert forall|a: int, b: int| 0 <= a < b < after.len() implies (
                #[trigger] after[a]).0 != (#[trigger] after[b]).0 by {
                    if b < n {
                        assert(before[a].0 != before[b].0);
                    } else {
                        assert(before[a].0 != name@);
                    }
                }
            }
            proof {
                assert(added =~= Seq::<T::V>::empty() + added);
                assert forall|k: int| 0 <= k < after.len() implies expected.dom().contains(
                    (#[trigger] after[k]).0,
                ) && expected[after[k].0] == after[k].1 by {
                    if k < n {
                        lemma_listed_at(before, k);
                        assert(before[k].0 != name@);
                    }
                }
                assert forall|g: Text| #[trigger] expected.dom().contains(g) implies has_name(
                    after,
                    g,
                ) by {
                    let p = if g == name@ {
                        n
                    } else {
                        place_of(before, g)
                    };
                    assert(after[p].0 == g);
                }
                lemma_listed_is(after, expected);
            }
        },
    }
}

/// For each name, the items recorded under it, in the order in which they were recorded.
#[derive(Debug)]
pub struct Grouping<T> {
    groups: Vec<Group<T>>,
}

impl<T: DeepView> View for Grouping<T> {
    type V = Map<Text, Seq<T::V>>;

    closed spec fn view(&self) -> Map<Text, Seq<T::V>> {
        listed(pairs_of(self.groups@))
    }
}

impl<T> Grouping<T> {
    #[verifier::type_invariant]
    spec fn one_record_per_name(&self) -> bool {
        forall|i: int, j: int|
            0 <= i < j < self.groups.len() ==> (#[trigger] self.groups[i]).name@ != (
            #[trigger] self.groups[j]).name@
    }
}

/// A list of records with one record for each name has one pair for each name.
proof fn lemma_distinct_pairs<T: DeepView>(list: Seq<Group<T>>)
    ensures
        distinct_names(pairs_of(list)) <==> (forall|i: int, j: int|
            0 <= i < j < list.len() ==> (#[trigger] list[i]).name@ != (#[trigger] list[j]).name@),
{
    let pairs = pairs_of(list);
    if distinct_names(pairs) {
        assert forall|i: int, j: int| 0 <= i < j < list.len() implies (#[trigger] list[i]).name@
            != (#[trigger] list[j]).name@ by {
            assert(pairs[i].0 != pairs[j].0);
        }
    }
    if forall|i: int, j: int|
        0 <= i < j < list.len() ==> (#[trigger] list[i]).name@ != (#[trigger] list[j]).name@ {
        assert forall|i: int, j: int| 0 <= i < j < pairs.len() implies (#[trigger] pairs[i]).0 != (
        #[trigger] pairs[j]).0 by {
            assert(list[i].name@ != list[j].name@);
        }
    }
}

impl<T: DeepView> Grouping<T> {
    /// A grouping without names.
    pub fn new() -> (grouping: Grouping<T>)
        ensures
            grouping@ == Map::<Text, Seq<T::V>>::empty(),
    {
        let grouping = Grouping { groups: Vec::new() };
        assert(grouping@ =~= Map::<Text, Seq<T::V>>::empty());
        grouping
    }

    /// Adds `items` after those that the grouping holds for `name`.
    pub fn extend(&mut self, name: String, items: Vec<T>)
        ensures
            final(self)@ == old(self)@.insert(name@, held(old(self)@, name@) + items.deep_view()),
    {
        proof {
            use_type_invariant(&*self);
            lemma_distinct_pairs(self.groups@);
        }
        let mut groups: Vec<Group<T>> = Vec::new();
        std::mem::swap(&mut self.groups, &mut groups);
        extend_list(&mut groups, name, items);
        proof {
            lemma_distinct_pairs(groups@);
        }
        self.groups = groups;
    }

    /// Adds one item after those that the grouping holds for `name`.
    pub fn record(&mut self, name: String, item: T)
        ensures
            final(self)@ == old(self)@.insert(
                name@,
                held(old(self)@, name@).push(item.deep_view()),
            ),
    {
        let ghost added = item.deep_view();
        let mut items: Vec<T> = Vec::new();
        items.push(item);
        assert(items.deep_view() =~= seq![added]);
        assert(held(self@, name@) + seq![added] =~= held(self@, name@).push(added));
        self.extend(name, items);
    }

    /// The items of `name`, or `None` where the grouping does not hold the name.
    pub fn get(&self, name: &str) -> (items: Option<&Vec<T>>)
        ensures
            match items {
                Some(found) => self@.dom().contains(name@) && self@[name@] == found.deep_view(),
                None => !self@.dom().contains(name@),
            },
    {
        proof {
            use_type_invariant(self);
            lemma_distinct_pairs(self.groups@);
        }
        match find_name(&self.groups, name) {
            Some(i) => {
                proof {
                    lemma_listed_at(pairs_of(self.groups@), i as int);
                }
                Some(&self.groups[i].items)
            },
            None => None,
        }
    }

    /// The names that the grouping holds, each once.
    pub fn names(&self) -> (names: Vec<String>)
        ensures
            names.deep_view().no_duplicates(),
            names.deep_view().to_set() == self@.dom(),
    {
        proof {
            use_type_invariant(self);
        }
        let mut names: Vec<String> = Vec::new();
        let mut i: usize = 0;
        while i < self.groups.len()
            invariant
                i <= self.groups.len(),
                names.len() == i,
                forall|k: int| 0 <= k < i ==> names[k]@ == self.groups[k].name@,
            decreases self.groups.len() - i,
        {
            names.push(self.groups[i].name.clone());
            i += 1;
        }
        proof {
            let texts = names.deep_view();
            let pairs = pairs_of(self.groups@);
            assert forall|a: int, b: int| 0 <= a < texts.len() && 0 <= b < texts.len() && a
                != b implies texts[a] != texts[b] by {
                if a < b {
                    assert(self.groups[a].name@ != self.groups[b].name@);
                } else {
                    assert(self.groups[b].name@ != self.groups[a].name@);
                }
            }
            assert forall|g: Text| texts.to_set().contains(g) <==> self@.dom().contains(g) by {
                if texts.contains(g) {
                    let k = choose|k: int| 0 <= k < texts.len() && texts[k] == g;
                    assert(pairs[k].0 == g);
                }
                if has_name(pairs, g) {
                    let k = place_of(pairs, g);
                    assert(texts[k] == g);
                }
            }
            assert(texts.to_set() =~= self@.dom());
        }
        names
    }

    /// The grouping as a list of plain records, one for each name.
    pub fn groups(&self) -> (list: &Vec<Group<T>>)
        ensures
            distinct_names(pairs_of(list@)),
            listed(pairs_of(list@)) == self@,
    {
        proof {
            use_type_invariant(self);
            lemma_distinct_pairs(self.groups@);
        }
        &self.groups
    }

    /// The grouping that a list of plain records stands for. Where the list has several
    /// records for one name, their items follow one another in the order of the list.
    pub fn from_groups(list: Vec<Group<T>>) -> (grouping: Grouping<T>)
        ensures
            grouping@ == merged(pairs_of(list@)),
    {
        let ghost all = pairs_of(list@);
        let ghost n = all.len() as int;
        let mut rest = list;
        let mut turned: Vec<Group<T>> = Vec::new();
        while rest.len() > 0
            invariant
                rest.len() + turned.len() == n,
                n == all.len(),
                forall|k: int|
                    0 <= k < turned.len() ==> (#[trigger] turned[k]).name@ == all[n - 1 - k].0
                        && turned[k].items.deep_view() == all[n - 1 - k].1,
                forall|k: int|
                    0 <= k < rest.len() ==> (#[trigger] rest[k]).name@ == all[k].0
                        && rest[k].items.deep_view() == all[k].1,
            decreases rest.len(),
        {
            match rest.pop() {
                Some(record) => turned.push(record),
                None => {},
            }
        }
        let mut groups: Vec<Group<T>> = Vec::new();
        assert(listed(pairs_of(groups@)) =~= merged(all.take(0)));
        while turned.len() > 0
            invariant
                turned.len() <= n,
                n == all.len(),
                forall|k: int|
                    0 <= k < turned.len() ==> (#[trigger] turned[k]).name@ == all[n - 1 - k].0
                        && turned[k].items.deep_view() == all[n - 1 - k].1,
                distinct_names(pairs_of(groups@)),
                listed(pairs_of(groups@)) == merged(all.take(n - turned.len())),
            decreases turned.len(),
        {
            let ghost i = n - turned.len();
            assert(all.take(i + 1).drop_last() =~= all.take(i));
            assert(all.take(i + 1).last() == all[i]);
            match turned.pop() {
                Some(record) => {
                    assert(record.name@ == all[i].0);
                    extend_list(&mut groups, record.name, record.items);
                },
                None => {},
            }
        }
        assert(all.take(n) =~= all);
        proof {
            lemma_distinct_pairs(groups@);
        }
        Grouping { groups }
    }
}

} // verus!
