//! The subscriber registry: for each class, the users to notify, in the order in which they
//! registered. A user who registers twice for a class is listed twice.

use vstd::prelude::*;
use crate::grouping::{distinct_names, held, listed, merged, pairs_of, Group, Grouping};
use crate::text::Text;

verus! {

/// The registry after `user_id` has registered for `class`: the user stands after those
/// that the class already had, whether or not the user is among them.
pub open spec fn registered(registry: Map<Text, Seq<u64>>, class: Text, user_id: u64) -> Map<
    Text,
    Seq<u64>,
> {
    registry.insert(class, held(registry, class).push(user_id))
}

/// How often `user_id` is listed among `users`.
pub open spec fn times_listed(users: Seq<u64>, user_id: u64) -> nat
    decreases users.len(),
{
    if users.len() == 0 {
        0
    } else {
        times_listed(users.drop_last(), user_id) + if users.last() == user_id {
            1nat
        } else {
            0nat
        }
    }
}

/// The classes with their subscribers.
#[derive(Debug)]
pub struct ClassesAndUsers {
    classes_and_users: Grouping<u64>,
}

impl View for ClassesAndUsers {
    type V = Map<Text, Seq<u64>>;

    closed spec fn view(&self) -> Map<Text, Seq<u64>> {
        self.classes_and_users@
    }
}

impl ClassesAndUsers {
    /// The subscribers of `class`, in the order in which they registered; none for a class
    /// that the registry does not know.
    pub open spec fn subscribers(&self, class: Text) -> Seq<u64> {
        held(self@, class)
    }

    /// A registry without classes.
    pub fn default() -> (registry: ClassesAndUsers)
        ensures
            registry@ == Map::<Text, Seq<u64>>::empty(),
    {
        ClassesAndUsers { classes_and_users: Grouping::new() }
    }

    /// Registers `user_id` for `class`, after the users that the class already has. A user
    /// who is registered already is listed once more.
    pub fn insert_user(&mut self, class: String, user_id: u64)
        ensures
            final(self)@ == registered(old(self)@, class@, user_id),
    {
        self.classes_and_users.record(class, user_id);
    }

    /// The classes that the registry knows, each once, in no particular order.
    pub fn get_classes(&self) -> (classes: Vec<String>)
        ensures
            classes.deep_view().no_duplicates(),
            classes.deep_view().to_set() == self@.dom(),
    {
        self.classes_and_users.names()
    }

    /// The subscribers of `class`, in the order in which they registered; none for a class
    /// that the registry does not know.
    pub fn subscribers_of(&self, class: &str) -> (users: Vec<u64>)
        ensures
            users@ == self.subscribers(class@),
    {
        let mut users: Vec<u64> = Vec::new();
        match self.classes_and_users.get(class) {
            Some(found) => {
                let mut i: usize = 0;
                while i < found.len()
                    invariant
                        i <= found.len(),
                        users@ == found@.take(i as int),
                    decreases found.len() - i,
                {
                    users.push(found[i]);
                    assert(found@.take(i + 1) =~= found@.take(i as int).push(found@[i as int]));
                    i += 1;
                }
                assert(found@.take(i as int) =~= found@);
                assert(found.deep_view() =~= found@);
            },
            None => {},
        }
        users
    }

    /// The registry as a list of plain records, one for each class.
    pub fn to_groups(&self) -> (list: &Vec<Group<u64>>)
        ensures
            distinct_names(pairs_of(list@)),
            listed(pairs_of(list@)) == self@,
    {
        self.classes_and_users.groups()
    }

    /// The registry that a list of plain records stands for. Where the list has several
    /// records for one class, their users follow one another in the order of the list.
    pub fn from_groups(list: Vec<Group<u64>>) -> (registry: ClassesAndUsers)
        ensures
            registry@ == merged(pairs_of(list@)),
    {
        ClassesAndUsers { classes_and_users: Grouping::from_groups(list) }
    }
}

/// Registering adds exactly one listing of the user to the class and leaves every other
/// class as it was.
pub proof fn lemma_registered_once(registry: Map<Text, Seq<u64>>, class: Text, user_id: u64)
    ensures
        registered(registry, class, user_id).dom() == registry.dom().insert(class),
        held(registered(registry, class, user_id), class) == held(registry, class).push(user_id),
        times_listed(held(registered(registry, class, user_id), class), user_id) == times_listed(
            held(registry, class),
            user_id,
        ) + 1,
        forall|other: Text|
            other != class ==> held(registered(registry, class, user_id), other) == held(
                registry,
                other,
            ),
{
    let users = held(registry, class);
    assert(users.push(user_id).drop_last() =~= users);
}

/// Registering the same user for the same class twice lists the user twice more: nothing is
/// taken for a duplicate.
pub proof fn lemma_registered_twice(registry: Map<Text, Seq<u64>>, class: Text, user_id: u64)
    ensures
        held(registered(registered(registry, class, user_id), class, user_id), class) == held(
            registry,
            class,
        ).push(user_id).push(user_id),
        times_listed(
            held(registered(registered(registry, class, user_id), class, user_id), class),
            user_id,
        ) == times_listed(held(registry, class), user_id) + 2,
{
    let once = registered(registry, class, user_id);
    lemma_registered_once(registry, class, user_id);
    lemma_registered_once(once, class, user_id);
}

} // verus!
