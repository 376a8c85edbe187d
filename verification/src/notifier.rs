//! Notifications: what is sent to whom when the schedule of a class has changed, and the
//! record of how the sending went.

use vstd::prelude::*;
use vstd::string::StringExecFns;
use crate::grouping::held;
use crate::registry::{lemma_registered_twice, registered, ClassesAndUsers};
use crate::text::Text;
use crate::weekday::Weekdays;

verus! {

/// The text that tells a subscriber of `class` that its schedule for `day` has changed.
pub open spec fn notification_text(day: Weekdays, class: Text) -> Text {
    "Es gibt eine Vertretungsplanänderung am "@ + day.name_spec() + " für Klasse "@ + class
}

/// The text that tells a subscriber of `class` that its schedule for `day` has changed.
pub fn message_for(day: Weekdays, class: &str) -> (text: String)
    ensures
        text@ == notification_text(day, class@),
{
    let mut text = String::from_str("Es gibt eine Vertretungsplanänderung am ");
    text.append(day.name());
    text.append(" für Klasse ");
    text.append(class);
    text
}

/// One message to one user.
#[derive(Debug, PartialEq, Eq)]
pub struct Notification {
    pub user_id: u64,
    pub text: String,
}

/// `plan` holds one notification for each listing of a user among `users`, in the same
/// order, each with the text for `day` and `class`.
pub open spec fn notifies_each(
    plan: Seq<Notification>,
    users: Seq<u64>,
    day: Weekdays,
    class: Text,
) -> bool {
    &&& plan.len() == users.len()
    &&& forall|i: int|
        0 <= i < plan.len() ==> {
            &&& (#[trigger] plan[i]).user_id == users[i]
            &&& plan[i].text@ == notification_text(day, class)
        }
}

/// The notifications to send when the schedule of `class` for `day` has changed: one for
/// each listing of a user among the subscribers of the class, in the order of the registry.
pub fn notifications_for(registry: &ClassesAndUsers, class: &str, day: Weekdays) -> (plan: Vec<
    Notification,
>)
    ensures
        notifies_each(plan@, registry.subscribers(class@), day, class@),
{
    let users = registry.subscribers_of(class);
    let mut plan: Vec<Notification> = Vec::new();
    let mut i: usize = 0;
    while i < users.len()
        invariant
            i <= users.len(),
            notifies_each(plan@, users@.take(i as int), day, class@),
        decreases users.len() - i,
    {
        plan.push(Notification { user_id: users[i], text: message_for(day, class) });
        i += 1;
    }
    assert(users@.take(i as int) =~= users@);
    plan
}

/// The sending of a plan, one notification after the other. A failed attempt is noted and
/// the sending goes on with the next notification.
#[derive(Debug)]
pub struct Dispatch {
    plan: Vec<Notification>,
    attempted: usize,
    failed: Vec<u64>,
}

/// The users among the first `attempted` of `plan` whose attempt, by `delivered`, failed.
pub open spec fn failures(plan: Seq<Notification>, delivered: Seq<bool>, attempted: int) -> Seq<
    u64,
>
    decreases attempted,
{
    if attempted <= 0 {
        Seq::empty()
    } else {
        let before = failures(plan, delivered, attempted - 1);
        if delivered[attempted - 1] {
            before
        } else {
            before.push(plan[attempted - 1].user_id)
        }
    }
}

impl Dispatch {
    #[verifier::type_invariant]
    spec fn within_plan(&self) -> bool {
        self.attempted <= self.plan.len()
    }

    /// The notifications to send.
    pub closed spec fn plan(&self) -> Seq<Notification> {
        self.plan@
    }

    /// How many notifications have been attempted.
    pub closed spec fn attempted(&self) -> nat {
        self.attempted as nat
    }

    /// The users whose attempt failed, in the order of the attempts.
    pub closed spec fn failed(&self) -> Seq<u64> {
        self.failed@
    }

    /// The sending of `plan`, with nothing attempted yet.
    pub fn begin(plan: Vec<Notification>) -> (dispatch: Dispatch)
        ensures
            dispatch.plan() == plan@,
            dispatch.attempted() == 0,
            dispatch.failed() == Seq::<u64>::empty(),
    {
        Dispatch { plan, attempted: 0, failed: Vec::new() }
    }

    /// The notification to attempt now, or `None` when each has been attempted.
    pub fn pending(&self) -> (next: Option<&Notification>)
        ensures
            self.attempted() <= self.plan().len(),
            match next {
                Some(notification) => self.attempted() < self.plan().len() && *notification
                    == self.plan()[self.attempted() as int],
                None => self.attempted() == self.plan().len(),
            },
    {
        proof {
            use_type_invariant(self);
        }
        if self.attempted < self.plan.len() {
            Some(&self.plan[self.attempted])
        } else {
            None
        }
    }

    /// Notes how the attempt of the pending notification went and moves on to the next,
    /// whether it was delivered or not. With nothing pending, nothing changes.
    pub fn report(&mut self, delivered: bool)
        ensures
            final(self).plan() == old(self).plan(),
            old(self).attempted() < old(self).plan().len() ==> {
                &&& final(self).attempted() == old(self).attempted() + 1
                &&& final(self).failed() == if delivered {
                    old(self).failed()
                } else {
                    old(self).failed().push(
                        old(self).plan()[old(self).attempted() as int].user_id,
                    )
                }
            },
            old(self).attempted() >= old(self).plan().len() ==> {
                &&& final(self).attempted() == old(self).attempted()
                &&& final(self).failed() == old(self).failed()
            },
    {
        proof {
            use_type_invariant(&*self);
        }
        if self.attempted < self.plan.len() {
            if !delivered {
                let user_id = self.plan[self.attempted].user_id;
                let mut failed: Vec<u64> = Vec::new();
                std::mem::swap(&mut self.failed, &mut failed);
                failed.push(user_id);
                self.failed = failed;
            }
            self.attempted = self.attempted + 1;
        }
    }

    /// The users whose attempt failed so far, in the order of the attempts.
    pub fn failed_users(&self) -> (users: &Vec<u64>)
        ensures
            users@ == self.failed(),
    {
        &self.failed
    }

    /// How many notifications have been attempted so far.
    pub fn attempts(&self) -> (count: usize)
        ensures
            count == self.attempted(),
            count <= self.plan().len(),
    {
        proof {
            use_type_invariant(self);
        }
        self.attempted
    }
}

/// The record of sending `plan` when the attempts went as `delivered` says, one outcome for
/// each notification in order. Outcomes beyond the plan are passed over; notifications
/// beyond the outcomes stay pending.
pub fn dispatch_all(plan: Vec<Notification>, delivered: &Vec<bool>) -> (dispatch: Dispatch)
    ensures
        dispatch.plan() == plan@,
        dispatch.attempted() == if delivered.len() <= plan.len() {
            delivered.len()
        } else {
            plan.len()
        },
        dispatch.failed() == failures(plan@, delivered@, dispatch.attempted() as int),
{
    let ghost all = plan@;
    let count = if delivered.len() <= plan.len() {
        delivered.len()
    } else {
        plan.len()
    };
    let mut dispatch = Dispatch::begin(plan);
    let mut i: usize = 0;
    while i < count
        invariant
            i <= count,
            count <= all.len(),
            count <= delivered.len(),
            dispatch.plan() == all,
            dispatch.attempted() == i,
            dispatch.failed() == failures(all, delivered@, i as int),
        decreases count - i,
    {
        dispatch.report(delivered[i]);
        i += 1;
    }
    dispatch
}

/// When the schedule of a class has changed, each listing of a user among its subscribers
/// gets exactly one attempt, whatever became of the attempts before it: the plan has one
/// notification for each listing, and a plan sent to its end has attempted each once.
pub proof fn lemma_one_attempt_per_subscriber(
    dispatch: Dispatch,
    users: Seq<u64>,
    day: Weekdays,
    class: Text,
)
    requires
        notifies_each(dispatch.plan(), users, day, class),
        dispatch.attempted() == dispatch.plan().len(),
    ensures
        dispatch.attempted() == users.len(),
        forall|i: int| 0 <= i < users.len() ==> (#[trigger] dispatch.plan()[i]).user_id == users[i],
{
}

/// A user who registered twice for a class gets two notifications when its schedule has
/// changed: the plan is longer by two, and its last two notifications go to that user.
pub proof fn lemma_registered_twice_notified_twice(
    plan: Seq<Notification>,
    registry: Map<Text, Seq<u64>>,
    class: Text,
    user_id: u64,
    day: Weekdays,
)
    requires
        notifies_each(
            plan,
            held(registered(registered(registry, class, user_id), class, user_id), class),
            day,
            class,
        ),
    ensures
        plan.len() == held(registry, class).len() + 2,
        plan[plan.len() - 1].user_id == user_id,
        plan[plan.len() - 2].user_id == user_id,
{
    lemma_registered_twice(registry, class, user_id);
}

} // verus!
