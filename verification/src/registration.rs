//! Registration requests: a user asks to be notified about a class.

use vstd::prelude::*;
use vstd::string::{StrSliceExecFns, StringExecFns};
use crate::registry::{registered, ClassesAndUsers};
use crate::text::Text;

verus! {

/// Why a registration request is refused.
#[derive(Clone, Copy, Debug, PartialEq, Eq, Structural)]
pub enum RegistrationError {
    /// The name of the class has fewer than three characters.
    NameTooShort,
}

/// A class can be registered for when its name has at least three characters.
pub open spec fn acceptable_class(class: Text) -> bool {
    class.len() >= 3
}

/// Whether a class can be registered for: its name has at least three characters.
pub fn is_acceptable_class(class: &str) -> (acceptable: bool)
    ensures
        acceptable == acceptable_class(class@),
{
    class.unicode_len() >= 3
}

/// Registers `user_id` for `class`. A name of fewer than three characters is refused and
/// the registry stays as it was; any other name is registered, also for a user who is
/// registered for the class already.
pub fn register(registry: &mut ClassesAndUsers, class: String, user_id: u64) -> (outcome: Result<
    (),
    RegistrationError,
>)
    ensures
        acceptable_class(class@) ==> outcome.is_ok() && final(registry)@ == registered(
            old(registry)@,
            class@,
            user_id,
        ),
        !acceptable_class(class@) ==> outcome == Err::<(), RegistrationError>(
            RegistrationError::NameTooShort,
        ) && final(registry)@ == old(registry)@,
{
    if !is_acceptable_class(class.as_str()) {
        return Err(RegistrationError::NameTooShort);
    }
    registry.insert_user(class, user_id);
    Ok(())
}

/// The answer to the user who asked to be registered for `class`.
pub open spec fn reply_text(accepted: bool, class: Text) -> Text {
    if accepted {
        "Registered you for class "@ + class
    } else {
        "Incorrect Arguments"@
    }
}

/// The answer to the user who asked to be registered for `class`.
pub fn reply_for(outcome: &Result<(), RegistrationError>, class: &str) -> (reply: String)
    ensures
        reply@ == reply_text(outcome.is_ok(), class@),
{
    match outcome {
        Ok(_) => {
            let mut reply = String::from_str("Registered you for class ");
            reply.append(class);
            reply
        },
        Err(_) => String::from_str("Incorrect Arguments"),
    }
}

/// A class that was registered for is among the classes of the registry, and a request that
/// was refused has not reached the registry.
pub proof fn lemma_registration_reaches_registry(
    registry: Map<Text, Seq<u64>>,
    class: Text,
    user_id: u64,
)
    ensures
        registered(registry, class, user_id).dom().contains(class),
        registered(registry, class, user_id)[class].last() == user_id,
{
}

} // verus!
