use substitution_scanner::notifier::{dispatch_all, message_for, notifications_for, Dispatch, Notification};
use substitution_scanner::registry::ClassesAndUsers;
use substitution_scanner::weekday::Weekdays;

#[test]
fn the_message_names_the_day_and_the_class() {
    assert_eq!(
        message_for(Weekdays::Tuesday, "BGYM191"),
        "Es gibt eine Vertretungsplanänderung am Tuesday für Klasse BGYM191"
    );
    assert_eq!(
        message_for(Weekdays::Friday, ""),
        "Es gibt eine Vertretungsplanänderung am Friday für Klasse "
    );
}

#[test]
fn each_subscriber_gets_one_notification() {
    let mut registry = ClassesAndUsers::default();
    registry.insert_user("BGYM191".to_string(), 7);
    registry.insert_user("BGT201".to_string(), 8);
    registry.insert_user("BGYM191".to_string(), 5);
    let plan = notifications_for(&registry, "BGYM191", Weekdays::Monday);
    let text = "Es gibt eine Vertretungsplanänderung am Monday für Klasse BGYM191";
    assert_eq!(
        plan,
        vec![
            Notification { user_id: 7, text: text.to_string() },
            Notification { user_id: 5, text: text.to_string() },
        ]
    );
}

#[test]
fn a_user_registered_twice_gets_two_notifications() {
    let mut registry = ClassesAndUsers::default();
    registry.insert_user("BGYM191".to_string(), 7);
    registry.insert_user("BGYM191".to_string(), 7);
    let plan = notifications_for(&registry, "BGYM191", Weekdays::Wednesday);
    assert_eq!(plan.len(), 2);
    assert_eq!(plan[0].user_id, 7);
    assert_eq!(plan[1].user_id, 7);
}

#[test]
fn an_unknown_class_gets_no_notification() {
    let mut registry = ClassesAndUsers::default();
    registry.insert_user("BGYM191".to_string(), 7);
    assert!(notifications_for(&registry, "BGT201", Weekdays::Monday).is_empty());
}

#[test]
fn a_failed_attempt_does_not_stop_the_sending() {
    let mut registry = ClassesAndUsers::default();
    for user_id in [1, 2, 3] {
        registry.insert_user("BGYM191".to_string(), user_id);
    }
    let plan = notifications_for(&registry, "BGYM191", Weekdays::Thursday);
    let mut dispatch = Dispatch::begin(plan);
    assert_eq!(dispatch.attempts(), 0);
    assert_eq!(dispatch.pending().map(|n| n.user_id), Some(1));
    dispatch.report(false);
    assert_eq!(dispatch.pending().map(|n| n.user_id), Some(2));
    dispatch.report(true);
    assert_eq!(dispatch.pending().map(|n| n.user_id), Some(3));
    dispatch.report(false);
    assert_eq!(dispatch.pending(), None);
    assert_eq!(dispatch.attempts(), 3);
    assert_eq!(dispatch.failed_users(), &vec![1, 3]);
    dispatch.report(false);
    assert_eq!(dispatch.attempts(), 3);
    assert_eq!(dispatch.failed_users(), &vec![1, 3]);
}

#[test]
fn a_whole_plan_is_attempted_once_each() {
    let plan = vec![
        Notification { user_id: 4, text: "a".to_string() },
        Notification { user_id: 5, text: "b".to_string() },
        Notification { user_id: 4, text: "c".to_string() },
    ];
    let dispatch = dispatch_all(plan, &vec![false, true, false]);
    assert_eq!(dispatch.attempts(), 3);
    assert_eq!(dispatch.failed_users(), &vec![4, 4]);
    assert_eq!(dispatch.pending(), None);
    let nothing = dispatch_all(Vec::new(), &Vec::new());
    assert_eq!(nothing.attempts(), 0);
    assert!(nothing.failed_users().is_empty());
}

#[test]
fn outcomes_and_plan_of_unequal_length_are_matched_from_the_front() {
    let plan = || {
        vec![
            Notification { user_id: 4, text: "a".to_string() },
            Notification { user_id: 5, text: "b".to_string() },
        ]
    };
    let short = dispatch_all(plan(), &vec![false]);
    assert_eq!(short.attempts(), 1);
    assert_eq!(short.failed_users(), &vec![4]);
    assert_eq!(short.pending().map(|n| n.user_id), Some(5));
    let long = dispatch_all(plan(), &vec![true, false, false, false]);
    assert_eq!(long.attempts(), 2);
    assert_eq!(long.failed_users(), &vec![5]);
    assert_eq!(long.pending(), None);
}
