use substitution_scanner::weekday::{CalendarDay, Weekdays};

#[test]
fn friday_is_followed_by_monday() {
    assert_eq!(Weekdays::Friday.next_day(), Weekdays::Monday);
}

#[test]
fn every_other_day_is_followed_by_the_next_position() {
    assert_eq!(Weekdays::Monday.next_day(), Weekdays::Tuesday);
    assert_eq!(Weekdays::Tuesday.next_day(), Weekdays::Wednesday);
    assert_eq!(Weekdays::Wednesday.next_day(), Weekdays::Thursday);
    assert_eq!(Weekdays::Thursday.next_day(), Weekdays::Friday);
    for day in [Weekdays::Monday, Weekdays::Tuesday, Weekdays::Wednesday, Weekdays::Thursday] {
        assert_eq!(day.next_day().ordinal(), day.ordinal() + 1);
    }
}

#[test]
fn ordinals_run_from_zero_to_four() {
    assert_eq!(Weekdays::Monday.ordinal(), 0);
    assert_eq!(Weekdays::Tuesday.ordinal(), 1);
    assert_eq!(Weekdays::Wednesday.ordinal(), 2);
    assert_eq!(Weekdays::Thursday.ordinal(), 3);
    assert_eq!(Weekdays::Friday.ordinal(), 4);
}

#[test]
fn five_steps_lead_back() {
    for day in [
        Weekdays::Monday,
        Weekdays::Tuesday,
        Weekdays::Wednesday,
        Weekdays::Thursday,
        Weekdays::Friday,
    ] {
        let back = day.next_day().next_day().next_day().next_day().next_day();
        assert_eq!(back, day);
        assert_ne!(day.next_day(), day);
    }
}

#[test]
fn school_days_map_to_themselves() {
    assert_eq!(Weekdays::from_calendar_day(CalendarDay::Monday), Weekdays::Monday);
    assert_eq!(Weekdays::from_calendar_day(CalendarDay::Tuesday), Weekdays::Tuesday);
    assert_eq!(Weekdays::from_calendar_day(CalendarDay::Wednesday), Weekdays::Wednesday);
    assert_eq!(Weekdays::from_calendar_day(CalendarDay::Thursday), Weekdays::Thursday);
    assert_eq!(Weekdays::from_calendar_day(CalendarDay::Friday), Weekdays::Friday);
}

#[test]
fn weekend_days_fall_back_to_monday() {
    assert_eq!(Weekdays::from_calendar_day(CalendarDay::Saturday), Weekdays::Monday);
    assert_eq!(Weekdays::from_calendar_day(CalendarDay::Sunday), Weekdays::Monday);
}

#[test]
fn days_have_english_names() {
    assert_eq!(Weekdays::Monday.name(), "Monday");
    assert_eq!(Weekdays::Tuesday.name(), "Tuesday");
    assert_eq!(Weekdays::Wednesday.name(), "Wednesday");
    assert_eq!(Weekdays::Thursday.name(), "Thursday");
    assert_eq!(Weekdays::Friday.name(), "Friday");
}

#[test]
fn days_are_ordered_by_their_position() {
    let days = [
        Weekdays::Monday,
        Weekdays::Tuesday,
        Weekdays::Wednesday,
        Weekdays::Thursday,
        Weekdays::Friday,
    ];
    for earlier in days {
        for later in days {
            assert_eq!(earlier < later, earlier.ordinal() < later.ordinal());
            assert_eq!(earlier == later, earlier.ordinal() == later.ordinal());
        }
    }
    assert!(CalendarDay::Friday < CalendarDay::Saturday);
    assert!(CalendarDay::Saturday < CalendarDay::Sunday);
}
