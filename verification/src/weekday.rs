//! The five school weekdays as a cyclic sequence.

use vstd::prelude::*;

verus! {

/// A weekday on which a substitution schedule is published. The days are ordered from
/// Monday to Friday.
#[derive(Clone, Copy, Debug, PartialEq, Eq, PartialOrd, Ord, Hash, Structural)]
pub enum Weekdays {
    Monday,
    Tuesday,
    Wednesday,
    Thursday,
    Friday,
}

/// A day of the calendar week, weekends included. The days are ordered from Monday to
/// Sunday.
#[derive(Clone, Copy, Debug, PartialEq, Eq, PartialOrd, Ord, Hash, Structural)]
pub enum CalendarDay {
    Monday,
    Tuesday,
    Wednesday,
    Thursday,
    Friday,
    Saturday,
    Sunday,
}

/// The weekday at position `n` of the school week, counted from Monday as 0.
/// Positions past Friday fall back to Monday.
pub open spec fn weekday_at(n: int) -> Weekdays {
    if n == 1 {
        Weekdays::Tuesday
    } else if n == 2 {
        Weekdays::Wednesday
    } else if n == 3 {
        Weekdays::Thursday
    } else if n == 4 {
        Weekdays::Friday
    } else {
        Weekdays::Monday
    }
}

impl CalendarDay {
    /// The school day to look at on this calendar day: the day itself from Monday to Friday,
    /// and Monday on a Saturday or a Sunday.
    pub open spec fn school_day(self) -> Weekdays {
        match self {
            CalendarDay::Monday => Weekdays::Monday,
            CalendarDay::Tuesday => Weekdays::Tuesday,
            CalendarDay::Wednesday => Weekdays::Wednesday,
            CalendarDay::Thursday => Weekdays::Thursday,
            CalendarDay::Friday => Weekdays::Friday,
            CalendarDay::Saturday => Weekdays::Monday,
            CalendarDay::Sunday => Weekdays::Monday,
        }
    }
}

impl Weekdays {
    /// Position of the day in the school week: Monday is 0, Friday is 4.
    pub open spec fn ordinal_spec(self) -> int {
        match self {
            Weekdays::Monday => 0,
            Weekdays::Tuesday => 1,
            Weekdays::Wednesday => 2,
            Weekdays::Thursday => 3,
            Weekdays::Friday => 4,
        }
    }

    /// The cyclic successor: the next position, with Friday wrapping to Monday.
    pub open spec fn next_spec(self) -> Weekdays {
        weekday_at((self.ordinal_spec() + 1) % 5)
    }

    /// Position of the day in the school week: Monday is 0, Friday is 4.
    pub fn ordinal(self) -> (n: usize)
        ensures
            n == self.ordinal_spec(),
            n < 5,
    {
        match self {
            Weekdays::Monday => 0,
            Weekdays::Tuesday => 1,
            Weekdays::Wednesday => 2,
            Weekdays::Thursday => 3,
            Weekdays::Friday => 4,
        }
    }

    /// The school day to look at on a calendar day: the day itself from Monday to Friday,
    /// and Monday on a Saturday or a Sunday.
    pub fn from_calendar_day(day: CalendarDay) -> (weekday: Weekdays)
        ensures
            weekday == day.school_day(),
    {
        match day {
            CalendarDay::Monday => Weekdays::Monday,
            CalendarDay::Tuesday => Weekdays::Tuesday,
            CalendarDay::Wednesday => Weekdays::Wednesday,
            CalendarDay::Thursday => Weekdays::Thursday,
            CalendarDay::Friday => Weekdays::Friday,
            CalendarDay::Saturday => Weekdays::Monday,
            CalendarDay::Sunday => Weekdays::Monday,
        }
    }

    /// The English name of the day.
    pub open spec fn name_spec(self) -> Seq<char> {
        match self {
            Weekdays::Monday => "Monday"@,
            Weekdays::Tuesday => "Tuesday"@,
            Weekdays::Wednesday => "Wednesday"@,
            Weekdays::Thursday => "Thursday"@,
            Weekdays::Friday => "Friday"@,
        }
    }

    /// The English name of the day.
    pub fn name(self) -> (name: &'static str)
        ensures
            name@ == self.name_spec(),
    {
        match self {
            Weekdays::Monday => "Monday",
            Weekdays::Tuesday => "Tuesday",
            Weekdays::Wednesday => "Wednesday",
            Weekdays::Thursday => "Thursday",
            Weekdays::Friday => "Friday",
        }
    }

    /// The school day that follows this one; Friday is followed by Monday.
    pub fn next_day(&self) -> (next: Weekdays)
        ensures
            next == self.next_spec(),
            *self != Weekdays::Friday ==> next.ordinal_spec() == self.ordinal_spec() + 1,
            *self == Weekdays::Friday ==> next == Weekdays::Monday,
    {
        match self {
            Weekdays::Monday => Weekdays::Tuesday,
            Weekdays::Tuesday => Weekdays::Wednesday,
            Weekdays::Wednesday => Weekdays::Thursday,
            Weekdays::Thursday => Weekdays::Friday,
            Weekdays::Friday => Weekdays::Monday,
        }
    }
}

/// Every day but Friday is followed by the day one position further on, and Friday by
/// Monday; five steps lead back to the day itself.
pub proof fn lemma_next_day_cycles(day: Weekdays)
    ensures
        day != Weekdays::Friday ==> day.next_spec().ordinal_spec() == day.ordinal_spec() + 1,
        day == Weekdays::Friday ==> day.next_spec() == Weekdays::Monday,
        day.next_spec() != day,
        day.next_spec().next_spec().next_spec().next_spec().next_spec() == day,
{
}

/// A day's position names the day: the day at the position of `day` is `day`.
pub proof fn lemma_weekday_at_ordinal(day: Weekdays)
    ensures
        0 <= day.ordinal_spec() < 5,
        weekday_at(day.ordinal_spec()) == day,
{
}

} // verus!
