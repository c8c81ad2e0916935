use chrono::{Datelike, Timelike};
use vstd::prelude::*;

verus! {

/// A calendar date.
#[derive(Clone, Copy, Debug, PartialEq, Eq, Hash, Structural)]
pub struct CalendarDate {
    pub year: i32,
    pub month: u32,
    pub day: u32,
}

/// A date and a time of day without a time zone, to the nanosecond.
///
/// A leap second is held as second 59 with a nanosecond count of a billion or
/// more, as chrono holds it.
#[derive(Clone, Copy, Debug, PartialEq, Eq, Hash, Structural)]
pub struct Timestamp {
    pub year: i32,
    pub month: u32,
    pub day: u32,
    pub hour: u32,
    pub minute: u32,
    pub second: u32,
    pub nanosecond: u32,
}

/// What chrono's `NaiveDateTime` parser makes of a text.
pub uninterp spec fn naive_date_time_of(s: Seq<char>) -> Option<Timestamp>;

/// What chrono's `NaiveDate` parser makes of a text.
pub uninterp spec fn naive_date_of(s: Seq<char>) -> Option<CalendarDate>;

/// Relies on `<chrono::NaiveDateTime as FromStr>::from_str`: the result is a
/// function of the text alone.
#[verifier::external_body]
fn chrono_date_time(s: &str) -> (r: Option<Timestamp>)
    ensures
        r == naive_date_time_of(s@),
{
    match s.parse::<chrono::NaiveDateTime>() {
        Ok(t) => Some(Timestamp {
            year: t.year(),
            month: t.month(),
            day: t.day(),
            hour: t.hour(),
            minute: t.minute(),
            second: t.second(),
            nanosecond: t.nanosecond(),
        }),
        Err(_) => None,
    }
}

/// Relies on `<chrono::NaiveDate as FromStr>::from_str`: the result is a
/// function of the text alone.
#[verifier::external_body]
fn chrono_date(s: &str) -> (r: Option<CalendarDate>)
    ensures
        r == naive_date_of(s@),
{
    match s.parse::<chrono::NaiveDate>() {
        Ok(d) => Some(CalendarDate { year: d.year(), month: d.month(), day: d.day() }),
        Err(_) => None,
    }
}

impl CalendarDate {
    pub open spec fn spec_at_midnight(self) -> Timestamp {
        Timestamp {
            year: self.year,
            month: self.month,
            day: self.day,
            hour: 0,
            minute: 0,
            second: 0,
            nanosecond: 0,
        }
    }

    /// The first instant of this date.
    pub fn at_midnight(&self) -> (r: Timestamp)
        ensures
            r == self.spec_at_midnight(),
    {
        Timestamp {
            year: self.year,
            month: self.month,
            day: self.day,
            hour: 0,
            minute: 0,
            second: 0,
            nanosecond: 0,
        }
    }
}

/// A timestamp from what the two parsers gave: the full date and time where
/// there is one, else the date at midnight.
pub open spec fn timestamp_from_parses(
    date_time: Option<Timestamp>,
    date: Option<CalendarDate>,
) -> Option<Timestamp> {
    match date_time {
        Some(t) => Some(t),
        None => match date {
            Some(d) => Some(d.spec_at_midnight()),
            None => None,
        },
    }
}

/// A timestamp field of the input: a full date and time, or a date alone.
pub open spec fn timestamp_of_text(s: Seq<char>) -> Option<Timestamp> {
    timestamp_from_parses(naive_date_time_of(s), naive_date_of(s))
}

/// Combines the results of the date-time parser and the date parser.
pub fn combine_parses(date_time: Option<Timestamp>, date: Option<CalendarDate>) -> (r: Option<
    Timestamp,
>)
    ensures
        r == timestamp_from_parses(date_time, date),
{
    match date_time {
        Some(t) => Some(t),
        None => match date {
            Some(d) => Some(d.at_midnight()),
            None => None,
        },
    }
}

/// Reads a timestamp field: a full date and time, or a date alone, which
/// stands for its midnight.
pub fn parse_timestamp(s: &str) -> (r: Option<Timestamp>)
    ensures
        r == timestamp_of_text(s@),
{
    let full = chrono_date_time(s);
    if full.is_some() {
        return full;
    }
    combine_parses(full, chrono_date(s))
}

impl Timestamp {
    /// `self` comes strictly before `other`: date first, then time of day.
    pub open spec fn spec_before(self, other: Timestamp) -> bool {
        if self.year != other.year {
            self.year < other.year
        } else if self.month != other.month {
            self.month < other.month
        } else if self.day != other.day {
            self.day < other.day
        } else if self.hour != other.hour {
            self.hour < other.hour
        } else if self.minute != other.minute {
            self.minute < other.minute
        } else if self.second != other.second {
            self.second < other.second
        } else {
            self.nanosecond < other.nanosecond
        }
    }

    /// Whether `self` comes strictly before `other`.
    pub fn is_before(&self, other: &Timestamp) -> (r: bool)
        ensures
            r == self.spec_before(*other),
    {
        if self.year != other.year {
            self.year < other.year
        } else if self.month != other.month {
            self.month < other.month
        } else if self.day != other.day {
            self.day < other.day
        } else if self.hour != other.hour {
            self.hour < other.hour
        } else if self.minute != other.minute {
            self.minute < other.minute
        } else if self.second != other.second {
            self.second < other.second
        } else {
            self.nanosecond < other.nanosecond
        }
    }
}

} // verus!
