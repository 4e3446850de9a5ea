//! Calendar dates and times of day, read from text through chrono.
use vstd::prelude::*;

verus! {

/// A calendar date with no time component.
#[derive(Clone, Copy, Debug, PartialEq, Eq, Structural)]
pub struct Date {
    pub year: i32,
    pub month: u32,
    pub day: u32,
}

impl Date {
    pub open spec fn wf(&self) -> bool {
        1 <= self.month <= 12 && 1 <= self.day <= days_in_month(self.year as int, self.month as int)
    }
}

/// Whether `year` is a leap year of the proleptic Gregorian calendar.
pub open spec fn is_leap_year(year: int) -> bool {
    year % 4 == 0 && (year % 100 != 0 || year % 400 == 0)
}

/// The number of days of a month.
pub open spec fn days_in_month(year: int, month: int) -> int {
    if month == 2 {
        if is_leap_year(year) { 29 } else { 28 }
    } else if month == 4 || month == 6 || month == 9 || month == 11 {
        30
    } else {
        31
    }
}

/// A time of day: whole seconds since midnight and the fraction in
/// nanoseconds (a leap second shows as a fraction of a billion or more).
#[derive(Clone, Copy, Debug, PartialEq, Eq, Structural)]
pub struct TimeOfDay {
    pub secs: u32,
    pub nanos: u32,
}

impl TimeOfDay {
    pub open spec fn wf(&self) -> bool {
        self.secs < 86400 && self.nanos < 2_000_000_000
    }

    /// A time with no seconds and no fraction.
    pub open spec fn whole_minute(&self) -> bool {
        self.secs % 60 == 0 && self.nanos == 0
    }

    pub open spec fn hour_spec(&self) -> int {
        self.secs as int / 3600
    }

    pub open spec fn minute_spec(&self) -> int {
        (self.secs as int / 60) % 60
    }

    pub fn hour(&self) -> (r: u32)
        ensures
            r as int == self.hour_spec(),
    {
        self.secs / 3600
    }

    pub fn minute(&self) -> (r: u32)
        ensures
            r as int == self.minute_spec(),
    {
        (self.secs / 60) % 60
    }

    /// Strict chronological order.
    pub fn is_before(&self, other: &TimeOfDay) -> (r: bool)
        ensures
            r == time_lt(*self, *other),
    {
        self.secs < other.secs || (self.secs == other.secs && self.nanos < other.nanos)
    }
}

/// Strict chronological order on times of day.
pub open spec fn time_lt(a: TimeOfDay, b: TimeOfDay) -> bool {
    a.secs < b.secs || (a.secs == b.secs && a.nanos < b.nanos)
}

/// Between whole minutes of the day, chronological order is the order of
/// their `HH:MM` readings: earlier hour, or same hour and earlier minute.
pub proof fn lemma_minute_order(a: TimeOfDay, b: TimeOfDay)
    requires
        a.wf(),
        b.wf(),
        a.whole_minute(),
        b.whole_minute(),
    ensures
        time_lt(a, b) <==> (a.hour_spec() < b.hour_spec() || (a.hour_spec() == b.hour_spec()
            && a.minute_spec() < b.minute_spec())),
        a == b <==> (a.hour_spec() == b.hour_spec() && a.minute_spec() == b.minute_spec()),
{
    let x = a.secs as int;
    let y = b.secs as int;
    assert(x == 3600 * (x / 3600) + 60 * ((x / 60) % 60)) by (nonlinear_arith)
        requires x % 60 == 0, x >= 0;
    assert(y == 3600 * (y / 3600) + 60 * ((y / 60) % 60)) by (nonlinear_arith)
        requires y % 60 == 0, y >= 0;
    assert(0 <= (x / 60) % 60 < 60);
    assert(0 <= (y / 60) % 60 < 60);
}

/// The date that chrono reads from the text, if any.
pub uninterp spec fn date_of_text(s: Seq<char>) -> Option<Date>;

/// The time of day that chrono reads from the text, if any.
pub uninterp spec fn time_of_text(s: Seq<char>) -> Option<TimeOfDay>;

/// Relies on chrono's `NaiveDate::parse_from_str` with the format `%Y-%m-%d`:
/// the result depends on the text alone, and a `NaiveDate` is always a real
/// calendar date.
#[verifier::external_body]
pub(crate) fn read_date(s: &str) -> (r: Option<Date>)
    ensures
        r == date_of_text(s@),
        r matches Some(d) ==> d.wf(),
{
    match chrono::NaiveDate::parse_from_str(s, "%Y-%m-%d") {
        Ok(d) => Some(Date {
            year: chrono::Datelike::year(&d),
            month: chrono::Datelike::month(&d),
            day: chrono::Datelike::day(&d),
        }),
        Err(_) => None,
    }
}

/// Relies on chrono's `NaiveTime::parse_from_str` with the format `%H:%M`: the
/// result depends on the text alone, and, the format giving no seconds, it is a
/// whole minute of the day.
#[verifier::external_body]
pub(crate) fn read_time(s: &str) -> (r: Option<TimeOfDay>)
    ensures
        r == time_of_text(s@),
        r matches Some(t) ==> t.wf() && t.whole_minute(),
{
    match chrono::NaiveTime::parse_from_str(s, "%H:%M") {
        Ok(t) => Some(TimeOfDay {
            secs: chrono::Timelike::num_seconds_from_midnight(&t),
            nanos: chrono::Timelike::nanosecond(&t),
        }),
        Err(_) => None,
    }
}

} // verus!
