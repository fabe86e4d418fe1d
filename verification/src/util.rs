//! Times of last modification: from the pieces of a system time to the
//! calendar year.
use vstd::prelude::*;

verus! {

/// The calendar year, in UTC, of the instant that lies `secs` seconds and
/// `nanos` nanoseconds after 1970-01-01 00:00:00, as
/// `chrono::DateTime::from_timestamp` and `chrono::Datelike::year` give it;
/// `None` where `chrono` cannot hold the instant.
pub uninterp spec fn calendar_year(secs: int, nanos: int) -> Option<int>;

/// Calls `chrono::DateTime::from_timestamp` and `chrono::Datelike::year`.
/// Believed: the result is what [`calendar_year`] names.
#[verifier::external_body]
fn year_at(secs: i64, nanos: u32) -> (year: Option<i32>)
    ensures
        match year {
            Some(y) => calendar_year(secs as int, nanos as int) == Some(y as int),
            None => calendar_year(secs as int, nanos as int) is None,
        },
{
    chrono::DateTime::from_timestamp(secs, nanos).map(|time| chrono::Datelike::year(&time))
}

/// A point in time as its distance from 1970-01-01 00:00:00 UTC: whole
/// seconds and nanoseconds, and whether it lies before that instant.
#[derive(Debug, Clone, Copy, PartialEq, Eq)]
pub struct Modified {
    pub before_epoch: bool,
    pub secs: u64,
    pub nanos: u32,
}

/// The timestamp of a point in time: seconds since the epoch, rounded down,
/// and the nanoseconds from there on. `None` where the nanoseconds are not
/// below a second or the seconds do not fit.
pub open spec fn timestamp_of(t: Modified) -> Option<(int, int)> {
    if t.nanos >= 1_000_000_000 || t.secs > 9_223_372_036_854_775_806 {
        None
    } else if !t.before_epoch {
        Some((t.secs as int, t.nanos as int))
    } else if t.nanos == 0 {
        Some((-(t.secs as int), 0))
    } else {
        Some((-(t.secs as int) - 1, 1_000_000_000 - t.nanos))
    }
}

/// The year that stands in for a missing one: the calendar year of the time
/// of last modification, 0 where that time is not known or has no year.
pub open spec fn year_of(modified: Option<Modified>) -> int {
    match modified {
        Some(t) => match timestamp_of(t) {
            Some((secs, nanos)) => match calendar_year(secs, nanos) {
                Some(year) => year,
                None => 0,
            },
            None => 0,
        },
        None => 0,
    }
}

/// Turns a point in time into seconds since the epoch and nanoseconds within
/// the second; a point before the epoch counts back from it.
pub fn system_time_to_date_time(t: Modified) -> (stamp: Option<(i64, u32)>)
    ensures
        match stamp {
            Some((secs, nanos)) => timestamp_of(t) == Some((secs as int, nanos as int)),
            None => timestamp_of(t) is None,
        },
{
    if t.nanos >= 1_000_000_000 || t.secs > 9_223_372_036_854_775_806 {
        None
    } else if !t.before_epoch {
        Some((t.secs as i64, t.nanos))
    } else if t.nanos == 0 {
        Some((-(t.secs as i64), 0))
    } else {
        Some((-(t.secs as i64) - 1, 1_000_000_000 - t.nanos))
    }
}

/// The year of a time of last modification, 0 where there is none.
pub fn modification_year(modified: Option<Modified>) -> (year: i32)
    ensures
        year == year_of(modified),
{
    match modified {
        Some(t) => match system_time_to_date_time(t) {
            Some((secs, nanos)) => match year_at(secs, nanos) {
                Some(year) => year,
                None => 0,
            },
            None => 0,
        },
        None => 0,
    }
}

} // verus!
