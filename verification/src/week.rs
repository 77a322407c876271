//! ISO calendar weeks: the shard key of a timestamp is the ISO week-year
//! and week number of its day, packed as `year * 100 + week`, so that the
//! numeric order of keys is the chronological order of weeks.

use vstd::prelude::*;

verus! {

/// The greatest timestamp the library accepts: 9999-12-31T23:59:59 UTC.
pub const MAX_TIMESTAMP: u64 = 253402300799;

/// The ISO week-year and ISO week number of the UTC day containing the
/// timestamp `secs`, as chrono computes them.
pub uninterp spec fn iso_year_week(secs: int) -> (int, int);

/// Relies on chrono's `DateTime::from_timestamp` and `Datelike::iso_week`:
/// the ISO week-year and week number of a UTC timestamp, a pure function of
/// the timestamp alone. The week number ranges from 1 to 53; a timestamp no
/// later than the year 9999 has a week-year between 1969 and 10000, since
/// the week-year differs from the calendar year by at most one.
#[verifier::external_body]
fn iso_year_week_of(secs: u64) -> (r: (i32, u32))
    requires
        secs <= MAX_TIMESTAMP,
    ensures
        r.0 as int == iso_year_week(secs as int).0,
        r.1 as int == iso_year_week(secs as int).1,
        1 <= r.1 <= 53,
        1969 <= r.0 <= 10000,
{
    let date = chrono::DateTime::from_timestamp(secs as i64, 0).unwrap().date_naive();
    let week = chrono::Datelike::iso_week(&date);
    (week.year(), week.week())
}

/// The shard key of a timestamp: ISO week-year times 100 plus ISO week.
pub open spec fn week_key_of(secs: int) -> int {
    iso_year_week(secs).0 * 100 + iso_year_week(secs).1
}

/// The shard key of a timestamp, as the `u64` the library works with.
pub open spec fn week_key_u64(secs: u64) -> u64 {
    week_key_of(secs as int) as u64
}

/// The greatest day number the library accepts: the day of `MAX_TIMESTAMP`.
pub const MAX_DAY: u64 = 2932896;

/// Days since the Unix epoch began on a Thursday, so a day number's offset
/// from its week's Monday is `(day + 3) % 7`.
pub open spec fn weekday_from_monday(day: int) -> int {
    (day + 3) % 7
}

/// The week selector of the report view: a day, moved week by week, whose
/// ISO week the report is generated over. The day is counted in days since
/// the Unix epoch.
#[derive(Debug, Clone, Copy)]
pub struct WeekPickerState {
    pub day: u64,
}

impl WeekPickerState {
    /// Moves one week later.
    pub fn increment(&mut self)
        requires
            old(self).day + 7 <= MAX_DAY,
        ensures
            final(self).day == old(self).day + 7,
    {
        self.day = self.day + 7;
    }

    /// Moves one week earlier; a day in the first week after the epoch
    /// stays put.
    pub fn decrement(&mut self)
        ensures
            final(self).day == if old(self).day >= 7 {
                (old(self).day - 7) as u64
            } else {
                old(self).day
            },
    {
        if self.day >= 7 {
            self.day = self.day - 7;
        }
    }

    /// The shard key of the selected day's ISO week.
    pub fn week(&self) -> (r: u64)
        requires
            self.day <= MAX_DAY,
        ensures
            r == week_key_u64((self.day * 86400) as u64),
    {
        week_key_of_secs(self.day * 86400)
    }

    /// The Monday and the Sunday of the selected day's week, as day
    /// numbers.
    pub fn start_and_end(&self) -> (r: (u64, u64))
        requires
            self.day <= MAX_DAY,
            weekday_from_monday(self.day as int) <= self.day,
        ensures
            r.0 == self.day - weekday_from_monday(self.day as int),
            r.1 == r.0 + 6,
            weekday_from_monday(r.0 as int) == 0,
            r.0 <= self.day <= r.1,
    {
        let offset: u64 = (self.day + 3) % 7;
        (self.day - offset, self.day - offset + 6)
    }
}

/// Computes the shard key of a timestamp.
pub fn week_key_of_secs(secs: u64) -> (r: u64)
    requires
        secs <= MAX_TIMESTAMP,
    ensures
        r == week_key_u64(secs),
        r as int == week_key_of(secs as int),
        196901 <= r <= 1000053,
{
    let (year, week) = iso_year_week_of(secs);
    (year as u64) * 100 + (week as u64)
}

} // verus!
