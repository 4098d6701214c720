//! Times of day, reference instants, recurring weekly windows, and their
//! expansion into concrete intervals.
//!
//! A `RecurringDate` names a set of weekdays together with a start and end
//! time of day.  Expanding it against a reference instant yields one concrete
//! `DateRange` per listed weekday, placed in the ISO week a given offset after
//! the week of the reference instant.  Intervals are measured in seconds on a
//! single local wall-clock timeline: a day number (day 1 is January 1 of year
//! 1) times 86400, plus the seconds since that day's midnight.

use crate::calendar::{
    iso_day_number, iso_week_monday, iso_weeks_in_year, lemma_day_number_bounds,
    lemma_week_rollover, lemma_weeks_in_year_bounds, weeks_in_iso_year,
};
use vstd::prelude::*;

verus! {

/// Failures of window construction and expansion.
#[derive(Clone, Copy, Debug, PartialEq, Eq, Structural)]
pub enum TimeError {
    /// An hour or minute outside the clock's range.
    InvalidTimeOfDay,
    /// A window whose start is not strictly before its end.
    InvalidWindowOrdering,
    /// An ISO year/week combination that names no real date.
    InvalidCalendarDate,
}

/// A day of the week.
#[derive(Clone, Copy, Debug, PartialEq, Eq, Structural)]
pub enum Weekday {
    Mon,
    Tue,
    Wed,
    Thu,
    Fri,
    Sat,
    Sun,
}

impl Weekday {
    /// Days after Monday: 0 for Monday through 6 for Sunday.
    pub open spec fn index_spec(self) -> int {
        match self {
            Weekday::Mon => 0,
            Weekday::Tue => 1,
            Weekday::Wed => 2,
            Weekday::Thu => 3,
            Weekday::Fri => 4,
            Weekday::Sat => 5,
            Weekday::Sun => 6,
        }
    }

    /// Days after Monday: 0 for Monday through 6 for Sunday.
    pub fn index(self) -> (i: u8)
        ensures
            i == self.index_spec(),
    {
        match self {
            Weekday::Mon => 0,
            Weekday::Tue => 1,
            Weekday::Wed => 2,
            Weekday::Thu => 3,
            Weekday::Fri => 4,
            Weekday::Sat => 5,
            Weekday::Sun => 6,
        }
    }
}

/// A wall-clock time of day.
#[derive(Clone, Copy, Debug, PartialEq, Eq, Structural)]
pub struct Time {
    pub hour: u32,
    pub minute: u32,
}

impl Time {
    /// A valid time of day: hour 0 through 23, minute 0 through 59.
    pub open spec fn wf(self) -> bool {
        self.hour <= 23 && self.minute <= 59
    }

    /// Seconds since midnight.
    pub open spec fn seconds(self) -> int {
        self.hour * 3600 + self.minute * 60
    }

    /// Builds a time of day, rejecting out-of-range components rather than
    /// clamping them.
    pub fn new(hour: u32, minute: u32) -> (r: Result<Time, TimeError>)
        ensures
            r is Ok <==> hour <= 23 && minute <= 59,
            r matches Ok(t) ==> t == (Time { hour, minute }),
            !(hour <= 23 && minute <= 59) ==> r == Err::<Time, TimeError>(
                TimeError::InvalidTimeOfDay,
            ),
    {
        if hour <= 23 && minute <= 59 {
            Ok(Time { hour, minute })
        } else {
            Err(TimeError::InvalidTimeOfDay)
        }
    }

    /// Seconds since midnight.
    pub fn total_seconds(&self) -> (s: u32)
        requires
            self.wf(),
        ensures
            s == self.seconds(),
    {
        self.hour * 3600 + self.minute * 60
    }
}

/// A reference instant, named by its position in the ISO week-date calendar:
/// the ISO year and week, the weekday, and the seconds since that day's
/// midnight, all in the local wall clock.
#[derive(Clone, Copy, Debug, PartialEq, Eq, Structural)]
pub struct Moment {
    pub iso_year: i32,
    pub iso_week: u32,
    pub day: Weekday,
    pub secs: u32,
}

impl Moment {
    /// A real position in the calendar, within the years this library serves.
    pub open spec fn wf(self) -> bool {
        &&& 1 <= self.iso_year <= 9999
        &&& 1 <= self.iso_week <= iso_weeks_in_year(self.iso_year as int)
        &&& self.secs < 86400
    }

    /// The instant as seconds on the wall-clock timeline.
    pub open spec fn instant(self) -> int {
        iso_day_number(self.iso_year as int, self.iso_week as int, self.day.index_spec()) * 86400
            + self.secs
    }

    /// Builds a reference instant, rejecting week numbers the year does not
    /// have, years outside the supported range, and seconds beyond a day.
    pub fn new(iso_year: i32, iso_week: u32, day: Weekday, secs: u32) -> (r: Result<
        Moment,
        TimeError,
    >)
        ensures
            r is Ok <==> (1 <= iso_year <= 9999 && 1 <= iso_week <= iso_weeks_in_year(
                iso_year as int,
            ) && secs < 86400),
            r matches Ok(m) ==> m == (Moment { iso_year, iso_week, day, secs }),
            !(1 <= iso_year <= 9999 && 1 <= iso_week <= iso_weeks_in_year(iso_year as int))
                ==> r == Err::<Moment, TimeError>(TimeError::InvalidCalendarDate),
            (1 <= iso_year <= 9999 && 1 <= iso_week <= iso_weeks_in_year(iso_year as int) && secs
                >= 86400) ==> r == Err::<Moment, TimeError>(TimeError::InvalidTimeOfDay),
    {
        if !(1 <= iso_year && iso_year <= 9999) {
            return Err(TimeError::InvalidCalendarDate);
        }
        let weeks: u32 = weeks_in_iso_year(iso_year);
        if !(1 <= iso_week && iso_week <= weeks) {
            return Err(TimeError::InvalidCalendarDate);
        }
        if secs >= 86400 {
            return Err(TimeError::InvalidTimeOfDay);
        }
        Ok(Moment { iso_year, iso_week, day, secs })
    }

    /// The instant as seconds on the wall-clock timeline.
    pub fn instant_seconds(&self) -> (t: i64)
        requires
            self.wf(),
        ensures
            t == self.instant(),
            0 < t < 10_000_000_000_000,
    {
        proof {
            lemma_weeks_in_year_bounds(self.iso_year as int);
            lemma_day_number_bounds(
                self.iso_year as int,
                self.iso_week as int,
                self.day.index_spec(),
            );
        }
        let monday: i64 = match iso_week_monday(self.iso_year, self.iso_week) {
            Some(n) => n,
            None => {
                proof {
                    assert(false);
                }
                0
            },
        };
        (monday + self.day.index() as i64) * 86400 + self.secs as i64
    }
}

/// A concrete interval on the wall-clock timeline, in seconds; closed on both
/// ends.
#[derive(Clone, Copy, Debug, PartialEq, Eq, Structural)]
pub struct DateRange {
    pub start: i64,
    pub end: i64,
}

impl DateRange {
    pub fn new(start: i64, end: i64) -> (r: Self)
        ensures
            r.start == start,
            r.end == end,
    {
        DateRange { start, end }
    }

    /// Whether `time` lies within the interval, inclusive on both ends.
    pub fn in_range(&self, time: i64) -> (r: bool)
        ensures
            r == (self.start <= time <= self.end),
    {
        self.start <= time && time <= self.end
    }
}

/// A recurring weekly window: every listed weekday, from `start` to `end` on
/// that day.  Duplicate days are harmless; an empty list recurs never.
#[derive(Debug)]
pub struct RecurringDate {
    pub days: Vec<Weekday>,
    pub start: Time,
    pub end: Time,
}

/// Largest week offset for which expansion is guaranteed to succeed; far
/// beyond it, the target week could outrun the range of dates the calendar
/// backend represents.
pub const MAX_WEEK_OFFSET: u32 = 5000;

/// Day number on which the occurrence of `rd.days[i]`, taken in the ISO week
/// `offset` weeks after the week of `now`, falls.
pub open spec fn occurrence_day(rd: RecurringDate, now: Moment, offset: int, i: int) -> int {
    iso_day_number(now.iso_year as int, now.iso_week as int, rd.days@[i].index_spec()) + 7 * offset
}

/// Instant at which that occurrence begins.
pub open spec fn occurrence_start(rd: RecurringDate, now: Moment, offset: int, i: int) -> int {
    occurrence_day(rd, now, offset, i) * 86400 + rd.start.seconds()
}

/// Instant at which that occurrence ends.
pub open spec fn occurrence_end(rd: RecurringDate, now: Moment, offset: int, i: int) -> int {
    occurrence_day(rd, now, offset, i) * 86400 + rd.end.seconds()
}

impl RecurringDate {
    /// Hours and minutes of both times are in range.
    pub open spec fn times_wf(self) -> bool {
        self.start.wf() && self.end.wf()
    }

    /// A valid window: both times in range and `start` strictly before `end`.
    pub open spec fn wf(self) -> bool {
        self.times_wf() && self.start.seconds() < self.end.seconds()
    }

    /// Builds a window, rejecting out-of-range times and windows that would
    /// end at or before their start.
    pub fn new(days: Vec<Weekday>, start: Time, end: Time) -> (r: Result<RecurringDate, TimeError>)
        ensures
            r is Ok <==> (start.wf() && end.wf() && start.seconds() < end.seconds()),
            r matches Ok(rd) ==> rd.days@ == days@ && rd.start == start && rd.end == end,
            !(start.wf() && end.wf()) ==> r == Err::<RecurringDate, TimeError>(
                TimeError::InvalidTimeOfDay,
            ),
            (start.wf() && end.wf() && start.seconds() >= end.seconds()) ==> r == Err::<
                RecurringDate,
                TimeError,
            >(TimeError::InvalidWindowOrdering),
    {
        if !(start.hour <= 23 && start.minute <= 59 && end.hour <= 23 && end.minute <= 59) {
            return Err(TimeError::InvalidTimeOfDay);
        }
        if start.total_seconds() >= end.total_seconds() {
            return Err(TimeError::InvalidWindowOrdering);
        }
        Ok(RecurringDate { days, start, end })
    }

    /// Expands the window into one concrete interval per listed weekday, all
    /// in the ISO week `offset` weeks after the week of `now`, rolling into
    /// following ISO years as the offset demands.
    pub fn week_to_ranges(&self, offset: u32, now: &Moment) -> (r: Result<Vec<DateRange>, TimeError>)
        requires
            now.wf(),
        ensures
            r matches Ok(v) ==> {
                &&& self.times_wf()
                &&& v@.len() == self.days@.len()
                &&& forall|i: int|
                    0 <= i < v@.len() ==> (#[trigger] v@[i]).start == occurrence_start(
                        *self,
                        *now,
                        offset as int,
                        i,
                    ) && v@[i].end == occurrence_end(*self, *now, offset as int, i)
            },
            !self.times_wf() ==> r == Err::<Vec<DateRange>, TimeError>(TimeError::InvalidTimeOfDay),
            self.times_wf() && offset <= MAX_WEEK_OFFSET ==> r is Ok,
            r matches Err(e) ==> (e == TimeError::InvalidTimeOfDay || e
                == TimeError::InvalidCalendarDate),
    {
        if !(self.start.hour <= 23 && self.start.minute <= 59 && self.end.hour <= 23
            && self.end.minute <= 59) {
            return Err(TimeError::InvalidTimeOfDay);
        }
        let start_secs: u32 = self.start.total_seconds();
        let end_secs: u32 = self.end.total_seconds();

        let ghost week0: int = now.iso_week as int + offset as int;
        let mut year: i32 = now.iso_year;
        let mut week: u64 = now.iso_week as u64 + offset as u64;
        let mut weeks_this_year: u32 = weeks_in_iso_year(year);
        while week > weeks_this_year as u64
            invariant
                1 <= year <= 260_000,
                weeks_this_year == iso_weeks_in_year(year as int),
                52 <= weeks_this_year <= 53,
                1 <= week,
                now.wf(),
                self.times_wf(),
                week0 == now.iso_week as int + offset as int,
                week as int + 52 * (year as int - now.iso_year as int) <= week0,
                iso_day_number(year as int, week as int, 0) == iso_day_number(
                    now.iso_year as int,
                    week0,
                    0,
                ),
            decreases week,
        {
            proof {
                lemma_week_rollover(year as int, week as int, 0);
            }
            week = week - weeks_this_year as u64;
            year = year + 1;
            if year > 260_000 {
                proof {
                    if offset <= MAX_WEEK_OFFSET {
                        lemma_weeks_in_year_bounds(now.iso_year as int);
                        assert(week as int + 52 * (year as int - now.iso_year as int) <= week0);
                        assert(false);
                    }
                }
                return Err(TimeError::InvalidCalendarDate);
            }
            weeks_this_year = weeks_in_iso_year(year);
        }

        let monday: i64 = match iso_week_monday(year, week as u32) {
            Some(n) => n,
            None => {
                proof {
                    assert(false);
                }
                return Err(TimeError::InvalidCalendarDate);
            },
        };

        let mut out: Vec<DateRange> = Vec::new();
        let mut i: usize = 0;
        while i < self.days.len()
            invariant
                i <= self.days@.len(),
                out@.len() == i,
                i32::MIN <= monday <= i32::MAX,
                monday == iso_day_number(now.iso_year as int, now.iso_week as int, 0) + 7 * (
                offset as int),
                self.times_wf(),
                start_secs == self.start.seconds(),
                end_secs == self.end.seconds(),
                forall|j: int|
                    0 <= j < i ==> (#[trigger] out@[j]).start == occurrence_start(
                        *self,
                        *now,
                        offset as int,
                        j,
                    ) && out@[j].end == occurrence_end(*self, *now, offset as int, j),
            decreases self.days@.len() - i,
        {
            let d: Weekday = self.days[i];
            let day_num: i64 = monday + d.index() as i64;
            let start_t: i64 = day_num * 86400 + start_secs as i64;
            let end_t: i64 = day_num * 86400 + end_secs as i64;
            out.push(DateRange { start: start_t, end: end_t });
            i = i + 1;
        }
        Ok(out)
    }
}

/// Law: an occurrence produced for week offset `offset` lies on a day of that
/// week, the seven days that begin `7 * offset` days after the Monday of the
/// week of the reference instant.
pub proof fn lemma_occurrence_within_offset_week(
    rd: RecurringDate,
    now: Moment,
    offset: int,
    i: int,
)
    requires
        0 <= i < rd.days@.len(),
    ensures
        ({
            let monday = iso_day_number(now.iso_year as int, now.iso_week as int, 0) + 7 * offset;
            monday <= occurrence_day(rd, now, offset, i) < monday + 7
        }),
{
}

/// Law: every occurrence taken in the following week begins strictly after
/// every occurrence taken in the current week ends, so the two expansions
/// never overlap.
pub proof fn lemma_next_week_disjoint(
    first: RecurringDate,
    second: RecurringDate,
    now: Moment,
    i: int,
    j: int,
)
    requires
        0 <= i < first.days@.len(),
        0 <= j < second.days@.len(),
        first.end.wf(),
    ensures
        occurrence_end(first, now, 0, i) < occurrence_start(second, now, 1, j),
{
}

} // verus!
