use chrono::Datelike;
use timetable::calendar::weeks_in_iso_year;
use timetable::time::{DateRange, Moment, RecurringDate, Time, TimeError, Weekday};

fn day_number(date: chrono::NaiveDate) -> i64 {
    date.num_days_from_ce() as i64
}

#[test]
fn interval_bounds_are_inclusive() {
    let r = DateRange::new(100, 200);
    assert!(r.in_range(100));
    assert!(r.in_range(200));
    assert!(r.in_range(150));
    assert!(!r.in_range(99));
    assert!(!r.in_range(201));
}

#[test]
fn weeks_per_year_match_the_calendar() {
    assert_eq!(weeks_in_iso_year(2014), 52);
    assert_eq!(weeks_in_iso_year(2015), 53);
    assert_eq!(weeks_in_iso_year(2025), 52);
    assert_eq!(weeks_in_iso_year(2026), 53);
}

#[test]
fn instant_agrees_with_the_calendar() {
    let m = Moment::new(2026, 42, Weekday::Mon, 12 * 3600).unwrap();
    let date = chrono::NaiveDate::from_isoywd_opt(2026, 42, chrono::Weekday::Mon).unwrap();
    assert_eq!(m.instant_seconds(), day_number(date) * 86400 + 12 * 3600);
    assert_eq!(
        date,
        chrono::NaiveDate::from_ymd_opt(2026, 10, 12).unwrap()
    );
}

#[test]
fn expansion_yields_one_interval_per_day() {
    let rd = RecurringDate::new(
        vec![Weekday::Mon, Weekday::Thu, Weekday::Sat],
        Time { hour: 1, minute: 55 },
        Time { hour: 14, minute: 35 },
    )
    .unwrap();
    let m = Moment::new(2026, 42, Weekday::Wed, 0).unwrap();
    let ranges = rd.week_to_ranges(0, &m).unwrap();
    assert_eq!(ranges.len(), 3);
    let days = [chrono::Weekday::Mon, chrono::Weekday::Thu, chrono::Weekday::Sat];
    for (i, wd) in days.iter().enumerate() {
        let date = chrono::NaiveDate::from_isoywd_opt(2026, 42, *wd).unwrap();
        assert_eq!(ranges[i].start, day_number(date) * 86400 + 3600 + 55 * 60);
        assert_eq!(ranges[i].end, day_number(date) * 86400 + 14 * 3600 + 35 * 60);
    }
}

#[test]
fn expansion_keeps_duplicate_days_and_order() {
    let rd = RecurringDate::new(
        vec![Weekday::Fri, Weekday::Mon, Weekday::Fri],
        Time { hour: 9, minute: 0 },
        Time { hour: 10, minute: 0 },
    )
    .unwrap();
    let m = Moment::new(2026, 42, Weekday::Mon, 0).unwrap();
    let ranges = rd.week_to_ranges(0, &m).unwrap();
    assert_eq!(ranges.len(), 3);
    assert_eq!(ranges[0].start, ranges[2].start);
    assert!(ranges[1].start < ranges[0].start);
}

#[test]
fn next_week_expansion_stays_clear_of_this_week() {
    let rd = RecurringDate::new(
        vec![Weekday::Mon, Weekday::Sun],
        Time { hour: 8, minute: 0 },
        Time { hour: 23, minute: 59 },
    )
    .unwrap();
    let m = Moment::new(2026, 42, Weekday::Tue, 500).unwrap();
    let current = rd.week_to_ranges(0, &m).unwrap();
    let next = rd.week_to_ranges(1, &m).unwrap();
    for c in &current {
        for n in &next {
            assert!(c.end < n.start);
        }
    }
    assert_eq!(next[0].start - current[0].start, 7 * 86400);
}

#[test]
fn expansion_rolls_into_the_next_iso_year() {
    // 2026 has 53 ISO weeks; week 1 of 2027 begins on January 4, 2027.
    let rd = RecurringDate::new(
        vec![Weekday::Mon],
        Time { hour: 8, minute: 0 },
        Time { hour: 9, minute: 0 },
    )
    .unwrap();
    let m = Moment::new(2026, 53, Weekday::Thu, 1000).unwrap();
    let current = rd.week_to_ranges(0, &m).unwrap();
    let next = rd.week_to_ranges(1, &m).unwrap();
    let d0 = chrono::NaiveDate::from_isoywd_opt(2026, 53, chrono::Weekday::Mon).unwrap();
    let d1 = chrono::NaiveDate::from_isoywd_opt(2027, 1, chrono::Weekday::Mon).unwrap();
    assert_eq!(d1, chrono::NaiveDate::from_ymd_opt(2027, 1, 4).unwrap());
    assert_eq!(current[0].start, day_number(d0) * 86400 + 8 * 3600);
    assert_eq!(next[0].start, day_number(d1) * 86400 + 8 * 3600);
    assert_eq!(next[0].start - current[0].start, 7 * 86400);
}

#[test]
fn far_offsets_advance_by_whole_weeks() {
    let rd = RecurringDate::new(
        vec![Weekday::Wed],
        Time { hour: 8, minute: 0 },
        Time { hour: 9, minute: 0 },
    )
    .unwrap();
    let m = Moment::new(2026, 42, Weekday::Mon, 0).unwrap();
    let base = rd.week_to_ranges(0, &m).unwrap();
    for off in [1u32, 11, 52, 104, 520] {
        let shifted = rd.week_to_ranges(off, &m).unwrap();
        assert_eq!(shifted[0].start, base[0].start + (off as i64) * 7 * 86400);
    }
}

#[test]
fn far_offsets_land_in_the_right_iso_year() {
    let rd = RecurringDate::new(
        vec![Weekday::Mon],
        Time { hour: 8, minute: 0 },
        Time { hour: 9, minute: 0 },
    )
    .unwrap();
    let m = Moment::new(2026, 42, Weekday::Mon, 0).unwrap();
    // 2026 has 53 ISO weeks and 2027 has 52: offset 63 reaches week 52 of
    // 2027, and offset 64 reaches week 1 of 2028.
    let in_2027 = rd.week_to_ranges(63, &m).unwrap();
    let d27 = chrono::NaiveDate::from_isoywd_opt(2027, 52, chrono::Weekday::Mon).unwrap();
    assert_eq!(in_2027[0].start, day_number(d27) * 86400 + 8 * 3600);
    let in_2028 = rd.week_to_ranges(64, &m).unwrap();
    let d28 = chrono::NaiveDate::from_isoywd_opt(2028, 1, chrono::Weekday::Mon).unwrap();
    assert_eq!(in_2028[0].start, day_number(d28) * 86400 + 8 * 3600);
}

#[test]
fn time_of_day_rejects_out_of_range_components() {
    assert!(Time::new(8, 0).is_ok());
    assert!(Time::new(23, 59).is_ok());
    assert_eq!(Time::new(24, 0), Err(TimeError::InvalidTimeOfDay));
    assert_eq!(Time::new(8, 60), Err(TimeError::InvalidTimeOfDay));
}

#[test]
fn window_rejects_bad_ordering_and_bad_times() {
    let nine = Time { hour: 9, minute: 0 };
    let eight = Time { hour: 8, minute: 0 };
    assert!(RecurringDate::new(vec![Weekday::Mon], eight, nine).is_ok());
    assert_eq!(
        RecurringDate::new(vec![Weekday::Mon], nine, eight).err(),
        Some(TimeError::InvalidWindowOrdering)
    );
    assert_eq!(
        RecurringDate::new(vec![Weekday::Mon], nine, nine).err(),
        Some(TimeError::InvalidWindowOrdering)
    );
    let bad = Time { hour: 25, minute: 0 };
    assert_eq!(
        RecurringDate::new(vec![Weekday::Mon], bad, nine).err(),
        Some(TimeError::InvalidTimeOfDay)
    );
}

#[test]
fn expansion_reports_bypassed_time_invariant() {
    let rd = RecurringDate {
        days: vec![Weekday::Mon],
        start: Time { hour: 99, minute: 0 },
        end: Time { hour: 99, minute: 30 },
    };
    let m = Moment::new(2026, 42, Weekday::Mon, 0).unwrap();
    assert_eq!(rd.week_to_ranges(0, &m).err(), Some(TimeError::InvalidTimeOfDay));
}

#[test]
fn moment_rejects_weeks_the_year_does_not_have() {
    assert!(Moment::new(2026, 53, Weekday::Mon, 0).is_ok());
    assert_eq!(
        Moment::new(2025, 53, Weekday::Mon, 0).err(),
        Some(TimeError::InvalidCalendarDate)
    );
    assert_eq!(
        Moment::new(2026, 0, Weekday::Mon, 0).err(),
        Some(TimeError::InvalidCalendarDate)
    );
    assert_eq!(
        Moment::new(0, 1, Weekday::Mon, 0).err(),
        Some(TimeError::InvalidCalendarDate)
    );
    assert_eq!(
        Moment::new(2026, 1, Weekday::Mon, 86400).err(),
        Some(TimeError::InvalidTimeOfDay)
    );
}
