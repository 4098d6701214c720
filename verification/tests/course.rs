use std::time::Instant;

use chrono::{Datelike, Timelike};
use timetable::course::{get_nearest_coure, Course};
use timetable::time::{Moment, RecurringDate, Time, Weekday};

fn weekday_from_chrono(day: chrono::Weekday) -> Weekday {
    match day {
        chrono::Weekday::Mon => Weekday::Mon,
        chrono::Weekday::Tue => Weekday::Tue,
        chrono::Weekday::Wed => Weekday::Wed,
        chrono::Weekday::Thu => Weekday::Thu,
        chrono::Weekday::Fri => Weekday::Fri,
        chrono::Weekday::Sat => Weekday::Sat,
        chrono::Weekday::Sun => Weekday::Sun,
    }
}

fn moment_now() -> Moment {
    let now = chrono::Local::now();
    let iso = now.iso_week();
    Moment::new(
        iso.year(),
        iso.week(),
        weekday_from_chrono(now.weekday()),
        now.num_seconds_from_midnight(),
    )
    .unwrap()
}

fn course(name: &str, days: Vec<Weekday>, start: (u32, u32), end: (u32, u32)) -> Course {
    Course {
        name: String::from(name),
        slot: RecurringDate::new(
            days,
            Time { hour: start.0, minute: start.1 },
            Time { hour: end.0, minute: end.1 },
        )
        .unwrap(),
    }
}

fn three_classes() -> Vec<Course> {
    vec![
        course(
            "MATH 13",
            vec![Weekday::Mon, Weekday::Wed, Weekday::Fri],
            (8, 0),
            (8, 50),
        ),
        course(
            "MATH 9",
            vec![Weekday::Mon, Weekday::Wed, Weekday::Fri],
            (13, 0),
            (13, 50),
        ),
        course("COMLIT 10", vec![Weekday::Tue, Weekday::Thu], (11, 0), (12, 20)),
    ]
}

#[test]
fn test_class_lookup() {
    let now = Instant::now();
    for _ in 0..1_000 {
        let classes = three_classes();
        let m = moment_now();
        let _ = get_nearest_coure(&classes, &m).unwrap();
    }
    println!("{}", now.elapsed().as_millis());
    assert!(now.elapsed().as_millis() < 500)
}

// ISO week 42 of 2026 runs Monday October 12 through Sunday October 18, 2026.
fn week42(day: Weekday, secs: u32) -> Moment {
    Moment::new(2026, 42, day, secs).unwrap()
}

#[test]
fn scenario_inside_first_window() {
    let classes = three_classes();
    let m = week42(Weekday::Mon, 8 * 3600 + 20 * 60);
    let (name, wait) = get_nearest_coure(&classes, &m).unwrap();
    assert_eq!(name, "MATH 13");
    assert_eq!(wait, 0);
}

#[test]
fn scenario_between_windows() {
    let classes = three_classes();
    let m = week42(Weekday::Mon, 9 * 3600);
    let (name, wait) = get_nearest_coure(&classes, &m).unwrap();
    assert_eq!(name, "MATH 9");
    assert_eq!(wait, 4 * 3600);
}

#[test]
fn scenario_wraps_to_next_week() {
    let classes = three_classes();
    let m = week42(Weekday::Fri, 14 * 3600);
    let (name, wait) = get_nearest_coure(&classes, &m).unwrap();
    assert_eq!(name, "MATH 13");
    // Friday 14:00 to the following Monday 08:00.
    assert_eq!(wait, 3 * 86400 - 6 * 3600);
}

#[test]
fn active_window_wins_regardless_of_order() {
    let mut classes = three_classes();
    classes.reverse();
    let m = week42(Weekday::Mon, 8 * 3600 + 20 * 60);
    let (name, wait) = get_nearest_coure(&classes, &m).unwrap();
    assert_eq!(name, "MATH 13");
    assert_eq!(wait, 0);
}

#[test]
fn first_of_two_active_windows_wins() {
    let classes = vec![
        course("EARLY", vec![Weekday::Mon], (8, 0), (9, 0)),
        course("LATE", vec![Weekday::Mon], (8, 30), (9, 30)),
    ];
    let m = week42(Weekday::Mon, 8 * 3600 + 45 * 60);
    let (name, wait) = get_nearest_coure(&classes, &m).unwrap();
    assert_eq!(name, "EARLY");
    assert_eq!(wait, 0);
}

#[test]
fn boundary_instants_count_as_active() {
    let classes = three_classes();
    let at_start = week42(Weekday::Mon, 8 * 3600);
    let (name, wait) = get_nearest_coure(&classes, &at_start).unwrap();
    assert_eq!(name, "MATH 13");
    assert_eq!(wait, 0);
    let at_end = week42(Weekday::Mon, 8 * 3600 + 50 * 60);
    let (name, wait) = get_nearest_coure(&classes, &at_end).unwrap();
    assert_eq!(name, "MATH 13");
    assert_eq!(wait, 0);
    let just_after = week42(Weekday::Mon, 8 * 3600 + 50 * 60 + 1);
    let (name, wait) = get_nearest_coure(&classes, &just_after).unwrap();
    assert_eq!(name, "MATH 9");
    assert_eq!(wait, 4 * 3600 + 10 * 60 - 1);
}

#[test]
fn empty_schedule_resolves_to_nothing() {
    let classes: Vec<Course> = vec![];
    let m = week42(Weekday::Mon, 12 * 3600);
    assert!(get_nearest_coure(&classes, &m).is_none());
}

#[test]
fn window_without_days_is_passed_over() {
    let classes = vec![
        course("NEVER", vec![], (8, 0), (9, 0)),
        course("MATH 9", vec![Weekday::Mon], (13, 0), (13, 50)),
    ];
    let m = week42(Weekday::Mon, 9 * 3600);
    let (name, wait) = get_nearest_coure(&classes, &m).unwrap();
    assert_eq!(name, "MATH 9");
    assert_eq!(wait, 4 * 3600);
}

#[test]
fn malformed_window_does_not_abort_the_others() {
    let broken = Course {
        name: String::from("BROKEN"),
        slot: RecurringDate {
            days: vec![Weekday::Mon],
            start: Time { hour: 30, minute: 0 },
            end: Time { hour: 31, minute: 0 },
        },
    };
    let classes = vec![
        broken,
        course("MATH 9", vec![Weekday::Mon], (13, 0), (13, 50)),
    ];
    let m = week42(Weekday::Mon, 9 * 3600);
    let (name, wait) = get_nearest_coure(&classes, &m).unwrap();
    assert_eq!(name, "MATH 9");
    assert_eq!(wait, 4 * 3600);
}

#[test]
fn past_occurrence_is_found_in_the_following_week() {
    // A window on Monday only, seen from the following Sunday evening: its
    // current-week occurrence has passed and the next-week one is found.
    let classes = vec![course("MATH 13", vec![Weekday::Mon], (8, 0), (8, 50))];
    let m = week42(Weekday::Sun, 20 * 3600);
    let (name, wait) = get_nearest_coure(&classes, &m).unwrap();
    assert_eq!(name, "MATH 13");
    assert_eq!(wait, 86400 - 20 * 3600 + 8 * 3600);
}
