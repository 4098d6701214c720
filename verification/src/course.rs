//! Labeled recurring windows and resolution of the nearest one.
//!
//! A `Course` pairs a name with a recurring weekly window.  Resolution expands
//! every course for the current and the following ISO week, reports the first
//! course (in input order) whose expansion contains the reference instant with
//! a zero wait, and otherwise the course whose next occurrence starts soonest,
//! with the strictly positive wait until it.  A course whose times are out of
//! range, or that has no future occurrence in the two weeks, is passed over
//! without aborting the others.

use crate::calendar::{lemma_day_number_bounds, lemma_weeks_in_year_bounds};
use crate::time::{
    occurrence_end, occurrence_start, DateRange, Moment, RecurringDate, TimeError,
};
use vstd::prelude::*;

verus! {

/// A named schedule entry.
#[derive(Debug)]
pub struct Course {
    pub name: String,
    pub slot: RecurringDate,
}

/// Number of intervals in a two-week expansion of `rd`: one per listed day and
/// week.
pub open spec fn two_week_len(rd: RecurringDate) -> int {
    2 * rd.days@.len() as int
}

/// Start instant of entry `j` of the two-week expansion of `rd` against `now`:
/// the current week's occurrences first, then the following week's.
pub open spec fn two_week_start(rd: RecurringDate, now: Moment, j: int) -> int {
    if j < rd.days@.len() {
        occurrence_start(rd, now, 0, j)
    } else {
        occurrence_start(rd, now, 1, j - rd.days@.len())
    }
}

/// End instant of entry `j` of the two-week expansion of `rd` against `now`.
pub open spec fn two_week_end(rd: RecurringDate, now: Moment, j: int) -> int {
    if j < rd.days@.len() {
        occurrence_end(rd, now, 0, j)
    } else {
        occurrence_end(rd, now, 1, j - rd.days@.len())
    }
}

/// Whether some interval of the two-week expansion of `rd` contains `t`,
/// inclusive on both ends.
pub open spec fn slot_active(rd: RecurringDate, now: Moment, t: int) -> bool {
    exists|j: int|
        0 <= j < two_week_len(rd) && #[trigger] two_week_start(rd, now, j) <= t <= two_week_end(
            rd,
            now,
            j,
        )
}

/// Whether `c` takes part in resolution (its times are in range) and one of
/// its intervals contains `t`.
pub open spec fn course_active(c: Course, now: Moment, t: int) -> bool {
    c.slot.times_wf() && slot_active(c.slot, now, t)
}

/// Smallest strictly positive wait from `t` to the start of one of the first
/// `k` entries of the two-week expansion of `rd`, if any such entry starts
/// after `t`.
pub open spec fn min_wait_upto(rd: RecurringDate, now: Moment, t: int, k: int) -> Option<int>
    decreases k,
{
    if k <= 0 {
        None
    } else {
        let prev = min_wait_upto(rd, now, t, k - 1);
        let d = two_week_start(rd, now, k - 1) - t;
        if d <= 0 {
            prev
        } else {
            match prev {
                None => Some(d),
                Some(m) => if d < m {
                    Some(d)
                } else {
                    Some(m)
                },
            }
        }
    }
}

/// Smallest strictly positive wait from `t` to any occurrence of `c` in the
/// two weeks; `None` for a course with out-of-range times or with no future
/// occurrence.
pub open spec fn course_wait(c: Course, now: Moment, t: int) -> Option<int> {
    if c.slot.times_wf() {
        min_wait_upto(c.slot, now, t, two_week_len(c.slot))
    } else {
        None
    }
}

/// Index of the first course among the first `k` whose expansion contains `t`.
pub open spec fn first_active_upto(courses: Seq<Course>, now: Moment, t: int, k: int) -> Option<
    int,
>
    decreases k,
{
    if k <= 0 {
        None
    } else {
        match first_active_upto(courses, now, t, k - 1) {
            Some(i) => Some(i),
            None => if course_active(courses[k - 1], now, t) {
                Some(k - 1)
            } else {
                None
            },
        }
    }
}

/// The course among the first `k` with the smallest positive wait, the
/// earliest listed winning ties, paired with that wait.
pub open spec fn best_wait_upto(courses: Seq<Course>, now: Moment, t: int, k: int) -> Option<
    (int, int),
>
    decreases k,
{
    if k <= 0 {
        None
    } else {
        let prev = best_wait_upto(courses, now, t, k - 1);
        match course_wait(courses[k - 1], now, t) {
            None => prev,
            Some(d) => match prev {
                None => Some((k - 1, d)),
                Some(p) => if d < p.1 {
                    Some((k - 1, d))
                } else {
                    Some(p)
                },
            },
        }
    }
}

/// What resolution returns: the first active course with a zero wait, else the
/// course that starts soonest with its wait, else nothing.
pub open spec fn resolve_spec(courses: Seq<Course>, now: Moment, t: int) -> Option<(int, int)> {
    match first_active_upto(courses, now, t, courses.len() as int) {
        Some(i) => Some((i, 0int)),
        None => best_wait_upto(courses, now, t, courses.len() as int),
    }
}

/// An `Option<i64>` read as the mathematical value it holds.
pub open spec fn opt_value(o: Option<i64>) -> Option<int> {
    match o {
        None => None,
        Some(x) => Some(x as int),
    }
}

/// An `Option<(usize, i64)>` read as the mathematical pair it holds.
pub open spec fn opt_pair(o: Option<(usize, i64)>) -> Option<(int, int)> {
    match o {
        None => None,
        Some(p) => Some((p.0 as int, p.1 as int)),
    }
}

/// Expands `slot` for the current and the following ISO week, in that order:
/// the concatenation of the two week expansions.
pub fn expand_two_weeks(slot: &RecurringDate, now: &Moment) -> (r: Result<Vec<DateRange>, TimeError>)
    requires
        now.wf(),
    ensures
        r is Ok <==> slot.times_wf(),
        r matches Ok(v) ==> {
            &&& v@.len() == two_week_len(*slot)
            &&& forall|j: int|
                0 <= j < v@.len() ==> (#[trigger] v@[j]).start == two_week_start(*slot, *now, j)
                    && v@[j].end == two_week_end(*slot, *now, j)
        },
        r matches Err(e) ==> e == TimeError::InvalidTimeOfDay,
{
    let mut current: Vec<DateRange> = match slot.week_to_ranges(0, now) {
        Ok(v) => v,
        Err(e) => {
            return Err(e);
        },
    };
    let mut next: Vec<DateRange> = match slot.week_to_ranges(1, now) {
        Ok(v) => v,
        Err(e) => {
            proof {
                assert(false);
            }
            return Err(e);
        },
    };
    current.append(&mut next);
    Ok(current)
}

/// Bounds on the instants of a two-week expansion, within the supported
/// years: they are positive and small enough that waits fit in an `i64`.
pub proof fn lemma_two_week_bounds(rd: RecurringDate, now: Moment, j: int)
    requires
        now.wf(),
        rd.times_wf(),
        0 <= j < two_week_len(rd),
    ensures
        0 < two_week_start(rd, now, j) < 10_000_000_000_000,
        0 < two_week_end(rd, now, j) < 10_000_000_000_000,
{
    lemma_weeks_in_year_bounds(now.iso_year as int);
    let n = rd.days@.len() as int;
    if j < n {
        lemma_day_number_bounds(now.iso_year as int, now.iso_week as int, rd.days@[j].index_spec());
    } else {
        lemma_day_number_bounds(
            now.iso_year as int,
            now.iso_week as int,
            rd.days@[j - n].index_spec(),
        );
    }
}

/// Whether one of the intervals contains `t`, inclusive on both ends.
fn contains_instant(v: &Vec<DateRange>, t: i64) -> (r: bool)
    ensures
        r == exists|j: int| 0 <= j < v@.len() && (#[trigger] v@[j]).start <= t <= v@[j].end,
{
    let mut i: usize = 0;
    while i < v.len()
        invariant
            i <= v@.len(),
            forall|j: int| 0 <= j < i ==> !((#[trigger] v@[j]).start <= t <= v@[j].end),
        decreases v@.len() - i,
    {
        let r: DateRange = v[i];
        if r.start <= t && t <= r.end {
            return true;
        }
        i = i + 1;
    }
    false
}

/// Smallest strictly positive wait from `t` to the start of one of the
/// intervals, which mirror the two-week expansion of `rd` against `now`.
fn min_future_start(
    v: &Vec<DateRange>,
    t: i64,
    Ghost(rd): Ghost<RecurringDate>,
    Ghost(now): Ghost<Moment>,
) -> (r: Option<i64>)
    requires
        v@.len() == two_week_len(rd),
        forall|j: int| 0 <= j < v@.len() ==> (#[trigger] v@[j]).start == two_week_start(rd, now, j),
        -20_000_000_000_000 <= t <= 20_000_000_000_000,
        forall|j: int|
            0 <= j < v@.len() ==> -20_000_000_000_000 <= (#[trigger] v@[j]).start
                <= 20_000_000_000_000,
    ensures
        opt_value(r) == min_wait_upto(rd, now, t as int, two_week_len(rd)),
{
    let mut acc: Option<i64> = None;
    let mut i: usize = 0;
    while i < v.len()
        invariant
            i <= v@.len(),
            v@.len() == two_week_len(rd),
            opt_value(acc) == min_wait_upto(rd, now, t as int, i as int),
            forall|j: int|
                0 <= j < v@.len() ==> (#[trigger] v@[j]).start == two_week_start(rd, now, j),
            -20_000_000_000_000 <= t <= 20_000_000_000_000,
            forall|j: int|
                0 <= j < v@.len() ==> -20_000_000_000_000 <= (#[trigger] v@[j]).start
                    <= 20_000_000_000_000,
        decreases v@.len() - i,
    {
        let d: i64 = v[i].start - t;
        if d > 0 {
            acc = match acc {
                None => Some(d),
                Some(m) => if d < m {
                    Some(d)
                } else {
                    Some(m)
                },
            };
        }
        i = i + 1;
    }
    acc
}

/// Obtains the nearest course in the schedule and the wait until it: the name
/// of the first course containing `now` paired with a zero wait, or the name
/// of the course whose next occurrence in the current or following ISO week
/// starts soonest, paired with the seconds until that start.  Courses whose
/// times are out of range are passed over.
pub fn get_nearest_coure(courses: &Vec<Course>, now: &Moment) -> (r: Option<(String, i64)>)
    requires
        now.wf(),
    ensures
        ({
            let m = resolve_spec(courses@, *now, now.instant());
            match r {
                None => m is None,
                Some(p) => m matches Some(q) && 0 <= q.0 < courses@.len() && p.0@
                    == courses@[q.0].name@ && p.1 == q.1,
            }
        }),
{
    let t: i64 = now.instant_seconds();

    let mut expansions: Vec<Option<Vec<DateRange>>> = Vec::new();
    let mut i: usize = 0;
    while i < courses.len()
        invariant
            now.wf(),
            t == now.instant(),
            0 < t < 10_000_000_000_000,
            i <= courses@.len(),
            expansions@.len() == i,
            first_active_upto(courses@, *now, t as int, i as int) is None,
            forall|k: int|
                0 <= k < i ==> match #[trigger] expansions@[k] {
                    Some(v) => courses@[k].slot.times_wf() && v@.len() == two_week_len(
                        courses@[k].slot,
                    ) && (forall|j: int|
                        0 <= j < v@.len() ==> (#[trigger] v@[j]).start == two_week_start(
                            courses@[k].slot,
                            *now,
                            j,
                        ) && v@[j].end == two_week_end(courses@[k].slot, *now, j)),
                    None => !courses@[k].slot.times_wf(),
                },
        decreases courses@.len() - i,
    {
        let c: &Course = &courses[i];
        match expand_two_weeks(&c.slot, now) {
            Ok(v) => {
                if contains_instant(&v, t) {
                    proof {
                        let j = choose|j: int|
                            0 <= j < v@.len() && (#[trigger] v@[j]).start <= t <= v@[j].end;
                        assert(two_week_start(c.slot, *now, j) <= t as int <= two_week_end(
                            c.slot,
                            *now,
                            j,
                        ));
                        assert(course_active(courses@[i as int], *now, t as int));
                        lemma_first_active_extend(
                            courses@,
                            *now,
                            t as int,
                            i as int + 1,
                            courses@.len() as int,
                        );
                    }
                    return Some((c.name.clone(), 0));
                }
                proof {
                    if course_active(courses@[i as int], *now, t as int) {
                        let j = choose|j: int|
                            0 <= j < two_week_len(courses@[i as int].slot) && #[trigger] two_week_start(
                                courses@[i as int].slot,
                                *now,
                                j,
                            ) <= t as int <= two_week_end(courses@[i as int].slot, *now, j);
                        assert((v@[j]).start <= t <= v@[j].end);
                        assert(false);
                    }
                }
                expansions.push(Some(v));
            },
            Err(_) => {
                expansions.push(None);
            },
        }
        i = i + 1;
    }

    let mut best: Option<(usize, i64)> = None;
    let mut k: usize = 0;
    while k < expansions.len()
        invariant
            now.wf(),
            t == now.instant(),
            0 < t < 10_000_000_000_000,
            k <= expansions@.len(),
            expansions@.len() == courses@.len(),
            first_active_upto(courses@, *now, t as int, courses@.len() as int) is None,
            opt_pair(best) == best_wait_upto(courses@, *now, t as int, k as int),
            best matches Some(p) ==> 0 <= p.0 < courses@.len(),
            forall|kk: int|
                0 <= kk < courses@.len() ==> match #[trigger] expansions@[kk] {
                    Some(v) => courses@[kk].slot.times_wf() && v@.len() == two_week_len(
                        courses@[kk].slot,
                    ) && (forall|j: int|
                        0 <= j < v@.len() ==> (#[trigger] v@[j]).start == two_week_start(
                            courses@[kk].slot,
                            *now,
                            j,
                        ) && v@[j].end == two_week_end(courses@[kk].slot, *now, j)),
                    None => !courses@[kk].slot.times_wf(),
                },
        decreases expansions@.len() - k,
    {
        let entry: &Option<Vec<DateRange>> = &expansions[k];
        match entry {
            Some(v) => {
                proof {
                    assert forall|j: int| 0 <= j < v@.len() implies -20_000_000_000_000 <= (
                    #[trigger] v@[j]).start <= 20_000_000_000_000 by {
                        lemma_two_week_bounds(courses@[k as int].slot, *now, j);
                    }
                }
                match min_future_start(v, t, Ghost(courses@[k as int].slot), Ghost(*now)) {
                    Some(d) => {
                        best = match best {
                            None => Some((k, d)),
                            Some(p) => if d < p.1 {
                                Some((k, d))
                            } else {
                                Some(p)
                            },
                        };
                    },
                    None => {},
                }
            },
            None => {},
        }
        k = k + 1;
    }

    match best {
        Some(p) => Some((courses[p.0].name.clone(), p.1)),
        None => None,
    }
}

/// A prefix with an active course settles the search: later courses cannot
/// displace it.
proof fn lemma_first_active_extend(courses: Seq<Course>, now: Moment, t: int, k: int, n: int)
    requires
        0 <= k <= n <= courses.len(),
        first_active_upto(courses, now, t, k) is Some,
    ensures
        first_active_upto(courses, now, t, n) == first_active_upto(courses, now, t, k),
    decreases n - k,
{
    if n > k {
        lemma_first_active_extend(courses, now, t, k, n - 1);
    }
}

/// A prefix without an active course yields no active index.
proof fn lemma_first_active_none(courses: Seq<Course>, now: Moment, t: int, k: int)
    requires
        0 <= k <= courses.len(),
        forall|i: int| 0 <= i < k ==> !course_active(#[trigger] courses[i], now, t),
    ensures
        first_active_upto(courses, now, t, k) is None,
    decreases k,
{
    if k > 0 {
        lemma_first_active_none(courses, now, t, k - 1);
    }
}

/// Law: resolving an empty schedule yields nothing.
pub proof fn lemma_resolve_empty(courses: Seq<Course>, now: Moment, t: int)
    requires
        courses.len() == 0,
    ensures
        resolve_spec(courses, now, t) is None,
{
}

/// Law: when the reference instant lies strictly inside a current-week
/// occurrence of one course and no other course is active, resolution returns
/// that course with a zero wait, whatever the other courses' proximity.
pub proof fn lemma_active_course_wins(
    courses: Seq<Course>,
    now: Moment,
    t: int,
    i: int,
    j: int,
)
    requires
        0 <= i < courses.len(),
        courses[i].slot.times_wf(),
        0 <= j < courses[i].slot.days@.len(),
        occurrence_start(courses[i].slot, now, 0, j) < t < occurrence_end(
            courses[i].slot,
            now,
            0,
            j,
        ),
        forall|k: int| 0 <= k < courses.len() && k != i ==> !course_active(
            #[trigger] courses[k],
            now,
            t,
        ),
    ensures
        resolve_spec(courses, now, t) == Some((i, 0int)),
{
    assert(two_week_start(courses[i].slot, now, j) <= t <= two_week_end(courses[i].slot, now, j));
    assert(course_active(courses[i], now, t));
    lemma_first_active_none(courses, now, t, i);
    assert(first_active_upto(courses, now, t, i + 1) == Some(i));
    lemma_first_active_extend(courses, now, t, i + 1, courses.len() as int);
}

/// What `min_wait_upto` promises of its result: a strictly positive wait that
/// is attained by some future entry and undercuts none, or the absence of any
/// future entry.
proof fn lemma_min_wait_props(rd: RecurringDate, now: Moment, t: int, k: int)
    requires
        0 <= k <= two_week_len(rd),
    ensures
        match min_wait_upto(rd, now, t, k) {
            None => forall|j: int| 0 <= j < k ==> #[trigger] two_week_start(rd, now, j) <= t,
            Some(d) => d > 0 && (exists|j: int|
                0 <= j < k && #[trigger] two_week_start(rd, now, j) == t + d) && (forall|j: int|
                0 <= j < k && #[trigger] two_week_start(rd, now, j) > t ==> t + d
                    <= two_week_start(rd, now, j)),
        },
    decreases k,
{
    if k > 0 {
        lemma_min_wait_props(rd, now, t, k - 1);
    }
}

/// What `best_wait_upto` promises of its result: an in-range index of a
/// participating course whose wait is positive, attained, and minimal across
/// all future entries of the first `k` courses; or, when `None`, the absence
/// of any future entry there.
proof fn lemma_best_wait_props(courses: Seq<Course>, now: Moment, t: int, k: int)
    requires
        0 <= k <= courses.len(),
    ensures
        match best_wait_upto(courses, now, t, k) {
            None => forall|c: int, j: int|
                0 <= c < k && courses[c].slot.times_wf() && 0 <= j < two_week_len(courses[c].slot)
                    ==> #[trigger] two_week_start(courses[c].slot, now, j) <= t,
            Some(p) => {
                &&& 0 <= p.0 < k
                &&& p.1 > 0
                &&& courses[p.0].slot.times_wf()
                &&& exists|j: int|
                    0 <= j < two_week_len(courses[p.0].slot) && #[trigger] two_week_start(
                        courses[p.0].slot,
                        now,
                        j,
                    ) == t + p.1
                &&& forall|c: int, j: int|
                    0 <= c < k && courses[c].slot.times_wf() && 0 <= j < two_week_len(
                        courses[c].slot,
                    ) && #[trigger] two_week_start(courses[c].slot, now, j) > t ==> t + p.1
                        <= two_week_start(courses[c].slot, now, j)
            },
        },
    decreases k,
{
    if k > 0 {
        lemma_best_wait_props(courses, now, t, k - 1);
        let prev = best_wait_upto(courses, now, t, k - 1);
        let cur = course_wait(courses[k - 1], now, t);
        if courses[k - 1].slot.times_wf() {
            lemma_min_wait_props(courses[k - 1].slot, now, t, two_week_len(courses[k - 1].slot));
        }
        match best_wait_upto(courses, now, t, k) {
            None => {
                assert forall|c: int, j: int|
                    0 <= c < k && courses[c].slot.times_wf() && 0 <= j < two_week_len(
                        courses[c].slot,
                    ) implies #[trigger] two_week_start(courses[c].slot, now, j) <= t by {
                    if c == k - 1 {
                        assert(two_week_start(courses[c].slot, now, j) <= t);
                    }
                }
            },
            Some(p) => {
                assert forall|c: int, j: int|
                    0 <= c < k && courses[c].slot.times_wf() && 0 <= j < two_week_len(
                        courses[c].slot,
                    ) && #[trigger] two_week_start(courses[c].slot, now, j) > t implies t + p.1
                    <= two_week_start(courses[c].slot, now, j) by {
                    if c < k - 1 {
                        match prev {
                            Some(q) => {
                                assert(p.1 <= q.1);
                            },
                            None => {
                                assert(two_week_start(courses[c].slot, now, j) <= t);
                            },
                        }
                    } else {
                        match cur {
                            Some(d) => {
                                assert(p.1 <= d);
                                assert(t + d <= two_week_start(courses[c].slot, now, j));
                            },
                            None => {
                                assert(two_week_start(courses[c].slot, now, j) <= t);
                            },
                        }
                    }
                }
                match (cur, prev) {
                    (Some(d), None) => {
                        assert(p == (k - 1, d));
                    },
                    (Some(d), Some(q)) => {
                        if d < q.1 {
                            assert(p == (k - 1, d));
                        } else {
                            assert(p == q);
                        }
                    },
                    (None, Some(q)) => {
                        assert(p == q);
                    },
                    (None, None) => {},
                }
            },
        }
    }
}

/// Law: when no course is active, a resolved course has a strictly positive
/// wait that is the minimum over all future starts across all participating
/// courses' two-week expansions, and some course is resolved exactly when such
/// a future start exists.
pub proof fn lemma_no_active_least_wait(courses: Seq<Course>, now: Moment, t: int)
    requires
        forall|i: int| 0 <= i < courses.len() ==> !course_active(#[trigger] courses[i], now, t),
    ensures
        match resolve_spec(courses, now, t) {
            None => forall|c: int, j: int|
                0 <= c < courses.len() && courses[c].slot.times_wf() && 0 <= j < two_week_len(
                    courses[c].slot,
                ) ==> #[trigger] two_week_start(courses[c].slot, now, j) <= t,
            Some(p) => {
                &&& 0 <= p.0 < courses.len()
                &&& p.1 > 0
                &&& courses[p.0].slot.times_wf()
                &&& exists|j: int|
                    0 <= j < two_week_len(courses[p.0].slot) && #[trigger] two_week_start(
                        courses[p.0].slot,
                        now,
                        j,
                    ) == t + p.1
                &&& forall|c: int, j: int|
                    0 <= c < courses.len() && courses[c].slot.times_wf() && 0 <= j < two_week_len(
                        courses[c].slot,
                    ) && #[trigger] two_week_start(courses[c].slot, now, j) > t ==> t + p.1
                        <= two_week_start(courses[c].slot, now, j)
            },
        },
{
    lemma_first_active_none(courses, now, t, courses.len() as int);
    lemma_best_wait_props(courses, now, t, courses.len() as int);
}

} // verus!
