//! Day-number arithmetic for the proleptic Gregorian calendar and ISO 8601
//! week dates.
//!
//! Instants are anchored to day numbers: day 1 is January 1 of year 1, which
//! is a Monday.  ISO week 1 of a year is the week containing January 4; weeks
//! run Monday to Sunday, and a year has 52 or 53 of them.

use vstd::arithmetic::div_mod::{
    lemma_div_multiples_vanish, lemma_div_nonincreasing, lemma_div_pos_is_pos,
    lemma_fundamental_div_mod, lemma_fundamental_div_mod_converse,
    lemma_mod_division_less_than_divisor, lemma_mod_multiples_basic,
};
use vstd::prelude::*;

verus! {

/// Days of the proleptic Gregorian calendar that lie before January 1 of
/// `year`, so that January 1 of `year` is day `days_before_year(year) + 1`.
pub open spec fn days_before_year(year: int) -> int {
    365 * (year - 1) + (year - 1) / 4 - (year - 1) / 100 + (year - 1) / 400
}

/// Day number of January 4 of `year`.
pub open spec fn jan4_day_number(year: int) -> int {
    days_before_year(year) + 4
}

/// Day number of the Monday that opens ISO week 1 of `year`: the Monday on or
/// before January 4.  A day number `n` falls on a Monday exactly when
/// `n % 7 == 1`, since day 1 is a Monday.
pub open spec fn iso_week1_monday(year: int) -> int {
    jan4_day_number(year) - ((jan4_day_number(year) - 1) % 7)
}

/// Day number of the given day of the given ISO week of `year`; `weekday`
/// counts from 0 for Monday through 6 for Sunday.  The formula is linear in
/// `week`, so week numbers outside `1..=iso_weeks_in_year(year)` simply land
/// in a neighbouring year's weeks.
pub open spec fn iso_day_number(year: int, week: int, weekday: int) -> int {
    iso_week1_monday(year) + 7 * (week - 1) + weekday
}

/// Number of ISO weeks in `year`.
pub open spec fn iso_weeks_in_year(year: int) -> int {
    (iso_week1_monday(year + 1) - iso_week1_monday(year)) / 7
}

/// Dividing `n` by a positive `d` gives the same quotient as dividing `n - 1`,
/// plus one exactly when `d` divides `n`.
proof fn lemma_div_step(n: int, d: int)
    requires
        d > 0,
    ensures
        n / d - (n - 1) / d == if n % d == 0 {
            1int
        } else {
            0int
        },
{
    let q = n / d;
    let r = n % d;
    lemma_fundamental_div_mod(n, d);
    lemma_mod_division_less_than_divisor(n, d);
    if r == 0 {
        assert(n - 1 == (q - 1) * d + (d - 1)) by (nonlinear_arith)
            requires
                n == d * q,
        ;
        lemma_fundamental_div_mod_converse(n - 1, d, q - 1, d - 1);
    } else {
        assert(n - 1 == q * d + (r - 1)) by (nonlinear_arith)
            requires
                n == d * q + r,
        ;
        lemma_fundamental_div_mod_converse(n - 1, d, q, r - 1);
    }
}

/// A multiple of 100 is a multiple of 4, and a multiple of 400 is a multiple
/// of 100.
proof fn lemma_century_multiples(year: int)
    ensures
        year % 100 == 0 ==> year % 4 == 0,
        year % 400 == 0 ==> year % 100 == 0,
{
    if year % 100 == 0 {
        lemma_fundamental_div_mod(year, 100);
        let k = year / 100;
        assert(year == (25 * k) * 4) by (nonlinear_arith)
            requires
                year == 100 * k,
        ;
        lemma_mod_multiples_basic(25 * k, 4);
    }
    if year % 400 == 0 {
        lemma_fundamental_div_mod(year, 400);
        let k = year / 400;
        assert(year == (4 * k) * 100) by (nonlinear_arith)
            requires
                year == 400 * k,
        ;
        lemma_mod_multiples_basic(4 * k, 100);
    }
}

/// A calendar year holds 365 or 366 days.
pub proof fn lemma_year_length(year: int)
    ensures
        365 <= days_before_year(year + 1) - days_before_year(year) <= 366,
{
    lemma_div_step(year, 4);
    lemma_div_step(year, 100);
    lemma_div_step(year, 400);
    lemma_century_multiples(year);
}

/// Consecutive ISO years begin `7 * iso_weeks_in_year` days apart, and a year
/// holds 52 or 53 ISO weeks.
pub proof fn lemma_weeks_in_year_bounds(year: int)
    ensures
        52 <= iso_weeks_in_year(year) <= 53,
        iso_week1_monday(year + 1) == iso_week1_monday(year) + 7 * iso_weeks_in_year(year),
{
    let a = jan4_day_number(year) - 1;
    let b = jan4_day_number(year + 1) - 1;
    lemma_year_length(year);
    lemma_fundamental_div_mod(a, 7);
    lemma_fundamental_div_mod(b, 7);
    lemma_mod_division_less_than_divisor(a, 7);
    lemma_mod_division_less_than_divisor(b, 7);
    let k = b / 7 - a / 7;
    assert(iso_week1_monday(year + 1) - iso_week1_monday(year) == 7 * k);
    assert(359 <= 7 * k <= 372);
    assert(52 <= k <= 53);
    lemma_div_multiples_vanish(k, 7);
}

/// Week `week` of `year`, when `week` exceeds the year's week count, names the
/// same days as the corresponding week of the following ISO year.
pub proof fn lemma_week_rollover(year: int, week: int, weekday: int)
    ensures
        iso_day_number(year + 1, week - iso_weeks_in_year(year), weekday) == iso_day_number(
            year,
            week,
            weekday,
        ),
{
    lemma_weeks_in_year_bounds(year);
}

/// The day numbers this library works with are small: within the supported
/// years they stay positive and well below `2^27`, so instants in seconds fit
/// comfortably in an `i64`.
pub proof fn lemma_day_number_bounds(year: int, week: int, weekday: int)
    requires
        1 <= year <= 270_000,
        1 <= week <= 60,
        0 <= weekday <= 6,
    ensures
        1 <= iso_day_number(year, week, weekday) < 110_000_000,
{
    lemma_div_pos_is_pos(year - 1, 4);
    lemma_div_pos_is_pos(year - 1, 100);
    lemma_div_pos_is_pos(year - 1, 400);
    lemma_div_nonincreasing(year - 1, 4);
    lemma_div_nonincreasing(year - 1, 100);
    lemma_div_nonincreasing(year - 1, 400);
    let jan4 = jan4_day_number(year);
    lemma_fundamental_div_mod(jan4 - 1, 7);
    lemma_mod_division_less_than_divisor(jan4 - 1, 7);
    lemma_div_pos_is_pos(jan4 - 1, 7);
}

/// Relies on chrono's `NaiveDate::from_isoywd_opt` and
/// `Datelike::num_days_from_ce`: the day number (January 1 of year 1 being day
/// 1) of the Monday of the given ISO week, `None` exactly when the year has no
/// week of that number.  `num_days_from_ce` returns an `i32`, which bounds the
/// result.
#[verifier::external_body]
pub(crate) fn iso_week_monday(year: i32, week: u32) -> (r: Option<i64>)
    requires
        1 <= year <= 260_000,
        1 <= week <= 53,
    ensures
        r is Some <==> week <= iso_weeks_in_year(year as int),
        r matches Some(n) ==> n == iso_day_number(year as int, week as int, 0) && i32::MIN <= n
            <= i32::MAX,
{
    chrono::NaiveDate::from_isoywd_opt(year, week, chrono::Weekday::Mon)
        .map(|d| chrono::Datelike::num_days_from_ce(&d) as i64)
}

/// Number of ISO weeks in `year`: 52, or 53 when the year has a week 53.
pub fn weeks_in_iso_year(year: i32) -> (w: u32)
    requires
        1 <= year <= 260_000,
    ensures
        w == iso_weeks_in_year(year as int),
        52 <= w <= 53,
{
    proof {
        lemma_weeks_in_year_bounds(year as int);
    }
    match iso_week_monday(year, 53) {
        Some(_) => 53,
        None => 52,
    }
}

} // verus!
