//! Proleptic-Gregorian calendar arithmetic over the years 0 through 9999:
//! a day index counted from 0000-01-01, and the verified decomposition of a
//! day index back into a civil date.

use vstd::prelude::*;

verus! {

/// The proleptic-Gregorian leap-year rule.
pub open spec fn is_leap_year(y: int) -> bool {
    (y % 4 == 0 && y % 100 != 0) || y % 400 == 0
}

/// Number of days in year `y`.
pub open spec fn year_length(y: int) -> int {
    if is_leap_year(y) {
        366
    } else {
        365
    }
}

/// Number of days in month `m` of year `y`.
pub open spec fn month_length(y: int, m: int) -> int {
    if m == 2 {
        if is_leap_year(y) {
            29
        } else {
            28
        }
    } else if m == 4 || m == 6 || m == 9 || m == 11 {
        30
    } else {
        31
    }
}

/// Days from 0000-01-01 to the first day of year `y`.
pub open spec fn days_before_year(y: int) -> int
    decreases y,
{
    if y <= 0 {
        0
    } else {
        days_before_year(y - 1) + year_length(y - 1)
    }
}

/// Days from the first of January of year `y` to the first day of month `m`.
pub open spec fn days_before_month(y: int, m: int) -> int
    decreases m,
{
    if m <= 1 {
        0
    } else {
        days_before_month(y, m - 1) + month_length(y, m - 1)
    }
}

/// A civil date the calendar covers.
pub open spec fn valid_civil(y: int, m: int, d: int) -> bool {
    0 <= y <= 9999 && 1 <= m <= 12 && 1 <= d <= month_length(y, m)
}

/// Day index of a civil date, with 0000-01-01 as day zero.
pub open spec fn day_index(y: int, m: int, d: int) -> int {
    days_before_year(y) + days_before_month(y, m) + (d - 1)
}

/// Day index of 1970-01-01, the Unix epoch.
pub const EPOCH_DAY_INDEX: u64 = 719528;

/// Total number of days in the years 0 through 9999.
pub const TOTAL_DAYS: u64 = 3652425;

/// The twelve months of a year together make up the year's length.
pub proof fn lemma_year_months(y: int)
    ensures
        days_before_month(y, 13) == year_length(y),
{
    reveal_with_fuel(days_before_month, 13);
}

/// `days_before_month` grows by at most 31 per month.
pub proof fn lemma_days_before_month_bound(y: int, m: int)
    requires
        1 <= m <= 13,
    ensures
        0 <= days_before_month(y, m) <= 31 * (m - 1),
    decreases m,
{
    if m > 1 {
        lemma_days_before_month_bound(y, m - 1);
    }
}

/// `days_before_year` grows by at most 366 per year.
pub proof fn lemma_days_before_year_bound(y: int)
    requires
        0 <= y,
    ensures
        365 * y <= days_before_year(y) <= 366 * y,
    decreases y,
{
    if y > 0 {
        lemma_days_before_year_bound(y - 1);
    }
}

/// Number of leap years among the years 0 through `y - 1`.
pub open spec fn leap_years_before(y: int) -> int {
    if y <= 0 {
        0
    } else {
        (y - 1) / 4 - (y - 1) / 100 + (y - 1) / 400 + 1
    }
}

/// Stepping the dividend down by one lowers the quotient exactly on multiples.
proof fn lemma_div_step(y: int, d: int)
    requires
        y >= 1,
        d >= 1,
    ensures
        y / d - (y - 1) / d == if y % d == 0 {
            1int
        } else {
            0int
        },
{
    let q = y / d;
    let r = y % d;
    vstd::arithmetic::div_mod::lemma_fundamental_div_mod(y, d);
    if r == 0 {
        assert((q - 1) * d + (d - 1) == d * q - 1) by (nonlinear_arith);
        vstd::arithmetic::div_mod::lemma_fundamental_div_mod_converse(y - 1, d, q - 1, d - 1);
    } else {
        assert(q * d + (r - 1) == d * q + r - 1) by (nonlinear_arith);
        vstd::arithmetic::div_mod::lemma_fundamental_div_mod_converse(y - 1, d, q, r - 1);
    }
}

/// A multiple of 400 is a multiple of 100, and a multiple of 100 one of 4.
proof fn lemma_mod_chain(y: int)
    ensures
        y % 400 == 0 ==> y % 100 == 0,
        y % 100 == 0 ==> y % 4 == 0,
{
    if y % 400 == 0 {
        vstd::arithmetic::div_mod::lemma_fundamental_div_mod(y, 400);
        vstd::arithmetic::div_mod::lemma_fundamental_div_mod_converse(y, 100, 4 * (y / 400), 0);
    }
    if y % 100 == 0 {
        vstd::arithmetic::div_mod::lemma_fundamental_div_mod(y, 100);
        vstd::arithmetic::div_mod::lemma_fundamental_div_mod_converse(y, 4, 25 * (y / 100), 0);
    }
}

/// The leap count rises by one exactly at leap years.
proof fn lemma_leap_count_step(y: int)
    requires
        y >= 0,
    ensures
        leap_years_before(y + 1) == leap_years_before(y) + if is_leap_year(y) {
            1int
        } else {
            0int
        },
{
    if y == 0 {
        assert(is_leap_year(0));
    } else {
        lemma_div_step(y, 4);
        lemma_div_step(y, 100);
        lemma_div_step(y, 400);
        lemma_mod_chain(y);
    }
}

/// Closed form: days before year `y` are 365 per year plus one per leap year.
pub proof fn lemma_days_before_year_closed(y: int)
    requires
        0 <= y,
    ensures
        days_before_year(y) == 365 * y + leap_years_before(y),
    decreases y,
{
    if y > 0 {
        lemma_days_before_year_closed(y - 1);
        lemma_leap_count_step(y - 1);
    }
}

/// The day index of 1970-01-01 is `EPOCH_DAY_INDEX`, and the calendar holds
/// `TOTAL_DAYS` days in all.
pub proof fn lemma_calendar_anchors()
    ensures
        days_before_year(1970) == EPOCH_DAY_INDEX,
        days_before_year(10000) == TOTAL_DAYS,
{
    lemma_days_before_year_closed(1970);
    lemma_days_before_year_closed(10000);
    assert(leap_years_before(1970) == 478);
    assert(leap_years_before(10000) == 2425);
}

/// `days_before_month` is monotone in the month.
proof fn lemma_days_before_month_mono(y: int, m1: int, m2: int)
    requires
        1 <= m1 <= m2,
    ensures
        days_before_month(y, m1) <= days_before_month(y, m2),
    decreases m2,
{
    if m1 < m2 {
        lemma_days_before_month_mono(y, m1, m2 - 1);
    }
}

/// A valid date falls inside its year's days.
proof fn lemma_day_in_year(y: int, m: int, d: int)
    requires
        valid_civil(y, m, d),
    ensures
        0 <= days_before_month(y, m) + (d - 1) < year_length(y),
{
    lemma_days_before_month_mono(y, 1, m);
    lemma_days_before_month_mono(y, m + 1, 13);
    lemma_year_months(y);
    assert(days_before_month(y, m + 1) == days_before_month(y, m) + month_length(y, m));
}

/// A whole year lies between the starts of successive years.
proof fn lemma_days_before_year_step(y1: int, y2: int)
    requires
        0 <= y1 < y2,
    ensures
        days_before_year(y1) + year_length(y1) <= days_before_year(y2),
    decreases y2,
{
    if y1 + 1 < y2 {
        lemma_days_before_year_step(y1, y2 - 1);
        lemma_days_before_year_bound(y2 - 1);
        assert(days_before_year(y2) == days_before_year(y2 - 1) + year_length(y2 - 1));
    }
}

/// Two valid civil dates with the same day index are the same date.
pub proof fn lemma_civil_unique(y1: int, m1: int, d1: int, y2: int, m2: int, d2: int)
    requires
        valid_civil(y1, m1, d1),
        valid_civil(y2, m2, d2),
        day_index(y1, m1, d1) == day_index(y2, m2, d2),
    ensures
        y1 == y2 && m1 == m2 && d1 == d2,
{
    lemma_day_in_year(y1, m1, d1);
    lemma_day_in_year(y2, m2, d2);
    if y1 < y2 {
        lemma_days_before_year_step(y1, y2);
    }
    if y2 < y1 {
        lemma_days_before_year_step(y2, y1);
    }
    if m1 < m2 {
        lemma_days_before_month_mono(y1, m1 + 1, m2);
        assert(days_before_month(y1, m1 + 1) == days_before_month(y1, m1) + month_length(y1, m1));
    }
    if m2 < m1 {
        lemma_days_before_month_mono(y1, m2 + 1, m1);
        assert(days_before_month(y1, m2 + 1) == days_before_month(y1, m2) + month_length(y1, m2));
    }
}

/// Number of days in year `y`, executable.
pub fn year_length_x(y: u64) -> (r: u64)
    ensures
        r as int == year_length(y as int),
{
    if (y % 4 == 0 && y % 100 != 0) || y % 400 == 0 {
        366
    } else {
        365
    }
}

/// Number of days in month `m` of year `y`, executable.
pub fn month_length_x(y: u64, m: u64) -> (r: u64)
    ensures
        r as int == month_length(y as int, m as int),
{
    if m == 2 {
        if (y % 4 == 0 && y % 100 != 0) || y % 400 == 0 {
            29
        } else {
            28
        }
    } else if m == 4 || m == 6 || m == 9 || m == 11 {
        30
    } else {
        31
    }
}

/// Days from 0000-01-01 to the first day of year `y`, executable.
pub fn days_before_year_x(y: u64) -> (r: u64)
    requires
        y <= 10000,
    ensures
        r as int == days_before_year(y as int),
{
    let mut i: u64 = 0;
    let mut acc: u64 = 0;
    while i < y
        invariant
            i <= y <= 10000,
            acc as int == days_before_year(i as int),
            acc <= 366 * i,
        decreases y - i,
    {
        acc = acc + year_length_x(i);
        i = i + 1;
    }
    acc
}

/// Days from the first of January of year `y` to the first day of month `m`,
/// executable.
pub fn days_before_month_x(y: u64, m: u64) -> (r: u64)
    requires
        1 <= m <= 13,
    ensures
        r as int == days_before_month(y as int, m as int),
{
    let mut i: u64 = 1;
    let mut acc: u64 = 0;
    while i < m
        invariant
            1 <= i <= m <= 13,
            acc as int == days_before_month(y as int, i as int),
            acc <= 31 * i,
        decreases m - i,
    {
        acc = acc + month_length_x(y, i);
        i = i + 1;
    }
    acc
}

/// Decompose a day index into the civil date it falls on.
pub fn civil_from_day_index(dn: u64) -> (r: (u64, u64, u64))
    requires
        dn < TOTAL_DAYS,
    ensures
        valid_civil(r.0 as int, r.1 as int, r.2 as int),
        day_index(r.0 as int, r.1 as int, r.2 as int) == dn as int,
{
    proof {
        lemma_calendar_anchors();
    }
    let mut y: u64 = 0;
    let mut rem: u64 = dn;
    let mut ylen: u64 = year_length_x(y);
    while rem >= ylen
        invariant
            y <= 9999,
            days_before_year(y as int) + rem as int == dn as int,
            dn < TOTAL_DAYS,
            days_before_year(10000) == TOTAL_DAYS,
            ylen as int == year_length(y as int),
        decreases 9999 - y,
    {
        proof {
            if y == 9999 {
                assert(days_before_year(10000) == days_before_year(9999) + year_length(9999));
            }
        }
        rem = rem - ylen;
        y = y + 1;
        ylen = year_length_x(y);
    }
    proof {
        lemma_year_months(y as int);
    }
    let ghost year_rem: int = rem as int;
    let mut m: u64 = 1;
    let mut mlen: u64 = month_length_x(y, m);
    while rem >= mlen
        invariant
            1 <= m <= 12,
            days_before_month(y as int, m as int) + rem as int == year_rem,
            year_rem < year_length(y as int),
            days_before_month(y as int, 13) == year_length(y as int),
            mlen as int == month_length(y as int, m as int),
            days_before_year(y as int) + year_rem == dn as int,
            y <= 9999,
        decreases 12 - m,
    {
        proof {
            if m == 12 {
                assert(days_before_month(y as int, 13) == days_before_month(y as int, 12)
                    + month_length(y as int, 12));
            }
        }
        rem = rem - mlen;
        m = m + 1;
        mlen = month_length_x(y, m);
    }
    let d: u64 = rem + 1;
    (y, m, d)
}

} // verus!
