//! The Gregorian calendar, in days counted from 1 January 1970.
//!
//! No calendar table and no date library: a timestamp only ever has to be moved
//! across a day boundary, or written down.

use vstd::prelude::*;

verus! {

/// Whether February has 29 days.
pub open spec fn leap(year: int) -> bool {
    year % 4 == 0 && (year % 100 != 0 || year % 400 == 0)
}

/// The number of days in a month.
pub open spec fn month_len(year: int, month: int) -> int {
    if month == 2 {
        if leap(year) {
            29
        } else {
            28
        }
    } else if month == 4 || month == 6 || month == 9 || month == 11 {
        30
    } else {
        31
    }
}

/// Whether the calendar has this day.
pub open spec fn valid_date(year: int, month: int, day: int) -> bool {
    1 <= month <= 12 && 1 <= day <= month_len(year, month)
}

/// The days from 1 January 1970 to 1 January of `year`.
pub open spec fn year_start(year: int) -> int {
    365 * year + (year - 1) / 4 - (year - 1) / 100 + (year - 1) / 400 - 719_527
}

/// The days of `year` that come before the first of `month`.
pub open spec fn month_start(year: int, month: int) -> int
    decreases month,
{
    if month <= 1 {
        0
    } else {
        month_start(year, month - 1) + month_len(year, month - 1)
    }
}

/// The days from 1 January 1970 to a date. A day past the end of its month
/// counts on into the next one.
pub open spec fn civil_days(year: int, month: int, day: int) -> int {
    year_start(year) + month_start(year, month) + day - 1
}

/// The date `days` days after 1 January 1970.
pub open spec fn date_of(days: int) -> (int, int, int) {
    choose|d: (int, int, int)| #[trigger] valid_date(d.0, d.1, d.2) && civil_days(d.0, d.1, d.2) == days
}

/// The calendar day after a date.
pub open spec fn next_date(year: int, month: int, day: int) -> (int, int, int) {
    if day < month_len(year, month) {
        (year, month, day + 1)
    } else if month < 12 {
        (year, month + 1, 1)
    } else {
        (year + 1, 1, 1)
    }
}

/// A number reduced to 32 bits, the way a narrowing cast does it.
pub open spec fn wrap32(n: int) -> int {
    (n + 0x8000_0000) % 0x1_0000_0000 - 0x8000_0000
}

proof fn lemma_month_starts(year: int)
    ensures
        month_start(year, 1) == 0,
        month_start(year, 2) == 31,
        month_start(year, 3) == 59 + if leap(year) { 1int } else { 0 },
        month_start(year, 4) == month_start(year, 3) + 31,
        month_start(year, 5) == month_start(year, 3) + 61,
        month_start(year, 6) == month_start(year, 3) + 92,
        month_start(year, 7) == month_start(year, 3) + 122,
        month_start(year, 8) == month_start(year, 3) + 153,
        month_start(year, 9) == month_start(year, 3) + 184,
        month_start(year, 10) == month_start(year, 3) + 214,
        month_start(year, 11) == month_start(year, 3) + 245,
        month_start(year, 12) == month_start(year, 3) + 275,
{
    reveal_with_fuel(month_start, 13);
}

/// Counting years from March makes the leap day the last of its year, which is
/// what turns the calendar into plain division.
proof fn lemma_march_count(y: int, month: int, day: int, era: int, yoe: int)
    requires
        1 <= month <= 12,
        y == 400 * era + yoe,
        0 <= yoe < 400,
    ensures
        ({
            let m = if month > 2 { month - 3 } else { month + 9 };
            let year = if month <= 2 { y + 1 } else { y };
            civil_days(year, month, day) == era * 146_097 + (yoe * 365 + yoe / 4 - yoe / 100 + (153
                * m + 2) / 5 + day - 1) - 719_468
        }),
{
    let year = if month <= 2 { y + 1 } else { y };
    lemma_month_starts(year);
    assert(y / 4 == 100 * era + yoe / 4);
    assert(y / 100 == 4 * era + yoe / 100);
    assert(y / 400 == era);
    if month > 2 {
        assert(y / 4 - (y - 1) / 4 == if y % 4 == 0 { 1int } else { 0 });
        assert(y / 100 - (y - 1) / 100 == if y % 100 == 0 { 1int } else { 0 });
        assert(y / 400 - (y - 1) / 400 == if y % 400 == 0 { 1int } else { 0 });
    }
}

/// The year of a 400-year cycle that holds a given day, counted from March.
proof fn lemma_year_of_era(doe: int) -> (r: (int, int))
    requires
        0 <= doe < 146_097,
    ensures
        0 <= r.0 < 400,
        r.0 == (doe - doe / 1460 + doe / 36_524 - doe / 146_096) / 365,
        r.1 == doe - (365 * r.0 + r.0 / 4 - r.0 / 100),
        0 <= r.1 <= 365,
        r.1 == 365 ==> (r.0 + 1) % 4 == 0 && ((r.0 + 1) % 100 != 0 || r.0 == 399),
{
    let c = if doe / 36_524 > 3 { 3int } else { doe / 36_524 };
    let r = doe - 36_524 * c;
    let b = r / 1461;
    let s = r - 1461 * b;
    let a = if s / 365 > 3 { 3int } else { s / 365 };
    let doy = s - 365 * a;
    let yoe = 100 * c + 4 * b + a;
    assert(0 <= c <= 3 && 0 <= r <= 36_524 && 0 <= b <= 24 && 0 <= s <= 1460 && 0 <= a <= 3);
    assert(0 <= doy <= 365);
    assert(yoe / 4 == 25 * c + b);
    assert(yoe / 100 == c);
    let x = doe - doe / 1460 + doe / 36_524 - doe / 146_096;
    assert(x / 365 == yoe) by {
        assert(365 * yoe <= x < 365 * yoe + 365);
    }
    (yoe, doy)
}

/// Every day count is a date, and [`civil_from_days`] finds it.
proof fn lemma_march_date(days: int, era: int, yoe: int, doy: int, mp: int)
    requires
        days == era * 146_097 + (yoe * 365 + yoe / 4 - yoe / 100 + doy) - 719_468,
        0 <= yoe < 400,
        0 <= doy <= 365,
        doy == 365 ==> (yoe + 1) % 4 == 0 && ((yoe + 1) % 100 != 0 || yoe == 399),
        mp == (5 * doy + 2) / 153,
    ensures
        0 <= mp <= 11,
        ({
            let day = doy - (153 * mp + 2) / 5 + 1;
            let month = if mp < 10 { mp + 3 } else { mp - 9 };
            let year = 400 * era + yoe + if month <= 2 { 1int } else { 0 };
            valid_date(year, month, day) && civil_days(year, month, day) == days
        }),
{
    let day = doy - (153 * mp + 2) / 5 + 1;
    let month = if mp < 10 { mp + 3 } else { mp - 9 };
    lemma_march_count(400 * era + yoe, month, day, era, yoe);
}

proof fn lemma_years_follow(a: int, b: int)
    requires
        a < b,
    ensures
        year_start(a) + month_start(a, 12) + 31 <= year_start(b),
    decreases b - a,
{
    lemma_month_starts(a);
    let y = b - 1;
    assert(y / 4 - (y - 1) / 4 == if y % 4 == 0 { 1int } else { 0 });
    assert(y / 100 - (y - 1) / 100 == if y % 100 == 0 { 1int } else { 0 });
    assert(y / 400 - (y - 1) / 400 == if y % 400 == 0 { 1int } else { 0 });
    if a < y {
        lemma_years_follow(a, y);
    }
}

proof fn lemma_within_year(year: int, month: int, day: int)
    requires
        valid_date(year, month, day),
    ensures
        year_start(year) <= civil_days(year, month, day) < year_start(year) + month_start(year, 12)
            + 31,
{
    lemma_month_starts(year);
}

/// No two dates fall on the same day.
pub proof fn law_dates_are_distinct(a: (int, int, int), b: (int, int, int))
    requires
        valid_date(a.0, a.1, a.2),
        valid_date(b.0, b.1, b.2),
        civil_days(a.0, a.1, a.2) == civil_days(b.0, b.1, b.2),
    ensures
        a == b,
{
    lemma_within_year(a.0, a.1, a.2);
    lemma_within_year(b.0, b.1, b.2);
    if a.0 < b.0 {
        lemma_years_follow(a.0, b.0);
    }
    if b.0 < a.0 {
        lemma_years_follow(b.0, a.0);
    }
    lemma_month_starts(a.0);
}

/// Every day has a date: [`date_of`] undoes [`civil_days`] and the other way
/// round.
pub proof fn law_dates_and_days_are_inverse(days: int)
    ensures
        ({
            let d = date_of(days);
            valid_date(d.0, d.1, d.2) && civil_days(d.0, d.1, d.2) == days
        }),
        forall|y: int, m: int, d: int| #[trigger]
            valid_date(y, m, d) && civil_days(y, m, d) == days ==> date_of(days) == (y, m, d),
{
    let z = days + 719_468;
    let era = z / 146_097;
    let doe = z - era * 146_097;
    let (yoe, doy) = lemma_year_of_era(doe);
    let mp = (5 * doy + 2) / 153;
    lemma_march_date(days, era, yoe, doy, mp);
    let day = doy - (153 * mp + 2) / 5 + 1;
    let month = if mp < 10 { mp + 3 } else { mp - 9 };
    let year = 400 * era + yoe + if month <= 2 { 1int } else { 0 };
    let w = (year, month, day);
    assert(valid_date(w.0, w.1, w.2));
    assert forall|y: int, m: int, d: int| #[trigger]
        valid_date(y, m, d) && civil_days(y, m, d) == days implies date_of(days) == (y, m, d) by {
        law_dates_are_distinct((y, m, d), date_of(days));
    }
}

/// Day counts follow the calendar: the later of two dates has the larger one.
pub proof fn law_days_follow_dates(a: (int, int, int), b: (int, int, int))
    requires
        valid_date(a.0, a.1, a.2),
        valid_date(b.0, b.1, b.2),
    ensures
        civil_days(a.0, a.1, a.2) < civil_days(b.0, b.1, b.2) <==> a.0 < b.0 || (a.0 == b.0 && (a.1
            < b.1 || (a.1 == b.1 && a.2 < b.2))),
{
    lemma_within_year(a.0, a.1, a.2);
    lemma_within_year(b.0, b.1, b.2);
    if a.0 < b.0 {
        lemma_years_follow(a.0, b.0);
    }
    if b.0 < a.0 {
        lemma_years_follow(b.0, a.0);
    }
    lemma_month_starts(a.0);
}

/// The count goes up by one from each date to the next, and starts at zero on
/// 1 January 1970.
pub proof fn law_days_count_on(year: int, month: int, day: int)
    requires
        valid_date(year, month, day),
    ensures
        ({
            let n = next_date(year, month, day);
            &&& valid_date(n.0, n.1, n.2)
            &&& civil_days(n.0, n.1, n.2) == civil_days(year, month, day) + 1
            &&& date_of(civil_days(year, month, day)) == (year, month, day)
            &&& date_of(civil_days(year, month, day) + 1) == n
        }),
        civil_days(1970, 1, 1) == 0,
{
    let n = next_date(year, month, day);
    lemma_month_starts(year);
    lemma_month_starts(n.0);
    if n.0 > year {
        assert(year / 4 - (year - 1) / 4 == if year % 4 == 0 { 1int } else { 0 });
        assert(year / 100 - (year - 1) / 100 == if year % 100 == 0 { 1int } else { 0 });
        assert(year / 400 - (year - 1) / 400 == if year % 400 == 0 { 1int } else { 0 });
    }
    lemma_month_starts(1970);
    assert(month_start(year, month + 1) == month_start(year, month) + month_len(year, month));
    assert(valid_date(n.0, n.1, n.2));
    assert(civil_days(n.0, n.1, n.2) == civil_days(year, month, day) + 1);
    law_dates_and_days_are_inverse(civil_days(year, month, day));
    law_dates_and_days_are_inverse(civil_days(year, month, day) + 1);
}

/// The year of a day count fits 32 bits, so nothing is cut off it, for two
/// billion years either side of 1970.
proof fn lemma_year_fits(days: int)
    requires
        -780_000_000_000 <= days <= 780_000_000_000,
    ensures
        -0x8000_0000 <= date_of(days).0 < 0x8000_0000,
        wrap32(date_of(days).0) == date_of(days).0,
{
    law_dates_and_days_are_inverse(days);
    let d = date_of(days);
    lemma_within_year(d.0, d.1, d.2);
    lemma_month_starts(d.0);
}

/// Day counts of the dates their types can hold stay far inside 64 bits.
pub proof fn lemma_days_fit(year: i32, month: u32, day: u32)
    requires
        1 <= month <= 12,
    ensures
        -800_000_000_000 < civil_days(year as int, month as int, day as int) < 900_000_000_000,
{
    lemma_month_starts(year as int);
}

/// Division that rounds down, for either sign.
pub fn floor_div(a: i64, b: i64) -> (q: i64)
    requires
        b > 0,
    ensures
        q == a as int / b as int,
{
    if a >= 0 {
        a / b
    } else {
        let m: i64 = -1 - a;
        let k: i64 = m / b;
        proof {
            assert(m == k * b + m % b) by {
                vstd::arithmetic::div_mod::lemma_fundamental_div_mod(m as int, b as int);
                vstd::arithmetic::mul::lemma_mul_is_commutative(k as int, b as int);
            }
            let r = b - 1 - m % b;
            assert(a == (-1 - k) * b + r) by (nonlinear_arith)
                requires
                    m == -1 - a,
                    m == k * b + m % b,
                    r == b - 1 - m % b,
            ;
            vstd::arithmetic::div_mod::lemma_fundamental_div_mod_converse(
                a as int,
                b as int,
                (-1 - k) as int,
                r as int,
            );
        }
        -1 - k
    }
}

/// Days since 1 January 1970, by Howard Hinnant's civil-date algorithm.
pub fn days_from_civil(year: i32, month: u32, day: u32) -> (r: i64)
    requires
        1 <= month <= 12,
    ensures
        r == civil_days(year as int, month as int, day as int),
        -800_000_000_000 < r < 900_000_000_000,
{
    let y: i64 = if month <= 2 {
        year as i64 - 1
    } else {
        year as i64
    };
    let era: i64 = floor_div(y, 400);
    let yoe: i64 = y - era * 400;
    let m: i64 = month as i64;
    let doy: i64 = (153 * (if m > 2 {
        m - 3
    } else {
        m + 9
    }) + 2) / 5 + day as i64 - 1;
    let doe: i64 = yoe * 365 + yoe / 4 - yoe / 100 + doy;
    proof {
        lemma_march_count(y as int, month as int, day as int, era as int, yoe as int);
    }
    era * 146_097 + doe - 719_468
}

/// The year that [`wrap32`] leaves of a longer one.
fn narrow_year(y: i64) -> (r: i32)
    requires
        -100_000_000_000_000_000 < y < 100_000_000_000_000_000,
    ensures
        r == wrap32(y as int),
{
    let shifted: i64 = y + 0x8000_0000;
    let q: i64 = floor_div(shifted, 0x1_0000_0000);
    let low: i64 = shifted - q * 0x1_0000_0000;
    (low - 0x8000_0000) as i32
}

/// The date a day count names: the inverse of [`days_from_civil`]. A year too
/// large for its type keeps its low 32 bits.
pub fn civil_from_days(days: i64) -> (r: (i32, u32, u32))
    requires
        days <= i64::MAX - 719_468,
    ensures
        r.0 == wrap32(date_of(days as int).0),
        r.1 == date_of(days as int).1,
        r.2 == date_of(days as int).2,
        valid_date(date_of(days as int).0, r.1 as int, r.2 as int),
        -780_000_000_000 <= days <= 780_000_000_000 ==> valid_date(
            r.0 as int,
            r.1 as int,
            r.2 as int,
        ) && civil_days(r.0 as int, r.1 as int, r.2 as int) == days,
{
    let z: i64 = days + 719_468;
    let era: i64 = floor_div(z, 146_097);
    let doe: i64 = z - era * 146_097;
    let yoe: i64 = (doe - doe / 1460 + doe / 36_524 - doe / 146_096) / 365;
    let ghost (g, h) = lemma_year_of_era(doe as int);
    let y: i64 = yoe + era * 400;
    let doy: i64 = doe - (365 * yoe + yoe / 4 - yoe / 100);
    let mp: i64 = (5 * doy + 2) / 153;
    proof {
        lemma_march_date(days as int, era as int, yoe as int, doy as int, mp as int);
        law_dates_and_days_are_inverse(days as int);
        if -780_000_000_000 <= days <= 780_000_000_000 {
            lemma_year_fits(days as int);
        }
    }
    let day: u32 = (doy - (153 * mp + 2) / 5 + 1) as u32;
    let month: u32 = (if mp < 10 {
        mp + 3
    } else {
        mp - 9
    }) as u32;
    let year: i64 = if month <= 2 {
        y + 1
    } else {
        y
    };
    (narrow_year(year), month, day)
}

/// A year has 366 days when its number divides by four, but not when it divides
/// by a hundred without dividing by four hundred, and 365 otherwise; and the
/// calendar repeats every four hundred years.
pub proof fn law_years_have_their_lengths(year: int, month: int, day: int)
    requires
        valid_date(year, month, day),
    ensures
        civil_days(year + 1, 1, 1) - civil_days(year, 1, 1) == if year % 400 == 0 || (year % 4 == 0
            && year % 100 != 0) {
            366int
        } else {
            365
        },
        valid_date(year + 400, month, day),
        civil_days(year + 400, month, day) == civil_days(year, month, day) + 146_097,
{
    assert(year / 4 - (year - 1) / 4 == if year % 4 == 0 { 1int } else { 0 });
    assert(year / 100 - (year - 1) / 100 == if year % 100 == 0 { 1int } else { 0 });
    assert(year / 400 - (year - 1) / 400 == if year % 400 == 0 { 1int } else { 0 });
    assert((year + 399) / 4 == (year - 1) / 4 + 100);
    assert((year + 399) / 100 == (year - 1) / 100 + 4);
    assert((year + 399) / 400 == (year - 1) / 400 + 1);
    lemma_month_starts(year);
    lemma_month_starts(year + 1);
    lemma_month_starts(year + 400);
}

/// The months have the lengths that everybody knows.
pub proof fn law_months_have_their_lengths(year: int, month: int)
    requires
        1 <= month < 12,
    ensures
        civil_days(year, month + 1, 1) - civil_days(year, month, 1) == if month == 2 {
            if year % 400 == 0 || (year % 4 == 0 && year % 100 != 0) {
                29int
            } else {
                28
            }
        } else if month == 4 || month == 6 || month == 9 || month == 11 {
            30
        } else {
            31
        },
{
    assert(month_start(year, month + 1) == month_start(year, month) + month_len(year, month));
}

} // verus!
