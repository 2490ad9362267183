//! Days of the Gregorian calendar.

use vstd::prelude::*;

verus! {

/// Whether a year has a twenty-ninth of February.
pub open spec fn leap(y: int) -> bool {
    y % 4 == 0 && (y % 100 != 0 || y % 400 == 0)
}

/// How many days a month has.
pub open spec fn month_days(y: int, m: int) -> int {
    if m == 2 {
        if leap(y) {
            29
        } else {
            28
        }
    } else if m == 4 || m == 6 || m == 9 || m == 11 {
        30
    } else {
        31
    }
}

/// How many days of a year lie before a month.
pub open spec fn days_before_month(y: int, m: int) -> int
    decreases m,
{
    if m <= 1 {
        0
    } else {
        days_before_month(y, m - 1) + month_days(y, m - 1)
    }
}

/// How many days lie between the first day of year 1 and the first day of a year.
pub open spec fn days_before_year(y: int) -> int {
    365 * (y - 1) + (y - 1) / 4 - (y - 1) / 100 + (y - 1) / 400
}

pub open spec fn valid_date(y: int, m: int, d: int) -> bool {
    1 <= m <= 12 && 1 <= d <= month_days(y, m)
}

/// A day as a number that counts from the first of January 1970.
pub open spec fn day_number(y: int, m: int, d: int) -> int {
    days_before_year(y) + days_before_month(y, m) + d - 1 - 719_162
}

/// How a year is made up of four hundreds, hundreds, fours and ones.
proof fn lemma_year_parts(era: int, hundreds: int, fours: int, ones: int)
    requires
        0 <= hundreds <= 3,
        0 <= fours <= 24,
        0 <= ones <= 3,
    ensures
        ({
            let y = 1 + 400 * era + 100 * hundreds + 4 * fours + ones;
            &&& days_before_year(y) == era * 146_097 + hundreds * 36_524 + fours * 1_461 + ones
                * 365
            &&& leap(y) <==> ones == 3 && (fours != 24 || hundreds == 3)
        }),
{
    let y = 1 + 400 * era + 100 * hundreds + 4 * fours + ones;
    assert((y - 1) / 4 == 100 * era + 25 * hundreds + fours);
    assert((y - 1) / 100 == 4 * era + hundreds);
    assert((y - 1) / 400 == era);
    assert(y % 4 == (1 + ones) % 4);
    assert(y % 100 == (1 + 4 * fours + ones) % 100);
    assert(y % 400 == (1 + 100 * hundreds + 4 * fours + ones) % 400);
}

/// The year that a day lies in and how far into it. Days count from the first of year 1.
fn year_of(z: i64) -> (r: (i64, i64))
    ensures
        days_before_year(r.0 as int) + r.1 == z,
        0 <= r.1 < if leap(r.0 as int) { 366int } else { 365int },
{
    let mut era: i64 = z / 146_097;
    let mut rest: i64 = z % 146_097;
    if rest < 0 {
        rest += 146_097;
        era -= 1;
    }
    assert(z == era * 146_097 + rest && 0 <= rest < 146_097);
    let mut hundreds: i64 = rest / 36_524;
    if hundreds > 3 {
        hundreds = 3;
    }
    rest -= hundreds * 36_524;
    let fours: i64 = rest / 1_461;
    rest -= fours * 1_461;
    let mut ones: i64 = rest / 365;
    if ones > 3 {
        ones = 3;
    }
    rest -= ones * 365;
    proof {
        lemma_year_parts(era as int, hundreds as int, fours as int, ones as int);
    }
    (1 + 400 * era + 100 * hundreds + 4 * fours + ones, rest)
}

/// The day that a day number stands for.
pub fn civil_from_days(n: i64) -> (r: (i64, u32, u32))
    requires
        n <= i64::MAX - 719_162,
    ensures
        valid_date(r.0 as int, r.1 as int, r.2 as int),
        day_number(r.0 as int, r.1 as int, r.2 as int) == n,
{
    let (year, rest) = year_of(n + 719_162);
    let leaps: bool = year % 4 == 0 && (year % 100 != 0 || year % 400 == 0);
    assert(leaps == leap(year as int));
    assert(days_before_month(year as int, 12) == if leaps { 335int } else { 334int }) by {
        reveal_with_fuel(days_before_month, 13);
    }
    let mut month: u32 = 1;
    let mut day: i64 = rest;
    let mut length: i64 = 31;
    while day >= length
        invariant
            1 <= month <= 12,
            0 <= day,
            length == month_days(year as int, month as int),
            leaps == leap(year as int),
            days_before_month(year as int, month as int) + day == rest,
            days_before_month(year as int, 12) == if leaps { 335int } else { 334int },
            rest < if leaps { 366int } else { 365int },
        decreases 12 - month,
    {
        day -= length;
        month += 1;
        length = if month == 2 {
            if leaps {
                29
            } else {
                28
            }
        } else if month == 4 || month == 6 || month == 9 || month == 11 {
            30
        } else {
            31
        };
    }
    (year, month, (day + 1) as u32)
}

/// A year ends where the next begins.
proof fn lemma_year_follows(y: int)
    ensures
        days_before_year(y + 1) == days_before_year(y) + if leap(y) { 366int } else { 365int },
{
    let k = y / 400;
    let r = y % 400;
    assert(y == 400 * k + r);
    assert(y / 4 == 100 * k + r / 4);
    assert(y / 100 == 4 * k + r / 100);
    assert((y - 1) / 4 == 100 * k + (r - 1) / 4);
    assert((y - 1) / 100 == 4 * k + (r - 1) / 100);
    assert((y - 1) / 400 == k + (r - 1) / 400);
    assert(y % 4 == r % 4);
    assert(y % 100 == r % 100);
    lemma_remainders(r);
}

proof fn lemma_remainders(r: int)
    requires
        0 <= r < 400,
    ensures
        r / 4 - (r - 1) / 4 == if r % 4 == 0 { 1int } else { 0int },
        r / 100 - (r - 1) / 100 == if r % 100 == 0 { 1int } else { 0int },
        (r - 1) / 400 == if r == 0 { -1int } else { 0int },
        r % 100 == 0 ==> r % 4 == 0,
{
}

/// A day lies inside its year.
proof fn lemma_inside_year(y: int, m: int, d: int)
    requires
        valid_date(y, m, d),
    ensures
        days_before_year(y) <= day_number(y, m, d) + 719_162 < days_before_year(y + 1),
        0 <= days_before_month(y, m),
        days_before_month(y, m) + month_days(y, m) <= if leap(y) { 366int } else { 365int },
{
    reveal_with_fuel(days_before_month, 13);
    lemma_year_follows(y);
}

proof fn lemma_years_ordered(a: int, b: int)
    requires
        a <= b,
    ensures
        days_before_year(a) <= days_before_year(b),
    decreases b - a,
{
    if a < b {
        lemma_years_ordered(a, b - 1);
        lemma_year_follows(b - 1);
    }
}

proof fn lemma_months_ordered(y: int, a: int, b: int)
    requires
        1 <= a < b <= 12,
    ensures
        days_before_month(y, a) + month_days(y, a) <= days_before_month(y, b),
    decreases b - a,
{
    if a + 1 < b {
        lemma_months_ordered(y, a, b - 1);
    }
}

/// Different days have different numbers.
pub proof fn law_day_numbers_tell_days_apart(
    y1: int,
    m1: int,
    d1: int,
    y2: int,
    m2: int,
    d2: int,
)
    requires
        valid_date(y1, m1, d1),
        valid_date(y2, m2, d2),
        day_number(y1, m1, d1) == day_number(y2, m2, d2),
    ensures
        y1 == y2,
        m1 == m2,
        d1 == d2,
{
    lemma_inside_year(y1, m1, d1);
    lemma_inside_year(y2, m2, d2);
    if y1 < y2 {
        lemma_years_ordered(y1 + 1, y2);
    } else if y2 < y1 {
        lemma_years_ordered(y2 + 1, y1);
    } else if m1 < m2 {
        lemma_months_ordered(y1, m1, m2);
    } else if m2 < m1 {
        lemma_months_ordered(y1, m2, m1);
    }
}

/// The first of January 1970 is day nought, and the day behind a day has the next number: the next
/// day of the month, the first of the next month or the first of the next year.
pub proof fn law_days_follow_one_another(y: int, m: int, d: int)
    requires
        valid_date(y, m, d),
    ensures
        day_number(1970, 1, 1) == 0,
        d < month_days(y, m) ==> valid_date(y, m, d + 1) && day_number(y, m, d + 1) == day_number(
            y,
            m,
            d,
        ) + 1,
        d == month_days(y, m) && m < 12 ==> valid_date(y, m + 1, 1) && day_number(y, m + 1, 1)
            == day_number(y, m, d) + 1,
        m == 12 && d == 31 ==> valid_date(y + 1, 1, 1) && day_number(y + 1, 1, 1) == day_number(
            y,
            m,
            d,
        ) + 1,
{
    lemma_year_follows(y);
    reveal_with_fuel(days_before_month, 13);
}

/// A year has a day more every four years, but not every hundred, but every four hundred. February
/// has that day, and the other months have thirty or thirty-one.
pub proof fn law_how_long_months_are(y: int)
    ensures
        y % 400 == 0 ==> leap(y),
        y % 100 == 0 && y % 400 != 0 ==> !leap(y),
        y % 4 == 0 && y % 100 != 0 ==> leap(y),
        y % 4 != 0 ==> !leap(y),
        leap(y) ==> month_days(y, 2) == 29,
        !leap(y) ==> month_days(y, 2) == 28,
        month_days(y, 1) == 31 && month_days(y, 3) == 31 && month_days(y, 5) == 31 && month_days(
            y,
            7,
        ) == 31 && month_days(y, 8) == 31 && month_days(y, 10) == 31 && month_days(y, 12) == 31,
        month_days(y, 4) == 30 && month_days(y, 6) == 30 && month_days(y, 9) == 30 && month_days(
            y,
            11,
        ) == 30,
{
}

} // verus!
