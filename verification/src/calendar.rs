//! Days and dates.
use vstd::prelude::*;

verus! {

pub open spec fn is_leap(year: int) -> bool {
    year % 4 == 0 && (year % 100 != 0 || year % 400 == 0)
}

/// How many days a month has.
pub open spec fn month_days(year: int, month: int) -> int {
    if month == 2 {
        if is_leap(year) {
            29
        } else {
            28
        }
    } else if month == 4 || month == 6 || month == 9 || month == 11 {
        30
    } else {
        31
    }
}

/// Whether there is such a day.
pub open spec fn is_date(year: int, month: int, day: int) -> bool {
    1 <= month <= 12 && 1 <= day <= month_days(year, month)
}

/// How many days of a year are over when a month starts.
pub open spec fn days_before_month(year: int, month: int) -> int
    decreases month,
{
    if month <= 1 {
        0
    } else {
        days_before_month(year, month - 1) + month_days(year, month - 1)
    }
}

/// How many days there are from the first day of year zero to the first day of a year: 365 a year
/// and one more for each leap year among them.
pub open spec fn days_before_year(year: int) -> int {
    365 * year + (year + 3) / 4 - (year + 99) / 100 + (year + 399) / 400
}

/// How many days a date lies behind the first of January 1970.
pub open spec fn day_number(year: int, month: int, day: int) -> int {
    days_before_year(year) + days_before_month(year, month) + day - 1 - 719528
}

/// Within 400 years that start in March: which year a day is in, and the how-manieth of it.
#[verifier::spinoff_prover]
proof fn lemma_year_of_era(doe: u32)
    requires
        doe <= 146096,
    ensures
        ({
            let yoe = (doe - doe / 1460 + doe / 36524 - doe / 146096) / 365;
            let start = 365 * yoe + yoe / 4 - yoe / 100;
            &&& doe - doe / 1460 + doe / 36524 - doe / 146096 >= 0
            &&& 0 <= yoe <= 399
            &&& start <= doe <= start + 365
            &&& doe == start + 365 ==> (yoe + 1) % 4 == 0 && ((yoe + 1) % 100 != 0 || yoe == 399)
        }),
{
    assert(({
        let a = (doe - doe / 1460 + doe / 36524 - doe / 146096) as u32;
        let yoe = a / 365;
        let start = (365 * yoe + yoe / 4 - yoe / 100) as u32;
        &&& yoe <= 399
        &&& start <= doe
        &&& doe <= start + 365
        &&& (doe == start + 365 ==> (yoe + 1) % 4 == 0 && ((yoe + 1) % 100 != 0 || yoe == 399))
    })) by (bit_vector)
        requires
            doe <= 146096,
    ;
}

/// The first of March, counted from the first of March of year zero.
#[verifier::spinoff_prover]
proof fn lemma_march(year: int)
    ensures
        day_number(year, 3, 1) == 365 * year + year / 4 - year / 100 + year / 400 - 719468,
        day_number(year + 1, 1, 1) == day_number(year, 3, 1) + 306,
{
    reveal_with_fuel(days_before_month, 4);
    lemma_every(year, 4);
    lemma_every(year, 100);
    lemma_every(year, 400);
    assert(year % 400 == 0 ==> year % 100 == 0);
    assert(year % 100 == 0 ==> year % 4 == 0);
}

/// How many multiples of a number lie before a year, and before the next one.
#[verifier::spinoff_prover]
proof fn lemma_every(year: int, n: int)
    requires
        n == 4 || n == 100 || n == 400,
    ensures
        (year + n - 1) / n == year / n + if year % n == 0 {
            0int
        } else {
            1int
        },
        (year + n) / n == year / n + 1,
{
    if n == 4 {
        assert((year + 3) / 4 == year / 4 + if year % 4 == 0 { 0int } else { 1int });
        assert((year + 4) / 4 == year / 4 + 1);
    } else if n == 100 {
        assert((year + 99) / 100 == year / 100 + if year % 100 == 0 { 0int } else { 1int });
        assert((year + 100) / 100 == year / 100 + 1);
    } else {
        assert((year + 399) / 400 == year / 400 + if year % 400 == 0 { 0int } else { 1int });
        assert((year + 400) / 400 == year / 400 + 1);
    }
}

/// The months from March on, by how many days lie before each.
#[verifier::spinoff_prover]
proof fn lemma_months(year: int, mp: int)
    requires
        0 <= mp <= 11,
    ensures
        ({
            let month = if mp < 10 {
                mp + 3
            } else {
                mp - 9
            };
            let in_year = if month <= 2 {
                year + 1
            } else {
                year
            };
            day_number(in_year, month, 1) == day_number(year, 3, 1) + (153 * mp + 2) / 5
        }),
{
    reveal_with_fuel(days_before_month, 13);
    lemma_march(year);
}

/// Which month from March on a day of the year is in, and the how-manieth of it.
#[verifier::spinoff_prover]
proof fn lemma_day_of_year(doy: u32)
    requires
        doy <= 365,
    ensures
        ({
            let mp = (5 * doy + 2) / 153;
            let first = (153 * mp + 2) / 5;
            &&& mp <= 11
            &&& first <= doy
            &&& doy - first < if mp == 11 {
                29
            } else if mp == 1 || mp == 3 || mp == 6 || mp == 8 {
                30int
            } else {
                31int
            }
            &&& (mp == 11 && doy - first == 28 ==> doy == 365)
        }),
{
    assert(({
        let mp = (5 * doy + 2) as u32 / 153;
        let first = (153 * mp + 2) as u32 / 5;
        &&& mp <= 11
        &&& first <= doy
        &&& (mp == 11 ==> doy < first + 29)
        &&& (mp == 1 || mp == 3 || mp == 6 || mp == 8 ==> doy < first + 30)
        &&& doy < first + 31
        &&& (mp == 11 && doy == first + 28 ==> doy == 365)
    })) by (bit_vector)
        requires
            doy <= 365,
    ;
}

/// A year that starts in March, by the 400 years it is in and its place among them.
#[verifier::spinoff_prover]
proof fn lemma_years_of_era(era: int, yoe: int)
    requires
        0 <= yoe <= 399,
    ensures
        day_number(yoe + 400 * era, 3, 1) == 146097 * era + 365 * yoe + yoe / 4 - yoe / 100
            - 719468,
        (yoe + 1) % 4 == 0 && ((yoe + 1) % 100 != 0 || yoe == 399) ==> is_leap(
            yoe + 1 + 400 * era,
        ),
{
    let y = yoe + 400 * era;
    lemma_march(y);
    lemma_whole_eras(yoe, era);
    lemma_whole_eras(yoe + 1, era);
}

/// Whole spans of 400 years leave a year where it is among them.
#[verifier::spinoff_prover]
proof fn lemma_whole_eras(year: int, era: int)
    ensures
        (year + 400 * era) / 4 == year / 4 + 100 * era,
        (year + 400 * era) / 100 == year / 100 + 4 * era,
        (year + 400 * era) / 400 == year / 400 + era,
        (year + 400 * era) % 4 == year % 4,
        (year + 400 * era) % 100 == year % 100,
        (year + 400 * era) % 400 == year % 400,
{
    vstd::arithmetic::div_mod::lemma_hoist_over_denominator(year, 100 * era, 4);
    vstd::arithmetic::div_mod::lemma_hoist_over_denominator(year, 4 * era, 100);
    vstd::arithmetic::div_mod::lemma_hoist_over_denominator(year, era, 400);
}

/// The date so many days behind the first of January 1970: the year, the month and the day.
pub fn days_to_civil(days: i64) -> (r: (i64, u32, u32))
    requires
        days <= i64::MAX - 719468,
    ensures
        is_date(r.0 as int, r.1 as int, r.2 as int),
        day_number(r.0 as int, r.1 as int, r.2 as int) == days,
{
    let z: i64 = days + 719468;
    let era: i64 = if z >= 0 {
        z / 146097
    } else {
        -(((-(z + 1) as u64) / 146097) as i64) - 1
    };
    assert(0 <= z - era * 146097 <= 146096);
    let doe: u32 = (z - era * 146097) as u32;
    proof {
        lemma_year_of_era(doe);
    }
    let yoe: u32 = (doe - doe / 1460 + doe / 36524 - doe / 146096) / 365;
    let doy: u32 = doe - (365 * yoe + yoe / 4 - yoe / 100);
    proof {
        lemma_day_of_year(doy);
    }
    let mp: u32 = (5 * doy + 2) / 153;
    let d: u32 = doy - (153 * mp + 2) / 5 + 1;
    let y: i64 = yoe as i64 + era * 400;
    proof {
        lemma_years_of_era(era as int, yoe as int);
        lemma_months(y as int, mp as int);
    }
    let m: u32 = if mp < 10 {
        mp + 3
    } else {
        mp - 9
    };
    let in_year: i64 = if m <= 2 {
        y + 1
    } else {
        y
    };
    (in_year, m, d)
}

/// A year is as long as its months together.
proof fn lemma_year_length(year: int)
    ensures
        days_before_year(year + 1) == days_before_year(year) + days_before_month(year, 13),
{
    reveal_with_fuel(days_before_month, 14);
    lemma_every(year, 4);
    lemma_every(year, 100);
    lemma_every(year, 400);
    assert(year % 400 == 0 ==> year % 100 == 0);
    assert(year % 100 == 0 ==> year % 4 == 0);
}

/// An earlier date has a smaller number.
proof fn lemma_earlier_year(a: int, b: int)
    requires
        a <= b,
    ensures
        days_before_year(a) <= days_before_year(b),
    decreases b - a,
{
    if a < b {
        lemma_earlier_year(a, b - 1);
        lemma_year_length(b - 1);
        lemma_months_before(b - 1, 1, 13);
    }
}

proof fn lemma_months_before(year: int, a: int, b: int)
    requires
        1 <= a <= b,
    ensures
        days_before_month(year, a) <= days_before_month(year, b),
        0 <= days_before_month(year, a),
        a < b ==> days_before_month(year, a) + month_days(year, a) <= days_before_month(year, b),
    decreases b,
{
    if a < b {
        lemma_months_before(year, a, b - 1);
    } else if a > 1 {
        lemma_months_before(year, a - 1, a - 1);
    }
}

/// A day has one date: two dates with the same number are the same.
pub proof fn law_a_day_has_one_date(y: int, m: int, d: int, z: int, n: int, e: int)
    requires
        is_date(y, m, d),
        is_date(z, n, e),
        day_number(y, m, d) == day_number(z, n, e),
    ensures
        y == z,
        m == n,
        d == e,
{
    if y < z {
        lemma_a_later_year(y, m, d, z, n, e);
    } else if z < y {
        lemma_a_later_year(z, n, e, y, m, d);
    } else if m < n {
        lemma_months_before(y, m, n);
    } else if n < m {
        lemma_months_before(y, n, m);
    }
}

proof fn lemma_a_later_year(y: int, m: int, d: int, z: int, n: int, e: int)
    requires
        is_date(y, m, d),
        is_date(z, n, e),
        y < z,
    ensures
        day_number(y, m, d) < day_number(z, n, e),
{
    lemma_months_before(y, m, 13);
    lemma_year_length(y);
    lemma_earlier_year(y + 1, z);
    lemma_months_before(z, n, n);
}

/// A year has 365 days, and one more every fourth, save for those of a century that is no fourth.
pub proof fn law_how_long_a_year_is(year: int)
    ensures
        days_before_year(year + 1) - days_before_year(year) == if year % 400 == 0 || year % 4 == 0
            && year % 100 != 0 {
            366int
        } else {
            365int
        },
        days_before_month(year, 13) == days_before_year(year + 1) - days_before_year(year),
{
    assert((year + 4) / 4 - (year + 3) / 4 == if year % 4 == 0 {
        1int
    } else {
        0int
    });
    assert((year + 100) / 100 - (year + 99) / 100 == if year % 100 == 0 {
        1int
    } else {
        0int
    });
    assert((year + 400) / 400 - (year + 399) / 400 == if year % 400 == 0 {
        1int
    } else {
        0int
    });
    assert(year % 400 == 0 ==> year % 100 == 0);
    assert(year % 100 == 0 ==> year % 4 == 0);
    let february = month_days(year, 2);
    assert(days_before_month(year, 1) == 0);
    assert(days_before_month(year, 2) == 31);
    assert(days_before_month(year, 3) == 31 + february);
    assert(days_before_month(year, 4) == 62 + february);
    assert(days_before_month(year, 5) == 92 + february);
    assert(days_before_month(year, 6) == 123 + february);
    assert(days_before_month(year, 7) == 153 + february);
    assert(days_before_month(year, 8) == 184 + february);
    assert(days_before_month(year, 9) == 215 + february);
    assert(days_before_month(year, 10) == 245 + february);
    assert(days_before_month(year, 11) == 276 + february);
    assert(days_before_month(year, 12) == 306 + february);
    assert(days_before_month(year, 13) == 337 + february);
}

/// Days are counted one by one: the day after a day is the next, at the end of a month and of a year
/// as within them, and the count starts on the first day of 1970.
pub proof fn law_days_are_counted_one_by_one(year: int, month: int, day: int)
    requires
        is_date(year, month, day),
    ensures
        is_date(year, month, day + 1) ==> day_number(year, month, day + 1) == day_number(
            year,
            month,
            day,
        ) + 1,
        !is_date(year, month, day + 1) && month < 12 ==> day_number(year, month + 1, 1)
            == day_number(year, month, day) + 1,
        !is_date(year, month, day + 1) && month == 12 ==> day_number(year + 1, 1, 1) == day_number(
            year,
            month,
            day,
        ) + 1,
        day_number(1970, 1, 1) == 0,
{
    law_how_long_a_year_is(year);
    assert(days_before_month(year, month + 1) == days_before_month(year, month) + month_days(
        year,
        month,
    ));
}

/// The months have their days: thirty in April, June, September and November, twenty-eight in
/// February and one more in a leap year, and thirty-one in all the others.
pub proof fn law_thirty_days_has_november(year: int, month: int)
    requires
        1 <= month <= 12,
    ensures
        month == 4 || month == 6 || month == 9 || month == 11 ==> month_days(year, month) == 30,
        month == 1 || month == 3 || month == 5 || month == 7 || month == 8 || month == 10 || month
            == 12 ==> month_days(year, month) == 31,
        year % 4 != 0 ==> month_days(year, 2) == 28,
        year % 4 == 0 && year % 100 != 0 ==> month_days(year, 2) == 29,
        year % 100 == 0 && year % 400 != 0 ==> month_days(year, 2) == 28,
        year % 400 == 0 ==> month_days(year, 2) == 29,
{
}

} // verus!
