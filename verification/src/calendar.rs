//! The calendar and the seconds from the start of 1970: each second belongs to
//! one date and time only.
use crate::datetime::{self, Moment};
use vstd::prelude::*;

verus! {

/// The days before a year.
spec fn days_before_year(year: int) -> int {
    365 * (year - 1) + (year - 1) / 4 - (year - 1) / 100 + (year - 1) / 400
}

proof fn lemma_next_year(year: int)
    ensures
        days_before_year(year + 1) == days_before_year(year) + if datetime::is_leap_year(year) {
            366int
        } else {
            365
        },
{
}

proof fn lemma_years(a: int, b: int)
    requires
        a <= b,
    ensures
        days_before_year(a) <= days_before_year(b),
    decreases b - a,
{
    if a < b {
        lemma_years(a, b - 1);
        lemma_next_year(b - 1);
    }
}

proof fn lemma_months(year: int, a: int, b: int)
    requires
        1 <= a <= b <= 13,
    ensures
        datetime::days_before_month(year, a) <= datetime::days_before_month(year, b),
        a < b ==> datetime::days_before_month(year, a) + datetime::days_in_month(year, a)
            <= datetime::days_before_month(year, b),
    decreases b - a,
{
    if a < b {
        lemma_months(year, a, b - 1);
    }
}

proof fn lemma_whole_year(year: int)
    ensures
        datetime::days_before_month(year, 13) == if datetime::is_leap_year(year) {
            366int
        } else {
            365
        },
{
    reveal_with_fuel(datetime::days_before_month, 14);
}

proof fn lemma_day_in_year(year: int, month: int, day: int)
    requires
        1 <= month <= 12,
        1 <= day <= datetime::days_in_month(year, month),
    ensures
        days_before_year(year) < datetime::day_number(year, month, day) <= days_before_year(
            year + 1,
        ),
{
    lemma_months(year, 1, month);
    lemma_months(year, month, 13);
    lemma_whole_year(year);
    lemma_next_year(year);
}

/// A date that comes before another has a smaller number.
pub proof fn dates_are_numbered_in_order(a: Moment, b: Moment)
    requires
        datetime::valid_moment(a),
        datetime::valid_moment(b),
        a.year < b.year || (a.year == b.year && (a.month < b.month || (a.month == b.month && a.day
            < b.day))),
    ensures
        datetime::day_number(a.year as int, a.month as int, a.day as int) < datetime::day_number(
            b.year as int,
            b.month as int,
            b.day as int,
        ),
{
    lemma_day_in_year(a.year as int, a.month as int, a.day as int);
    lemma_day_in_year(b.year as int, b.month as int, b.day as int);
    if a.year < b.year {
        lemma_years(a.year + 1, b.year as int);
    } else if a.month < b.month {
        lemma_months(a.year as int, a.month as int, b.month as int);
    }
}

/// No two moments have the same second and the same nanosecond.
pub proof fn each_second_is_one_moment(a: Moment, b: Moment)
    requires
        datetime::valid_moment(a),
        datetime::valid_moment(b),
        datetime::timestamp(a) == datetime::timestamp(b),
        a.nano == b.nano,
    ensures
        a == b,
{
    let day_a = datetime::day_number(a.year as int, a.month as int, a.day as int);
    let day_b = datetime::day_number(b.year as int, b.month as int, b.day as int);
    assert(day_a == day_b);
    if a.year < b.year || (a.year == b.year && (a.month < b.month || (a.month == b.month && a.day
        < b.day))) {
        dates_are_numbered_in_order(a, b);
    } else if b.year < a.year || (a.year == b.year && (b.month < a.month || (a.month == b.month
        && b.day < a.day))) {
        dates_are_numbered_in_order(b, a);
    }
}

/// A moment is the one at its second.
pub proof fn moment_is_at_its_second(m: Moment)
    requires
        datetime::valid_moment(m),
    ensures
        datetime::moment_of(datetime::timestamp(m), m.nano) == m,
{
    let c = datetime::moment_of(datetime::timestamp(m), m.nano);
    assert(datetime::valid_moment(c) && datetime::timestamp(c) == datetime::timestamp(m)
        && c.nano == m.nano);
    each_second_is_one_moment(c, m);
}

/// A day of the supported years.
spec fn is_day(n: int) -> bool {
    days_before_year(-262143) < n <= days_before_year(262143)
}

/// The date of a day.
spec fn has_number(n: int, y: int, m: int, d: int) -> bool {
    datetime::valid_date(y, m, d) && datetime::day_number(y, m, d) == n
}

proof fn lemma_day_has_date(n: int)
    requires
        is_day(n),
    ensures
        exists|y: int, m: int, d: int| #[trigger] has_number(n, y, m, d),
    decreases n - days_before_year(-262143),
{
    if n == days_before_year(-262143) + 1 {
        assert(datetime::days_before_month(-262143, 1) == 0);
        assert(has_number(n, -262143, 1, 1));
    } else {
        lemma_day_has_date(n - 1);
        let (y, m, d) = choose|y: int, m: int, d: int| #[trigger] has_number(n - 1, y, m, d);
        if d < datetime::days_in_month(y, m) {
            assert(has_number(n, y, m, d + 1));
        } else if m < 12 {
            assert(datetime::days_before_month(y, m + 1) == datetime::days_before_month(y, m)
                + datetime::days_in_month(y, m));
            assert(has_number(n, y, m + 1, 1));
        } else {
            lemma_whole_year(y);
            lemma_next_year(y);
            assert(datetime::days_before_month(y, 13) == datetime::days_before_month(y, 12)
                + datetime::days_in_month(y, 12));
            assert(datetime::day_number(y, m, d) == days_before_year(y + 1));
            if y == 262142 {
                assert(n - 1 == days_before_year(262143));
            }
            assert(datetime::days_before_month(y + 1, 1) == 0);
            assert(has_number(n, y + 1, 1, 1));
        }
    }
}

/// Every second of the supported years belongs to a moment.
pub proof fn every_second_has_a_moment(seconds: int, nano: u32)
    requires
        datetime::supported_timestamp(seconds),
        nano < 1_000_000_000,
    ensures
        datetime::valid_moment(datetime::moment_of(seconds, nano)),
        datetime::timestamp(datetime::moment_of(seconds, nano)) == seconds,
        datetime::moment_of(seconds, nano).nano == nano,
{
    let n = seconds / 86400 + 719163;
    let t = seconds % 86400;
    assert(is_day(n));
    lemma_day_has_date(n);
    let (y, m, d) = choose|y: int, m: int, d: int| #[trigger] has_number(n, y, m, d);
    let c = Moment {
        year: y as i32,
        month: m as u32,
        day: d as u32,
        hour: (t / 3600) as u32,
        minute: (t % 3600 / 60) as u32,
        second: (t % 60) as u32,
        nano,
    };
    assert(t == 3600 * (t / 3600) + 60 * (t % 3600 / 60) + t % 60);
    assert(datetime::valid_moment(c) && datetime::timestamp(c) == seconds && c.nano == nano);
}

/// Every moment lies in the supported years.
pub proof fn moments_are_supported(m: Moment)
    requires
        datetime::valid_moment(m),
    ensures
        datetime::supported_timestamp(datetime::timestamp(m)),
{
    lemma_day_in_year(m.year as int, m.month as int, m.day as int);
    lemma_years(-262143, m.year as int);
    lemma_years(m.year + 1, 262143);
}

} // verus!
