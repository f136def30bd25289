//! What dates, their order and their texts are to the calendar and the clock.
use crate::calendar;
use crate::datetime::{self, Moment};
use crate::text;
use vstd::prelude::*;

verus! {

// Digits.

/// The number that a decimal digit stands for.
pub open spec fn digit(c: char) -> int {
    c as int - 48
}

/// Two decimal digits stand at a place and write a number.
pub open spec fn writes_two(s: Seq<char>, at: int, n: int) -> bool {
    &&& '0' <= s[at] <= '9' && '0' <= s[at + 1] <= '9'
    &&& n == 10 * digit(s[at]) + digit(s[at + 1])
}

/// Four decimal digits stand at a place and write a number.
pub open spec fn writes_four(s: Seq<char>, at: int, n: int) -> bool {
    &&& '0' <= s[at] <= '9' && '0' <= s[at + 1] <= '9' && '0' <= s[at + 2] <= '9' && '0' <= s[at
        + 3] <= '9'
    &&& n == 1000 * digit(s[at]) + 100 * digit(s[at + 1]) + 10 * digit(s[at + 2]) + digit(
        s[at + 3],
    )
}

/// A number below ten is one digit; of a larger number, the last digit counts the
/// units and the digits before it write the tens.
pub proof fn decimal_digits_count_units_and_tens(tens: nat, units: nat)
    requires
        units < 10,
    ensures
        text::decimal(units).len() == 1,
        '0' <= text::decimal(units)[0] <= '9',
        digit(text::decimal(units)[0]) == units,
        tens > 0 ==> text::decimal(10 * tens + units) == text::decimal(tens) + text::decimal(units),
{
    assert(text::decimal(units) =~= seq![text::digit_char(units)]);
    if tens > 0 {
        let n = 10 * tens + units;
        assert(n / 10 == tens && n % 10 == units);
        assert(text::decimal(n) =~= text::decimal(tens) + text::decimal(units));
    }
}

/// Digits behind others weigh less: each further digit makes ten of what was there
/// and adds itself.
pub proof fn digits_weigh_ten_times_as_much_to_the_left(s: Seq<char>, c: char)
    requires
        '0' <= c <= '9',
    ensures
        text::digits_value(Seq::empty()) == 0,
        text::digits_value(s.push(c)) == 10 * text::digits_value(s) + digit(c),
{
    assert(s.push(c).drop_last() =~= s);
}

pub proof fn lemma_two(n: int)
    requires
        0 <= n <= 99,
    ensures
        datetime::two(n).len() == 2,
        writes_two(datetime::two(n), 0, n),
{
    reveal_with_fuel(text::decimal, 3);
    let t = datetime::two(n);
    if n < 10 {
        assert(t =~= seq!['0', text::digit_char(n as nat)]);
    } else {
        assert(t =~= seq![text::digit_char((n / 10) as nat), text::digit_char((n % 10) as nat)]);
    }
}

pub proof fn lemma_four(n: int)
    requires
        0 <= n <= 9999,
    ensures
        datetime::year_text(n).len() == 4,
        writes_four(datetime::year_text(n), 0, n),
{
    reveal_with_fuel(text::decimal, 5);
    let t = datetime::year_text(n);
    let a = text::digit_char((n % 10) as nat);
    let b = text::digit_char((n / 10 % 10) as nat);
    let c = text::digit_char((n / 100 % 10) as nat);
    let d = text::digit_char((n / 1000) as nat);
    assert(n / 10 / 10 == n / 100);
    assert(n / 100 / 10 == n / 1000);
    if n < 10 {
        assert(t =~= seq!['0', '0', '0', a]);
    } else if n < 100 {
        assert(t =~= seq!['0', '0', b, a]);
    } else if n < 1000 {
        assert(t =~= seq!['0', c, b, a]);
    } else {
        assert(t =~= seq![d, c, b, a]);
    }
    assert(n == 1000 * (n / 1000) + 100 * (n / 100 % 10) + 10 * (n / 10 % 10) + n % 10);
}

// Texts of dates.

/// Nineteen characters write a date and a time: year, month and day with a
/// separator between them, a space, and hour, minute and second with colons.
pub open spec fn writes_moment(s: Seq<char>, separator: char, m: Moment) -> bool {
    &&& s.len() == 19
    &&& writes_four(s, 0, m.year as int)
    &&& s[4] == separator
    &&& writes_two(s, 5, m.month as int)
    &&& s[7] == separator
    &&& writes_two(s, 8, m.day as int)
    &&& s[10] == ' '
    &&& writes_two(s, 11, m.hour as int)
    &&& s[13] == ':'
    &&& writes_two(s, 14, m.minute as int)
    &&& s[16] == ':'
    &&& writes_two(s, 17, m.second as int)
}

proof fn lemma_written(m: Moment, separator: char)
    requires
        datetime::plain(m),
    ensures
        writes_moment(
            datetime::date_text(m.year as int, m.month as int, m.day as int, seq![separator])
                + seq![' '] + datetime::time_text(m, seq![':']),
            separator,
            m,
        ),
{
    lemma_four(m.year as int);
    lemma_two(m.month as int);
    lemma_two(m.day as int);
    lemma_two(m.hour as int);
    lemma_two(m.minute as int);
    lemma_two(m.second as int);
    let y = datetime::year_text(m.year as int);
    let mo = datetime::two(m.month as int);
    let d = datetime::two(m.day as int);
    let h = datetime::two(m.hour as int);
    let mi = datetime::two(m.minute as int);
    let se = datetime::two(m.second as int);
    let s = datetime::date_text(m.year as int, m.month as int, m.day as int, seq![separator])
        + seq![' '] + datetime::time_text(m, seq![':']);
    assert(s[0] == y[0] && s[1] == y[1] && s[2] == y[2] && s[3] == y[3]);
    assert(s[5] == mo[0] && s[6] == mo[1]);
    assert(s[8] == d[0] && s[9] == d[1]);
    assert(s[11] == h[0] && s[12] == h[1]);
    assert(s[14] == mi[0] && s[15] == mi[1]);
    assert(s[17] == se[0] && s[18] == se[1]);
}

/// A date with a four-digit year is shown with hyphens and stands in EXIF data with
/// colons; both write its year, month, day, hour, minute and second in this order.
pub proof fn dates_are_written_from_the_year_to_the_second(m: Moment)
    requires
        datetime::plain(m),
    ensures
        writes_moment(datetime::display_text(m), '-', m),
        writes_moment(datetime::exif_text(m), ':', m),
{
    lemma_written(m, '-');
    lemma_written(m, ':');
}

/// In filenames a date is eight digits, an underscore and six digits.
pub proof fn dates_in_filenames_are_digits(m: Moment)
    requires
        datetime::plain(m),
    ensures
        ({
            let s = datetime::compact_text(m);
            &&& s.len() == 15
            &&& writes_four(s, 0, m.year as int)
            &&& writes_two(s, 4, m.month as int)
            &&& writes_two(s, 6, m.day as int)
            &&& s[8] == '_'
            &&& writes_two(s, 9, m.hour as int)
            &&& writes_two(s, 11, m.minute as int)
            &&& writes_two(s, 13, m.second as int)
        }),
{
    lemma_four(m.year as int);
    lemma_two(m.month as int);
    lemma_two(m.day as int);
    lemma_two(m.hour as int);
    lemma_two(m.minute as int);
    lemma_two(m.second as int);
    let y = datetime::year_text(m.year as int);
    let mo = datetime::two(m.month as int);
    let d = datetime::two(m.day as int);
    let h = datetime::two(m.hour as int);
    let mi = datetime::two(m.minute as int);
    let se = datetime::two(m.second as int);
    let s = datetime::compact_text(m);
    assert(s[0] == y[0] && s[1] == y[1] && s[2] == y[2] && s[3] == y[3]);
    assert(s[4] == mo[0] && s[5] == mo[1]);
    assert(s[6] == d[0] && s[7] == d[1]);
    assert(s[9] == h[0] && s[10] == h[1]);
    assert(s[11] == mi[0] && s[12] == mi[1]);
    assert(s[13] == se[0] && s[14] == se[1]);
}

// The calendar.

/// April, June, September and November have thirty days, February twenty-eight or,
/// in leap years, twenty-nine, and the other months thirty-one. Every fourth year is
/// a leap year, but of the full centuries only every fourth.
pub proof fn months_have_their_days(year: int, month: int, day: int)
    requires
        -262143 <= year <= 262142,
        1 <= month <= 12,
    ensures
        datetime::valid_date(year, month, day) == (1 <= day && (day <= 28 || (day == 29 && (month
            != 2 || year % 400 == 0 || (year % 4 == 0 && year % 100 != 0))) || (day == 30 && month
            != 2) || (day == 31 && month != 2 && month != 4 && month != 6 && month != 9 && month
            != 11))),
{
}

/// No other month, and no other day of any month, is in the calendar; a day has
/// twenty-four hours, an hour sixty minutes and a minute sixty seconds.
pub proof fn days_have_their_hours(m: Moment)
    ensures
        datetime::valid_moment(m) ==> 1 <= m.month <= 12 && 1 <= m.day <= 31 && m.hour <= 23
            && m.minute <= 59 && m.second <= 59,
        m.nano == 0 && m.hour <= 23 && m.minute <= 59 && m.second <= 59 && datetime::valid_date(
            m.year as int,
            m.month as int,
            m.day as int,
        ) ==> datetime::valid_moment(m),
{
}

/// The first second of 1970 is number zero.
proof fn lemma_beginning()
    ensures
        datetime::day_number(1970, 1, 1) == 719163,
{
    assert(datetime::days_before_month(1970, 1) == 0);
}

/// The days are numbered one after the other: the next day of a month, the first
/// day of the next month and the first day of the next year each follow the day
/// before.
pub proof fn days_follow_each_other(year: int, month: int, day: int)
    requires
        datetime::valid_date(year, month, day),
    ensures
        datetime::day_number(1970, 1, 1) == 719163,
        datetime::valid_date(year, month, day + 1) ==> datetime::day_number(year, month, day + 1)
            == datetime::day_number(year, month, day) + 1,
        !datetime::valid_date(year, month, day + 1) && month < 12 ==> datetime::day_number(
            year,
            month + 1,
            1,
        ) == datetime::day_number(year, month, day) + 1,
        month == 12 && day == 31 ==> datetime::day_number(year + 1, 1, 1) == datetime::day_number(
            year,
            month,
            day,
        ) + 1,
{
    lemma_beginning();
    if month == 12 {
        reveal_with_fuel(datetime::days_before_month, 14);
        assert(datetime::days_before_month(year, 12) == if datetime::is_leap_year(year) {
            335int
        } else {
            334
        });
        assert(datetime::days_before_month(year + 1, 1) == 0);
    }
}

/// Seconds are counted from the first of 1970: a day has 86400 of them, an hour
/// 3600 and a minute 60.
pub proof fn seconds_are_counted(m: Moment)
    requires
        datetime::valid_moment(m),
    ensures
        datetime::timestamp(m) == 86400 * (datetime::day_number(
            m.year as int,
            m.month as int,
            m.day as int,
        ) - datetime::day_number(1970, 1, 1)) + 3600 * m.hour + 60 * m.minute + m.second,
{
    lemma_beginning();
}

/// One moment is earlier than another exactly if its second is, or, within one
/// second, its nanosecond.
pub proof fn earlier_moments_have_earlier_seconds(a: Moment, b: Moment)
    requires
        datetime::valid_moment(a),
        datetime::valid_moment(b),
    ensures
        datetime::earlier(a, b) == (datetime::timestamp(a) < datetime::timestamp(b) || (
        datetime::timestamp(a) == datetime::timestamp(b) && a.nano < b.nano)),
{
    let x = datetime::day_number(a.year as int, a.month as int, a.day as int);
    let y = datetime::day_number(b.year as int, b.month as int, b.day as int);
    if a.year < b.year || (a.year == b.year && (a.month < b.month || (a.month == b.month && a.day
        < b.day))) {
        calendar::dates_are_numbered_in_order(a, b);
        assert(x < y);
        assert(datetime::timestamp(a) < datetime::timestamp(b));
    } else if b.year < a.year || (a.year == b.year && (b.month < a.month || (a.month == b.month
        && b.day < a.day))) {
        calendar::dates_are_numbered_in_order(b, a);
        assert(y < x);
        assert(datetime::timestamp(b) < datetime::timestamp(a));
    } else {
        assert(x == y);
    }
}

} // verus!
