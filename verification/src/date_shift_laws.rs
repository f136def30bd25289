//! How the parts of a time shift add up, and where a shift leads.
use crate::calendar;
use crate::date_shift;
use crate::datetime::{self, Moment};
use crate::text;
use vstd::prelude::*;

verus! {

/// No white space stands at the ends of a text.
proof fn lemma_not_trimmed(t: Seq<char>)
    requires
        t.len() > 0,
        !text::is_white_space(t[0]),
        !text::is_white_space(t.last()),
    ensures
        text::trim(t) == t,
{
}

proof fn lemma_number(n: nat)
    requires
        n <= i128::MAX,
    ensures
        date_shift::part_value(text::decimal(n)) == Some(n),
{
    text::decimal_reads_back(n);
    let t = text::decimal(n);
    assert(text::is_digit(t[0]));
    assert(text::is_digit(t.last()));
    lemma_not_trimmed(t);
}

/// Days, hours, minutes and seconds that are written as numbers add up: a day has
/// 86400 seconds, an hour 3600 and a minute 60. The sum is too large beyond the
/// milliseconds that 64 bits can count.
pub proof fn parts_of_a_shift_add_up(days: nat, hours: nat, minutes: nat, seconds: nat)
    requires
        days <= i128::MAX,
        hours <= i128::MAX,
        minutes <= i128::MAX,
        seconds <= i128::MAX,
    ensures
        ({
            let sum = 86400 * days + 3600 * hours + 60 * minutes + seconds;
            date_shift::shift_seconds(
                text::decimal(days),
                text::decimal(hours),
                text::decimal(minutes),
                text::decimal(seconds),
            ) == if sum <= i64::MAX / 1000 {
                Ok::<int, Seq<char>>(sum as int)
            } else {
                Err("The requested time shift is too large."@)
            }
        }),
{
    lemma_number(days);
    lemma_number(hours);
    lemma_number(minutes);
    lemma_number(seconds);
}

/// One more second, minute, hour or day makes a shift longer by 1, 60, 3600 or 86400
/// seconds, whatever the other parts are.
pub proof fn one_more_lengthens_a_shift(
    days: Seq<char>,
    hours: Seq<char>,
    minutes: Seq<char>,
    seconds: Seq<char>,
    n: nat,
)
    requires
        n < i128::MAX,
    ensures
        ({
            let a = date_shift::shift_seconds(days, hours, minutes, text::decimal(n));
            let b = date_shift::shift_seconds(days, hours, minutes, text::decimal(n + 1));
            a is Ok && b is Ok ==> b->Ok_0 == a->Ok_0 + 1
        }),
        ({
            let a = date_shift::shift_seconds(days, hours, text::decimal(n), seconds);
            let b = date_shift::shift_seconds(days, hours, text::decimal(n + 1), seconds);
            a is Ok && b is Ok ==> b->Ok_0 == a->Ok_0 + 60
        }),
        ({
            let a = date_shift::shift_seconds(days, text::decimal(n), minutes, seconds);
            let b = date_shift::shift_seconds(days, text::decimal(n + 1), minutes, seconds);
            a is Ok && b is Ok ==> b->Ok_0 == a->Ok_0 + 3600
        }),
        ({
            let a = date_shift::shift_seconds(text::decimal(n), hours, minutes, seconds);
            let b = date_shift::shift_seconds(text::decimal(n + 1), hours, minutes, seconds);
            a is Ok && b is Ok ==> b->Ok_0 == a->Ok_0 + 86400
        }),
{
    lemma_number(n);
    lemma_number(n + 1);
}

/// Sixty seconds are a minute, sixty minutes an hour and twenty-four hours a day,
/// whatever the other parts are.
pub proof fn parts_of_a_shift_convert(
    days: Seq<char>,
    hours: Seq<char>,
    minutes: Seq<char>,
    seconds: Seq<char>,
    large: nat,
    small: nat,
)
    requires
        large < i128::MAX,
        small + 60 <= i128::MAX,
    ensures
        date_shift::shift_seconds(days, hours, text::decimal(large), text::decimal(small + 60))
            == date_shift::shift_seconds(
            days,
            hours,
            text::decimal(large + 1),
            text::decimal(small),
        ),
        date_shift::shift_seconds(days, text::decimal(large), text::decimal(small + 60), seconds)
            == date_shift::shift_seconds(
            days,
            text::decimal(large + 1),
            text::decimal(small),
            seconds,
        ),
        date_shift::shift_seconds(text::decimal(large), text::decimal(small + 24), minutes, seconds)
            == date_shift::shift_seconds(
            text::decimal(large + 1),
            text::decimal(small),
            minutes,
            seconds,
        ),
{
    lemma_number(large);
    lemma_number(large + 1);
    lemma_number(small);
    lemma_number(small + 24);
    lemma_number(small + 60);
}

// Parts that are written in other ways.

proof fn lemma_spaces(t: Seq<char>)
    requires
        forall|k: int| 0 <= k < t.len() ==> #[trigger] t[k] == ' ',
    ensures
        text::trim(t).len() == 0,
    decreases t.len(),
{
    if t.len() > 0 {
        assert(t[0] == ' ');
        lemma_spaces(t.skip(1));
    }
}

proof fn lemma_padded(before: Seq<char>, t: Seq<char>, after: Seq<char>)
    requires
        forall|k: int| 0 <= k < before.len() ==> #[trigger] before[k] == ' ',
        forall|k: int| 0 <= k < after.len() ==> #[trigger] after[k] == ' ',
    ensures
        text::trim(before + t + after) == text::trim(t),
    decreases before.len() + after.len(),
{
    let s = before + t + after;
    if before.len() > 0 {
        assert(s[0] == before[0]);
        assert(s.skip(1) =~= before.skip(1) + t + after);
        lemma_padded(before.skip(1), t, after);
    } else if after.len() > 0 {
        let less = after.drop_last();
        assert(after.last() == ' ');
        lemma_padded(before, t, less);
        let u = before + t + less;
        assert(s =~= u.push(' '));
        lemma_trim_push(u);
    } else {
        assert(s =~= t);
    }
}

proof fn lemma_trim_push(u: Seq<char>)
    ensures
        text::trim(u.push(' ')) == text::trim(u),
    decreases u.len(),
{
    let s = u.push(' ');
    if u.len() == 0 {
        assert(s.skip(1) =~= u);
        assert(text::trim_start(s) == text::trim_start(s.skip(1)));
    } else if text::is_white_space(u[0]) {
        assert(s.skip(1) =~= u.skip(1).push(' '));
        lemma_trim_push(u.skip(1));
    } else {
        assert(s.drop_last() =~= u);
        assert(s.last() == ' ');
    }
}

/// A part that is left blank counts as zero, and blanks around a part, or a plus sign
/// in front of its number, change nothing.
pub proof fn blanks_and_plus_signs_change_nothing(
    before: Seq<char>,
    after: Seq<char>,
    n: nat,
    a: Seq<char>,
    b: Seq<char>,
    c: Seq<char>,
)
    requires
        forall|k: int| 0 <= k < before.len() ==> #[trigger] before[k] == ' ',
        forall|k: int| 0 <= k < after.len() ==> #[trigger] after[k] == ' ',
        n <= i128::MAX,
    ensures
        date_shift::shift_seconds(before, a, b, c) == date_shift::shift_seconds(
            text::decimal(0),
            a,
            b,
            c,
        ),
        date_shift::shift_seconds(a, before, b, c) == date_shift::shift_seconds(
            a,
            text::decimal(0),
            b,
            c,
        ),
        date_shift::shift_seconds(a, b, before, c) == date_shift::shift_seconds(
            a,
            b,
            text::decimal(0),
            c,
        ),
        date_shift::shift_seconds(a, b, c, before) == date_shift::shift_seconds(
            a,
            b,
            c,
            text::decimal(0),
        ),
        date_shift::shift_seconds(before + a + after, b, c, text::decimal(n))
            == date_shift::shift_seconds(a, b, c, seq!['+'] + text::decimal(n)),
        date_shift::shift_seconds(a, before + b + after, text::decimal(n), c)
            == date_shift::shift_seconds(a, b, seq!['+'] + text::decimal(n), c),
        date_shift::shift_seconds(a, text::decimal(n), before + b + after, c)
            == date_shift::shift_seconds(a, seq!['+'] + text::decimal(n), b, c),
        date_shift::shift_seconds(text::decimal(n), a, b, before + c + after)
            == date_shift::shift_seconds(seq!['+'] + text::decimal(n), a, b, c),
{
    lemma_spaces(before);
    lemma_number(0);
    lemma_number(n);
    lemma_padded(before, a, after);
    lemma_padded(before, b, after);
    lemma_padded(before, c, after);
    text::decimal_reads_back(n);
    let t = seq!['+'] + text::decimal(n);
    assert(t.last() == text::decimal(n).last());
    assert(text::is_digit(t.last()));
    lemma_not_trimmed(t);
    assert(t.skip(1) =~= text::decimal(n));
}

/// A text that is no part of a shift: a number below zero, or one that begins and
/// ends with visible characters and holds one that is neither a digit nor a sign in
/// front.
pub open spec fn no_part(t: Seq<char>) -> bool {
    ||| exists|n: nat| n > 0 && t == seq!['-'] + #[trigger] text::decimal(n)
    ||| {
        &&& t.len() > 0
        &&& '!' <= t[0] <= '~'
        &&& '!' <= t.last() <= '~'
        &&& exists|k: int|
            0 <= k < t.len() && (k > 0 || (t[0] != '+' && t[0] != '-')) && !('0' <= #[trigger] t[k]
                <= '9')
    }
}

proof fn lemma_no_part(t: Seq<char>)
    requires
        no_part(t),
    ensures
        date_shift::part_value(t) is None,
{
    if exists|n: nat| n > 0 && t == seq!['-'] + #[trigger] text::decimal(n) {
        let n = choose|n: nat| n > 0 && t == seq!['-'] + #[trigger] text::decimal(n);
        text::decimal_reads_back(n);
        assert(t.last() == text::decimal(n).last());
        assert(text::is_digit(t.last()));
        lemma_not_trimmed(t);
        assert(t.skip(1) =~= text::decimal(n));
    } else {
        lemma_not_trimmed(t);
        let k = choose|k: int|
            0 <= k < t.len() && (k > 0 || (t[0] != '+' && t[0] != '-')) && !('0' <= #[trigger] t[k]
                <= '9');
        if t[0] == '+' || t[0] == '-' {
            assert(t.skip(1)[k - 1] == t[k]);
            assert(!text::is_digit(t.skip(1)[k - 1]));
        } else {
            assert(!text::is_digit(t[k]));
        }
    }
}

/// The first part that is no number of zero or more is named, whatever follows it.
pub proof fn wrong_parts_are_named(
    days: nat,
    hours: nat,
    minutes: nat,
    wrong: Seq<char>,
    a: Seq<char>,
    b: Seq<char>,
    c: Seq<char>,
)
    requires
        days <= i128::MAX,
        hours <= i128::MAX,
        minutes <= i128::MAX,
        no_part(wrong),
    ensures
        date_shift::shift_seconds(wrong, a, b, c) == Err::<int, Seq<char>>(
            "Days must be a non-negative whole number."@,
        ),
        date_shift::shift_seconds(text::decimal(days), wrong, b, c) == Err::<int, Seq<char>>(
            "Hours must be a non-negative whole number."@,
        ),
        date_shift::shift_seconds(text::decimal(days), text::decimal(hours), wrong, c) == Err::<
            int,
            Seq<char>,
        >("Minutes must be a non-negative whole number."@),
        date_shift::shift_seconds(
            text::decimal(days),
            text::decimal(hours),
            text::decimal(minutes),
            wrong,
        ) == Err::<int, Seq<char>>("Seconds must be a non-negative whole number."@),
{
    lemma_no_part(wrong);
    lemma_number(days);
    lemma_number(hours);
    lemma_number(minutes);
    reveal_strlit(" must be a non-negative whole number.");
    reveal_strlit("Days");
    reveal_strlit("Hours");
    reveal_strlit("Minutes");
    reveal_strlit("Seconds");
    reveal_strlit("Days must be a non-negative whole number.");
    reveal_strlit("Hours must be a non-negative whole number.");
    reveal_strlit("Minutes must be a non-negative whole number.");
    reveal_strlit("Seconds must be a non-negative whole number.");
    let rest = " must be a non-negative whole number."@;
    assert("Days"@ + rest =~= "Days must be a non-negative whole number."@);
    assert("Hours"@ + rest =~= "Hours must be a non-negative whole number."@);
    assert("Minutes"@ + rest =~= "Minutes must be a non-negative whole number."@);
    assert("Seconds"@ + rest =~= "Seconds must be a non-negative whole number."@);
}

// Where a shift leads.

/// A shift leads to the moment that lies so many seconds later, and with `subtract`
/// to the one that lies so many seconds earlier.
pub proof fn shifts_lead_to_the_second(from: Moment, to: Moment, seconds: int)
    requires
        datetime::valid_moment(from),
        datetime::valid_moment(to),
        from.nano == to.nano,
        from.nano < 1_000_000_000,
        datetime::timestamp(to) == datetime::timestamp(from) + seconds,
    ensures
        date_shift::shifted_text(Some(from), seconds, false) == Some(datetime::display_text(to)),
        date_shift::shifted_text(Some(to), seconds, true) == Some(datetime::display_text(from)),
{
    calendar::moments_are_supported(from);
    calendar::moments_are_supported(to);
    calendar::moment_is_at_its_second(from);
    calendar::moment_is_at_its_second(to);
}

/// A shift that leads to no moment of the supported years gives none, and neither
/// does one of no date.
pub proof fn shifts_out_of_the_calendar_give_nothing(from: Moment, seconds: int, subtract: bool)
    requires
        datetime::valid_moment(from),
        from.nano < 1_000_000_000,
        forall|m: Moment| #[trigger]
            datetime::valid_moment(m) ==> datetime::timestamp(m) != datetime::timestamp(from) + if subtract {
                -seconds
            } else {
                seconds
            },
    ensures
        date_shift::shifted_text(Some(from), seconds, subtract) is None,
        date_shift::shifted_text(None, seconds, subtract) is None,
{
    let target = datetime::timestamp(from) + if subtract {
        -seconds
    } else {
        seconds
    };
    if datetime::supported_timestamp(target) {
        calendar::every_second_has_a_moment(target, from.nano);
    }
}

} // verus!
