//! Which dates are read from digits in filenames.
use crate::datetime::{self, Moment};
use crate::filename_date;
use crate::moment_laws;
use crate::rename_name_laws;
use crate::text;
use vstd::prelude::*;

verus! {

/// Fourteen digits write the year, month, day, hour, minute and second of a moment.
/// Twelve leave the second out, and ten write only the last two digits of a year
/// from 1980 to 2079.
pub open spec fn stand_for(d: Seq<char>, m: Moment) -> bool {
    ||| {
        &&& d.len() == 14
        &&& moment_laws::writes_four(d, 0, m.year as int)
        &&& moment_laws::writes_two(d, 4, m.month as int)
        &&& moment_laws::writes_two(d, 6, m.day as int)
        &&& moment_laws::writes_two(d, 8, m.hour as int)
        &&& moment_laws::writes_two(d, 10, m.minute as int)
        &&& moment_laws::writes_two(d, 12, m.second as int)
    }
    ||| {
        &&& d.len() == 12
        &&& moment_laws::writes_four(d, 0, m.year as int)
        &&& moment_laws::writes_two(d, 4, m.month as int)
        &&& moment_laws::writes_two(d, 6, m.day as int)
        &&& moment_laws::writes_two(d, 8, m.hour as int)
        &&& moment_laws::writes_two(d, 10, m.minute as int)
        &&& m.second == 0
    }
    ||| {
        &&& d.len() == 10
        &&& 1980 <= m.year <= 2079
        &&& moment_laws::writes_two(d, 0, m.year as int % 100)
        &&& moment_laws::writes_two(d, 2, m.month as int)
        &&& moment_laws::writes_two(d, 4, m.day as int)
        &&& moment_laws::writes_two(d, 6, m.hour as int)
        &&& moment_laws::writes_two(d, 8, m.minute as int)
        &&& m.second == 0
    }
}

/// Characters that are all from `0` to `9`.
pub open spec fn digits_only(d: Seq<char>) -> bool {
    forall|k: int| 0 <= k < d.len() ==> '0' <= #[trigger] d[k] <= '9'
}

proof fn lemma_two_digits(d: Seq<char>, at: int, n: int)
    requires
        0 <= at,
        at + 2 <= d.len(),
        '0' <= d[at] <= '9',
        '0' <= d[at + 1] <= '9',
    ensures
        moment_laws::writes_two(d, at, n) == (n == filename_date::number_in(d, at, at + 2)),
        0 <= filename_date::number_in(d, at, at + 2) <= 99,
{
    reveal_with_fuel(text::digits_value, 3);
    let s = d.subrange(at, at + 2);
    assert(s.drop_last().drop_last() =~= Seq::<char>::empty());
    assert(s.drop_last().last() == d[at]);
    assert(s.last() == d[at + 1]);
}

proof fn lemma_four_digits(d: Seq<char>, at: int, n: int)
    requires
        0 <= at,
        at + 4 <= d.len(),
        '0' <= d[at] <= '9',
        '0' <= d[at + 1] <= '9',
        '0' <= d[at + 2] <= '9',
        '0' <= d[at + 3] <= '9',
    ensures
        moment_laws::writes_four(d, at, n) == (n == filename_date::number_in(d, at, at + 4)),
        0 <= filename_date::number_in(d, at, at + 4) <= 9999,
{
    reveal_with_fuel(text::digits_value, 5);
    let s = d.subrange(at, at + 4);
    let t = s.drop_last();
    let u = t.drop_last();
    assert(u.drop_last().drop_last() =~= Seq::<char>::empty());
    assert(u.drop_last().last() == d[at]);
    assert(u.last() == d[at + 1]);
    assert(t.last() == d[at + 2]);
    assert(s.last() == d[at + 3]);
}

/// Digits are read as the one date that they write, and only where the calendar and
/// the clock have it; other numbers of digits are read as none.
pub proof fn digits_are_read_as_their_date(d: Seq<char>, m: Moment)
    requires
        digits_only(d),
    ensures
        filename_date::compact_moment(d) == Some(m) <==> stand_for(d, m) && datetime::valid_moment(
            m,
        ) && m.nano == 0,
{
    if d.len() == 14 || d.len() == 12 {
        lemma_four_digits(d, 0, m.year as int);
        lemma_two_digits(d, 4, m.month as int);
        lemma_two_digits(d, 6, m.day as int);
        lemma_two_digits(d, 8, m.hour as int);
        lemma_two_digits(d, 10, m.minute as int);
        if d.len() == 14 {
            lemma_two_digits(d, 12, m.second as int);
        }
    } else if d.len() == 10 {
        lemma_two_digits(d, 0, m.year as int % 100);
        lemma_two_digits(d, 2, m.month as int);
        lemma_two_digits(d, 4, m.day as int);
        lemma_two_digits(d, 6, m.hour as int);
        lemma_two_digits(d, 8, m.minute as int);
    }
}

/// Nineteen characters write a date and a time with separators between the parts.
pub open spec fn separated(s: Seq<char>, m: Moment) -> bool {
    &&& s.len() == 19
    &&& moment_laws::writes_four(s, 0, m.year as int)
    &&& s[4] == '-' || s[4] == '.' || s[4] == '_'
    &&& moment_laws::writes_two(s, 5, m.month as int)
    &&& s[7] == '-' || s[7] == '.' || s[7] == '_'
    &&& moment_laws::writes_two(s, 8, m.day as int)
    &&& s[10] == ' ' || s[10] == '-' || s[10] == '_' || s[10] == 'T'
    &&& moment_laws::writes_two(s, 11, m.hour as int)
    &&& s[13] == ':' || s[13] == ';' || s[13] == '.' || s[13] == '-' || s[13] == '_'
    &&& moment_laws::writes_two(s, 14, m.minute as int)
    &&& s[16] == ':' || s[16] == ';' || s[16] == '.' || s[16] == '-' || s[16] == '_'
    &&& moment_laws::writes_two(s, 17, m.second as int)
}

/// A date with separators is read as what it writes.
pub proof fn separated_parts_are_read_as_their_date(s: Seq<char>, m: Moment)
    ensures
        filename_date::separated_moment(s) == Some(m) <==> separated(s, m)
            && datetime::valid_moment(m) && m.nano == 0,
{
    if filename_date::is_separated(s) {
        let d = s.subrange(0, 4) + s.subrange(5, 7) + s.subrange(8, 10) + s.subrange(11, 13)
            + s.subrange(14, 16) + s.subrange(17, 19);
        assert(d[0] == s[0] && d[1] == s[1] && d[2] == s[2] && d[3] == s[3]);
        assert(d[4] == s[5] && d[5] == s[6] && d[6] == s[8] && d[7] == s[9]);
        assert(d[8] == s[11] && d[9] == s[12] && d[10] == s[14] && d[11] == s[15]);
        assert(d[12] == s[17] && d[13] == s[18]);
        assert(digits_only(d));
        digits_are_read_as_their_date(d, m);
    }
}

// Finding dates in names.

proof fn lemma_run_of_digits(s: Seq<char>, i: int, n: int, acc: Seq<char>)
    requires
        0 <= i,
        0 <= n,
        i + n <= s.len(),
        acc.len() + n <= 14,
        forall|k: int| i <= k < i + n ==> '0' <= #[trigger] s[k] <= '9',
    ensures
        filename_date::digit_run(s, i, acc) == filename_date::digit_run(
            s,
            i + n,
            acc + s.subrange(i, i + n),
        ),
    decreases n,
{
    if n == 0 {
        assert(acc + s.subrange(i, i) =~= acc);
    } else {
        lemma_run_of_digits(s, i + 1, n - 1, acc.push(s[i]));
        assert(acc.push(s[i]) + s.subrange(i + 1, i + n) =~= acc + s.subrange(i, i + n));
    }
}

proof fn lemma_run_over_gap(s: Seq<char>, i: int, n: int, acc: Seq<char>)
    requires
        0 <= i,
        0 <= n,
        i + n <= s.len(),
        acc.len() == 8,
        forall|k: int| i <= k < i + n ==> #[trigger] s[k] == '_' || s[k] == '-',
    ensures
        filename_date::digit_run(s, i, acc) == filename_date::digit_run(s, i + n, acc),
    decreases n,
{
    if n > 0 {
        assert(s[i] == '_' || s[i] == '-');
        lemma_run_over_gap(s, i + 1, n - 1, acc);
    }
}

/// Digits stand in a text from a place on: eight of them, then any number of
/// underscores and hyphens, then the others.
pub open spec fn spelled(s: Seq<char>, start: int, gap: int, d: Seq<char>) -> bool {
    &&& 0 <= start
    &&& 0 <= gap
    &&& 8 <= d.len()
    &&& start + gap + d.len() <= s.len()
    &&& digits_only(d)
    &&& forall|k: int| 0 <= k < 8 ==> s[start + k] == #[trigger] d[k]
    &&& forall|k: int| 8 <= k < d.len() ==> s[start + gap + k] == #[trigger] d[k]
    &&& forall|k: int| start + 8 <= k < start + 8 + gap ==> #[trigger] s[k] == '_' || s[k] == '-'
}

proof fn lemma_spelled_run(s: Seq<char>, start: int, gap: int, d: Seq<char>)
    requires
        spelled(s, start, gap, d),
        d.len() <= 14,
    ensures
        filename_date::digit_run(s, start, Seq::empty()) == filename_date::digit_run(
            s,
            start + gap + d.len(),
            d,
        ),
{
    let n = d.len() as int;
    let first = s.subrange(start, start + 8);
    assert forall|k: int| start <= k < start + 8 implies '0' <= #[trigger] s[k] <= '9' by {
        assert(s[start + (k - start)] == d[k - start]);
    }
    lemma_run_of_digits(s, start, 8, Seq::empty());
    assert(Seq::<char>::empty() + first =~= first);
    lemma_run_over_gap(s, start + 8, gap, first);
    let next = start + 8 + gap;
    assert forall|k: int| next <= k < next + (n - 8) implies '0' <= #[trigger] s[k] <= '9' by {
        assert(s[start + gap + (k - start - gap)] == d[k - start - gap]);
    }
    lemma_run_of_digits(s, next, n - 8, first);
    let all = first + s.subrange(next, next + (n - 8));
    assert(all =~= d) by {
        assert forall|k: int| 0 <= k < n implies all[k] == d[k] by {
            if k < 8 {
                assert(s[start + k] == d[k]);
            } else {
                assert(s[start + gap + k] == d[k]);
            }
        }
    }
}

/// No digit stands at a place, or only one that no other follows.
pub open spec fn at_most_one_digit(s: Seq<char>, at: int) -> bool {
    ||| at >= s.len()
    ||| !('0' <= s[at] <= '9')
    ||| at + 1 >= s.len()
    ||| !('0' <= s[at + 1] <= '9')
}

proof fn lemma_gives(s: Seq<char>, start: int, x: Moment, r: Option<Moment>)
    requires
        0 <= start < s.len(),
        filename_date::gives_at(s, start, x),
        datetime::valid_moment(x),
        filename_date::is_earliest(s, s.len() as int, r),
        r matches Some(m) ==> datetime::valid_moment(m),
    ensures
        r matches Some(m) && datetime::timestamp(m) <= datetime::timestamp(x),
{
    assert(filename_date::gives(s, s.len() as int, x));
    if let Some(m) = r {
        moment_laws::earlier_moments_have_earlier_seconds(x, m);
    }
}

proof fn lemma_given_is_valid(s: Seq<char>, m: Moment)
    requires
        filename_date::gives(s, s.len() as int, m),
    ensures
        datetime::valid_moment(m),
        m.nano == 0,
{
    let start = choose|k: int| 0 <= k < s.len() && #[trigger] filename_date::gives_at(s, k, m);
    if start + 19 <= s.len() && filename_date::separated_moment(s.subrange(start, start + 19))
        == Some(m) {
        separated_parts_are_read_as_their_date(s.subrange(start, start + 19), m);
    }
}

/// Wherever digits in a stem write a date, the name gives a date, and none that is
/// later: fourteen digits; or twelve or ten, where at most one digit follows.
pub proof fn digits_in_names_are_found(
    stem: Seq<char>,
    tail: Seq<char>,
    start: int,
    gap: int,
    d: Seq<char>,
    m: Moment,
    r: Option<Seq<char>>,
)
    requires
        stem.len() > 0,
        rename_name_laws::is_tail(stem, tail),
        spelled(stem, start, gap, d),
        stand_for(d, m),
        datetime::valid_moment(m),
        m.nano == 0,
        d.len() == 14 || at_most_one_digit(stem, start + gap + d.len()),
        filename_date::shows_filename_date(stem + tail, r),
    ensures
        exists|x: Moment|
            r == Some(#[trigger] datetime::display_text(x)) && datetime::valid_moment(x)
                && datetime::timestamp(x) <= datetime::timestamp(m),
{
    rename_name_laws::name_splits_into_its_parts(stem, tail);
    lemma_spelled_run(stem, start, gap, d);
    let end = start + gap + d.len();
    let run = filename_date::digit_run(stem, start, Seq::empty());
    reveal_with_fuel(filename_date::digit_run, 3);
    if d.len() < 14 {
        assert(run == d || run == d.push(stem[end]));
    }
    assert(run.take(d.len() as int) =~= d);
    digits_are_read_as_their_date(d, m);
    assert(filename_date::gives_at(stem, start, m));
    lemma_found(stem, tail, start, m, r);
}

proof fn lemma_found(
    stem: Seq<char>,
    tail: Seq<char>,
    start: int,
    m: Moment,
    r: Option<Seq<char>>,
)
    requires
        stem.len() > 0,
        rename_name_laws::is_tail(stem, tail),
        0 <= start < stem.len(),
        filename_date::gives_at(stem, start, m),
        datetime::valid_moment(m),
        filename_date::shows_filename_date(stem + tail, r),
    ensures
        exists|x: Moment|
            r == Some(#[trigger] datetime::display_text(x)) && datetime::valid_moment(x)
                && datetime::timestamp(x) <= datetime::timestamp(m),
{
    rename_name_laws::name_splits_into_its_parts(stem, tail);
    match r {
        Some(t) => {
            let x = choose|x: Moment|
                filename_date::is_earliest(stem, stem.len() as int, Some(x)) && t
                    == #[trigger] datetime::display_text(x);
            lemma_given_is_valid(stem, x);
            lemma_gives(stem, start, m, Some(x));
            assert(r == Some(datetime::display_text(x)));
        },
        None => {
            lemma_gives(stem, start, m, None);
        },
    }
}

/// Wherever a stem holds a date with separators, the name gives a date, and none
/// that is later.
pub proof fn separated_dates_in_names_are_found(
    before: Seq<char>,
    date: Seq<char>,
    after: Seq<char>,
    tail: Seq<char>,
    m: Moment,
    r: Option<Seq<char>>,
)
    requires
        rename_name_laws::is_tail(before + date + after, tail),
        separated(date, m),
        datetime::valid_moment(m),
        m.nano == 0,
        filename_date::shows_filename_date(before + date + after + tail, r),
    ensures
        exists|x: Moment|
            r == Some(#[trigger] datetime::display_text(x)) && datetime::valid_moment(x)
                && datetime::timestamp(x) <= datetime::timestamp(m),
{
    let stem = before + date + after;
    let start = before.len() as int;
    assert(stem.subrange(start, start + 19) =~= date);
    separated_parts_are_read_as_their_date(date, m);
    assert(filename_date::gives_at(stem, start, m));
    lemma_found(stem, tail, start, m, r);
}

proof fn lemma_run_is_spelled(
    s: Seq<char>,
    start: int,
    i: int,
    gap: int,
    acc: Seq<char>,
) -> (g: int)
    requires
        0 <= start <= i <= s.len(),
        0 <= gap,
        acc.len() <= 14,
        i == start + gap + acc.len(),
        acc.len() < 8 ==> gap == 0,
        digits_only(acc),
        forall|k: int| 0 <= k < acc.len() && k < 8 ==> s[start + k] == #[trigger] acc[k],
        forall|k: int| 8 <= k < acc.len() ==> s[start + gap + k] == #[trigger] acc[k],
        forall|k: int| start + 8 <= k < start + 8 + gap ==> #[trigger] s[k] == '_' || s[k] == '-',
    ensures
        filename_date::digit_run(s, i, acc).len() <= 14,
        filename_date::digit_run(s, i, acc).len() >= 8 ==> spelled(
            s,
            start,
            g,
            filename_date::digit_run(s, i, acc),
        ),
    decreases s.len() - i,
{
    if i >= s.len() || acc.len() >= 14 {
        gap
    } else if text::is_digit(s[i]) {
        lemma_run_is_spelled(s, start, i + 1, gap, acc.push(s[i]))
    } else if (s[i] == '_' || s[i] == '-') && acc.len() == 8 {
        lemma_run_is_spelled(s, start, i + 1, gap + 1, acc)
    } else {
        gap
    }
}

/// The first digits of a spelled run, or a date with separators, write the date that
/// a name gives.
pub open spec fn holds_date(s: Seq<char>, m: Moment) -> bool {
    ||| exists|start: int|
        0 <= start && start + 19 <= s.len() && separated(
            #[trigger] s.subrange(start, start + 19),
            m,
        )
    ||| exists|start: int, gap: int, d: Seq<char>| #[trigger]
        spelled(s, start, gap, d) && stand_for(d, m)
}

/// A date that a name gives is written in its stem.
pub proof fn dates_of_names_are_written_in_them(
    stem: Seq<char>,
    tail: Seq<char>,
    r: Option<Seq<char>>,
)
    requires
        stem.len() > 0,
        rename_name_laws::is_tail(stem, tail),
        filename_date::shows_filename_date(stem + tail, r),
        r is Some,
    ensures
        exists|x: Moment|
            r == Some(#[trigger] datetime::display_text(x)) && datetime::valid_moment(x) && x.nano
                == 0 && holds_date(stem, x),
{
    rename_name_laws::name_splits_into_its_parts(stem, tail);
    let t = r->0;
    let x = choose|x: Moment|
        filename_date::is_earliest(stem, stem.len() as int, Some(x)) && t
            == #[trigger] datetime::display_text(x);
    lemma_given_is_valid(stem, x);
    let start = choose|k: int|
        0 <= k < stem.len() && #[trigger] filename_date::gives_at(stem, k, x);
    if start + 19 <= stem.len() && filename_date::separated_moment(
        stem.subrange(start, start + 19),
    ) == Some(x) {
        separated_parts_are_read_as_their_date(stem.subrange(start, start + 19), x);
    } else {
        let g = lemma_run_is_spelled(stem, start, start, 0, Seq::empty());
        let run = filename_date::digit_run(stem, start, Seq::empty());
        let n: int = if run.len() >= 14 {
            14
        } else if run.len() >= 12 {
            12
        } else {
            10
        };
        let d = run.take(n);
        assert(digits_only(d));
        assert(spelled(stem, start, g, d));
        digits_are_read_as_their_date(d, x);
    }
    assert(r == Some(datetime::display_text(x)));
}

/// Of several dates in a name the earliest one counts.
pub proof fn the_earliest_date_of_a_name_counts(s: Seq<char>, n: int, m: Moment, x: Moment)
    requires
        filename_date::is_earliest(s, n, Some(m)),
        filename_date::gives(s, n, x),
        datetime::valid_moment(m),
        datetime::valid_moment(x),
        m.nano == x.nano,
    ensures
        datetime::timestamp(m) <= datetime::timestamp(x),
        filename_date::gives(s, n, m),
        !filename_date::is_earliest(s, n, None),
{
    moment_laws::earlier_moments_have_earlier_seconds(x, m);
}

} // verus!
