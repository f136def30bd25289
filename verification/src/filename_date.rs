//! Dates that filenames carry.
use crate::datetime::{
    self, date_exists, format_datetime_for_display, is_earlier, Moment,
};
use crate::names::{self, file_stem};
use crate::text::{self, chars_of, is_ascii_digit};
use vstd::prelude::*;

verus! {

/// The number that the digits from one place up to another stand for.
pub open spec fn number_in(d: Seq<char>, from: int, to: int) -> int {
    text::digits_value(d.subrange(from, to)) as int
}

/// The year that two digits stand for.
pub open spec fn full_year(two_digits: int) -> int {
    if two_digits <= 79 {
        2000 + two_digits
    } else {
        1900 + two_digits
    }
}

/// A moment from its parts, if the calendar and the clock have them.
pub open spec fn checked_moment(
    year: int,
    month: int,
    day: int,
    hour: int,
    minute: int,
    second: int,
) -> Option<Moment> {
    if datetime::valid_date(year, month, day) && datetime::valid_time(hour, minute, second) {
        Some(
            Moment {
                year: year as i32,
                month: month as u32,
                day: day as u32,
                hour: hour as u32,
                minute: minute as u32,
                second: second as u32,
                nano: 0,
            },
        )
    } else {
        None
    }
}

/// The moment that a run of digits stands for: fourteen digits down to the
/// second, twelve down to the minute, or ten with a two-digit year.
pub open spec fn compact_moment(d: Seq<char>) -> Option<Moment> {
    if d.len() == 14 {
        checked_moment(
            number_in(d, 0, 4),
            number_in(d, 4, 6),
            number_in(d, 6, 8),
            number_in(d, 8, 10),
            number_in(d, 10, 12),
            number_in(d, 12, 14),
        )
    } else if d.len() == 12 {
        checked_moment(
            number_in(d, 0, 4),
            number_in(d, 4, 6),
            number_in(d, 6, 8),
            number_in(d, 8, 10),
            number_in(d, 10, 12),
            0,
        )
    } else if d.len() == 10 {
        checked_moment(
            full_year(number_in(d, 0, 2)),
            number_in(d, 2, 4),
            number_in(d, 4, 6),
            number_in(d, 6, 8),
            number_in(d, 8, 10),
            0,
        )
    } else {
        None
    }
}

/// The digits from a place on, up to fourteen. Behind the eighth, hyphens and
/// underscores are passed over; anything else ends the run.
pub open spec fn digit_run(s: Seq<char>, i: int, digits: Seq<char>) -> Seq<char>
    decreases s.len() - i,
{
    if i >= s.len() || digits.len() >= 14 {
        digits
    } else if text::is_digit(s[i]) {
        digit_run(s, i + 1, digits.push(s[i]))
    } else if (s[i] == '_' || s[i] == '-') && digits.len() == 8 {
        digit_run(s, i + 1, digits)
    } else {
        digits
    }
}

/// The moment that the digits from a place on stand for: the longest of the
/// three forms that the run is long enough for.
pub open spec fn run_moment(digits: Seq<char>) -> Option<Moment> {
    if digits.len() >= 14 {
        compact_moment(digits.take(14))
    } else if digits.len() >= 12 {
        compact_moment(digits.take(12))
    } else if digits.len() >= 10 {
        compact_moment(digits.take(10))
    } else {
        None
    }
}

/// Whether nineteen characters have the form of a date and a time with
/// separators between the parts.
pub open spec fn is_separated(s: Seq<char>) -> bool {
    &&& s.len() == 19
    &&& text::is_digit(s[0]) && text::is_digit(s[1]) && text::is_digit(s[2]) && text::is_digit(s[3])
    &&& text::is_digit(s[5]) && text::is_digit(s[6])
    &&& text::is_digit(s[8]) && text::is_digit(s[9])
    &&& text::is_digit(s[11]) && text::is_digit(s[12])
    &&& text::is_digit(s[14]) && text::is_digit(s[15])
    &&& text::is_digit(s[17]) && text::is_digit(s[18])
    &&& s[4] == '-' || s[4] == '.' || s[4] == '_'
    &&& s[7] == '-' || s[7] == '.' || s[7] == '_'
    &&& s[10] == ' ' || s[10] == '-' || s[10] == '_' || s[10] == 'T'
    &&& s[13] == ':' || s[13] == ';' || s[13] == '.' || s[13] == '-' || s[13] == '_'
    &&& s[16] == ':' || s[16] == ';' || s[16] == '.' || s[16] == '-' || s[16] == '_'
}

pub open spec fn separated_moment(s: Seq<char>) -> Option<Moment> {
    if is_separated(s) {
        compact_moment(
            s.subrange(0, 4) + s.subrange(5, 7) + s.subrange(8, 10) + s.subrange(11, 13)
                + s.subrange(14, 16) + s.subrange(17, 19),
        )
    } else {
        None
    }
}

/// Whether a moment is one that the name gives at a place.
pub open spec fn gives_at(s: Seq<char>, start: int, m: Moment) -> bool {
    ||| start + 19 <= s.len() && separated_moment(s.subrange(start, start + 19)) == Some(m)
    ||| run_moment(digit_run(s, start, Seq::empty())) == Some(m)
}

/// Whether a moment is one that the name gives at one of its first places.
pub open spec fn gives(s: Seq<char>, n: int, m: Moment) -> bool {
    exists|start: int| 0 <= start < n && #[trigger] gives_at(s, start, m)
}

/// The earliest of the moments that the name gives at its first places.
pub open spec fn is_earliest(s: Seq<char>, n: int, r: Option<Moment>) -> bool {
    match r {
        Some(m) => gives(s, n, m) && forall|x: Moment|
            #![trigger gives(s, n, x)]
            gives(s, n, x) ==> !datetime::earlier(x, m),
        None => forall|x: Moment| !#[trigger] gives(s, n, x),
    }
}

proof fn lemma_digits_bound(s: Seq<char>)
    requires
        text::all_digits(s),
    ensures
        s.len() <= 4 ==> text::digits_value(s) <= 9999,
        s.len() <= 2 ==> text::digits_value(s) <= 99,
{
    reveal_with_fuel(text::digits_value, 5);
    if s.len() > 0 {
        assert(text::is_digit(s[s.len() - 1]));
    }
    if s.len() > 1 {
        assert(text::is_digit(s[s.len() - 2]));
    }
    if s.len() > 2 {
        assert(text::is_digit(s[s.len() - 3]));
    }
    if s.len() > 3 {
        assert(text::is_digit(s[s.len() - 4]));
    }
}

fn read_number(d: &[char], from: usize, to: usize) -> (r: u32)
    requires
        from <= to <= d@.len(),
        to - from <= 4,
        text::all_digits(d@),
    ensures
        r == number_in(d@, from as int, to as int),
        r <= 9999,
        to - from <= 2 ==> r <= 99,
{
    let mut value: u32 = 0;
    let mut i: usize = from;
    assert(d@.subrange(from as int, from as int) =~= Seq::<char>::empty());
    while i < to
        invariant
            from <= i <= to <= d@.len(),
            to - from <= 4,
            text::all_digits(d@),
            value == text::digits_value(d@.subrange(from as int, i as int)),
        decreases to - i,
    {
        let ghost before = d@.subrange(from as int, i as int);
        proof {
            assert(text::all_digits(before));
            lemma_digits_bound(before);
            assert(d@.subrange(from as int, i + 1).drop_last() =~= before);
            assert(text::is_digit(d@[i as int]));
        }
        value = value * 10 + (d[i] as u32 - 48);
        i += 1;
    }
    proof {
        let all = d@.subrange(from as int, to as int);
        assert(text::all_digits(all));
        lemma_digits_bound(all);
    }
    value
}

fn make_moment(year: u32, month: u32, day: u32, hour: u32, minute: u32, second: u32) -> (r: Option<
    Moment,
>)
    requires
        year <= 9999,
    ensures
        r == checked_moment(
            year as int,
            month as int,
            day as int,
            hour as int,
            minute as int,
            second as int,
        ),
{
    if date_exists(year as i32, month, day) && hour < 24 && minute < 60 && second < 60 {
        Some(Moment { year: year as i32, month, day, hour, minute, second, nano: 0 })
    } else {
        None
    }
}

pub fn parse_compact_filename_datetime(d: &[char]) -> (r: Option<Moment>)
    requires
        text::all_digits(d@),
    ensures
        r == compact_moment(d@),
{
    let n: usize = d.len();
    if n == 14 {
        make_moment(
            read_number(d, 0, 4),
            read_number(d, 4, 6),
            read_number(d, 6, 8),
            read_number(d, 8, 10),
            read_number(d, 10, 12),
            read_number(d, 12, 14),
        )
    } else if n == 12 {
        make_moment(
            read_number(d, 0, 4),
            read_number(d, 4, 6),
            read_number(d, 6, 8),
            read_number(d, 8, 10),
            read_number(d, 10, 12),
            0,
        )
    } else if n == 10 {
        let yy: u32 = read_number(d, 0, 2);
        let year: u32 = if yy <= 79 {
            2000 + yy
        } else {
            1900 + yy
        };
        make_moment(
            year,
            read_number(d, 2, 4),
            read_number(d, 4, 6),
            read_number(d, 6, 8),
            read_number(d, 8, 10),
            0,
        )
    } else {
        None
    }
}

fn one_of(c: char, a: char, b: char, d: char, e: char, f: char) -> (r: bool)
    ensures
        r == (c == a || c == b || c == d || c == e || c == f),
{
    c == a || c == b || c == d || c == e || c == f
}

fn push_pair(out: &mut Vec<char>, s: &[char], at: usize)
    requires
        at + 2 <= s@.len(),
    ensures
        final(out)@ == old(out)@ + s@.subrange(at as int, at + 2),
{
    out.push(s[at]);
    out.push(s[at + 1]);
    assert(out@ =~= old(out)@ + s@.subrange(at as int, at + 2));
}

pub fn parse_separated_filename_datetime(s: &[char]) -> (r: Option<Moment>)
    ensures
        r == separated_moment(s@),
{
    if s.len() != 19 {
        return None;
    }
    let digits: bool = is_ascii_digit(s[0]) && is_ascii_digit(s[1]) && is_ascii_digit(s[2])
        && is_ascii_digit(s[3]) && is_ascii_digit(s[5]) && is_ascii_digit(s[6]) && is_ascii_digit(
        s[8],
    ) && is_ascii_digit(s[9]) && is_ascii_digit(s[11]) && is_ascii_digit(s[12]) && is_ascii_digit(
        s[14],
    ) && is_ascii_digit(s[15]) && is_ascii_digit(s[17]) && is_ascii_digit(s[18]);
    if !digits || !one_of(s[4], '-', '.', '_', '-', '-') || !one_of(s[7], '-', '.', '_', '-', '-')
        || !one_of(s[10], ' ', '-', '_', 'T', '-') || !one_of(s[13], ':', ';', '.', '-', '_')
        || !one_of(s[16], ':', ';', '.', '-', '_') {
        return None;
    }
    let mut d: Vec<char> = Vec::new();
    push_pair(&mut d, s, 0);
    push_pair(&mut d, s, 2);
    push_pair(&mut d, s, 5);
    push_pair(&mut d, s, 8);
    push_pair(&mut d, s, 11);
    push_pair(&mut d, s, 14);
    push_pair(&mut d, s, 17);
    assert(d@ =~= s@.subrange(0, 4) + s@.subrange(5, 7) + s@.subrange(8, 10) + s@.subrange(11, 13)
        + s@.subrange(14, 16) + s@.subrange(17, 19));
    assert(text::all_digits(d@));
    parse_compact_filename_datetime(d.as_slice())
}

fn collect_digits(s: &[char], start: usize) -> (r: Vec<char>)
    requires
        start <= s@.len(),
    ensures
        r@ == digit_run(s@, start as int, Seq::empty()),
        text::all_digits(r@),
        r@.len() <= 14,
{
    let mut digits: Vec<char> = Vec::new();
    let mut i: usize = start;
    assert(digits@ =~= Seq::<char>::empty());
    while i < s.len() && digits.len() < 14
        invariant
            i <= s@.len(),
            digits@.len() <= 14,
            text::all_digits(digits@),
            digit_run(s@, start as int, Seq::empty()) == digit_run(s@, i as int, digits@),
        ensures
            digits@ == digit_run(s@, start as int, Seq::empty()),
            text::all_digits(digits@),
            digits@.len() <= 14,
        decreases s@.len() - i,
    {
        if is_ascii_digit(s[i]) {
            digits.push(s[i]);
        } else if (s[i] == '_' || s[i] == '-') && digits.len() == 8 {
        } else {
            break;
        }
        i += 1;
    }
    digits
}

fn parse_run(digits: &Vec<char>) -> (r: Option<Moment>)
    requires
        text::all_digits(digits@),
        digits@.len() <= 14,
    ensures
        r == run_moment(digits@),
{
    let n: usize = digits.len();
    let k: usize = if n >= 14 {
        14
    } else if n >= 12 {
        12
    } else if n >= 10 {
        10
    } else {
        return None;
    };
    let part = &digits.as_slice()[0..k];
    assert(part@ =~= digits@.take(k as int));
    assert(text::all_digits(part@));
    parse_compact_filename_datetime(part)
}

fn keep_earlier(best: Option<Moment>, found: Option<Moment>) -> (r: Option<Moment>)
    ensures
        r == (match (best, found) {
            (None, f) => f,
            (b, None) => b,
            (Some(b), Some(f)) => if datetime::earlier(f, b) {
                Some(f)
            } else {
                Some(b)
            },
        }),
{
    match (best, found) {
        (None, f) => f,
        (Some(b), None) => Some(b),
        (Some(b), Some(f)) => if is_earlier(f, b) {
            Some(f)
        } else {
            Some(b)
        },
    }
}

/// The earliest of all moments that the characters of a name give.
pub fn earliest_moment(s: &[char]) -> (r: Option<Moment>)
    ensures
        is_earliest(s@, s@.len() as int, r),
        r matches Some(m) ==> datetime::valid_moment(m),
{
    let n: usize = s.len();
    let mut best: Option<Moment> = None;
    let mut start: usize = 0;
    while start < n
        invariant
            start <= n,
            n == s@.len(),
            is_earliest(s@, start as int, best),
            best matches Some(m) ==> datetime::valid_moment(m),
        decreases n - start,
    {
        let separated: Option<Moment> = if n - start >= 19 {
            let part = &s[start..start + 19];
            parse_separated_filename_datetime(part)
        } else {
            None
        };
        let digits = collect_digits(s, start);
        let compact = parse_run(&digits);
        let ghost old_best = best;
        best = keep_earlier(keep_earlier(best, separated), compact);
        proof {
            assert forall|x: Moment| #[trigger] gives(s@, start + 1, x) == (gives(
                s@,
                start as int,
                x,
            ) || separated == Some(x) || compact == Some(x)) by {
                lemma_gives_step(s@, start as int, x);
            }
            lemma_earliest_step(s@, start as int, old_best, separated, compact, best);
        }
        start += 1;
    }
    best
}

proof fn lemma_gives_step(s: Seq<char>, start: int, x: Moment)
    requires
        0 <= start,
    ensures
        gives(s, start + 1, x) == (gives(s, start, x) || gives_at(s, start, x)),
{
    if gives(s, start, x) {
        let k = choose|k: int| 0 <= k < start && #[trigger] gives_at(s, k, x);
        assert(gives_at(s, k, x));
    }
    if gives(s, start + 1, x) {
        let k = choose|k: int| 0 <= k < start + 1 && #[trigger] gives_at(s, k, x);
        if k < start {
            assert(gives(s, start, x));
        }
    }
}

proof fn lemma_earliest_step(
    s: Seq<char>,
    start: int,
    old_best: Option<Moment>,
    a: Option<Moment>,
    b: Option<Moment>,
    best: Option<Moment>,
)
    requires
        is_earliest(s, start, old_best),
        forall|x: Moment| #[trigger]
            gives(s, start + 1, x) == (gives(s, start, x) || a == Some(x) || b == Some(x)),
        ({
            let first = match (old_best, a) {
                (None, f) => f,
                (x, None) => x,
                (Some(x), Some(f)) => if datetime::earlier(f, x) {
                    Some(f)
                } else {
                    Some(x)
                },
            };
            best == (match (first, b) {
                (None, f) => f,
                (x, None) => x,
                (Some(x), Some(f)) => if datetime::earlier(f, x) {
                    Some(f)
                } else {
                    Some(x)
                },
            })
        }),
    ensures
        is_earliest(s, start + 1, best),
{
    match best {
        Some(m) => {
            assert(gives(s, start + 1, m));
            assert forall|x: Moment|
                #![trigger gives(s, start + 1, x)]
                gives(s, start + 1, x) implies !datetime::earlier(x, m) by {}
        },
        None => {},
    }
}

/// Whether a text is what the date in a filename is shown as.
pub open spec fn shows_filename_date(name: Seq<char>, r: Option<Seq<char>>) -> bool {
    let s = names::stem(name);
    match r {
        Some(t) => exists|m: Moment|
            is_earliest(s, s.len() as int, Some(m)) && t == #[trigger] datetime::display_text(m),
        None => is_earliest(s, s.len() as int, None),
    }
}

/// The earliest date that a filename carries, as it is shown.
pub fn extract_datetime_from_filename(name: &str) -> (r: Option<String>)
    ensures
        match r {
            Some(t) => shows_filename_date(name@, Some(t@)),
            None => shows_filename_date(name@, None),
        },
{
    let stem = file_stem(name);
    let chars = chars_of(stem.as_str());
    match earliest_moment(chars.as_slice()) {
        Some(m) => Some(format_datetime_for_display(m)),
        None => None,
    }
}

/// A name gives at most one earliest moment.
pub proof fn earliest_moment_is_unique(s: Seq<char>, a: Option<Moment>, b: Option<Moment>)
    requires
        is_earliest(s, s.len() as int, a),
        is_earliest(s, s.len() as int, b),
    ensures
        a == b,
{
    match (a, b) {
        (Some(x), Some(y)) => {
            assert(gives(s, s.len() as int, x));
            assert(gives(s, s.len() as int, y));
            datetime::moments_are_ordered(x, y, x);
        },
        (Some(x), None) => {
            assert(gives(s, s.len() as int, x));
        },
        (None, Some(y)) => {
            assert(gives(s, s.len() as int, y));
        },
        (None, None) => {},
    }
}

} // verus!
