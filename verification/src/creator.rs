//! Dates that a name carries in a run of digits, and the marks of a file whose
//! date was created from its name.
use crate::datetime::{self, is_earlier, Moment};
use crate::file_selection;
use crate::names::{self, file_extension, file_stem};
use crate::text::{self, are_digits, chars_of, decimal_text, digits_to_number, is_ascii_digit,
    joined_text, padded_text, same_text, text_ends_with, to_lowercase};
use unicode_width::UnicodeWidthStr;
use vstd::prelude::*;

verus! {

/// Twelve to fourteen digits.
pub const PLAIN_PATTERN: &'static str = r"\d{12,14}";

/// Eight digits and four to six more, with an underscore or a hyphen between
/// them or not.
pub const GROUPED_PATTERN: &'static str = r"\d{8}[_-]?\d{4,6}";

/// What `regex::Regex::find_iter` finds in a text for a pattern, in order.
pub uninterp spec fn regex_matches(pattern: Seq<char>, value: Seq<char>) -> Seq<Seq<char>>;

/// `regex::Regex::new` and `find_iter`: the parts of a text that match one of the
/// two patterns, from left to right.
#[verifier::external_body]
fn find_matches(pattern: &str, value: &str) -> (r: Vec<String>)
    requires
        pattern@ == PLAIN_PATTERN@ || pattern@ == GROUPED_PATTERN@,
    ensures
        file_selection::text_views(r@) == regex_matches(pattern@, value@),
{
    let re = regex::Regex::new(pattern).unwrap();
    re.find_iter(value).map(|m| m.as_str().to_string()).collect()
}

/// `time::Month::try_from` and `time::Date::from_calendar_date`: whether year,
/// month and day are a date of the Gregorian calendar.
#[verifier::external_body]
fn is_calendar_date(year: i32, month: u8, day: u8) -> (r: bool)
    requires
        -9999 <= year <= 9999,
    ensures
        r == datetime::valid_date(year as int, month as int, day as int),
{
    match time::Month::try_from(month) {
        Ok(m) => time::Date::from_calendar_date(year, m, day).is_ok(),
        Err(_) => false,
    }
}

/// `time::Time::from_hms`: whether hour, minute and second are a time of day.
#[verifier::external_body]
fn is_time_of_day(hour: u8, minute: u8, second: u8) -> (r: bool)
    ensures
        r == datetime::valid_time(hour as int, minute as int, second as int),
{
    time::Time::from_hms(hour, minute, second).is_ok()
}

// Compact dates.

/// The number that a text stands for: digits behind an optional sign.
pub open spec fn signed_value(s: Seq<char>, max: nat) -> Option<int> {
    if s.len() > 0 && s[0] == '-' {
        match text::unsigned_value(s.skip(1), max) {
            Some(n) => if s.len() > 1 && s[1] != '+' {
                Some(-n)
            } else {
                None
            },
            None => None,
        }
    } else {
        match text::unsigned_value(s, max) {
            Some(n) => Some(n as int),
            None => None,
        }
    }
}

/// The number that two characters from a place on stand for.
pub open spec fn pair_at(s: Seq<char>, at: int) -> Option<nat> {
    text::unsigned_value(s.subrange(at, at + 2), 255)
}

/// The moment whose parts are written without separators in fourteen
/// characters. Each part is a number, which may have a sign: a plus sign, or for
/// the year a minus sign too.
pub open spec fn compact_moment(s: Seq<char>) -> Option<Moment> {
    if s.len() != 14 {
        None
    } else {
        match (
            signed_value(s.subrange(0, 4), 9999),
            pair_at(s, 4),
            pair_at(s, 6),
            pair_at(s, 8),
            pair_at(s, 10),
            pair_at(s, 12),
        ) {
            (Some(year), Some(month), Some(day), Some(hour), Some(minute), Some(second)) => {
                let m = Moment {
                    year: year as i32,
                    month: month as u32,
                    day: day as u32,
                    hour: hour as u32,
                    minute: minute as u32,
                    second: second as u32,
                    nano: 0,
                };
                if datetime::valid_moment(m) {
                    Some(m)
                } else {
                    None
                }
            },
            _ => None,
        }
    }
}

fn number_in(chars: &Vec<char>, from: usize, to: usize, max: u128) -> (r: Option<u128>)
    requires
        from <= to <= chars@.len(),
        max <= i128::MAX,
    ensures
        match r {
            Some(n) => text::unsigned_value(chars@.subrange(from as int, to as int), max as nat)
                == Some(n as nat) && n <= max,
            None => text::unsigned_value(
                chars@.subrange(from as int, to as int),
                max as nat,
            ) is None,
        },
{
    let ghost part = chars@.subrange(from as int, to as int);
    let start: usize = if from < to && chars[from] == '+' {
        from + 1
    } else {
        from
    };
    let body = &chars.as_slice()[start..to];
    assert(body@ =~= if part.len() > 0 && part[0] == '+' {
        part.skip(1)
    } else {
        part
    });
    if body.len() == 0 || !are_digits(body) {
        return None;
    }
    digits_to_number(body, max)
}

fn year_in(chars: &Vec<char>) -> (r: Option<i32>)
    requires
        chars@.len() == 14,
    ensures
        match r {
            Some(y) => signed_value(chars@.subrange(0, 4), 9999) == Some(y as int) && -9999 <= y
                <= 9999,
            None => signed_value(chars@.subrange(0, 4), 9999) is None,
        },
{
    let ghost part = chars@.subrange(0, 4);
    if chars[0] == '-' {
        assert(part.skip(1) =~= chars@.subrange(1, 4));
        if chars[1] == '+' {
            return None;
        }
        match number_in(chars, 1, 4, 9999) {
            Some(n) => Some(-(n as i32)),
            None => None,
        }
    } else {
        match number_in(chars, 0, 4, 9999) {
            Some(n) => Some(n as i32),
            None => None,
        }
    }
}

fn pair_in(chars: &Vec<char>, at: usize) -> (r: Option<u8>)
    requires
        at <= 12,
        chars@.len() == 14,
    ensures
        match r {
            Some(n) => pair_at(chars@, at as int) == Some(n as nat),
            None => pair_at(chars@, at as int) is None,
        },
{
    match number_in(chars, at, at + 2, 255) {
        Some(n) => Some(n as u8),
        None => None,
    }
}

/// The moment in a text of fourteen characters.
pub fn parse_datetime_from_compact(s: &str) -> (r: Option<Moment>)
    ensures
        r == compact_moment(s@),
{
    let chars = chars_of(s);
    if chars.len() != 14 {
        return None;
    }
    match (
        year_in(&chars),
        pair_in(&chars, 4),
        pair_in(&chars, 6),
        pair_in(&chars, 8),
        pair_in(&chars, 10),
        pair_in(&chars, 12),
    ) {
        (Some(year), Some(month), Some(day), Some(hour), Some(minute), Some(second)) => {
            if !is_calendar_date(year, month, day) || !is_time_of_day(hour, minute, second) {
                return None;
            }
            Some(
                Moment {
                    year,
                    month: month as u32,
                    day: day as u32,
                    hour: hour as u32,
                    minute: minute as u32,
                    second: second as u32,
                    nano: 0,
                },
            )
        },
        _ => None,
    }
}

/// A run of digits filled up to fourteen: without seconds they are zero.
pub open spec fn filled_up(digits: Seq<char>) -> Seq<char> {
    if digits.len() == 12 {
        digits + "00"@
    } else {
        digits
    }
}

/// The digits in a text.
pub open spec fn only_digits(s: Seq<char>) -> Seq<char>
    decreases s.len(),
{
    if s.len() == 0 {
        Seq::empty()
    } else if text::is_digit(s.last()) {
        only_digits(s.drop_last()).push(s.last())
    } else {
        only_digits(s.drop_last())
    }
}

fn digits_of(s: &str) -> (r: String)
    ensures
        r@ == only_digits(s@),
{
    let chars = chars_of(s);
    let n: usize = chars.len();
    let mut out = String::new();
    let mut i: usize = 0;
    assert(chars@.take(0) =~= Seq::empty());
    while i < n
        invariant
            i <= n,
            n == chars@.len(),
            out@ == only_digits(chars@.take(i as int)),
        decreases n - i,
    {
        assert(chars@.take(i + 1).drop_last() =~= chars@.take(i as int));
        if is_ascii_digit(chars[i]) {
            out.push(chars[i]);
        }
        i += 1;
    }
    assert(chars@.take(n as int) =~= chars@);
    out
}

/// The earliest moment in the first of some runs of digits.
pub open spec fn earliest_in(runs: Seq<Seq<char>>, n: int) -> Option<Moment>
    decreases n,
{
    if n <= 0 {
        None
    } else {
        match (earliest_in(runs, n - 1), compact_moment(filled_up(runs[n - 1]))) {
            (before, None) => before,
            (None, Some(m)) => Some(m),
            (Some(b), Some(m)) => if datetime::earlier(m, b) {
                Some(m)
            } else {
                Some(b)
            },
        }
    }
}

/// The earliest moment comes from one of the runs, and none gives an earlier
/// one.
pub proof fn earliest_run_comes_first(runs: Seq<Seq<char>>, n: int)
    requires
        0 <= n <= runs.len(),
    ensures
        match earliest_in(runs, n) {
            Some(m) => {
                &&& exists|i: int|
                    0 <= i < n && compact_moment(filled_up(#[trigger] runs[i]))
                        == Some(m)
                &&& forall|i: int, x: Moment|
                    #![trigger runs[i], datetime::valid_moment(x)]
                    0 <= i < n && compact_moment(filled_up(runs[i])) == Some(x)
                        ==> !datetime::earlier(x, m)
            },
            None => forall|i: int|
                0 <= i < n ==> compact_moment(filled_up(#[trigger] runs[i])) is None,
        },
    decreases n,
{
    if n > 0 {
        earliest_run_comes_first(runs, n - 1);
        let last = compact_moment(filled_up(runs[n - 1]));
        match (earliest_in(runs, n - 1), last) {
            (Some(b), Some(m)) => {
                datetime::moments_are_ordered(m, b, m);
                assert forall|i: int, x: Moment|
                    #![trigger runs[i], datetime::valid_moment(x)]
                    0 <= i < n && compact_moment(filled_up(runs[i])) == Some(
                        x,
                    ) implies !datetime::earlier(x, earliest_in(runs, n)->0) by {
                    datetime::moments_are_ordered(x, m, b);
                    datetime::moments_are_ordered(x, b, m);
                    datetime::moments_are_ordered(m, b, x);
                    if i < n - 1 {
                        assert(datetime::valid_moment(x));
                    }
                }
            },
            (None, Some(m)) => {
                datetime::moments_are_ordered(m, m, m);
            },
            _ => {},
        }
    }
}

/// The text of a moment in EXIF data.
fn exif_date_text(m: Moment) -> (r: String)
    requires
        datetime::plain(m),
    ensures
        r@ == datetime::exif_text(m),
{
    let mut out = padded_text(m.year as u64, 4);
    out.push(':');
    out.append(padded_text(m.month as u64, 2).as_str());
    out.push(':');
    out.append(padded_text(m.day as u64, 2).as_str());
    out.push(' ');
    out.append(padded_text(m.hour as u64, 2).as_str());
    out.push(':');
    out.append(padded_text(m.minute as u64, 2).as_str());
    out.push(':');
    out.append(padded_text(m.second as u64, 2).as_str());
    proof {
        assert(out@ =~= datetime::exif_text(m));
    }
    out
}

/// The text of a moment as it is created from a name: as in EXIF data, but with a
/// minus sign as one of the four places of the year.
pub open spec fn created_text(m: Moment) -> Seq<char> {
    if m.year >= 0 {
        datetime::exif_text(m)
    } else {
        seq!['-'] + text::zero_padded((-m.year) as nat, 3) + seq![':'] + datetime::two(
            m.month as int,
        ) + seq![':'] + datetime::two(m.day as int) + seq![' '] + datetime::time_text(
            m,
            seq![':'],
        )
    }
}

fn created_date_text(m: Moment) -> (r: String)
    requires
        datetime::valid_moment(m),
        -9999 <= m.year <= 9999,
        m.nano == 0,
    ensures
        r@ == created_text(m),
{
    if m.year >= 0 {
        return exif_date_text(m);
    }
    let mut out = "-".to_owned();
    proof {
        reveal_strlit("-");
    }
    out.append(padded_text((-m.year) as u64, 3).as_str());
    out.push(':');
    out.append(padded_text(m.month as u64, 2).as_str());
    out.push(':');
    out.append(padded_text(m.day as u64, 2).as_str());
    out.push(' ');
    out.append(padded_text(m.hour as u64, 2).as_str());
    out.push(':');
    out.append(padded_text(m.minute as u64, 2).as_str());
    out.push(':');
    out.append(padded_text(m.second as u64, 2).as_str());
    assert(out@ =~= created_text(m));
    out
}

/// The text of the earliest moment in some runs of digits.
pub open spec fn date_in_runs(runs: Seq<Seq<char>>) -> Option<Seq<char>> {
    match earliest_in(runs, runs.len() as int) {
        Some(m) => Some(created_text(m)),
        None => None,
    }
}

/// The earliest date in some runs of digits, as it stands in EXIF data.
pub fn earliest_date(runs: &Vec<String>) -> (r: Option<String>)
    ensures
        match r {
            Some(t) => date_in_runs(file_selection::text_views(runs@)) == Some(t@),
            None => date_in_runs(file_selection::text_views(runs@)) is None,
        },
{
    let ghost views = file_selection::text_views(runs@);
    let n: usize = runs.len();
    let mut best: Option<Moment> = None;
    let mut i: usize = 0;
    while i < n
        invariant
            i <= n,
            n == runs@.len(),
            views == file_selection::text_views(runs@),
            best == earliest_in(views, i as int),
            best matches Some(m) ==> datetime::valid_moment(m) && -9999 <= m.year <= 9999
                && m.nano == 0,
        decreases n - i,
    {
        assert(views[i as int] == runs@[i as int]@);
        let filled = if runs[i].as_str().unicode_len() == 12 {
            joined_text(runs[i].as_str(), "00")
        } else {
            runs[i].clone()
        };
        let found = parse_datetime_from_compact(filled.as_str());
        best =
        match (best, found) {
            (before, None) => before,
            (None, Some(m)) => Some(m),
            (Some(b), Some(m)) => if is_earlier(m, b) {
                Some(m)
            } else {
                Some(b)
            },
        };
        i += 1;
    }
    match best {
        Some(m) => Some(created_date_text(m)),
        None => None,
    }
}

/// The digits of each of some texts.
pub open spec fn digits_of_each(runs: Seq<Seq<char>>) -> Seq<Seq<char>> {
    Seq::new(runs.len(), |i: int| only_digits(runs[i]))
}

fn collect_digits(runs: &Vec<String>) -> (r: Vec<String>)
    ensures
        file_selection::text_views(r@) == digits_of_each(file_selection::text_views(runs@)),
{
    let n: usize = runs.len();
    let mut out: Vec<String> = Vec::new();
    let mut i: usize = 0;
    while i < n
        invariant
            i <= n,
            n == runs@.len(),
            out@.len() == i,
            forall|k: int| 0 <= k < i ==> (#[trigger] out@[k])@ == only_digits(runs@[k]@),
        decreases n - i,
    {
        out.push(digits_of(runs[i].as_str()));
        i += 1;
    }
    assert(file_selection::text_views(out@) =~= digits_of_each(file_selection::text_views(runs@)));
    out
}

/// The date that the digits of a name give.
pub open spec fn date_in_name(name: Seq<char>) -> Option<Seq<char>> {
    date_in_runs(regex_matches(PLAIN_PATTERN@, names::stem(name)))
}

/// The date that the digits of a name give, which may stand in two groups with a
/// mark between them.
pub open spec fn grouped_date_in_name(name: Seq<char>) -> Option<Seq<char>> {
    date_in_runs(digits_of_each(regex_matches(GROUPED_PATTERN@, names::stem(name))))
}

/// The earliest date in the digits of a name.
pub fn date_from_digits(name: &str) -> (r: Option<String>)
    ensures
        str_view_owned(r) == date_in_name(name@),
{
    let stem = file_stem(name);
    let runs = find_matches(PLAIN_PATTERN, stem.as_str());
    earliest_date(&runs)
}

/// The earliest date in the digits of a name, which may stand in two groups.
pub fn date_from_groups(name: &str) -> (r: Option<String>)
    ensures
        str_view_owned(r) == grouped_date_in_name(name@),
{
    let stem = file_stem(name);
    let runs = collect_digits(&find_matches(GROUPED_PATTERN, stem.as_str()));
    earliest_date(&runs)
}

// Files whose date is created.

/// The date of a file, or the date that it should get.
#[derive(Debug)]
pub enum DateTaken {
    /// The file has this date.
    Recorded(String),
    /// The file has none, and its name gives this one.
    Create(String),
    Missing,
}

pub enum TakenModel {
    Recorded(Seq<char>),
    Create(Seq<char>),
    Missing,
}

impl View for DateTaken {
    type V = TakenModel;

    open spec fn view(&self) -> TakenModel {
        match self {
            DateTaken::Recorded(d) => TakenModel::Recorded(d@),
            DateTaken::Create(d) => TakenModel::Create(d@),
            DateTaken::Missing => TakenModel::Missing,
        }
    }
}

pub open spec fn date_taken(recorded: Option<Seq<char>>, in_name: Option<Seq<char>>) -> TakenModel {
    match (recorded, in_name) {
        (Some(d), _) => TakenModel::Recorded(d),
        (None, Some(d)) => TakenModel::Create(d),
        (None, None) => TakenModel::Missing,
    }
}

pub open spec fn str_view(s: Option<&str>) -> Option<Seq<char>> {
    match s {
        Some(s) => Some(s@),
        None => None,
    }
}

/// The date of a file, given the one that its metadata hold.
pub fn get_date_taken(recorded: Option<&str>, name: &str) -> (r: DateTaken)
    ensures
        r@ == date_taken(
            str_view(recorded),
            date_in_name(name@),
        ),
{
    match recorded {
        Some(d) => DateTaken::Recorded(d.to_owned()),
        None => match date_from_digits(name) {
            Some(d) => DateTaken::Create(d),
            None => DateTaken::Missing,
        },
    }
}

/// The date of a file, which is created where the file has none.
pub fn ensure_date_taken(recorded: Option<&str>, name: &str) -> (r: DateTaken)
    ensures
        r@ == date_taken(
            str_view(recorded),
            date_in_name(name@),
        ),
{
    get_date_taken(recorded, name)
}

/// The date that a file gets from its name, or a complaint.
pub fn try_update_date_from_filename(name: &str) -> (r: Result<String, String>)
    ensures
        match r {
            Ok(t) => grouped_date_in_name(name@) == Some(t@),
            Err(e) => grouped_date_in_name(name@) is None
                && e@ == "날짜 추출 실패"@,
        },
{
    match date_from_groups(name) {
        Some(d) => Ok(d),
        None => Err("날짜 추출 실패".to_owned()),
    }
}

/// The mark of a file whose date was created from its name.
pub const CREATOR_MARK: &'static str = "_SH_EXIF_TAG_CREATOR";

/// The mark of a file that the command line dated, and the end of a name that
/// bears it already.
pub const DATED_MARK: &'static str = "_SH148";

pub const DATED_END: &'static str = "SH148";

/// The name of a file whose date was created: a mark behind its stem, unless the
/// stem has some end already.
pub open spec fn marked_name(name: Seq<char>, end: Seq<char>, mark: Seq<char>) -> Option<Seq<char>> {
    if text::ends_with(names::stem(name), end) {
        None
    } else {
        Some(
            names::stem(name) + mark + seq!['.'] + match names::extension(name) {
                Some(e) => e,
                None => Seq::empty(),
            },
        )
    }
}

fn mark_name(name: &str, end: &str, mark: &str) -> (r: Option<String>)
    ensures
        str_view_owned(r) == marked_name(name@, end@, mark@),
{
    let stem = file_stem(name);
    if text_ends_with(stem.as_str(), end) {
        return None;
    }
    let mut out = stem;
    out.append(mark);
    out.push('.');
    match file_extension(name) {
        Some(e) => {
            out.append(e.as_str());
        },
        None => {},
    }
    assert(out@ =~= marked_name(name@, end@, mark@)->0);
    Some(out)
}

/// The new name of a file whose date was created, unless it bears the mark
/// already.
pub fn append_creator_suffix(name: &str) -> (r: Option<String>)
    ensures
        str_view_owned(r) == marked_name(name@, CREATOR_MARK@, CREATOR_MARK@),
{
    mark_name(name, CREATOR_MARK, CREATOR_MARK)
}

/// The new name of a file that the command line dated, unless it bears the mark
/// already.
pub fn append_dated_suffix(name: &str) -> (r: Option<String>)
    ensures
        str_view_owned(r) == marked_name(name@, DATED_END@, DATED_MARK@),
{
    mark_name(name, DATED_END, DATED_MARK)
}

pub open spec fn str_view_owned(s: Option<String>) -> Option<Seq<char>> {
    match s {
        Some(s) => Some(s@),
        None => None,
    }
}

/// A name that got a mark is not marked again, whichever mark it is.
pub proof fn marking_again_changes_nothing(name: Seq<char>)
    ensures
        marked_name(name, CREATOR_MARK@, CREATOR_MARK@) matches Some(n) ==> marked_name(
            n,
            CREATOR_MARK@,
            CREATOR_MARK@,
        ) is None,
        marked_name(name, DATED_END@, DATED_MARK@) matches Some(n) ==> marked_name(
            n,
            DATED_END@,
            DATED_MARK@,
        ) is None,
{
    reveal_strlit("_SH_EXIF_TAG_CREATOR");
    reveal_strlit("_SH148");
    reveal_strlit("SH148");
    assert(DATED_MARK@.skip(1) =~= DATED_END@);
    assert(CREATOR_MARK@.skip(0) =~= CREATOR_MARK@);
    if marked_name(name, CREATOR_MARK@, CREATOR_MARK@) is Some {
        lemma_marked_once(name, CREATOR_MARK@, CREATOR_MARK@);
    }
    if marked_name(name, DATED_END@, DATED_MARK@) is Some {
        lemma_marked_once(name, DATED_END@, DATED_MARK@);
    }
}

proof fn lemma_marked_once(name: Seq<char>, end: Seq<char>, mark: Seq<char>)
    requires
        text::ends_with(mark, end),
        marked_name(name, end, mark) is Some,
    ensures
        marked_name(marked_name(name, end, mark)->0, end, mark) is None,
{
    let stem = names::stem(name) + mark;
    let ext = match names::extension(name) {
        Some(e) => e,
        None => Seq::empty(),
    };
    let marked = marked_name(name, end, mark)->0;
    assert(marked == stem + seq!['.'] + ext);
    names::lemma_last_dot(name, name.len() as int);
    assert forall|k: int| 0 <= k < ext.len() implies ext[k] != '.' by {
        match names::last_dot(name, name.len() as int) {
            Some(i) => assert(ext[k] == name[i + 1 + k]),
            None => {},
        }
    }
    let n = marked.len() as int;
    names::lemma_last_dot(marked, n);
    let at = stem.len() as int;
    assert(marked[at] == '.');
    match names::last_dot(marked, n) {
        Some(i) => {
            if i > at {
                assert(marked[i] == ext[i - at - 1]);
            }
            assert(i == at);
        },
        None => {},
    }
    assert(names::stem(marked) =~= stem);
    assert(stem.skip(stem.len() - end.len()) =~= mark.skip(mark.len() - end.len()));
}

/// The text that names the creator of a date, behind an earlier one.
pub fn creator_software(existing: Option<&str>, version: &str) -> (r: String)
    ensures
        r@ == match existing {
            Some(e) => e@ + " (+"@ + ("SH148 EXIF TAG CREATOR v"@ + version@) + ")"@,
            None => "SH148 EXIF TAG CREATOR v"@ + version@,
        },
{
    let own = joined_text("SH148 EXIF TAG CREATOR v", version);
    match existing {
        Some(e) => {
            let mut out = e.to_owned();
            out.append(" (+");
            out.append(own.as_str());
            out.append(")");
            out
        },
        None => own,
    }
}

// Dates that contradict each other.

/// The pattern of dates in EXIF data.
pub const EXIF_TIME_PATTERN: &'static str = "[year]:[month]:[day] [hour]:[minute]:[second]";

/// What `time::PrimitiveDateTime::parse` reads from a text by a pattern.
pub uninterp spec fn parsed_time(value: Seq<char>, pattern: Seq<char>) -> Option<Moment>;

/// `time::PrimitiveDateTime::parse` with the pattern of dates in EXIF data: a
/// moment of the calendar without a part of a second, in the years that the crate
/// supports.
#[verifier::external_body]
fn parse_time(value: &str, pattern: &str) -> (r: Option<Moment>)
    requires
        pattern@ == EXIF_TIME_PATTERN@,
    ensures
        r == parsed_time(value@, pattern@),
        r matches Some(m) ==> datetime::valid_moment(m) && -9999 <= m.year <= 9999 && m.nano == 0,
{
    let form = time::format_description::parse_borrowed::<1>(pattern).ok()?;
    let t = time::PrimitiveDateTime::parse(value, &form).ok()?;
    Some(Moment {
        year: t.year(),
        month: u8::from(t.month()) as u32,
        day: t.day() as u32,
        hour: t.hour() as u32,
        minute: t.minute() as u32,
        second: t.second() as u32,
        nano: t.nanosecond(),
    })
}

/// What is done to the dates of a file.
#[derive(Debug)]
pub enum DatesFix {
    Keep,
    /// All dates become this one: the date of the picture, and the two others
    /// where they are there.
    Write { value: String, image: bool, digitized: bool },
}

/// The earliest of some moments.
pub open spec fn first_moment(a: Option<Moment>, b: Option<Moment>) -> Option<Moment> {
    match (a, b) {
        (Some(x), Some(y)) => if datetime::earlier(y, x) {
            Some(y)
        } else {
            Some(x)
        },
        (Some(x), None) => Some(x),
        (None, y) => y,
    }
}

fn earlier_moment(a: Option<Moment>, b: Option<Moment>) -> (r: Option<Moment>)
    ensures
        r == first_moment(a, b),
{
    match (a, b) {
        (Some(x), Some(y)) => if is_earlier(y, x) {
            Some(y)
        } else {
            Some(x)
        },
        (Some(x), None) => Some(x),
        (None, y) => y,
    }
}

/// The earliest date among those of a file.
pub open spec fn earliest_tag(
    original: Option<Moment>,
    image: Option<Moment>,
    digitized: Option<Moment>,
) -> Option<Moment> {
    first_moment(first_moment(original, image), digitized)
}

/// A date with its year before the first one is written with a sign.
fn signed_exif_text(m: Moment) -> (r: String)
    requires
        datetime::valid_moment(m),
        -9999 <= m.year <= 9999,
        m.nano == 0,
    ensures
        r@ == datetime::exif_text(m),
{
    if m.year >= 0 {
        return exif_date_text(m);
    }
    let mut out = "-".to_owned();
    proof {
        reveal_strlit("-");
    }
    out.append(padded_text((-m.year) as u64, 4).as_str());
    out.push(':');
    out.append(padded_text(m.month as u64, 2).as_str());
    out.push(':');
    out.append(padded_text(m.day as u64, 2).as_str());
    out.push(' ');
    out.append(padded_text(m.hour as u64, 2).as_str());
    out.push(':');
    out.append(padded_text(m.minute as u64, 2).as_str());
    out.push(':');
    out.append(padded_text(m.second as u64, 2).as_str());
    assert(out@ =~= datetime::exif_text(m));
    out
}

/// What is done to the dates of a file, given the moments that were read from
/// them: a file that only has the date of the picture keeps it.
pub fn fix_dates(
    has_original: bool,
    has_image: bool,
    has_digitized: bool,
    earliest: Option<Moment>,
) -> (r: Result<DatesFix, String>)
    requires
        earliest matches Some(m) ==> datetime::valid_moment(m) && -9999 <= m.year <= 9999
            && m.nano == 0,
    ensures
        if has_original && !has_image && !has_digitized {
            r matches Ok(DatesFix::Keep)
        } else {
            match earliest {
                Some(m) => match r {
                    Ok(DatesFix::Write { value, image, digitized }) => value@
                        == datetime::exif_text(m) && image == has_image && digitized
                        == has_digitized,
                    _ => false,
                },
                None => match r {
                    Err(e) => e@ == "날짜 태그 파싱 실패"@,
                    Ok(_) => false,
                },
            }
        },
{
    if has_original && !has_image && !has_digitized {
        return Ok(DatesFix::Keep);
    }
    match earliest {
        Some(m) => Ok(
            DatesFix::Write {
                value: signed_exif_text(m),
                image: has_image,
                digitized: has_digitized,
            },
        ),
        None => Err("날짜 태그 파싱 실패".to_owned()),
    }
}

pub open spec fn read_tag(value: Option<&str>) -> Option<Moment> {
    match value {
        Some(v) => parsed_time(v@, EXIF_TIME_PATTERN@),
        None => None,
    }
}

fn moment_of_tag(value: Option<&str>) -> (r: Option<Moment>)
    ensures
        r == read_tag(value),
        r matches Some(m) ==> datetime::valid_moment(m) && -9999 <= m.year <= 9999 && m.nano == 0,
{
    match value {
        Some(v) => parse_time(v, EXIF_TIME_PATTERN),
        None => None,
    }
}

/// What is done to the dates of a file.
pub fn check_datetime_tags(original: Option<&str>, image: Option<&str>, digitized: Option<&str>) -> (r:
    Result<DatesFix, String>)
    ensures
        if original is Some && image is None && digitized is None {
            r matches Ok(DatesFix::Keep)
        } else {
            match earliest_tag(read_tag(original), read_tag(image), read_tag(digitized)) {
                Some(m) => match r {
                    Ok(DatesFix::Write { value, image: i, digitized: d }) => value@
                        == datetime::exif_text(m) && i == image is Some && d == digitized is Some,
                    _ => false,
                },
                None => match r {
                    Err(e) => e@ == "날짜 태그 파싱 실패"@,
                    Ok(_) => false,
                },
            }
        },
{
    let earliest = earlier_moment(
        earlier_moment(moment_of_tag(original), moment_of_tag(image)),
        moment_of_tag(digitized),
    );
    fix_dates(original.is_some(), image.is_some(), digitized.is_some(), earliest)
}

// Lists of pictures.

/// The names of files that are listed as pictures.
pub open spec fn listed_name(name: Seq<char>) -> bool {
    match names::extension(name) {
        Some(e) => {
            let small = text::lowercased(e);
            small == "jpg"@ || small == "jpeg"@ || small == "png"@ || small == "gif"@
        },
        None => false,
    }
}

/// Whether a file is listed as a picture.
pub fn is_listed_image(name: &str) -> (r: bool)
    ensures
        r == listed_name(name@),
{
    match file_extension(name) {
        Some(e) => {
            let small = to_lowercase(e.as_str());
            same_text(small.as_str(), "jpg") || same_text(small.as_str(), "jpeg") || same_text(
                small.as_str(),
                "png",
            ) || same_text(small.as_str(), "gif")
        },
        None => false,
    }
}

/// The names of pictures among some.
pub open spec fn listed(names: Seq<Seq<char>>, n: int) -> Seq<Seq<char>>
    decreases n,
{
    if n <= 0 {
        Seq::empty()
    } else if listed_name(names[n - 1]) {
        listed(names, n - 1).push(names[n - 1])
    } else {
        listed(names, n - 1)
    }
}

/// The pictures among some names, in their order.
pub fn list_image_files(names: &[String]) -> (r: Vec<String>)
    ensures
        file_selection::text_views(r@) == listed(
            file_selection::text_views(names@),
            names@.len() as int,
        ),
{
    let ghost views = file_selection::text_views(names@);
    let n: usize = names.len();
    let mut out: Vec<String> = Vec::new();
    let mut i: usize = 0;
    assert(file_selection::text_views(out@) =~= listed(views, 0));
    while i < n
        invariant
            i <= n,
            n == names@.len(),
            views == file_selection::text_views(names@),
            file_selection::text_views(out@) == listed(views, i as int),
        decreases n - i,
    {
        assert(views[i as int] == names@[i as int]@);
        if is_listed_image(names[i].as_str()) {
            let ghost before = out@;
            let name = names[i].clone();
            out.push(name);
            assert(file_selection::text_views(out@) =~= file_selection::text_views(before).push(
                name@,
            ));
        }
        i += 1;
    }
    out
}

/// The columns that `unicode_width::UnicodeWidthStr::width` counts for a text.
pub uninterp spec fn display_width(value: Seq<char>) -> usize;

/// `unicode_width::UnicodeWidthStr::width`: the columns that a text takes on a
/// terminal.
#[verifier::external_body]
fn width_of(value: &str) -> (r: usize)
    ensures
        r == display_width(value@),
{
    value.width()
}

/// Some spaces.
pub open spec fn spaces(n: int) -> Seq<char> {
    Seq::new(
        if n > 0 {
            n as nat
        } else {
            0
        },
        |i: int| ' ',
    )
}

fn spaces_text(n: usize) -> (r: String)
    ensures
        r@ == spaces(n as int),
{
    let mut out = String::new();
    let mut i: usize = 0;
    assert(out@ =~= spaces(0));
    while i < n
        invariant
            i <= n,
            out@ == spaces(i as int),
        decreases n - i,
    {
        out.push(' ');
        i += 1;
        assert(out@ =~= spaces(i as int));
    }
    out
}

/// A line about a file: its name in forty columns, its size in whole kilobytes
/// on the right of six columns, and its date.
pub open spec fn info_line(name: Seq<char>, width: int, size: u64, date: Option<Seq<char>>) -> Seq<char> {
    let kilobytes = text::decimal((size / 1024) as nat);
    name + spaces(40 - width) + seq![' '] + spaces(6 - kilobytes.len()) + kilobytes + " KB   "@
        + match date {
        Some(d) => d,
        None => "N/A"@,
    }
}

/// A line about a file, given the columns of its name.
pub fn file_info_line(name: &str, width: usize, size: u64, date: Option<&str>) -> (r: String)
    ensures
        r@ == info_line(name@, width as int, size, str_view(date)),
{
    let kilobytes = decimal_text(size / 1024);
    let len: usize = kilobytes.as_str().unicode_len();
    let mut out = name.to_owned();
    if width < 40 {
        out.append(spaces_text(40 - width).as_str());
    } else {
        assert(spaces(40 - width) =~= Seq::empty());
        assert(out@ + spaces(40 - width) =~= out@);
    }
    out.push(' ');
    let ghost so_far = out@;
    if len < 6 {
        out.append(spaces_text(6 - len).as_str());
    } else {
        assert(spaces(6 - len) =~= Seq::empty());
        assert(out@ + spaces(6 - len) =~= out@);
    }
    assert(out@ == so_far + spaces(6 - len));
    assert(so_far == name@ + spaces(40 - width) + seq![' ']) by {
        assert((name@ + spaces(40 - width)).push(' ') =~= name@ + spaces(40 - width) + seq![' ']);
    }
    out.append(kilobytes.as_str());
    out.append(" KB   ");
    match date {
        Some(d) => {
            out.append(d);
        },
        None => {
            out.append("N/A");
        },
    }
    out
}

/// Whether a file has a date: the text that stands for a missing one is none.
pub open spec fn has_date(date: Option<Seq<char>>) -> bool {
    date matches Some(d) && d != "N/A"@
}

/// A line about a file, and whether it has a date.
pub fn print_file_info(name: &str, size: u64, date: Option<&str>) -> (r: (String, bool))
    ensures
        r.0@ == info_line(name@, display_width(name@) as int, size, str_view(date)),
        r.1 == has_date(str_view(date)),
{
    let dated = match date {
        Some(d) => !same_text(d, "N/A"),
        None => false,
    };
    (file_info_line(name, width_of(name), size, date), dated)
}

/// One line about a file: name, size and date.
pub fn print_files_info_oneline(name: Option<&str>, size: u64, date: Option<&str>) -> (r: String)
    ensures
        r@ == match name {
            None => "No filename found"@,
            Some(n) => "File Name: "@ + n@ + ", Size: "@ + text::decimal(size as nat)
                + " bytes, Date: "@ + match date {
                Some(d) => d@,
                None => "N/A"@,
            },
        },
{
    match name {
        None => "No filename found".to_owned(),
        Some(n) => {
            let mut out = "File Name: ".to_owned();
            out.append(n);
            out.append(", Size: ");
            out.append(decimal_text(size).as_str());
            out.append(" bytes, Date: ");
            match date {
                Some(d) => {
                    out.append(d);
                },
                None => {
                    out.append("N/A");
                },
            }
            out
        },
    }
}

/// The name of a copy that is saved anew.
pub open spec fn saved_anew(name: Seq<char>) -> Seq<char> {
    match names::extension(name) {
        Some(e) => names::stem(name) + "_NEW"@ + seq!['.'] + e,
        None => names::stem(name) + "_NEW"@,
    }
}

/// The bytes of a picture, in the format that an extension stands for, after
/// `image` has decoded it and encoded it as a JPEG image of some quality.
pub uninterp spec fn recoded_jpeg(bytes: Seq<u8>, extension: Seq<char>, quality: u8) -> Option<
    Seq<u8>,
>;

pub open spec fn bytes_view(bytes: Option<Vec<u8>>) -> Option<Seq<u8>> {
    match bytes {
        Some(b) => Some(b@),
        None => None,
    }
}

/// `image::ImageFormat::from_extension`, `image::load_from_memory_with_format` and
/// `image::codecs::jpeg::JpegEncoder::encode_image`: a picture as a JPEG image, or
/// nothing where one of the three fails.
#[verifier::external_body]
fn recode_as_jpeg(bytes: &[u8], extension: &str, quality: u8) -> (r: Option<Vec<u8>>)
    ensures
        bytes_view(r) == recoded_jpeg(bytes@, extension@, quality),
{
    let format = image::ImageFormat::from_extension(extension)?;
    let picture = image::load_from_memory_with_format(bytes, format).ok()?;
    let mut out: Vec<u8> = Vec::new();
    image::codecs::jpeg::JpegEncoder::new_with_quality(&mut out, quality).encode_image(&picture).ok()?;
    Some(out)
}

/// The bytes of a picture, in the format that an extension stands for, after
/// `image` has decoded it and encoded it in the same format.
pub uninterp spec fn recoded(bytes: Seq<u8>, extension: Seq<char>) -> Option<Seq<u8>>;

/// `image::ImageFormat::from_extension`, `image::load_from_memory_with_format` and
/// `image::DynamicImage::write_to`: a picture anew in its format, or nothing where
/// one of the three fails.
#[verifier::external_body]
fn recode(bytes: &[u8], extension: &str) -> (r: Option<Vec<u8>>)
    ensures
        bytes_view(r) == recoded(bytes@, extension@),
{
    let format = image::ImageFormat::from_extension(extension)?;
    let picture = image::load_from_memory_with_format(bytes, format).ok()?;
    let mut out = std::io::Cursor::new(Vec::new());
    picture.write_to(&mut out, format).ok()?;
    Some(out.into_inner())
}

/// A picture that was encoded anew, with the name of the copy.
pub fn named_copy(name: &str, image: Option<Vec<u8>>) -> (r: Option<(String, Vec<u8>)>)
    ensures
        match (image, r) {
            (Some(b), Some(f)) => f.0@ == saved_anew(name@) && f.1 == b,
            (None, None) => true,
            _ => false,
        },
{
    match image {
        Some(b) => {
            let mut out = joined_text(file_stem(name).as_str(), "_NEW");
            match file_extension(name) {
                Some(e) => {
                    out.push('.');
                    out.append(e.as_str());
                },
                None => {},
            }
            assert(out@ =~= saved_anew(name@));
            Some((out, b))
        },
        None => None,
    }
}

/// The copy of a picture that is saved anew, in the format of its extension, with
/// its name. There is none of a picture that cannot be decoded or encoded, nor of
/// one whose name has no extension.
pub fn save_as_jpg_with_new_name(name: &str, bytes: &[u8]) -> (r: Option<(String, Vec<u8>)>)
    ensures
        match names::extension(name@) {
            None => r is None,
            Some(e) => match (recoded(bytes@, e), r) {
                (Some(b), Some(f)) => f.0@ == saved_anew(name@) && f.1@ == b,
                (None, None) => true,
                _ => false,
            },
        },
{
    match file_extension(name) {
        None => None,
        Some(e) => named_copy(name, recode(bytes, e.as_str())),
    }
}

/// The name of the JPEG image that a picture becomes.
pub open spec fn jpeg_name(name: Seq<char>) -> Seq<char> {
    names::stem(name) + ".jpg"@
}

/// The JPEG image that a picture becomes, with its name.
pub fn named_jpeg(name: &str, image: Option<Vec<u8>>) -> (r: Option<(String, Vec<u8>)>)
    ensures
        match (image, r) {
            (Some(b), Some(f)) => f.0@ == jpeg_name(name@) && f.1 == b,
            (None, None) => true,
            _ => false,
        },
{
    match image {
        Some(b) => Some((joined_text(file_stem(name).as_str(), ".jpg"), b)),
        None => None,
    }
}

/// The JPEG image, of full quality, that a picture becomes, with its name; a
/// picture whose name has no extension becomes none.
pub fn convert_to_jpeg(name: &str, bytes: &[u8]) -> (r: Option<(String, Vec<u8>)>)
    ensures
        match names::extension(name@) {
            None => r is None,
            Some(e) => match (recoded_jpeg(bytes@, e, 100), r) {
                (Some(b), Some(f)) => f.0@ == jpeg_name(name@) && f.1@ == b,
                (None, None) => true,
                _ => false,
            },
        },
{
    match file_extension(name) {
        None => None,
        Some(e) => named_jpeg(name, recode_as_jpeg(bytes, e.as_str(), 100)),
    }
}

/// An APP1 segment of EXIF data around a field that is encoded already: marker,
/// length, identifier, field. The length counts all but the marker; it is cut to
/// sixteen bits.
pub open spec fn basic_structure(field: Seq<u8>) -> Seq<u8> {
    let len = (field.len() + 8) % 65536;
    seq![
        0xffu8,
        0xe1u8,
        (len / 256) as u8,
        (len % 256) as u8,
        0x45u8,
        0x78u8,
        0x69u8,
        0x66u8,
        0u8,
        0u8,
    ] + field
}

pub fn create_basic_exif_structure(field: &[u8]) -> (r: Vec<u8>)
    requires
        field@.len() + 10 <= usize::MAX,
    ensures
        r@ == basic_structure(field@),
{
    let len: usize = (field.len() + 8) % 65536;
    let mut out: Vec<u8> = vec![
        0xff,
        0xe1,
        (len / 256) as u8,
        (len % 256) as u8,
        0x45,
        0x78,
        0x69,
        0x66,
        0,
        0,
    ];
    let n: usize = field.len();
    let ghost head = out@;
    let mut i: usize = 0;
    assert(out@ =~= head + field@.take(0));
    while i < n
        invariant
            i <= n,
            n == field@.len(),
            out@ == head + field@.take(i as int),
        decreases n - i,
    {
        out.push(field[i]);
        i += 1;
        assert(out@ =~= head + field@.take(i as int));
    }
    assert(field@.take(n as int) =~= field@);
    assert(out@ =~= basic_structure(field@));
    out
}

} // verus!
