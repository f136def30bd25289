//! Dates and times: the calendar, the texts that stand for a date in files and
//! on screen, and the dates that filenames carry.
use crate::text::{self, same_text, trimmed};
use chrono::{Datelike, Timelike};
use vstd::prelude::*;

verus! {

/// The pattern of the dates that are shown.
pub const DISPLAY_DATETIME_FORMAT: &'static str = "%Y-%m-%d %H:%M:%S";

/// The pattern of the dates that EXIF data hold.
pub const EXIF_DATETIME_FORMAT: &'static str = "%Y:%m:%d %H:%M:%S";

/// A date and a time of day, in no time zone. The nanoseconds go from
/// 1 000 000 000 on within a leap second.
#[derive(Clone, Copy, Debug, PartialEq, Eq, Structural)]
pub struct Moment {
    pub year: i32,
    pub month: u32,
    pub day: u32,
    pub hour: u32,
    pub minute: u32,
    pub second: u32,
    pub nano: u32,
}

pub open spec fn is_leap_year(year: int) -> bool {
    year % 4 == 0 && (year % 100 != 0 || year % 400 == 0)
}

pub open spec fn days_in_month(year: int, month: int) -> int {
    if month == 2 {
        if is_leap_year(year) {
            29
        } else {
            28
        }
    } else if month == 4 || month == 6 || month == 9 || month == 11 {
        30
    } else {
        31
    }
}

/// The dates of the Gregorian calendar, in the years that are supported.
pub open spec fn valid_date(year: int, month: int, day: int) -> bool {
    &&& -262143 <= year <= 262142
    &&& 1 <= month <= 12
    &&& 1 <= day <= days_in_month(year, month)
}

pub open spec fn valid_time(hour: int, minute: int, second: int) -> bool {
    0 <= hour < 24 && 0 <= minute < 60 && 0 <= second < 60
}

pub open spec fn valid_moment(m: Moment) -> bool {
    &&& valid_date(m.year as int, m.month as int, m.day as int)
    &&& valid_time(m.hour as int, m.minute as int, m.second as int)
    &&& m.nano < 1_000_000_000 || (m.second == 59 && m.nano < 2_000_000_000)
}

pub open spec fn days_before_month(year: int, month: int) -> int
    decreases month,
{
    if month <= 1 {
        0
    } else {
        days_before_month(year, month - 1) + days_in_month(year, month - 1)
    }
}

/// The number of a day, counted from the first day of year 1.
pub open spec fn day_number(year: int, month: int, day: int) -> int {
    365 * (year - 1) + (year - 1) / 4 - (year - 1) / 100 + (year - 1) / 400 + days_before_month(
        year,
        month,
    ) + day
}

/// The seconds from the start of 1970 to a moment, leap seconds left out.
pub open spec fn timestamp(m: Moment) -> int {
    (day_number(m.year as int, m.month as int, m.day as int) - 719163) * 86400 + m.hour * 3600
        + m.minute * 60 + m.second
}

/// The first and the last second of the supported years.
pub open spec fn supported_timestamp(seconds: int) -> bool {
    -8334601228800 <= seconds <= 8210266876799
}

/// The moment at a number of seconds from the start of 1970, with nanoseconds
/// beside it.
pub open spec fn moment_of(seconds: int, nano: u32) -> Moment {
    choose|m: Moment| #[trigger]
        valid_moment(m) && timestamp(m) == seconds && m.nano == nano
}

/// A year in texts: four digits, with a sign outside the years 0 to 9999.
pub open spec fn year_text(year: int) -> Seq<char> {
    if 0 <= year <= 9999 {
        text::zero_padded(year as nat, 4)
    } else if year > 9999 {
        seq!['+'] + text::zero_padded(year as nat, 4)
    } else {
        seq!['-'] + text::zero_padded((-year) as nat, 4)
    }
}

pub open spec fn two(n: int) -> Seq<char> {
    text::zero_padded(n as nat, 2)
}

/// Year, month and day with a separator between them.
pub open spec fn date_text(year: int, month: int, day: int, separator: Seq<char>) -> Seq<char> {
    year_text(year) + separator + two(month) + separator + two(day)
}

/// Hour, minute and second with a separator between them. A leap second is number 60.
pub open spec fn time_text(m: Moment, separator: Seq<char>) -> Seq<char> {
    two(m.hour as int) + separator + two(m.minute as int) + separator + two(
        m.second + m.nano / 1_000_000_000,
    )
}

/// The text that is shown for a moment: `2012-08-27 00:29:55`.
pub open spec fn display_text(m: Moment) -> Seq<char> {
    date_text(m.year as int, m.month as int, m.day as int, seq!['-']) + seq![' '] + time_text(
        m,
        seq![':'],
    )
}

/// The text of a moment in EXIF data: `2012:08:27 00:29:55`.
pub open spec fn exif_text(m: Moment) -> Seq<char> {
    date_text(m.year as int, m.month as int, m.day as int, seq![':']) + seq![' '] + time_text(
        m,
        seq![':'],
    )
}

/// The text of a moment in filenames: `20120827_002955`.
pub open spec fn compact_text(m: Moment) -> Seq<char> {
    date_text(m.year as int, m.month as int, m.day as int, Seq::empty()) + seq!['_'] + time_text(
        m,
        Seq::empty(),
    )
}

/// Whether a moment lies in the years with four digits and on a full second.
pub open spec fn plain(m: Moment) -> bool {
    valid_moment(m) && 0 <= m.year <= 9999 && m.nano == 0
}

pub open spec fn midnight(date: (i32, u32, u32)) -> Moment {
    Moment { year: date.0, month: date.1, day: date.2, hour: 0, minute: 0, second: 0, nano: 0 }
}

/// What `chrono::NaiveDateTime::parse_from_str` reads from a text by a pattern.
pub uninterp spec fn parsed_datetime(value: Seq<char>, format: Seq<char>) -> Option<Moment>;

/// What `chrono::NaiveDate::parse_from_str` reads from a text by a pattern:
/// year, month and day.
pub uninterp spec fn parsed_date(value: Seq<char>, format: Seq<char>) -> Option<(i32, u32, u32)>;

/// Whether `chrono::NaiveTime::parse_from_str` reads a time from a text by a pattern.
pub uninterp spec fn parsed_time(value: Seq<char>, format: Seq<char>) -> bool;

/// The moment in UTC that `chrono::DateTime::parse_from_rfc3339` reads from a text.
pub uninterp spec fn parsed_rfc3339(value: Seq<char>) -> Option<Moment>;

/// The moment in UTC that `chrono::DateTime::parse_from_rfc2822` reads from a text.
pub uninterp spec fn parsed_rfc2822(value: Seq<char>) -> Option<Moment>;

/// Reads a date and a time with `chrono::NaiveDateTime::parse_from_str`. Which
/// texts it takes is not stated but for these: what it gives is a date of the
/// calendar and a time of day; a text that was written by the display or the
/// EXIF pattern, with a four-digit year and no leap second, reads back by the
/// same pattern, and one of the display pattern does not read by the EXIF one.
#[verifier::external_body]
pub(crate) fn parse_datetime(value: &str, format: &str) -> (r: Option<Moment>)
    ensures
        r == parsed_datetime(value@, format@),
        r matches Some(m) ==> valid_moment(m),
        format@ == DISPLAY_DATETIME_FORMAT@ ==> forall|m: Moment|
            plain(m) && value@ == #[trigger] display_text(m) ==> r == Some(m),
        format@ == EXIF_DATETIME_FORMAT@ ==> forall|m: Moment|
            plain(m) && value@ == #[trigger] exif_text(m) ==> r == Some(m),
        format@ == EXIF_DATETIME_FORMAT@ ==> forall|m: Moment|
            plain(m) && value@ == #[trigger] display_text(m) ==> r is None,
{
    let d = chrono::NaiveDateTime::parse_from_str(value, format).ok()?;
    Some(
        Moment {
            year: d.year(),
            month: d.month(),
            day: d.day(),
            hour: d.hour(),
            minute: d.minute(),
            second: d.second(),
            nano: d.nanosecond(),
        },
    )
}

/// Reads a date with `chrono::NaiveDate::parse_from_str`. Which texts it takes
/// is not stated; what it gives is a date of the calendar.
#[verifier::external_body]
pub(crate) fn parse_date(value: &str, format: &str) -> (r: Option<(i32, u32, u32)>)
    ensures
        r == parsed_date(value@, format@),
        r matches Some((y, m, d)) ==> valid_date(y as int, m as int, d as int),
{
    let d = chrono::NaiveDate::parse_from_str(value, format).ok()?;
    Some((d.year(), d.month(), d.day()))
}

/// Reads a time of day with `chrono::NaiveTime::parse_from_str`. Which texts
/// it takes is not stated.
#[verifier::external_body]
pub(crate) fn parses_as_time(value: &str, format: &str) -> (r: bool)
    ensures
        r == parsed_time(value@, format@),
{
    chrono::NaiveTime::parse_from_str(value, format).is_ok()
}

/// Reads a moment with `chrono::DateTime::parse_from_rfc3339` and gives it in
/// UTC. Which texts it takes is not stated; what it gives is a date of the
/// calendar and a time of day.
#[verifier::external_body]
pub(crate) fn parse_rfc3339(value: &str) -> (r: Option<Moment>)
    ensures
        r == parsed_rfc3339(value@),
        r matches Some(m) ==> valid_moment(m),
{
    let d = chrono::DateTime::parse_from_rfc3339(value).ok()?.naive_utc();
    Some(
        Moment {
            year: d.year(),
            month: d.month(),
            day: d.day(),
            hour: d.hour(),
            minute: d.minute(),
            second: d.second(),
            nano: d.nanosecond(),
        },
    )
}

/// Reads a moment with `chrono::DateTime::parse_from_rfc2822` and gives it in
/// UTC. Which texts it takes is not stated; what it gives is a date of the
/// calendar and a time of day.
#[verifier::external_body]
pub(crate) fn parse_rfc2822(value: &str) -> (r: Option<Moment>)
    ensures
        r == parsed_rfc2822(value@),
        r matches Some(m) ==> valid_moment(m),
{
    let d = chrono::DateTime::parse_from_rfc2822(value).ok()?.naive_utc();
    Some(
        Moment {
            year: d.year(),
            month: d.month(),
            day: d.day(),
            hour: d.hour(),
            minute: d.minute(),
            second: d.second(),
            nano: d.nanosecond(),
        },
    )
}

/// Whether `chrono::NaiveDate::from_ymd_opt` knows a date: exactly the dates
/// of the Gregorian calendar in the supported years.
#[verifier::external_body]
pub(crate) fn date_exists(year: i32, month: u32, day: u32) -> (r: bool)
    ensures
        r == valid_date(year as int, month as int, day as int),
{
    chrono::NaiveDate::from_ymd_opt(year, month, day).is_some()
}

/// Writes a moment with `chrono::NaiveDateTime::format`, by one of the patterns
/// whose texts are given above. What it writes by the display or the EXIF pattern
/// for a four-digit year and a full second, `parse_from_str` reads back.
#[verifier::external_body]
pub(crate) fn format_datetime(m: Moment, format: &str) -> (r: String)
    requires
        valid_moment(m),
        format@ == DISPLAY_DATETIME_FORMAT@ || format@ == EXIF_DATETIME_FORMAT@ || format@
            == "%Y%m%d_%H%M%S"@ || format@ == "%Y-%m-%d"@ || format@ == "%H:%M:%S"@,
    ensures
        format@ == DISPLAY_DATETIME_FORMAT@ ==> r@ == display_text(m),
        format@ == EXIF_DATETIME_FORMAT@ ==> r@ == exif_text(m),
        plain(m) && (format@ == DISPLAY_DATETIME_FORMAT@ || format@ == EXIF_DATETIME_FORMAT@)
            ==> parsed_datetime(r@, format@) == Some(m),
        format@ == "%Y%m%d_%H%M%S"@ ==> r@ == compact_text(m),
        format@ == "%Y-%m-%d"@ ==> r@ == date_text(
            m.year as int,
            m.month as int,
            m.day as int,
            seq!['-'],
        ),
        format@ == "%H:%M:%S"@ ==> r@ == time_text(m, seq![':']),
{
    let date = chrono::NaiveDate::from_ymd_opt(m.year, m.month, m.day).unwrap();
    let moment = date.and_hms_nano_opt(m.hour, m.minute, m.second, m.nano).unwrap();
    moment.format(format).to_string()
}

/// The moment in UTC at a number of seconds from the start of 1970, as
/// `chrono::DateTime::from_timestamp` gives it; none outside the supported years.
#[verifier::external_body]
pub(crate) fn moment_at(seconds: i64) -> (r: Option<Moment>)
    ensures
        (r is Some) == supported_timestamp(seconds as int),
        r matches Some(m) ==> valid_moment(m) && timestamp(m) == seconds && m.nano == 0,
{
    let d = chrono::DateTime::<chrono::Utc>::from_timestamp(seconds, 0)?.naive_utc();
    Some(
        Moment {
            year: d.year(),
            month: d.month(),
            day: d.day(),
            hour: d.hour(),
            minute: d.minute(),
            second: d.second(),
            nano: d.nanosecond(),
        },
    )
}

/// The text by the display pattern of a moment in UTC, in a zone that is some
/// minutes ahead, as chrono writes it.
pub uninterp spec fn offset_text(m: Moment, offset_minutes: i32) -> Seq<char>;

/// Writes a moment in UTC by the display pattern in UTC or in the zone nine
/// hours ahead, with `chrono::DateTime::with_timezone` and `format`. The text
/// is that of the moment so many minutes later, with the same nanoseconds; of
/// the last hours of the last supported year, where there is no such moment,
/// nothing is stated.
#[verifier::external_body]
pub(crate) fn text_at_offset(m: Moment, offset_minutes: i32) -> (r: String)
    requires
        valid_moment(m),
        offset_minutes == 0 || offset_minutes == 540,
    ensures
        r@ == offset_text(m, offset_minutes),
        supported_timestamp(timestamp(m) + 60 * offset_minutes) ==> r@ == display_text(
            moment_of(timestamp(m) + 60 * offset_minutes, m.nano),
        ),
{
    let date = chrono::NaiveDate::from_ymd_opt(m.year, m.month, m.day).unwrap();
    let naive = date.and_hms_nano_opt(m.hour, m.minute, m.second, m.nano).unwrap();
    let utc = chrono::DateTime::<chrono::Utc>::from_naive_utc_and_offset(naive, chrono::Utc);
    let offset = chrono::FixedOffset::east_opt(offset_minutes * 60).unwrap();
    utc.with_timezone(&offset).format(DISPLAY_DATETIME_FORMAT).to_string()
}

/// The second from which a shift counts: a leap second counts as the second
/// before it going forward, and as the second behind it going back.
pub open spec fn shift_base(m: Moment, seconds: int) -> int {
    if m.nano >= 1_000_000_000 && seconds < 0 {
        timestamp(m) + 1
    } else {
        timestamp(m)
    }
}

/// A moment moved by whole seconds with
/// `chrono::NaiveDateTime::checked_add_signed`; none outside the supported years.
#[verifier::external_body]
pub(crate) fn shift_moment(m: Moment, seconds: i64) -> (r: Option<Moment>)
    requires
        valid_moment(m),
        valid_shift(seconds as int),
    ensures
        (r is Some) == supported_timestamp(shift_base(m, seconds as int) + seconds),
        r matches Some(s) ==> valid_moment(s) && timestamp(s) == shift_base(m, seconds as int)
            + seconds && s.nano == (if m.nano >= 1_000_000_000 && seconds != 0 {
            (m.nano - 1_000_000_000) as u32
        } else {
            m.nano
        }),
{
    let date = chrono::NaiveDate::from_ymd_opt(m.year, m.month, m.day).unwrap();
    let from = date.and_hms_nano_opt(m.hour, m.minute, m.second, m.nano).unwrap();
    let d = from.checked_add_signed(chrono::Duration::try_seconds(seconds).unwrap())?;
    let (year, month, day) = (d.year(), d.month(), d.day());
    let (hour, minute, second) = (d.hour(), d.minute(), d.second());
    Some(Moment { year, month, day, hour, minute, second, nano: d.nanosecond() })
}

/// The numbers of seconds that a shift can have.
pub open spec fn valid_shift(seconds: int) -> bool {
    -9_223_372_036_854_775 <= seconds <= 9_223_372_036_854_775
}

/// The whole seconds in a number of nanoseconds, toward zero.
pub open spec fn whole_seconds(nanos: int) -> int {
    if nanos >= 0 {
        nanos / 1_000_000_000
    } else {
        -((-nanos) / 1_000_000_000)
    }
}

/// The whole seconds from one moment to another, as
/// `chrono::NaiveDateTime::signed_duration_since` counts them, toward zero.
#[verifier::external_body]
pub(crate) fn seconds_between(from: Moment, to: Moment) -> (r: i64)
    requires
        valid_moment(from),
        valid_moment(to),
        from.nano < 1_000_000_000,
        to.nano < 1_000_000_000,
    ensures
        r == whole_seconds(
            (timestamp(to) - timestamp(from)) * 1_000_000_000 + (to.nano - from.nano),
        ),
        -17_000_000_000_000 <= r <= 17_000_000_000_000,
{
    let a = chrono::NaiveDate::from_ymd_opt(from.year, from.month, from.day).unwrap();
    let a = a.and_hms_nano_opt(from.hour, from.minute, from.second, from.nano).unwrap();
    let b = chrono::NaiveDate::from_ymd_opt(to.year, to.month, to.day).unwrap();
    let b = b.and_hms_nano_opt(to.hour, to.minute, to.second, to.nano).unwrap();
    b.signed_duration_since(a).num_seconds()
}

// Reading a date that is written in one of the known ways.

pub open spec fn first_moment(a: Option<Moment>, b: Option<Moment>) -> Option<Moment> {
    if a is Some {
        a
    } else {
        b
    }
}

pub open spec fn at_midnight(date: Option<(i32, u32, u32)>) -> Option<Moment> {
    match date {
        Some(d) => Some(midnight(d)),
        None => None,
    }
}

/// A date in the display pattern, or a date alone, which stands for its midnight.
pub open spec fn display_datetime(value: Seq<char>) -> Option<Moment> {
    first_moment(
        parsed_datetime(value, DISPLAY_DATETIME_FORMAT@),
        at_midnight(parsed_date(value, "%Y-%m-%d"@)),
    )
}

/// A date in the EXIF pattern, in the display pattern, or a date alone.
pub open spec fn known_datetime(value: Seq<char>) -> Option<Moment> {
    first_moment(parsed_datetime(value, EXIF_DATETIME_FORMAT@), display_datetime(value))
}

pub fn midnight_of(date: Option<(i32, u32, u32)>) -> (r: Option<Moment>)
    ensures
        r == at_midnight(date),
{
    match date {
        Some((year, month, day)) => Some(
            Moment { year, month, day, hour: 0, minute: 0, second: 0, nano: 0 },
        ),
        None => None,
    }
}

pub fn parse_display_datetime_or_date(value: &str) -> (r: Option<Moment>)
    ensures
        r == display_datetime(value@),
        r matches Some(m) ==> valid_moment(m),
        forall|m: Moment| plain(m) && value@ == #[trigger] display_text(m) ==> r == Some(m),
{
    match parse_datetime(value, DISPLAY_DATETIME_FORMAT) {
        Some(m) => Some(m),
        None => midnight_of(parse_date(value, "%Y-%m-%d")),
    }
}

pub fn parse_known_datetime(value: &str) -> (r: Option<Moment>)
    ensures
        r == known_datetime(value@),
        r matches Some(m) ==> valid_moment(m),
        forall|m: Moment| plain(m) && value@ == #[trigger] display_text(m) ==> r == Some(m),
        forall|m: Moment| plain(m) && value@ == #[trigger] exif_text(m) ==> r == Some(m),
{
    match parse_datetime(value, EXIF_DATETIME_FORMAT) {
        Some(m) => Some(m),
        None => parse_display_datetime_or_date(value),
    }
}

pub fn format_datetime_for_display(m: Moment) -> (r: String)
    requires
        valid_moment(m),
    ensures
        r@ == display_text(m),
{
    format_datetime(m, DISPLAY_DATETIME_FORMAT)
}

/// What is shown for a value that may hold a date: the date, or the value as it is.
pub open spec fn display_of(m: Option<Moment>, value: Seq<char>) -> Seq<char> {
    match m {
        Some(m) => display_text(m),
        None => value,
    }
}

/// The text that is shown for a date read from a value, or the value itself.
pub fn display_or_value(m: Option<Moment>, value: &str) -> (r: String)
    requires
        m matches Some(x) ==> valid_moment(x),
    ensures
        r@ == display_of(m, value@),
{
    match m {
        Some(m) => format_datetime_for_display(m),
        None => value.to_owned(),
    }
}

/// Turns a date of EXIF data into what is shown. A value that is no date is
/// shown as it is. A date with a four-digit year is shown by the display
/// pattern, and is left as it is if it is written that way already.
pub fn exif_datetime_to_display(value: &str) -> (r: String)
    ensures
        r@ == display_of(known_datetime(value@), value@),
        forall|m: Moment| plain(m) && value@ == #[trigger] exif_text(m) ==> r@ == display_text(m),
        forall|m: Moment|
            plain(m) && value@ == #[trigger] display_text(m) ==> r@ == display_text(m),
{
    display_or_value(parse_known_datetime(value), value)
}

/// A date that is shown, with a four-digit year, is read as that date, and so is
/// the text that stands for it in EXIF data.
pub open spec fn reads_back(shown: Seq<char>) -> bool {
    forall|m: Moment|
        plain(m) && shown == #[trigger] display_text(m) ==> known_datetime(shown) == Some(m)
            && known_datetime(exif_text(m)) == Some(m)
}

/// The outcome of writing a date into EXIF data.
pub open spec fn exif_date_of(m: Option<Moment>) -> Result<Seq<char>, Seq<char>> {
    match m {
        Some(m) => Ok(exif_text(m)),
        None => Err("Expected date format: YYYY-MM-DD HH:MM:SS"@),
    }
}

/// The text for EXIF data of a date that was read, if one was.
pub fn exif_date_or_error(m: Option<Moment>) -> (r: Result<String, String>)
    requires
        m matches Some(x) ==> valid_moment(x),
    ensures
        match r {
            Ok(v) => exif_date_of(m) == Ok::<Seq<char>, Seq<char>>(v@),
            Err(e) => exif_date_of(m) == Err::<Seq<char>, Seq<char>>(e@),
        },
        m matches Some(x) ==> plain(x) ==> (r matches Ok(v) && known_datetime(v@) == Some(x)),
{
    match m {
        Some(m) => Ok(format_datetime(m, EXIF_DATETIME_FORMAT)),
        None => Err("Expected date format: YYYY-MM-DD HH:MM:SS".to_owned()),
    }
}

/// Turns a date that is shown into the text for EXIF data; a date alone stands
/// for its midnight. What was shown for a date of EXIF data with a four-digit
/// year turns back into that date.
pub fn display_datetime_to_exif(value: &str) -> (r: Result<String, String>)
    ensures
        match r {
            Ok(v) => exif_date_of(known_datetime(value@)) == Ok::<Seq<char>, Seq<char>>(v@),
            Err(e) => exif_date_of(known_datetime(value@)) == Err::<Seq<char>, Seq<char>>(e@),
        },
        forall|m: Moment|
            plain(m) && value@ == #[trigger] display_text(m) ==> (r matches Ok(v) && v@
                == exif_text(m)),
        forall|m: Moment|
            plain(m) && value@ == #[trigger] exif_text(m) ==> (r matches Ok(v) && v@ == exif_text(
                m,
            )),
        known_datetime(value@) matches Some(m) ==> plain(m) ==> (r matches Ok(v)
            && known_datetime(v@) == Some(m)),
        forall|m: Moment|
            plain(m) && value@ == #[trigger] display_text(m) ==> known_datetime(value@) == Some(m),
{
    exif_date_or_error(parse_known_datetime(value))
}

// The characters of dates.

/// A digit, or what stands between digits in a date.
pub open spec fn is_date_char(c: char) -> bool {
    text::is_digit(c) || c == '+' || c == '-' || c == ':' || c == ' '
}

/// A text made of the characters of dates that neither begins nor ends with a space.
pub open spec fn is_date_like(s: Seq<char>) -> bool {
    &&& s.len() >= 19
    &&& s[0] != ' '
    &&& s.last() != ' '
    &&& forall|i: int| 0 <= i < s.len() ==> is_date_char(#[trigger] s[i])
}

pub proof fn lemma_padded_digits(n: nat, width: nat)
    ensures
        text::zero_padded(n, width).len() >= width,
        text::zero_padded(n, width).len() >= 1,
        text::all_digits(text::zero_padded(n, width)),
{
    text::decimal_reads_back(n);
}

proof fn lemma_joined_chars(a: Seq<char>, b: Seq<char>)
    requires
        forall|i: int| 0 <= i < a.len() ==> is_date_char(#[trigger] a[i]),
        forall|i: int| 0 <= i < b.len() ==> is_date_char(#[trigger] b[i]),
    ensures
        forall|i: int| 0 <= i < (a + b).len() ==> is_date_char(#[trigger] (a + b)[i]),
{
}

proof fn lemma_digit_chars(a: Seq<char>)
    requires
        text::all_digits(a),
    ensures
        forall|i: int| 0 <= i < a.len() ==> is_date_char(#[trigger] a[i]),
{
}

proof fn lemma_year_chars(year: int)
    ensures
        year_text(year).len() >= 4,
        year_text(year)[0] != ' ',
        forall|i: int| 0 <= i < year_text(year).len() ==> is_date_char(#[trigger] year_text(year)[i]),
{
    lemma_padded_digits(year as nat, 4);
    lemma_padded_digits((-year) as nat, 4);
    lemma_digit_chars(text::zero_padded(year as nat, 4));
    lemma_digit_chars(text::zero_padded((-year) as nat, 4));
    assert(text::is_digit(text::zero_padded(year as nat, 4)[0]));
    assert(is_date_char(seq!['+'][0]) && is_date_char(seq!['-'][0]));
}

/// The date that a moment is written as, with a separator, looks like one.
proof fn lemma_written_date(m: Moment, separator: char)
    requires
        separator == '-' || separator == ':',
    ensures
        is_date_like(
            date_text(m.year as int, m.month as int, m.day as int, seq![separator]) + seq![' ']
                + time_text(m, seq![':']),
        ),
{
    let sep = seq![separator];
    let colon = seq![':'];
    let space = seq![' '];
    let year = year_text(m.year as int);
    let last = m.second + m.nano / 1_000_000_000;
    lemma_year_chars(m.year as int);
    lemma_padded_digits(m.month as nat, 2);
    lemma_padded_digits(m.day as nat, 2);
    lemma_padded_digits(m.hour as nat, 2);
    lemma_padded_digits(m.minute as nat, 2);
    lemma_padded_digits(last as nat, 2);
    lemma_digit_chars(two(m.month as int));
    lemma_digit_chars(two(m.day as int));
    lemma_digit_chars(two(m.hour as int));
    lemma_digit_chars(two(m.minute as int));
    lemma_digit_chars(two(last));
    assert(is_date_char(sep[0]) && is_date_char(colon[0]) && is_date_char(space[0]));
    lemma_joined_chars(year, sep);
    lemma_joined_chars(year + sep, two(m.month as int));
    lemma_joined_chars(year + sep + two(m.month as int), sep);
    lemma_joined_chars(year + sep + two(m.month as int) + sep, two(m.day as int));
    let d = date_text(m.year as int, m.month as int, m.day as int, sep);
    lemma_joined_chars(d, space);
    lemma_joined_chars(two(m.hour as int), colon);
    lemma_joined_chars(two(m.hour as int) + colon, two(m.minute as int));
    lemma_joined_chars(two(m.hour as int) + colon + two(m.minute as int), colon);
    lemma_joined_chars(two(m.hour as int) + colon + two(m.minute as int) + colon, two(last));
    let t = time_text(m, colon);
    lemma_joined_chars(d + space, t);
    let all = d + space + t;
    assert(all[0] == year[0]);
    assert(all.last() == two(last).last());
    assert(text::is_digit(two(last).last()));
}

/// A date as it is shown, and one in EXIF data, look like dates.
pub proof fn lemma_date_texts(m: Moment)
    ensures
        is_date_like(display_text(m)),
        is_date_like(exif_text(m)),
{
    lemma_written_date(m, '-');
    lemma_written_date(m, ':');
}

/// What looks like a date has nothing to trim and no zero in it.
pub proof fn lemma_date_like(s: Seq<char>)
    requires
        is_date_like(s),
    ensures
        text::trim(s) == s,
        forall|i: int| 0 <= i < s.len() ==> #[trigger] s[i] != '\0',
{
    assert(is_date_char(s[0]));
    assert(is_date_char(s[s.len() - 1]));
    assert(!text::is_white_space(s[0]));
    assert(!text::is_white_space(s.last()));
}

proof fn lemma_decimal_len(n: nat)
    ensures
        text::decimal(n).len() <= n + 1,
    decreases n,
{
    if n >= 10 {
        lemma_decimal_len(n / 10);
    }
}

/// A date in EXIF data is short, and takes as many bytes as it has characters.
pub proof fn lemma_exif_date_bytes(m: Moment)
    requires
        plain(m),
    ensures
        19 <= vstd::utf8::encode_utf8(exif_text(m)).len() <= 11_000,
{
    lemma_date_texts(m);
    lemma_decimal_len(m.year as nat);
    lemma_decimal_len(m.month as nat);
    lemma_decimal_len(m.day as nat);
    lemma_decimal_len(m.hour as nat);
    lemma_decimal_len(m.minute as nat);
    lemma_decimal_len((m.second + m.nano / 1_000_000_000) as nat);
    let t = exif_text(m);
    assert(vstd::utf8::is_ascii_chars(t)) by {
        assert forall|i: int| 0 <= i < t.len() implies '\0' <= #[trigger] t[i] <= '\u{7f}' by {
            assert(is_date_char(t[i]));
        }
    }
    vstd::utf8::is_ascii_chars_encode_utf8(t);
}

// The order of moments.

pub open spec fn earlier(a: Moment, b: Moment) -> bool {
    ||| a.year < b.year
    ||| a.year == b.year && a.month < b.month
    ||| a.year == b.year && a.month == b.month && a.day < b.day
    ||| a.year == b.year && a.month == b.month && a.day == b.day && a.hour < b.hour
    ||| a.year == b.year && a.month == b.month && a.day == b.day && a.hour == b.hour && a.minute
        < b.minute
    ||| a.year == b.year && a.month == b.month && a.day == b.day && a.hour == b.hour && a.minute
        == b.minute && a.second < b.second
    ||| a.year == b.year && a.month == b.month && a.day == b.day && a.hour == b.hour && a.minute
        == b.minute && a.second == b.second && a.nano < b.nano
}

pub fn is_earlier(a: Moment, b: Moment) -> (r: bool)
    ensures
        r == earlier(a, b),
{
    if a.year != b.year {
        a.year < b.year
    } else if a.month != b.month {
        a.month < b.month
    } else if a.day != b.day {
        a.day < b.day
    } else if a.hour != b.hour {
        a.hour < b.hour
    } else if a.minute != b.minute {
        a.minute < b.minute
    } else if a.second != b.second {
        a.second < b.second
    } else {
        a.nano < b.nano
    }
}

/// Of two moments that differ one is earlier, and the order is transitive.
pub proof fn moments_are_ordered(a: Moment, b: Moment, c: Moment)
    ensures
        !earlier(a, a),
        a != b ==> earlier(a, b) != earlier(b, a),
        earlier(a, b) && earlier(b, c) ==> earlier(a, c),
{
}

// Dates that are entered.

/// A value that is entered for a date, with white space cut off; a date alone
/// becomes its midnight.
pub open spec fn normalized(date: Option<(i32, u32, u32)>, value: Seq<char>) -> Seq<char> {
    match date {
        Some(d) => display_text(midnight(d)),
        None => text::trim(value),
    }
}

pub fn normalize_with(date: Option<(i32, u32, u32)>, value: &str) -> (r: String)
    requires
        date matches Some((y, m, d)) ==> valid_date(y as int, m as int, d as int),
    ensures
        r@ == normalized(date, value@),
{
    match midnight_of(date) {
        Some(m) => format_datetime_for_display(m),
        None => trimmed(value).to_owned(),
    }
}

/// Brings a date that was entered into the form in which it is saved.
pub fn normalize_date(value: &str) -> (r: String)
    ensures
        r@ == normalized(parsed_date(text::trim(value@), "%Y-%m-%d"@), value@),
{
    normalize_with(parse_date(trimmed(value), "%Y-%m-%d"), value)
}

/// Whether a value stands for no date at all.
pub open spec fn no_date(value: Seq<char>) -> bool {
    value.len() == 0 || value == "N/A"@ || value == "-"@
}

/// Whether a date that was found replaces the one that is there: it does
/// where there is none, and where it is not later.
pub open spec fn candidate_applies(
    existing: Seq<char>,
    existing_date: Option<Moment>,
    candidate_date: Option<Moment>,
) -> bool {
    no_date(text::trim(existing)) || match (existing_date, candidate_date) {
        (None, _) => true,
        (Some(_), None) => false,
        (Some(e), Some(c)) => !earlier(e, c),
    }
}

pub fn candidate_replaces(
    existing: &str,
    existing_date: Option<Moment>,
    candidate_date: Option<Moment>,
) -> (r: bool)
    ensures
        r == candidate_applies(existing@, existing_date, candidate_date),
{
    let value = trimmed(existing);
    if value.is_empty() || same_text(value, "N/A") || same_text(value, "-") {
        return true;
    }
    match (existing_date, candidate_date) {
        (None, _) => true,
        (Some(_), None) => false,
        (Some(e), Some(c)) => !is_earlier(e, c),
    }
}

pub fn should_apply_taken_date_candidate(existing: &str, candidate: &str) -> (r: bool)
    ensures
        r == candidate_applies(
            existing@,
            display_datetime(text::trim(existing@)),
            display_datetime(candidate@),
        ),
{
    candidate_replaces(
        existing,
        parse_display_datetime_or_date(trimmed(existing)),
        parse_display_datetime_or_date(candidate),
    )
}

} // verus!
