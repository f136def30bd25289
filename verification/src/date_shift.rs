//! Shifting the dates of files by days, hours, minutes and seconds, and the
//! date and time that GPS data give in UTC.
use crate::calendar;
use crate::datetime::{self, format_datetime, format_datetime_for_display, parse_date,
    parse_datetime, parse_display_datetime_or_date, parses_as_time, shift_moment, text_at_offset,
    Moment, DISPLAY_DATETIME_FORMAT};
use crate::media::{self, is_image_path, is_jpeg_path, is_mp4_path, is_png_path};
use crate::text::{self, are_digits, chars_of, decimal_text, digits_to_number, joined_text,
    trimmed, without_suffix};
use vstd::prelude::*;

verus! {

// How far dates are shifted.

/// The largest number of seconds that a shift can have.
pub const MAX_SHIFT_SECONDS: i64 = 9223372036854775;

/// The whole number that a part of a shift gives: nothing counts as zero, and a
/// sign may stand in front. None for what is no such number, or is negative.
pub open spec fn part_value(value: Seq<char>) -> Option<nat> {
    let t = text::trim(value);
    let signed = t.len() > 0 && (t[0] == '+' || t[0] == '-');
    let digits = if signed {
        t.skip(1)
    } else {
        t
    };
    if t.len() == 0 {
        Some(0)
    } else if digits.len() == 0 || !text::all_digits(digits) {
        None
    } else if t[0] == '-' {
        if text::digits_value(digits) == 0 {
            Some(0)
        } else {
            None
        }
    } else if text::digits_value(digits) <= i128::MAX {
        Some(text::digits_value(digits))
    } else {
        None
    }
}

fn parse_part(value: &str, label: &str) -> (r: Result<u128, String>)
    ensures
        match r {
            Ok(v) => part_value(value@) == Some(v as nat),
            Err(e) => part_value(value@) is None && e@ == label@
                + " must be a non-negative whole number."@,
        },
{
    let t = trimmed(value);
    let chars = chars_of(t);
    let n: usize = chars.len();
    if n == 0 {
        return Ok(0);
    }
    let first: char = chars[0];
    let from: usize = if first == '+' || first == '-' {
        1
    } else {
        0
    };
    let digits = &chars.as_slice()[from..n];
    proof {
        if from == 1 {
            assert(digits@ =~= text::trim(value@).skip(1));
        } else {
            assert(digits@ =~= text::trim(value@));
        }
    }
    let max: u128 = if first == '-' {
        0
    } else {
        i128::MAX as u128
    };
    if digits.len() > 0 && are_digits(digits) {
        match digits_to_number(digits, max) {
            Some(v) => {
                return Ok(v);
            },
            None => {},
        }
    }
    Err(joined_text(label, " must be a non-negative whole number."))
}

/// The seconds of a shift.
pub open spec fn total_seconds(days: nat, hours: nat, minutes: nat, seconds: nat) -> int {
    days as int * 86400 + hours as int * 3600 + minutes as int * 60 + seconds as int
}

/// The seconds that the parts of a shift come to, or what is wrong with them.
pub open spec fn shift_seconds(
    days: Seq<char>,
    hours: Seq<char>,
    minutes: Seq<char>,
    seconds: Seq<char>,
) -> Result<int, Seq<char>> {
    match (part_value(days), part_value(hours), part_value(minutes), part_value(seconds)) {
        (Some(d), Some(h), Some(m), Some(s)) => if total_seconds(d, h, m, s)
            <= MAX_SHIFT_SECONDS {
            Ok(total_seconds(d, h, m, s))
        } else {
            Err("The requested time shift is too large."@)
        },
        (None, _, _, _) => Err("Days"@ + " must be a non-negative whole number."@),
        (_, None, _, _) => Err("Hours"@ + " must be a non-negative whole number."@),
        (_, _, None, _) => Err("Minutes"@ + " must be a non-negative whole number."@),
        (_, _, _, None) => Err("Seconds"@ + " must be a non-negative whole number."@),
    }
}

pub fn parse_media_date_shift(days: &str, hours: &str, minutes: &str, seconds: &str) -> (r: Result<
    i64,
    String,
>)
    ensures
        match r {
            Ok(v) => shift_seconds(days@, hours@, minutes@, seconds@) == Ok::<int, Seq<char>>(
                v as int,
            ) && 0 <= v <= MAX_SHIFT_SECONDS,
            Err(e) => shift_seconds(days@, hours@, minutes@, seconds@) == Err::<int, Seq<char>>(
                e@,
            ),
        },
{
    let d: u128 = match parse_part(days, "Days") {
        Ok(v) => v,
        Err(e) => {
            return Err(e);
        },
    };
    let h: u128 = match parse_part(hours, "Hours") {
        Ok(v) => v,
        Err(e) => {
            return Err(e);
        },
    };
    let m: u128 = match parse_part(minutes, "Minutes") {
        Ok(v) => v,
        Err(e) => {
            return Err(e);
        },
    };
    let s: u128 = match parse_part(seconds, "Seconds") {
        Ok(v) => v,
        Err(e) => {
            return Err(e);
        },
    };
    let limit: u128 = MAX_SHIFT_SECONDS as u128;
    if d > limit || h > limit || m > limit || s > limit {
        return Err("The requested time shift is too large.".to_owned());
    }
    let total: u128 = d * 86400 + h * 3600 + m * 60 + s;
    if total > limit {
        return Err("The requested time shift is too large.".to_owned());
    }
    Ok(total as i64)
}

// Shifting.

/// A moment shifted by seconds, if it stays in the supported years.
pub open spec fn shifted(m: Moment, seconds: int) -> Option<Moment> {
    let target = datetime::shift_base(m, seconds) + seconds;
    if datetime::supported_timestamp(target) {
        Some(
            datetime::moment_of(
                target,
                if m.nano >= 1_000_000_000 && seconds != 0 {
                    (m.nano - 1_000_000_000) as u32
                } else {
                    m.nano
                },
            ),
        )
    } else {
        None
    }
}

/// The text of a date shifted forward or back.
pub open spec fn shifted_text(m: Option<Moment>, seconds: int, subtract: bool) -> Option<
    Seq<char>,
> {
    match m {
        Some(m) => match shifted(
            m,
            if subtract {
                -seconds
            } else {
                seconds
            },
        ) {
            Some(s) => Some(datetime::display_text(s)),
            None => None,
        },
        None => None,
    }
}

pub open spec fn text_view(t: Option<String>) -> Option<Seq<char>> {
    match t {
        Some(t) => Some(t@),
        None => None,
    }
}

/// Shifts a date that was read, if there is one.
pub fn shift_datetime(m: Option<Moment>, seconds: i64, subtract: bool) -> (r: Option<String>)
    requires
        m matches Some(x) ==> datetime::valid_moment(x),
        0 <= seconds <= MAX_SHIFT_SECONDS,
    ensures
        text_view(r) == shifted_text(m, seconds as int, subtract),
{
    match m {
        None => None,
        Some(m) => {
            let delta: i64 = if subtract {
                -seconds
            } else {
                seconds
            };
            match shift_moment(m, delta) {
                Some(s) => {
                    proof {
                        calendar::moment_is_at_its_second(s);
                    }
                    Some(format_datetime_for_display(s))
                },
                None => None,
            }
        },
    }
}

/// The text of a date that is written by the display pattern, shifted forward
/// or back.
pub fn shift_display_datetime(value: &str, seconds: i64, subtract: bool) -> (r: Option<String>)
    requires
        0 <= seconds <= MAX_SHIFT_SECONDS,
    ensures
        text_view(r) == shifted_text(
            datetime::display_datetime(text::trim(value@)),
            seconds as int,
            subtract,
        ),
        forall|m: Moment|
            datetime::plain(m) && text::trim(value@) == #[trigger] datetime::display_text(m)
                ==> text_view(r) == shifted_text(Some(m), seconds as int, subtract),
{
    shift_datetime(parse_display_datetime_or_date(trimmed(value)), seconds, subtract)
}

/// A shift forward and the same shift back lead to the date that they began
/// with, and so do a shift back and the same shift forward.
pub proof fn shifting_back_undoes_a_shift(m: Moment, seconds: int)
    requires
        datetime::valid_moment(m),
        m.nano < 1_000_000_000,
        shifted(m, seconds) is Some,
    ensures
        datetime::valid_moment(shifted(m, seconds)->0),
        shifted(shifted(m, seconds)->0, -seconds) == Some(m),
{
    calendar::every_second_has_a_moment(datetime::timestamp(m) + seconds, m.nano);
    calendar::moments_are_supported(m);
    calendar::moment_is_at_its_second(m);
}

// The dates that are shifted.

/// The date of a file that is to be shifted: one that waits to be saved, or the
/// date that a scan of a movie or of a PNG image finds, or the one on which a JPEG
/// image was taken.
pub open spec fn date_to_shift(
    waiting: Option<Seq<char>>,
    name: Seq<char>,
    scanned: Seq<char>,
    taken: Seq<char>,
) -> Seq<char> {
    match waiting {
        Some(date) => date,
        None => if media::mp4_name(name) || media::png_name(name) {
            scanned
        } else if media::jpeg_name(name) {
            taken
        } else {
            ""@
        },
    }
}

pub fn media_date_for_shift(waiting: Option<&str>, name: &str, scanned: &str, taken: &str) -> (r:
    String)
    ensures
        r@ == date_to_shift(
            match waiting {
                Some(date) => Some(date@),
                None => None,
            },
            name@,
            scanned@,
            taken@,
        ),
{
    match waiting {
        Some(date) => date.to_owned(),
        None => if is_mp4_path(name) || is_png_path(name) {
            scanned.to_owned()
        } else if is_jpeg_path(name) {
            taken.to_owned()
        } else {
            "".to_owned()
        },
    }
}

// Previews of a shift.

/// A file whose date is to be shifted: its name, and the date that it has.
#[derive(Debug)]
pub struct ShiftFile {
    pub name: Option<String>,
    pub date: String,
}

/// What a file is called in a preview.
pub open spec fn preview_name(name: Option<String>) -> Seq<char> {
    match name {
        Some(n) => n@,
        None => "(unknown)"@,
    }
}

/// Whether a file's name tells a kind whose date can be shifted.
pub open spec fn can_shift(name: Option<String>) -> bool {
    name matches Some(n) && (media::image_name(n@) || media::mp4_name(n@))
}

/// The shifted date of a file.
pub open spec fn media_shift(file: ShiftFile, seconds: int, subtract: bool) -> Option<Seq<char>> {
    if can_shift(file.name) {
        shifted_text(
            datetime::display_datetime(text::trim(file.date@)),
            seconds,
            subtract,
        )
    } else {
        None
    }
}

/// The date and time of a file's GPS data, where it is a JPEG file that has both.
pub open spec fn gps_shift(file: GpsShiftFile, seconds: int, subtract: bool) -> Option<Seq<char>> {
    match gps_date_time(file.name, file.date@, file.time@) {
        Some(value) => shifted_text(
            datetime::display_datetime(text::trim(value)),
            seconds,
            subtract,
        ),
        None => None,
    }
}

/// A file whose GPS date and time are to be shifted.
#[derive(Debug)]
pub struct GpsShiftFile {
    pub name: Option<String>,
    pub date: String,
    pub time: String,
}

/// The lines of a preview: one for each of the first three files that can be
/// shifted, given the results and the lines of all files.
pub open spec fn preview_lines(shifts: Seq<bool>, lines: Seq<Seq<char>>, n: int) -> Seq<Seq<char>>
    decreases n,
{
    if n <= 0 {
        Seq::empty()
    } else {
        let before = preview_lines(shifts, lines, n - 1);
        if shifts[n - 1] && before.len() < 3 {
            before.push(lines[n - 1])
        } else {
            before
        }
    }
}

/// How many of the first files can be shifted.
pub open spec fn ready_count(shifts: Seq<bool>, n: int) -> int
    decreases n,
{
    if n <= 0 {
        0
    } else {
        ready_count(shifts, n - 1) + if shifts[n - 1] {
            1int
        } else {
            0
        }
    }
}

/// Lines with a line break between them.
pub open spec fn joined_lines(lines: Seq<Seq<char>>) -> Seq<char>
    decreases lines.len(),
{
    if lines.len() == 0 {
        Seq::empty()
    } else if lines.len() == 1 {
        lines[0]
    } else {
        joined_lines(lines.drop_last()) + seq!['\n'] + lines.last()
    }
}

/// The preview of a shift of some files.
pub open spec fn preview(shifts: Seq<bool>, lines: Seq<Seq<char>>, nothing: Seq<char>) -> Seq<char> {
    let n = shifts.len() as int;
    let shown = preview_lines(shifts, lines, n);
    let ready = ready_count(shifts, n);
    if shown.len() == 0 {
        nothing + text::decimal((n - ready) as nat)
    } else {
        joined_lines(
            shown.push(
                "Ready: "@ + text::decimal(ready as nat) + " file(s)   Skipped: "@ + text::decimal(
                    (n - ready) as nat,
                ),
            ),
        )
    }
}

pub open spec fn media_shifts(files: Seq<ShiftFile>, seconds: int, subtract: bool) -> Seq<bool> {
    Seq::new(files.len(), |i: int| media_shift(files[i], seconds, subtract) is Some)
}

/// The lines that show what becomes of the dates.
pub open spec fn media_lines(files: Seq<ShiftFile>, seconds: int, subtract: bool) -> Seq<
    Seq<char>,
> {
    Seq::new(
        files.len(),
        |i: int|
            preview_name(files[i].name) + ": "@ + files[i].date@ + "  ->  "@ + media_shift(
                files[i],
                seconds,
                subtract,
            )->0,
    )
}

pub open spec fn gps_shifts(files: Seq<GpsShiftFile>, seconds: int, subtract: bool) -> Seq<bool> {
    Seq::new(files.len(), |i: int| gps_shift(files[i], seconds, subtract) is Some)
}

pub open spec fn gps_lines(files: Seq<GpsShiftFile>, seconds: int, subtract: bool) -> Seq<
    Seq<char>,
> {
    Seq::new(
        files.len(),
        |i: int|
            preview_name(files[i].name) + ": "@ + gps_date_time(
                files[i].name,
                files[i].date@,
                files[i].time@,
            )->0 + " UTC  ->  "@ + gps_shift(files[i], seconds, subtract)->0 + " UTC"@,
    )
}

fn name_in_preview(name: &Option<String>) -> (r: String)
    ensures
        r@ == preview_name(*name),
{
    match name {
        Some(n) => n.clone(),
        None => "(unknown)".to_owned(),
    }
}

pub(crate) fn shift_media_file(file: &ShiftFile, seconds: i64, subtract: bool) -> (r: Option<String>)
    requires
        0 <= seconds <= MAX_SHIFT_SECONDS,
    ensures
        text_view(r) == media_shift(*file, seconds as int, subtract),
{
    match &file.name {
        None => None,
        Some(n) => {
            if is_image_path(n.as_str()) || is_mp4_path(n.as_str()) {
                shift_display_datetime(file.date.as_str(), seconds, subtract)
            } else {
                None
            }
        },
    }
}

pub(crate) fn shift_gps_file(file: &GpsShiftFile, seconds: i64, subtract: bool) -> (r: Option<
    (String, String),
>)
    requires
        0 <= seconds <= MAX_SHIFT_SECONDS,
    ensures
        match r {
            Some((from, to)) => gps_date_time(file.name, file.date@, file.time@) == Some(from@)
                && gps_shift(*file, seconds as int, subtract) == Some(to@),
            None => gps_shift(*file, seconds as int, subtract) is None,
        },
{
    match gps_date_time_for_shift(&file.name, file.date.as_str(), file.time.as_str()) {
        None => None,
        Some(value) => match shift_display_datetime(value.as_str(), seconds, subtract) {
            Some(to) => Some((value, to)),
            None => None,
        },
    }
}

/// The end of a preview, behind the lines that were collected.
fn finish_preview(shown: String, count: usize, ready: usize, skipped: usize, nothing: &str) -> (r: String)
    ensures
        r@ == if count == 0 {
            nothing@ + text::decimal(skipped as nat)
        } else {
            shown@ + seq!['\n'] + ("Ready: "@ + text::decimal(ready as nat)
                + " file(s)   Skipped: "@ + text::decimal(skipped as nat))
        },
{
    if count == 0 {
        let mut out = nothing.to_owned();
        out.append(decimal_text(skipped as u64).as_str());
        return out;
    }
    let mut last = "Ready: ".to_owned();
    last.append(decimal_text(ready as u64).as_str());
    last.append(" file(s)   Skipped: ");
    last.append(decimal_text(skipped as u64).as_str());
    let mut out = shown;
    out.push('\n');
    out.append(last.as_str());
    assert(out@ =~= shown@ + seq!['\n'] + last@);
    out
}

fn add_line(shown: &mut String, count: usize, line: &str, Ghost(lines): Ghost<Seq<Seq<char>>>)
    requires
        old(shown)@ == joined_lines(lines),
        count == lines.len(),
    ensures
        final(shown)@ == joined_lines(lines.push(line@)),
{
    let ghost more = lines.push(line@);
    assert(more.drop_last() =~= lines);
    assert(more.last() == line@);
    if count > 0 {
        shown.push('\n');
        shown.append(line);
        assert(shown@ =~= joined_lines(lines) + seq!['\n'] + line@);
    } else {
        shown.append(line);
        assert(joined_lines(lines) =~= Seq::<char>::empty());
        assert(shown@ =~= line@);
    }
}

proof fn lemma_preview(shifts: Seq<bool>, lines: Seq<Seq<char>>, last: Seq<char>)
    ensures
        preview_lines(shifts, lines, shifts.len() as int).len() > 0 ==> joined_lines(
            preview_lines(shifts, lines, shifts.len() as int).push(last),
        ) == joined_lines(preview_lines(shifts, lines, shifts.len() as int)) + seq!['\n'] + last,
{
    let shown = preview_lines(shifts, lines, shifts.len() as int);
    assert(shown.push(last).drop_last() =~= shown);
}

/// The preview of a shift of dates.
pub fn build_shift_media_date_preview(
    files: &[ShiftFile],
    days: &str,
    hours: &str,
    minutes: &str,
    seconds: &str,
    subtract: bool,
) -> (r: String)
    ensures
        r@ == match shift_seconds(days@, hours@, minutes@, seconds@) {
            Ok(s) => preview(
                media_shifts(files@, s, subtract),
                media_lines(files@, s, subtract),
                "No usable Media Date found.  Skipped: "@,
            ),
            Err(e) => e,
        },
{
    let shift: i64 = match parse_media_date_shift(days, hours, minutes, seconds) {
        Ok(v) => v,
        Err(e) => {
            return e;
        },
    };
    let ghost shifts = media_shifts(files@, shift as int, subtract);
    let ghost lines = media_lines(files@, shift as int, subtract);
    let n: usize = files.len();
    let mut shown = String::new();
    let mut count: usize = 0;
    let mut ready: usize = 0;
    let mut i: usize = 0;
    assert(shown@ =~= joined_lines(preview_lines(shifts, lines, 0)));
    while i < n
        invariant
            i <= n,
            n == files@.len(),
            0 <= shift <= MAX_SHIFT_SECONDS,
            shifts == media_shifts(files@, shift as int, subtract),
            lines == media_lines(files@, shift as int, subtract),
            ready <= i,
            ready == ready_count(shifts, i as int),
            count == preview_lines(shifts, lines, i as int).len(),
            shown@ == joined_lines(preview_lines(shifts, lines, i as int)),
        decreases n - i,
    {
        match shift_media_file(&files[i], shift, subtract) {
            None => {},
            Some(to) => {
                ready += 1;
                if count < 3 {
                    let mut line = name_in_preview(&files[i].name);
                    line.append(": ");
                    line.append(files[i].date.as_str());
                    line.append("  ->  ");
                    line.append(to.as_str());
                    assert(line@ == lines[i as int]);
                    add_line(
                        &mut shown,
                        count,
                        line.as_str(),
                        Ghost(preview_lines(shifts, lines, i as int)),
                    );
                    count += 1;
                }
            },
        }
        i += 1;
    }
    proof {
        lemma_preview(
            shifts,
            lines,
            "Ready: "@ + text::decimal(ready as nat) + " file(s)   Skipped: "@ + text::decimal(
                (n - ready) as nat,
            ),
        );
    }
    finish_preview(shown, count, ready, n - ready, "No usable Media Date found.  Skipped: ")
}

/// The preview of a shift of GPS dates and times.
pub fn build_shift_gps_date_time_preview(
    files: &[GpsShiftFile],
    days: &str,
    hours: &str,
    minutes: &str,
    seconds: &str,
    subtract: bool,
) -> (r: String)
    ensures
        r@ == match shift_seconds(days@, hours@, minutes@, seconds@) {
            Ok(s) => preview(
                gps_shifts(files@, s, subtract),
                gps_lines(files@, s, subtract),
                "No JPEG with both GPS Date Stamp and GPS Time Stamp.  Skipped: "@,
            ),
            Err(e) => e,
        },
{
    let shift: i64 = match parse_media_date_shift(days, hours, minutes, seconds) {
        Ok(v) => v,
        Err(e) => {
            return e;
        },
    };
    let ghost shifts = gps_shifts(files@, shift as int, subtract);
    let ghost lines = gps_lines(files@, shift as int, subtract);
    let n: usize = files.len();
    let mut shown = String::new();
    let mut count: usize = 0;
    let mut ready: usize = 0;
    let mut i: usize = 0;
    assert(shown@ =~= joined_lines(preview_lines(shifts, lines, 0)));
    while i < n
        invariant
            i <= n,
            n == files@.len(),
            0 <= shift <= MAX_SHIFT_SECONDS,
            shifts == gps_shifts(files@, shift as int, subtract),
            lines == gps_lines(files@, shift as int, subtract),
            ready <= i,
            ready == ready_count(shifts, i as int),
            count == preview_lines(shifts, lines, i as int).len(),
            shown@ == joined_lines(preview_lines(shifts, lines, i as int)),
        decreases n - i,
    {
        match shift_gps_file(&files[i], shift, subtract) {
            None => {},
            Some((from, to)) => {
                ready += 1;
                if count < 3 {
                    let mut line = name_in_preview(&files[i].name);
                    line.append(": ");
                    line.append(from.as_str());
                    line.append(" UTC  ->  ");
                    line.append(to.as_str());
                    line.append(" UTC");
                    assert(line@ == lines[i as int]);
                    add_line(
                        &mut shown,
                        count,
                        line.as_str(),
                        Ghost(preview_lines(shifts, lines, i as int)),
                    );
                    count += 1;
                }
            },
        }
        i += 1;
    }
    proof {
        lemma_preview(
            shifts,
            lines,
            "Ready: "@ + text::decimal(ready as nat) + " file(s)   Skipped: "@ + text::decimal(
                (n - ready) as nat,
            ),
        );
    }
    finish_preview(
        shown,
        count,
        ready,
        n - ready,
        "No JPEG with both GPS Date Stamp and GPS Time Stamp.  Skipped: ",
    )
}

// Dates and times of GPS data.

/// A time without the letters that say it is in UTC.
pub open spec fn plain_time(time: Seq<char>) -> Seq<char> {
    text::trim(text::trim_suffix(text::trim(time), "UTC"@))
}

fn strip_zone(time: &str) -> (r: &str)
    ensures
        r@ == plain_time(time@),
{
    trimmed(without_suffix(trimmed(time), "UTC"))
}

/// A date and a time in one text.
pub open spec fn combined(date: Seq<char>, time: Seq<char>) -> Seq<char> {
    let d = text::trim(date);
    let t = plain_time(time);
    if d.len() > 0 && t.len() > 0 {
        d + " "@ + t
    } else if d.len() > 0 {
        d + " (date only)"@
    } else if t.len() > 0 {
        t + " (time only)"@
    } else {
        ""@
    }
}

pub fn combined_gps_date_time(date: &str, time: &str) -> (r: String)
    ensures
        r@ == combined(date@, time@),
{
    let d = trimmed(date);
    let t = strip_zone(time);
    if d.unicode_len() > 0 {
        if t.unicode_len() > 0 {
            let mut out = joined_text(d, " ");
            out.append(t);
            out
        } else {
            joined_text(d, " (date only)")
        }
    } else if t.unicode_len() > 0 {
        joined_text(t, " (time only)")
    } else {
        "".to_owned()
    }
}

/// The date and time that GPS data give, where both are there and make a date.
pub open spec fn gps_date_time(name: Option<String>, date: Seq<char>, time: Seq<char>) -> Option<
    Seq<char>,
> {
    let value = text::trim(date) + " "@ + plain_time(time);
    if (name matches Some(n) && media::jpeg_name(n@)) && date.len() > 0 && time.len() > 0
        && datetime::display_datetime(value) is Some {
        Some(value)
    } else {
        None
    }
}

/// The date and time of a file that can be shifted; `date` and `time` are those
/// that are staged for it, or else those that it has.
pub fn gps_date_time_for_shift(name: &Option<String>, date: &str, time: &str) -> (r: Option<String>)
    ensures
        text_view(r) == gps_date_time(*name, date@, time@),
{
    let jpeg = match name {
        Some(n) => is_jpeg_path(n.as_str()),
        None => false,
    };
    if !jpeg || date.unicode_len() == 0 || time.unicode_len() == 0 {
        return None;
    }
    let mut value = joined_text(trimmed(date), " ");
    value.append(strip_zone(time));
    match parse_display_datetime_or_date(value.as_str()) {
        Some(_) => Some(value),
        None => None,
    }
}

/// What is read of a text that holds a date and a time of GPS data: without the
/// zone, and without the words that say that only one of them is there.
pub open spec fn gps_value(value: Seq<char>) -> Seq<char> {
    text::trim(
        text::trim_suffix(
            text::trim_suffix(plain_time(value), "(date only)"@),
            "(time only)"@,
        ),
    )
}

/// The date and the time of a text.
pub open spec fn split_value(
    value: Seq<char>,
    moment: Option<Moment>,
    date: Option<(i32, u32, u32)>,
    is_time: bool,
) -> Result<(Option<Seq<char>>, Option<Seq<char>>), Seq<char>> {
    match (moment, date) {
        (Some(m), _) => Ok(
            (
                Some(datetime::date_text(m.year as int, m.month as int, m.day as int, seq!['-'])),
                Some(datetime::time_text(m, seq![':'])),
            ),
        ),
        (None, Some((y, m, d))) => Ok(
            (Some(datetime::date_text(y as int, m as int, d as int, seq!['-'])), None),
        ),
        (None, None) => if is_time {
            Ok((None, Some(value)))
        } else {
            Err("Expected GPS UTC format: YYYY-MM-DD HH:MM:SS, YYYY-MM-DD, or HH:MM:SS"@)
        },
    }
}

pub open spec fn split_view(r: Result<(Option<String>, Option<String>), String>) -> Result<
    (Option<Seq<char>>, Option<Seq<char>>),
    Seq<char>,
> {
    match r {
        Ok((d, t)) => Ok((text_view(d), text_view(t))),
        Err(e) => Err(e@),
    }
}

/// The date and the time of a text, given what was read from it.
pub fn split_gps_date_time(
    value: &str,
    moment: Option<Moment>,
    date: Option<(i32, u32, u32)>,
    is_time: bool,
) -> (r: Result<(Option<String>, Option<String>), String>)
    requires
        moment matches Some(m) ==> datetime::valid_moment(m),
        date matches Some((y, m, d)) ==> datetime::valid_date(y as int, m as int, d as int),
    ensures
        split_view(r) == split_value(value@, moment, date, is_time),
{
    match moment {
        Some(m) => {
            return Ok(
                (Some(format_datetime(m, "%Y-%m-%d")), Some(format_datetime(m, "%H:%M:%S"))),
            );
        },
        None => {},
    }
    match date {
        Some((year, month, day)) => {
            let m = Moment { year, month, day, hour: 0, minute: 0, second: 0, nano: 0 };
            return Ok((Some(format_datetime(m, "%Y-%m-%d")), None));
        },
        None => {},
    }
    if is_time {
        return Ok((None, Some(value.to_owned())));
    }
    Err("Expected GPS UTC format: YYYY-MM-DD HH:MM:SS, YYYY-MM-DD, or HH:MM:SS".to_owned())
}

/// What the date and the time in a text are.
pub open spec fn parsed_gps(value: Seq<char>) -> Result<
    (Option<Seq<char>>, Option<Seq<char>>),
    Seq<char>,
> {
    let v = gps_value(value);
    split_value(
        v,
        datetime::parsed_datetime(v, DISPLAY_DATETIME_FORMAT@),
        datetime::parsed_date(v, "%Y-%m-%d"@),
        datetime::parsed_time(v, "%H:%M:%S"@),
    )
}

pub fn parse_combined_gps_date_time(value: &str) -> (r: Result<
    (Option<String>, Option<String>),
    String,
>)
    ensures
        split_view(r) == parsed_gps(value@),
{
    let v = trimmed(without_suffix(without_suffix(strip_zone(value), "(date only)"), "(time only)"));
    split_gps_date_time(
        v,
        parse_datetime(v, DISPLAY_DATETIME_FORMAT),
        parse_date(v, "%Y-%m-%d"),
        parses_as_time(v, "%H:%M:%S"),
    )
}

/// The text of a moment in UTC nine hours ahead.
pub fn moment_in_korean_time(m: Moment) -> (r: String)
    requires
        datetime::valid_moment(m),
    ensures
        r@ == datetime::offset_text(m, 540),
        datetime::supported_timestamp(datetime::timestamp(m) + 32400) ==> r@
            == datetime::display_text(
            datetime::moment_of(datetime::timestamp(m) + 32400, m.nano),
        ),
{
    text_at_offset(m, 540)
}

/// The date and time of GPS data in Korean time, where both are there.
pub fn gps_utc_to_kst_display(date: &str, time: &str) -> (r: Option<String>)
    ensures
        text_view(r) == match datetime::parsed_datetime(
            combined(date@, time@),
            DISPLAY_DATETIME_FORMAT@,
        ) {
            Some(m) => Some(datetime::offset_text(m, 540)),
            None => None,
        },
{
    let value = combined_gps_date_time(date, time);
    match parse_datetime(value.as_str(), DISPLAY_DATETIME_FORMAT) {
        Some(m) => Some(moment_in_korean_time(m)),
        None => None,
    }
}

} // verus!
