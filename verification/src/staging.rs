//! Changes of many files that are put together first and saved later.
use crate::date_shift::{self, combined_gps_date_time, gps_utc_to_kst_display,
    parse_combined_gps_date_time, parse_media_date_shift, shift_gps_file, shift_media_file,
    GpsShiftFile, ShiftFile, MAX_SHIFT_SECONDS};
use crate::datetime::{self, should_apply_taken_date_candidate, DISPLAY_DATETIME_FORMAT};
use crate::details_form::{DetailsForm, FormModel, GPS_DATE_STAMP, GPS_DATE_TIME, GPS_TIME_STAMP,
    TAKEN_DATE};
use crate::media::{self, is_jpeg_path, is_mp4_path, is_png_path};
use crate::notices::{self, notice, sentence, sentence_of_two, Notice};
use crate::text::{self, chars_of, find_char, same_text, text_of};
use vstd::prelude::*;

verus! {

// What many files get.

/// The values that files get, as texts.
pub open spec fn text_options(values: Seq<Option<String>>) -> Seq<Option<Seq<char>>> {
    Seq::new(values.len(), |i: int| date_shift::text_view(values[i]))
}

/// How many of the first files get a value.
pub open spec fn staged_count<T>(values: Seq<Option<T>>, n: int) -> int
    decreases n,
{
    if n <= 0 {
        0
    } else {
        staged_count(values, n - 1) + if values[n - 1] is Some {
            1int
        } else {
            0
        }
    }
}

/// The last value that one of the first files gets.
pub open spec fn last_staged<T>(values: Seq<Option<T>>, n: int) -> Option<T>
    decreases n,
{
    if n <= 0 {
        None
    } else {
        match values[n - 1] {
            Some(v) => Some(v),
            None => last_staged(values, n - 1),
        }
    }
}

proof fn lemma_staged<T>(values: Seq<Option<T>>, n: int)
    requires
        0 <= n <= values.len(),
    ensures
        0 <= staged_count(values, n) <= n,
        staged_count(values, n) > 0 <==> last_staged(values, n) is Some,
    decreases n,
{
    if n > 0 {
        lemma_staged(values, n - 1);
    }
}

pub(crate) fn count_staged(values: &Vec<Option<String>>) -> (r: usize)
    ensures
        r == staged_count(text_options(values@), values@.len() as int),
        r <= values@.len(),
{
    let n: usize = values.len();
    let mut count: usize = 0;
    let mut i: usize = 0;
    while i < n
        invariant
            i <= n,
            n == values@.len(),
            count <= i,
            count == staged_count(text_options(values@), i as int),
        decreases n - i,
    {
        if values[i].is_some() {
            count += 1;
        }
        i += 1;
    }
    count
}

pub(crate) fn find_last_staged(values: &Vec<Option<String>>) -> (r: Option<String>)
    ensures
        date_shift::text_view(r) == last_staged(text_options(values@), values@.len() as int),
{
    let ghost options = text_options(values@);
    let n: usize = values.len();
    let mut i: usize = n;
    while i > 0
        invariant
            i <= n,
            n == values@.len(),
            options == text_options(values@),
            last_staged(options, i as int) == last_staged(options, n as int),
        decreases i,
    {
        match &values[i - 1] {
            Some(v) => {
                return Some(v.clone());
            },
            None => {},
        }
        i -= 1;
    }
    None
}

/// The form after files got media dates: the only date is shown, several are
/// not.
pub open spec fn dates_staged(f: FormModel, dates: Seq<Option<Seq<char>>>, is_png: bool) -> FormModel {
    let shown = match last_staged(dates, dates.len() as int) {
        Some(d) if staged_count(dates, dates.len() as int) == 1 => f.with_staged_date(
            d,
            is_png,
        ).with_status(TAKEN_DATE, "Modified"@),
        _ => several_dates_staged(f),
    };
    FormModel { metadata_dirty: true, ..shown.with_dirty(TAKEN_DATE, true) }
}

pub open spec fn several_dates_staged(f: FormModel) -> FormModel {
    f.with_value(TAKEN_DATE, ""@).with_status(TAKEN_DATE, "Mixed"@)
}

/// Shows the media dates that files get.
pub fn stage_dates(form: &mut DetailsForm, dates: &Vec<Option<String>>, media_kind: &str)
    requires
        old(form)@.well_formed(),
    ensures
        final(form)@ == dates_staged(old(form)@, text_options(dates@), media_kind@ == "png"@),
        final(form)@.well_formed(),
{
    let is_png = same_text(media_kind, "png");
    let count: usize = count_staged(dates);
    match find_last_staged(dates) {
        Some(d) if count == 1 => {
            form.stage_taken_date(d.as_str(), is_png);
            form.set_status(TAKEN_DATE, "Modified");
        },
        _ => {
            form.set_value(TAKEN_DATE, "");
            form.set_status(TAKEN_DATE, "Mixed");
        },
    }
    form.set_dirty(TAKEN_DATE, true);
    form.metadata_dirty = true;
}

/// A report on changes that wait to be saved.
pub open spec fn staged_report(before: Seq<char>, n: int, after: Seq<char>, skipped: int) -> Seq<char> {
    if skipped == 0 {
        notices::with_number(before, n, after + ". Ctrl+S to save."@)
    } else {
        notices::with_numbers(before, n, after + "; skipped "@, skipped, ". Ctrl+S to save."@)
    }
}

fn report_staged(before: &str, n: usize, after: &str, skipped: usize) -> (r: String)
    ensures
        r@ == staged_report(before@, n as int, after@, skipped as int),
{
    let mut tail = after.to_owned();
    if skipped == 0 {
        tail.append(". Ctrl+S to save.");
        sentence(before, n, tail.as_str())
    } else {
        tail.append("; skipped ");
        sentence_of_two(before, n, tail.as_str(), skipped, ". Ctrl+S to save.")
    }
}

// Shifting media dates.

/// The shifted dates of files.
pub open spec fn shifted_dates(files: Seq<ShiftFile>, seconds: int, subtract: bool) -> Seq<
    Option<Seq<char>>,
> {
    Seq::new(files.len(), |i: int| date_shift::media_shift(files[i], seconds, subtract))
}

/// Why a shift cannot be made, or the seconds that it takes.
pub open spec fn shift_wanted(days: Seq<char>, hours: Seq<char>, minutes: Seq<char>, seconds: Seq<char>) -> Result<
    int,
    Seq<char>,
> {
    match date_shift::shift_seconds(days, hours, minutes, seconds) {
        Ok(v) => if v == 0 {
            Err("Enter a non-zero time shift."@)
        } else {
            Ok(v)
        },
        Err(e) => Err(e),
    }
}

fn read_shift(days: &str, hours: &str, minutes: &str, seconds: &str) -> (r: Result<i64, String>)
    ensures
        match r {
            Ok(v) => shift_wanted(days@, hours@, minutes@, seconds@) == Ok::<int, Seq<char>>(
                v as int,
            ) && 0 <= v <= MAX_SHIFT_SECONDS,
            Err(e) => shift_wanted(days@, hours@, minutes@, seconds@) == Err::<int, Seq<char>>(e@),
        },
{
    match parse_media_date_shift(days, hours, minutes, seconds) {
        Ok(v) => if v == 0 {
            Err("Enter a non-zero time shift.".to_owned())
        } else {
            Ok(v)
        },
        Err(e) => Err(e),
    }
}

/// A shift as it was entered.
#[derive(Debug)]
pub struct EnteredShift {
    pub days: String,
    pub hours: String,
    pub minutes: String,
    pub seconds: String,
    pub subtract: bool,
}

pub open spec fn entered_seconds(shift: EnteredShift) -> Result<int, Seq<char>> {
    shift_wanted(shift.days@, shift.hours@, shift.minutes@, shift.seconds@)
}

/// The outcome of a shift of media dates: the dates and the report, or a
/// complaint.
pub open spec fn media_shift_result(files: Seq<ShiftFile>, shift: EnteredShift) -> Result<
    (Seq<Option<Seq<char>>>, Seq<char>),
    Seq<char>,
> {
    match entered_seconds(shift) {
        Err(e) => Err(e),
        Ok(v) => {
            let dates = shifted_dates(files, v, shift.subtract);
            let count = staged_count(dates, dates.len() as int);
            if count == 0 {
                Err("No selected file has a usable Media Date."@)
            } else {
                Ok((dates, staged_report("Shifted "@, count, " date(s)"@, files.len() - count)))
            }
        },
    }
}

pub open spec fn dates_view(r: Result<(Vec<Option<String>>, String), String>) -> Result<
    (Seq<Option<Seq<char>>>, Seq<char>),
    Seq<char>,
> {
    match r {
        Ok((v, t)) => Ok((text_options(v@), t@)),
        Err(e) => Err(e@),
    }
}

/// Shifts the media dates of files.
pub fn apply_shift_media_date(
    form: &mut DetailsForm,
    files: &[ShiftFile],
    shift: &EnteredShift,
    media_kind: &str,
) -> (r: Result<(Vec<Option<String>>, String), String>)
    requires
        old(form)@.well_formed(),
    ensures
        dates_view(r) == media_shift_result(files@, *shift),
        match r {
            Ok((v, _)) => final(form)@ == dates_staged(
                old(form)@,
                text_options(v@),
                media_kind@ == "png"@,
            ),
            Err(_) => *final(form) == *old(form),
        },
        final(form)@.well_formed(),
{
    let seconds: i64 = match read_shift(
        shift.days.as_str(),
        shift.hours.as_str(),
        shift.minutes.as_str(),
        shift.seconds.as_str(),
    ) {
        Ok(v) => v,
        Err(e) => {
            return Err(e);
        },
    };
    let n: usize = files.len();
    let ghost wanted = shifted_dates(files@, seconds as int, shift.subtract);
    let mut dates: Vec<Option<String>> = Vec::new();
    let mut i: usize = 0;
    while i < n
        invariant
            i <= n,
            n == files@.len(),
            0 <= seconds <= MAX_SHIFT_SECONDS,
            wanted == shifted_dates(files@, seconds as int, shift.subtract),
            dates@.len() == i,
            forall|k: int|
                0 <= k < i ==> date_shift::text_view(#[trigger] dates@[k]) == wanted[k],
        decreases n - i,
    {
        dates.push(shift_media_file(&files[i], seconds, shift.subtract));
        i += 1;
    }
    assert(text_options(dates@) =~= wanted);
    let count: usize = count_staged(&dates);
    if count == 0 {
        return Err("No selected file has a usable Media Date.".to_owned());
    }
    stage_dates(form, &dates, media_kind);
    let report = report_staged("Shifted ", count, " date(s)", n - count);
    Ok((dates, report))
}

// Shifting dates and times of GPS data.

/// A text cut at its first space.
pub open spec fn cut_at_space(value: Seq<char>) -> Option<(Seq<char>, Seq<char>)> {
    match text::first_char(value, ' ', 0) {
        Some(i) => Some((value.take(i), value.skip(i + 1))),
        None => None,
    }
}

fn split_at_space(value: &str) -> (r: Option<(String, String)>)
    ensures
        pair_view(r) == cut_at_space(value@),
{
    let chars = chars_of(value);
    match find_char(chars.as_slice(), ' ') {
        Some(i) => {
            let n: usize = chars.len();
            let date = text_of(&chars.as_slice()[0..i]);
            let time = text_of(&chars.as_slice()[i + 1..n]);
            proof {
                assert(value@.subrange(0, i as int) =~= value@.take(i as int));
                assert(value@.subrange(i + 1, n as int) =~= value@.skip(i + 1));
            }
            Some((date, time))
        },
        None => None,
    }
}

pub open spec fn pair_view(r: Option<(String, String)>) -> Option<(Seq<char>, Seq<char>)> {
    match r {
        Some((d, t)) => Some((d@, t@)),
        None => None,
    }
}

pub open spec fn pair_options(values: Seq<Option<(String, String)>>) -> Seq<
    Option<(Seq<char>, Seq<char>)>,
> {
    Seq::new(values.len(), |i: int| pair_view(values[i]))
}

/// The shifted date and time of a file's GPS data.
pub open spec fn shifted_pair(file: GpsShiftFile, seconds: int, subtract: bool) -> Option<
    (Seq<char>, Seq<char>),
> {
    match date_shift::gps_shift(file, seconds, subtract) {
        Some(v) => cut_at_space(v),
        None => None,
    }
}

pub open spec fn shifted_pairs(files: Seq<GpsShiftFile>, seconds: int, subtract: bool) -> Seq<
    Option<(Seq<char>, Seq<char>)>,
> {
    Seq::new(files.len(), |i: int| shifted_pair(files[i], seconds, subtract))
}

pub open spec fn gps_shift_result(files: Seq<GpsShiftFile>, shift: EnteredShift) -> Result<
    (Seq<Option<(Seq<char>, Seq<char>)>>, Seq<char>),
    Seq<char>,
> {
    match entered_seconds(shift) {
        Err(e) => Err(e),
        Ok(v) => {
            let pairs = shifted_pairs(files, v, shift.subtract);
            let count = staged_count(pairs, pairs.len() as int);
            if count == 0 {
                Err("No selected JPEG has both GPS Date Stamp and GPS Time Stamp."@)
            } else {
                Ok(
                    (
                        pairs,
                        staged_report(
                            "Shifted GPS date/time for "@,
                            count,
                            " file(s)"@,
                            files.len() - count,
                        ),
                    ),
                )
            }
        },
    }
}

pub open spec fn pairs_view(r: Result<(Vec<Option<(String, String)>>, String), String>) -> Result<
    (Seq<Option<(Seq<char>, Seq<char>)>>, Seq<char>),
    Seq<char>,
> {
    match r {
        Ok((v, t)) => Ok((pair_options(v@), t@)),
        Err(e) => Err(e@),
    }
}

/// Texts, a status and marks for the three GPS fields.
pub open spec fn gps_shown(
    f: FormModel,
    date: Seq<char>,
    time: Seq<char>,
    both: Seq<char>,
    status: Seq<char>,
) -> FormModel {
    f.with_value(GPS_DATE_STAMP, date).with_value(GPS_TIME_STAMP, time).with_value(
        GPS_DATE_TIME,
        both,
    ).with_status(GPS_DATE_STAMP, status).with_status(GPS_TIME_STAMP, status).with_status(
        GPS_DATE_TIME,
        status,
    )
}

/// The form after the GPS data of files were shifted.
pub open spec fn pairs_staged(f: FormModel, pairs: Seq<Option<(Seq<char>, Seq<char>)>>) -> FormModel {
    let shown = match last_staged(pairs, pairs.len() as int) {
        Some((d, t)) if staged_count(pairs, pairs.len() as int) == 1 => gps_shown(
            f,
            d,
            t,
            date_shift::combined(d, t),
            "Modified"@,
        ).with_dirty(GPS_DATE_STAMP, true).with_dirty(GPS_TIME_STAMP, true).with_dirty(
            GPS_DATE_TIME,
            true,
        ),
        _ => gps_shown(f, ""@, ""@, ""@, "Mixed"@),
    };
    FormModel { metadata_dirty: true, ..shown }
}

fn show_gps(form: &mut DetailsForm, date: &str, time: &str, both: &str, status: &str)
    requires
        old(form)@.well_formed(),
    ensures
        final(form)@ == gps_shown(old(form)@, date@, time@, both@, status@),
        final(form)@.well_formed(),
{
    form.set_value(GPS_DATE_STAMP, date);
    form.set_value(GPS_TIME_STAMP, time);
    form.set_value(GPS_DATE_TIME, both);
    form.set_status(GPS_DATE_STAMP, status);
    form.set_status(GPS_TIME_STAMP, status);
    form.set_status(GPS_DATE_TIME, status);
}

/// Shifts the dates and times of the GPS data of files.
pub fn apply_shift_gps_date_time(
    form: &mut DetailsForm,
    files: &[GpsShiftFile],
    shift: &EnteredShift,
) -> (r: Result<(Vec<Option<(String, String)>>, String), String>)
    requires
        old(form)@.well_formed(),
    ensures
        pairs_view(r) == gps_shift_result(files@, *shift),
        match r {
            Ok((v, _)) => final(form)@ == pairs_staged(old(form)@, pair_options(v@)),
            Err(_) => *final(form) == *old(form),
        },
        final(form)@.well_formed(),
{
    let seconds: i64 = match read_shift(
        shift.days.as_str(),
        shift.hours.as_str(),
        shift.minutes.as_str(),
        shift.seconds.as_str(),
    ) {
        Ok(v) => v,
        Err(e) => {
            return Err(e);
        },
    };
    let n: usize = files.len();
    let ghost wanted = shifted_pairs(files@, seconds as int, shift.subtract);
    let mut pairs: Vec<Option<(String, String)>> = Vec::new();
    let mut count: usize = 0;
    let mut last: Option<(String, String)> = None;
    let mut i: usize = 0;
    while i < n
        invariant
            i <= n,
            n == files@.len(),
            0 <= seconds <= MAX_SHIFT_SECONDS,
            wanted == shifted_pairs(files@, seconds as int, shift.subtract),
            pairs@.len() == i,
            forall|k: int| 0 <= k < i ==> pair_view(#[trigger] pairs@[k]) == wanted[k],
            count <= i,
            count == staged_count(wanted, i as int),
            pair_view(last) == last_staged(wanted, i as int),
        decreases n - i,
    {
        let pair = match shift_gps_file(&files[i], seconds, shift.subtract) {
            Some((_, to)) => split_at_space(to.as_str()),
            None => None,
        };
        assert(pair_view(pair) == wanted[i as int]);
        match &pair {
            Some((d, t)) => {
                count += 1;
                last = Some((d.clone(), t.clone()));
            },
            None => {},
        }
        pairs.push(pair);
        i += 1;
    }
    assert(pair_options(pairs@) =~= wanted);
    if count == 0 {
        return Err("No selected JPEG has both GPS Date Stamp and GPS Time Stamp.".to_owned());
    }
    match last {
        Some((d, t)) if count == 1 => {
            let both = combined_gps_date_time(d.as_str(), t.as_str());
            show_gps(form, d.as_str(), t.as_str(), both.as_str(), "Modified");
            form.set_dirty(GPS_DATE_STAMP, true);
            form.set_dirty(GPS_TIME_STAMP, true);
            form.set_dirty(GPS_DATE_TIME, true);
        },
        _ => {
            show_gps(form, "", "", "", "Mixed");
        },
    }
    form.metadata_dirty = true;
    let report = report_staged("Shifted GPS date/time for ", count, " file(s)", n - count);
    Ok((pairs, report))
}

/// Whether a shift of GPS data can be asked for.
pub fn check_gps_shift(form: &DetailsForm, has_waiting_gps: bool, has_waiting_dates: bool, selected: usize) -> (r:
    Option<Notice>)
    ensures
        match r {
            Some(n) => n@ == if (form@.metadata_dirty && !has_waiting_gps) || has_waiting_dates {
                (
                    "Pending Changes"@,
                    "Save or revert the current changes before shifting GPS Date/Time."@,
                )
            } else {
                ("Unable to Shift GPS Date/Time"@, "Select one or more JPEG files first."@)
            } && ((form@.metadata_dirty && !has_waiting_gps) || has_waiting_dates || selected == 0),
            None => !(form@.metadata_dirty && !has_waiting_gps) && !has_waiting_dates && selected
                > 0,
        },
{
    if (form.metadata_dirty && !has_waiting_gps) || has_waiting_dates {
        return Some(
            notice(
                "Pending Changes",
                "Save or revert the current changes before shifting GPS Date/Time.",
            ),
        );
    }
    if selected == 0 {
        return Some(
            notice("Unable to Shift GPS Date/Time", "Select one or more JPEG files first."),
        );
    }
    None
}

// Media dates from GPS data.

/// The media date that the GPS data of a file give, in Korean time; what was
/// entered in the form stands for the data of an only file.
pub open spec fn date_from_gps(
    file: GpsShiftFile,
    entered: Option<Result<(Option<Seq<char>>, Option<Seq<char>>), Seq<char>>>,
) -> Option<Seq<char>> {
    let parts = match entered {
        Some(Ok((Some(d), Some(t)))) => Some((d, t)),
        Some(_) => None,
        None => Some((file.date@, file.time@)),
    };
    match (file.name, parts) {
        (Some(name), Some((d, t))) => if media::jpeg_name(name@) {
            match datetime::parsed_datetime(date_shift::combined(d, t), DISPLAY_DATETIME_FORMAT@) {
                Some(m) => Some(datetime::offset_text(m, 540)),
                None => None,
            }
        } else {
            None
        },
        _ => None,
    }
}

/// What was entered in the form for the GPS data of an only file.
pub open spec fn entered_gps(f: FormModel, files: int) -> Option<
    Result<(Option<Seq<char>>, Option<Seq<char>>), Seq<char>>,
> {
    if files == 1 && f.dirty[GPS_DATE_TIME as int] {
        Some(date_shift::parsed_gps(f.value(GPS_DATE_TIME)))
    } else {
        None
    }
}

pub open spec fn dates_from_gps(f: FormModel, files: Seq<GpsShiftFile>) -> Seq<Option<Seq<char>>> {
    Seq::new(files.len(), |i: int| date_from_gps(files[i], entered_gps(f, files.len() as int)))
}

pub open spec fn gps_fill_result(f: FormModel, files: Seq<GpsShiftFile>) -> Result<
    (Seq<Option<Seq<char>>>, Seq<char>),
    Seq<char>,
> {
    let dates = dates_from_gps(f, files);
    let count = staged_count(dates, dates.len() as int);
    if files.len() == 0 {
        Err("Select one or more JPEG files first."@)
    } else if count == 0 {
        Err("No selected JPEG has both GPS Date Stamp and GPS Time Stamp."@)
    } else {
        Ok(
            (
                dates,
                staged_report(
                    "Staged Media Date from GPS for "@,
                    count,
                    " file(s)"@,
                    files.len() - count,
                ),
            ),
        )
    }
}

fn find_date_from_gps(form: &DetailsForm, file: &GpsShiftFile, alone: bool) -> (r: Option<String>)
    requires
        form@.well_formed(),
    ensures
        date_shift::text_view(r) == date_from_gps(
            *file,
            entered_gps(
                form@,
                if alone {
                    1
                } else {
                    0
                },
            ),
        ),
{
    let jpeg = match &file.name {
        Some(n) => is_jpeg_path(n.as_str()),
        None => false,
    };
    if !jpeg {
        return None;
    }
    if alone && form.is_dirty(GPS_DATE_TIME) {
        return match parse_combined_gps_date_time(form.value(GPS_DATE_TIME)) {
            Ok((Some(d), Some(t))) => gps_utc_to_kst_display(d.as_str(), t.as_str()),
            _ => None,
        };
    }
    gps_utc_to_kst_display(file.date.as_str(), file.time.as_str())
}

/// Takes media dates from the GPS data of files.
pub fn fill_taken_date_from_gps(form: &mut DetailsForm, files: &[GpsShiftFile], media_kind: &str) -> (r:
    Result<(Vec<Option<String>>, String), String>)
    requires
        old(form)@.well_formed(),
    ensures
        dates_view(r) == gps_fill_result(old(form)@, files@),
        match r {
            Ok((v, _)) => final(form)@ == dates_staged(
                old(form)@,
                text_options(v@),
                media_kind@ == "png"@,
            ),
            Err(_) => *final(form) == *old(form),
        },
        final(form)@.well_formed(),
{
    let n: usize = files.len();
    if n == 0 {
        return Err("Select one or more JPEG files first.".to_owned());
    }
    let ghost wanted = dates_from_gps(form@, files@);
    let alone = n == 1;
    let mut dates: Vec<Option<String>> = Vec::new();
    let mut i: usize = 0;
    while i < n
        invariant
            form@.well_formed(),
            i <= n,
            n == files@.len(),
            alone == (n == 1),
            wanted == dates_from_gps(form@, files@),
            dates@.len() == i,
            forall|k: int|
                0 <= k < i ==> date_shift::text_view(#[trigger] dates@[k]) == wanted[k],
        decreases n - i,
    {
        dates.push(find_date_from_gps(form, &files[i], alone));
        i += 1;
    }
    assert(text_options(dates@) =~= wanted);
    let count: usize = count_staged(&dates);
    if count == 0 {
        return Err("No selected JPEG has both GPS Date Stamp and GPS Time Stamp.".to_owned());
    }
    stage_dates(form, &dates, media_kind);
    let report = report_staged("Staged Media Date from GPS for ", count, " file(s)", n - count);
    Ok((dates, report))
}

// Media dates from names and file times.

/// A file that may get a media date: the date that its name or its times give,
/// and the date that it has.
#[derive(Debug)]
pub struct CandidateFile {
    pub name: String,
    pub candidate: Option<String>,
    pub existing: String,
    pub has_exif: bool,
}

/// What becomes of a date for a file.
pub enum ChoiceModel {
    /// The file takes no date, or there is none for it.
    Unavailable,
    /// The date is later than the one that the file has.
    Later,
    Take(Seq<char>),
}

pub open spec fn takes_dates(name: Seq<char>) -> bool {
    media::jpeg_name(name) || media::png_name(name) || media::mp4_name(name)
}

fn can_take_date(name: &str) -> (r: bool)
    ensures
        r == takes_dates(name@),
{
    is_jpeg_path(name) || is_png_path(name) || is_mp4_path(name)
}

/// The date replaces the one that a file has.
pub open spec fn replaces(existing: Seq<char>, candidate: Seq<char>) -> bool {
    datetime::candidate_applies(
        existing,
        datetime::display_datetime(text::trim(existing)),
        datetime::display_datetime(candidate),
    )
}

pub open spec fn choice(file: CandidateFile) -> ChoiceModel {
    match file.candidate {
        Some(c) => if !takes_dates(file.name@) {
            ChoiceModel::Unavailable
        } else if replaces(file.existing@, c@) {
            ChoiceModel::Take(c@)
        } else {
            ChoiceModel::Later
        },
        None => ChoiceModel::Unavailable,
    }
}

/// The dates that files take.
pub open spec fn taken_dates(files: Seq<CandidateFile>) -> Seq<Option<Seq<char>>> {
    Seq::new(
        files.len(),
        |i: int|
            match choice(files[i]) {
                ChoiceModel::Take(d) => Some(d),
                _ => None,
            },
    )
}

/// How many of the first files have an earlier date.
pub open spec fn later_count(files: Seq<CandidateFile>, n: int) -> int
    decreases n,
{
    if n <= 0 {
        0
    } else {
        later_count(files, n - 1) + if choice(files[n - 1]) is Later {
            1int
        } else {
            0
        }
    }
}

/// How many of the first files get EXIF data with their date.
pub open spec fn new_exif_count(files: Seq<CandidateFile>, n: int) -> int
    decreases n,
{
    if n <= 0 {
        0
    } else {
        new_exif_count(files, n - 1) + if choice(files[n - 1]) is Take && needs_exif(files[n - 1]) {
            1int
        } else {
            0
        }
    }
}

/// The date of a JPEG file without EXIF data comes with new ones.
pub open spec fn needs_exif(file: CandidateFile) -> bool {
    !media::mp4_name(file.name@) && !media::png_name(file.name@) && !file.has_exif
}

/// What was chosen for many files.
struct Choices {
    dates: Vec<Option<String>>,
    count: usize,
    later: usize,
    new_exif: usize,
}

fn choose_dates(files: &[CandidateFile]) -> (r: Choices)
    ensures
        text_options(r.dates@) == taken_dates(files@),
        r.count == staged_count(taken_dates(files@), files@.len() as int),
        r.later == later_count(files@, files@.len() as int),
        r.new_exif == new_exif_count(files@, files@.len() as int),
        r.count <= files@.len(),
{
    let n: usize = files.len();
    let ghost wanted = taken_dates(files@);
    let mut dates: Vec<Option<String>> = Vec::new();
    let mut count: usize = 0;
    let mut later: usize = 0;
    let mut new_exif: usize = 0;
    let mut i: usize = 0;
    while i < n
        invariant
            i <= n,
            n == files@.len(),
            wanted == taken_dates(files@),
            dates@.len() == i,
            forall|k: int|
                0 <= k < i ==> date_shift::text_view(#[trigger] dates@[k]) == wanted[k],
            count <= i,
            later <= i,
            new_exif <= i,
            count == staged_count(wanted, i as int),
            later == later_count(files@, i as int),
            new_exif == new_exif_count(files@, i as int),
        decreases n - i,
    {
        let file = &files[i];
        let mut date: Option<String> = None;
        match &file.candidate {
            Some(c) => {
                if can_take_date(file.name.as_str()) {
                    if should_apply_taken_date_candidate(file.existing.as_str(), c.as_str()) {
                        date = Some(c.clone());
                        count += 1;
                        if !is_mp4_path(file.name.as_str()) && !is_png_path(file.name.as_str())
                            && !file.has_exif {
                            new_exif += 1;
                        }
                    } else {
                        later += 1;
                    }
                }
            },
            None => {},
        }
        assert(date_shift::text_view(date) == wanted[i as int]);
        dates.push(date);
        i += 1;
    }
    assert(text_options(dates@) =~= wanted);
    Choices { dates, count, later, new_exif }
}

/// What the date is called in messages.
pub open spec fn date_label(media_kind: Seq<char>) -> Seq<char> {
    if media_kind == "mp4"@ || media_kind == "png"@ {
        "Media Date"@
    } else {
        "Taken Date"@
    }
}

fn label_for(media_kind: &str) -> (r: &'static str)
    ensures
        r@ == date_label(media_kind@),
{
    if same_text(media_kind, "mp4") || same_text(media_kind, "png") {
        "Media Date"
    } else {
        "Taken Date"
    }
}

fn labelled(before: &str, label: &str, after: &str) -> (r: String)
    ensures
        r@ == before@ + label@ + after@,
{
    let mut out = before.to_owned();
    out.append(label);
    out.append(after);
    out
}

/// Why no date is taken from the names of the selected files.
pub open spec fn names_refusal(selected: int, resolved: int, media_kind: Seq<char>) -> Option<
    (Seq<char>, Seq<char>),
> {
    let label = date_label(media_kind);
    let title = "Unable to Set "@ + label + ""@;
    if selected == 0 {
        Some((title, "Select a file before setting "@ + label + "."@))
    } else if resolved == 0 {
        Some((title, "Selected file could not be resolved."@))
    } else {
        None
    }
}

/// Whether dates can be taken from the names of the selected files.
pub fn check_dates_from_names(selected: i32, resolved: usize, media_kind: &str) -> (r: Option<Notice>)
    ensures
        match r {
            Some(n) => names_refusal(selected as int, resolved as int, media_kind@) == Some(n@),
            None => names_refusal(selected as int, resolved as int, media_kind@) is None,
        },
{
    let label = label_for(media_kind);
    if selected == 0 {
        return Some(
            Notice {
                title: labelled("Unable to Set ", label, ""),
                text: labelled("Select a file before setting ", label, "."),
            },
        );
    }
    if resolved == 0 {
        return Some(
            Notice {
                title: labelled("Unable to Set ", label, ""),
                text: "Selected file could not be resolved.".to_owned(),
            },
        );
    }
    None
}

/// Why the date in the name of an only file is not taken.
pub open spec fn single_name_refusal(file: CandidateFile, shown: Seq<char>, media_kind: Seq<char>) -> Option<
    (Seq<char>, Seq<char>),
> {
    let label = date_label(media_kind);
    let title = "Unable to Set "@ + label + ""@;
    if !takes_dates(file.name@) {
        Some((title, "The selected file is not a supported media file."@))
    } else {
        match file.candidate {
            None => Some((title, "No supported date pattern was found in the filename."@)),
            Some(c) => if !replaces(shown, c@) {
                Some(
                    (
                        ""@ + label + " Ignored"@,
                        "Filename timestamp is later than the existing "@ + label + "."@,
                    ),
                )
            } else {
                None
            },
        }
    }
}

/// The form after an only file got a date from its name.
pub open spec fn single_date_staged(f: FormModel, date: Seq<char>, is_png: bool, opens_exif: bool) -> FormModel {
    let staged = f.with_staged_date(date, is_png);
    FormModel { exif_available: staged.exif_available || opens_exif, ..staged }.counted()
}

/// Takes the date in the name of an only file; reports that EXIF data will be
/// created.
pub fn fill_single_date_from_filename(
    form: &mut DetailsForm,
    file: &CandidateFile,
    media_kind: &str,
) -> (r: Result<Option<String>, Notice>)
    requires
        old(form)@.well_formed(),
    ensures
        match r {
            Err(n) => single_name_refusal(*file, old(form)@.value(TAKEN_DATE), media_kind@)
                == Some(n@) && *final(form) == *old(form),
            Ok(toast) => {
                &&& single_name_refusal(*file, old(form)@.value(TAKEN_DATE), media_kind@) is None
                &&& file.candidate matches Some(c) && final(form)@ == single_date_staged(
                    old(form)@,
                    c@,
                    media_kind@ == "png"@,
                    media_kind@ == "jpeg"@,
                )
                &&& date_shift::text_view(toast) == if media::jpeg_name(file.name@)
                    && !file.has_exif {
                    Some("Date staged; an EXIF structure will be created on save."@)
                } else {
                    None
                }
            },
        },
        final(form)@.well_formed(),
{
    let label = label_for(media_kind);
    if !can_take_date(file.name.as_str()) {
        return Err(
            Notice {
                title: labelled("Unable to Set ", label, ""),
                text: "The selected file is not a supported media file.".to_owned(),
            },
        );
    }
    match &file.candidate {
        None => Err(
            Notice {
                title: labelled("Unable to Set ", label, ""),
                text: "No supported date pattern was found in the filename.".to_owned(),
            },
        ),
        Some(c) => {
            if !should_apply_taken_date_candidate(form.value(TAKEN_DATE), c.as_str()) {
                return Err(
                    Notice {
                        title: labelled("", label, " Ignored"),
                        text: labelled("Filename timestamp is later than the existing ", label, "."),
                    },
                );
            }
            form.stage_taken_date(c.as_str(), same_text(media_kind, "png"));
            if same_text(media_kind, "jpeg") {
                form.exif_available = true;
            }
            form.update_metadata_dirty_state();
            if is_jpeg_path(file.name.as_str()) && !file.has_exif {
                Ok(Some("Date staged; an EXIF structure will be created on save.".to_owned()))
            } else {
                Ok(None)
            }
        },
    }
}

/// The form after several files got dates of their own.
pub open spec fn many_dates_staged(f: FormModel, opens_exif: bool) -> FormModel {
    FormModel {
        metadata_dirty: true,
        exif_available: f.exif_available || opens_exif,
        ..several_dates_staged(f).with_dirty(TAKEN_DATE, true)
    }
}

fn stage_many_dates(form: &mut DetailsForm, opens_exif: bool)
    requires
        old(form)@.well_formed(),
    ensures
        final(form)@ == many_dates_staged(old(form)@, opens_exif),
        final(form)@.well_formed(),
{
    form.set_value(TAKEN_DATE, "");
    form.set_status(TAKEN_DATE, "Mixed");
    form.set_dirty(TAKEN_DATE, true);
    form.metadata_dirty = true;
    if opens_exif {
        form.exif_available = true;
    }
}

/// All files are JPEG files.
pub open spec fn only_jpeg(files: Seq<CandidateFile>) -> bool {
    forall|i: int| 0 <= i < files.len() ==> media::jpeg_name((#[trigger] files[i]).name@)
}

/// A JPEG file is among those that take a date.
pub open spec fn jpeg_takes(files: Seq<CandidateFile>) -> bool {
    exists|i: int|
        0 <= i < files.len() && choice(#[trigger] files[i]) is Take && media::jpeg_name(
            files[i].name@,
        )
}

fn check_only_jpeg(files: &[CandidateFile]) -> (r: bool)
    ensures
        r == only_jpeg(files@),
{
    let n: usize = files.len();
    let mut i: usize = 0;
    while i < n
        invariant
            i <= n,
            n == files@.len(),
            forall|k: int| 0 <= k < i ==> media::jpeg_name((#[trigger] files@[k]).name@),
        decreases n - i,
    {
        if !is_jpeg_path(files[i].name.as_str()) {
            return false;
        }
        i += 1;
    }
    true
}

fn check_jpeg_takes(files: &[CandidateFile], dates: &Vec<Option<String>>) -> (r: bool)
    requires
        text_options(dates@) == taken_dates(files@),
    ensures
        r == jpeg_takes(files@),
{
    let n: usize = files.len();
    let mut i: usize = 0;
    assert(text_options(dates@).len() == n);
    while i < n
        invariant
            i <= n,
            n == files@.len(),
            dates@.len() == n,
            text_options(dates@) == taken_dates(files@),
            forall|k: int|
                0 <= k < i ==> !(choice(#[trigger] files@[k]) is Take && media::jpeg_name(
                    files@[k].name@,
                )),
        decreases n - i,
    {
        assert(text_options(dates@)[i as int] == taken_dates(files@)[i as int]);
        if dates[i].is_some() && is_jpeg_path(files[i].name.as_str()) {
            assert(choice(files@[i as int]) is Take);
            return true;
        }
        assert(!(choice(files@[i as int]) is Take && media::jpeg_name(files@[i as int].name@)));
        i += 1;
    }
    false
}

/// The report on dates from many names.
pub open spec fn names_report(count: int, skipped: int, new_exif: int) -> Seq<char> {
    if new_exif > 0 {
        notices::with_numbers(
            "Staged "@,
            count,
            " date(s); EXIF will be created for "@,
            new_exif,
            ". Ctrl+S to save."@,
        )
    } else if skipped == 0 {
        notices::with_number("Parsed "@, count, " date(s). Ctrl+S to save."@)
    } else {
        notices::with_numbers("Parsed "@, count, "; skipped "@, skipped, ". Ctrl+S to save."@)
    }
}

/// Takes the dates in the names of several files.
pub fn fill_taken_date_from_filenames(form: &mut DetailsForm, files: &[CandidateFile], media_kind: &str) -> (r:
    Result<(Vec<Option<String>>, String), Notice>)
    requires
        old(form)@.well_formed(),
    ensures
        ({
            let count = staged_count(taken_dates(files@), files@.len() as int);
            match r {
                Err(n) => count == 0 && n@ == (
                    "Unable to Set "@ + date_label(media_kind@) + ""@,
                    "No supported date pattern was found in the selected filenames."@,
                ) && *final(form) == *old(form),
                Ok((dates, toast)) => {
                    &&& count > 0
                    &&& text_options(dates@) == taken_dates(files@)
                    &&& final(form)@ == many_dates_staged(old(form)@, only_jpeg(files@))
                    &&& toast@ == names_report(
                        count,
                        files@.len() - count,
                        new_exif_count(files@, files@.len() as int),
                    )
                },
            }
        }),
        final(form)@.well_formed(),
{
    let n: usize = files.len();
    let choices = choose_dates(files);
    if choices.count == 0 {
        return Err(
            Notice {
                title: labelled("Unable to Set ", label_for(media_kind), ""),
                text: "No supported date pattern was found in the selected filenames.".to_owned(),
            },
        );
    }
    let all_jpeg = check_only_jpeg(files);
    stage_many_dates(form, all_jpeg);
    let skipped: usize = n - choices.count;
    let toast = if choices.new_exif > 0 {
        sentence_of_two(
            "Staged ",
            choices.count,
            " date(s); EXIF will be created for ",
            choices.new_exif,
            ". Ctrl+S to save.",
        )
    } else if skipped == 0 {
        sentence("Parsed ", choices.count, " date(s). Ctrl+S to save.")
    } else {
        sentence_of_two("Parsed ", choices.count, "; skipped ", skipped, ". Ctrl+S to save.")
    };
    Ok((choices.dates, toast))
}

/// The report on dates from the times of several files.
pub open spec fn times_report(count: int, skipped: int, new_exif: int) -> Seq<char> {
    if new_exif > 0 {
        notices::with_numbers(
            "Staged dates for "@,
            count,
            " files; EXIF will be created for "@,
            new_exif,
            ". Ctrl+S to save."@,
        )
    } else if skipped == 0 {
        notices::with_number(
            "The earlier file timestamp was staged for "@,
            count,
            " files. Save to apply."@,
        )
    } else {
        notices::with_numbers(
            "The earlier file timestamp was staged for "@,
            count,
            " files. "@,
            skipped,
            " files were skipped. Save to apply."@,
        )
    }
}

/// Why no date is taken from the times of files.
pub open spec fn times_complaint(files: Seq<CandidateFile>) -> Option<(Seq<char>, Seq<char>)> {
    if files.len() == 0 {
        Some(("Unable to Set Date"@, "Select one or more media files before setting the date."@))
    } else if staged_count(taken_dates(files), files.len() as int) > 0 {
        None
    } else if later_count(files, files.len() as int) > 0 {
        Some(
            (
                "Date Ignored"@,
                "The earlier file timestamp is later than the existing Taken Date."@,
            ),
        )
    } else {
        Some(
            (
                "Date Ignored"@,
                "Created and Modified timestamps could not be read from the selected media files."@,
            ),
        )
    }
}

/// Takes dates from the times of files.
pub fn fill_taken_date_from_created_date(
    form: &mut DetailsForm,
    files: &[CandidateFile],
    media_kind: &str,
) -> (r: Result<(Vec<Option<String>>, String), Notice>)
    requires
        old(form)@.well_formed(),
    ensures
        ({
            let count = staged_count(taken_dates(files@), files@.len() as int);
            let created = new_exif_count(files@, files@.len() as int);
            match r {
                Err(n) => times_complaint(files@) == Some(n@) && *final(form) == *old(form),
                Ok((dates, toast)) => {
                    &&& times_complaint(files@) is None
                    &&& text_options(dates@) == taken_dates(files@)
                    &&& files@.len() == 1 ==> {
                        &&& last_staged(taken_dates(files@), 1) matches Some(d) && final(form)@
                            == single_date_staged(
                            old(form)@,
                            d,
                            media_kind@ == "png"@,
                            media::jpeg_name(files@[0].name@),
                        )
                        &&& toast@ == if created > 0 {
                            "Date staged; an EXIF structure will be created on save."@
                        } else {
                            "Date staged. Ctrl+S to save."@
                        }
                    }
                    &&& files@.len() > 1 ==> {
                        &&& final(form)@ == many_dates_staged(old(form)@, jpeg_takes(files@))
                        &&& toast@ == times_report(count, files@.len() - count, created)
                    }
                },
            }
        }),
        final(form)@.well_formed(),
{
    let n: usize = files.len();
    if n == 0 {
        return Err(
            notice(
                "Unable to Set Date",
                "Select one or more media files before setting the date.",
            ),
        );
    }
    let choices = choose_dates(files);
    if choices.count == 0 {
        if choices.later > 0 {
            return Err(
                notice(
                    "Date Ignored",
                    "The earlier file timestamp is later than the existing Taken Date.",
                ),
            );
        }
        return Err(
            notice(
                "Date Ignored",
                "Created and Modified timestamps could not be read from the selected media files.",
            ),
        );
    }
    if n == 1 {
        let date = find_last_staged(&choices.dates);
        proof {
            assert(text_options(choices.dates@).len() == 1);
            lemma_staged(taken_dates(files@), 1);
        }
        match &date {
            Some(d) => {
                form.stage_taken_date(d.as_str(), same_text(media_kind, "png"));
            },
            None => {},
        }
        if is_jpeg_path(files[0].name.as_str()) {
            form.exif_available = true;
        }
        form.update_metadata_dirty_state();
        let toast = if choices.new_exif > 0 {
            "Date staged; an EXIF structure will be created on save.".to_owned()
        } else {
            "Date staged. Ctrl+S to save.".to_owned()
        };
        return Ok((choices.dates, toast));
    }
    let opens = check_jpeg_takes(files, &choices.dates);
    stage_many_dates(form, opens);
    let skipped: usize = n - choices.count;
    let toast = if choices.new_exif > 0 {
        sentence_of_two(
            "Staged dates for ",
            choices.count,
            " files; EXIF will be created for ",
            choices.new_exif,
            ". Ctrl+S to save.",
        )
    } else if skipped == 0 {
        sentence(
            "The earlier file timestamp was staged for ",
            choices.count,
            " files. Save to apply.",
        )
    } else {
        sentence_of_two(
            "The earlier file timestamp was staged for ",
            choices.count,
            " files. ",
            skipped,
            " files were skipped. Save to apply.",
        )
    };
    Ok((choices.dates, toast))
}

/// No file is counted both as one that takes a date and as one whose date is
/// earlier.
pub proof fn each_file_is_counted_once(files: Seq<CandidateFile>, n: int)
    requires
        0 <= n <= files.len(),
    ensures
        staged_count(taken_dates(files), n) + later_count(files, n) <= n,
        new_exif_count(files, n) <= staged_count(taken_dates(files), n),
    decreases n,
{
    if n > 0 {
        each_file_is_counted_once(files, n - 1);
    }
}

} // verus!
