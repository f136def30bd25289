//! What the changes of many files come to, and which dates files take.
use crate::date_shift::{self, GpsShiftFile, ShiftFile};
use crate::datetime::{self, Moment, DISPLAY_DATETIME_FORMAT};
use crate::details_form::{FormModel, CREATED, DATE_TIME_ORIGINAL, GPS_DATE_STAMP, GPS_DATE_TIME,
    GPS_TIME_STAMP, MODIFIED, NAME, PNG_CREATION_TIME, TAKEN_DATE};
use crate::file_actions::Elapsed;
use crate::media;
use crate::moment_laws;
use crate::staging::{self, CandidateFile, ChoiceModel, EnteredShift};
use crate::staging_files::{self, NameChoice, RemovalFile};
use crate::text;
use vstd::prelude::*;

verus! {

// Values that wait for several files.

/// The files that get a value are counted: none where no file gets one, all where each
/// gets one, and one less without one of them.
pub proof fn files_with_a_value_are_counted<T>(values: Seq<Option<T>>, n: int)
    requires
        0 <= n <= values.len(),
    ensures
        (forall|i: int| 0 <= i < n ==> (#[trigger] values[i]) is None) <==> staging::staged_count(
            values,
            n,
        ) == 0,
        (forall|i: int| 0 <= i < n ==> (#[trigger] values[i]) is Some) <==> staging::staged_count(
            values,
            n,
        ) == n,
        0 <= staging::staged_count(values, n) <= n,
        n < values.len() ==> staging::staged_count(values, n + 1) - staging::staged_count(
            values,
            n,
        ) == (if values[n] is Some {
            1int
        } else {
            0
        }),
    decreases n,
{
    if n > 0 {
        files_with_a_value_are_counted(values, n - 1);
        if staging::staged_count(values, n) == n {
            assert forall|i: int| 0 <= i < n implies (#[trigger] values[i]) is Some by {
                assert(values[n - 1] is Some);
            }
        }
        if staging::staged_count(values, n) == 0 {
            assert forall|i: int| 0 <= i < n implies (#[trigger] values[i]) is None by {
                assert(values[n - 1] is None);
            }
        }
    }
}

/// The value that is shown is the one behind which no file gets another.
pub proof fn the_last_value_is_shown<T>(values: Seq<Option<T>>, k: int, n: int)
    requires
        0 <= k < n <= values.len(),
        values[k] is Some,
        forall|i: int| k < i < n ==> (#[trigger] values[i]) is None,
    ensures
        staging::last_staged(values, n) == values[k],
        staging::staged_count(values, n) == staging::staged_count(values, k) + 1,
    decreases n,
{
    if n > k + 1 {
        assert(values[n - 1] is None);
        the_last_value_is_shown(values, k, n - 1);
    }
}

proof fn lemma_two_values<T>(values: Seq<Option<T>>, j: int, k: int)
    requires
        0 <= j < k < values.len(),
        values[j] is Some,
        values[k] is Some,
    ensures
        staging::staged_count(values, values.len() as int) >= 2,
    decreases values.len(),
{
    lemma_grows(values, j + 1, k);
    lemma_grows(values, k + 1, values.len() as int);
    files_with_a_value_are_counted(values, j);
}

proof fn lemma_grows<T>(values: Seq<Option<T>>, a: int, b: int)
    requires
        0 <= a <= b <= values.len(),
    ensures
        staging::staged_count(values, a) <= staging::staged_count(values, b),
    decreases b - a,
{
    if a < b {
        lemma_grows(values, a, b - 1);
    }
}

/// Where one file alone gets a media date, the form shows the date as a change, for a
/// PNG file in each of its dates; the other texts stay.
pub proof fn an_only_date_is_shown(
    f: FormModel,
    dates: Seq<Option<Seq<char>>>,
    k: int,
    is_png: bool,
)
    requires
        f.well_formed(),
        0 <= k < dates.len(),
        dates[k] is Some,
        forall|i: int| 0 <= i < dates.len() && i != k ==> (#[trigger] dates[i]) is None,
    ensures
        ({
            let g = staging::dates_staged(f, dates, is_png);
            &&& g.value(TAKEN_DATE) == dates[k]->0
            &&& g.statuses[TAKEN_DATE as int] == "Modified"@
            &&& g.dirty[TAKEN_DATE as int]
            &&& g.metadata_dirty
            &&& is_png ==> g.value(PNG_CREATION_TIME) == dates[k]->0 && g.value(DATE_TIME_ORIGINAL)
                == dates[k]->0 && !g.png_date_sources_conflict
            &&& !is_png ==> g.png_date_sources_conflict == f.png_date_sources_conflict
            &&& forall|i: int|
                0 <= i < f.values.len() && i != TAKEN_DATE && (!is_png || (i != PNG_CREATION_TIME
                    && i != DATE_TIME_ORIGINAL)) ==> #[trigger] g.values[i] == f.values[i]
            &&& g.originals == f.originals
        }),
{
    the_last_value_is_shown(dates, k, dates.len() as int);
    files_with_a_value_are_counted(dates, k);
}

/// Where several files get media dates, the form shows none of them and says so.
pub proof fn several_dates_are_not_shown(
    f: FormModel,
    dates: Seq<Option<Seq<char>>>,
    j: int,
    k: int,
    is_png: bool,
)
    requires
        f.well_formed(),
        0 <= j < k < dates.len(),
        dates[j] is Some,
        dates[k] is Some,
    ensures
        ({
            let g = staging::dates_staged(f, dates, is_png);
            &&& g.value(TAKEN_DATE).len() == 0
            &&& g.statuses[TAKEN_DATE as int] == "Mixed"@
            &&& g.dirty[TAKEN_DATE as int]
            &&& g.metadata_dirty
            &&& forall|i: int|
                0 <= i < f.values.len() && i != TAKEN_DATE ==> #[trigger] g.values[i]
                    == f.values[i]
        }),
{
    lemma_two_values(dates, j, k);
    reveal_strlit("");
}

/// Where one file alone gets a GPS date and time, the form shows both and the text of
/// both together as changes; where several do, it shows none of them.
pub proof fn gps_times_are_shown_together(
    f: FormModel,
    pairs: Seq<Option<(Seq<char>, Seq<char>)>>,
    k: int,
)
    requires
        f.well_formed(),
        0 <= k < pairs.len(),
        pairs[k] is Some,
        text::trim((pairs[k]->0).0).len() > 0,
        date_shift::plain_time((pairs[k]->0).1).len() > 0,
    ensures
        ({
            let g = staging::pairs_staged(f, pairs);
            &&& g.metadata_dirty
            &&& (forall|i: int| 0 <= i < pairs.len() && i != k ==> (#[trigger] pairs[i]) is None)
                ==> {
                &&& g.value(GPS_DATE_STAMP) == (pairs[k]->0).0
                &&& g.value(GPS_TIME_STAMP) == (pairs[k]->0).1
                &&& g.value(GPS_DATE_TIME) == text::trim((pairs[k]->0).0) + seq![' ']
                    + date_shift::plain_time((pairs[k]->0).1)
                &&& g.statuses[GPS_DATE_STAMP as int] == "Modified"@
                &&& g.statuses[GPS_TIME_STAMP as int] == "Modified"@
                &&& g.statuses[GPS_DATE_TIME as int] == "Modified"@
                &&& g.dirty[GPS_DATE_STAMP as int]
                &&& g.dirty[GPS_TIME_STAMP as int]
                &&& g.dirty[GPS_DATE_TIME as int]
            }
            &&& (exists|j: int| 0 <= j < pairs.len() && j != k && (#[trigger] pairs[j]) is Some)
                ==> {
                &&& g.value(GPS_DATE_STAMP).len() == 0
                &&& g.value(GPS_TIME_STAMP).len() == 0
                &&& g.value(GPS_DATE_TIME).len() == 0
                &&& g.statuses[GPS_DATE_STAMP as int] == "Mixed"@
                &&& g.statuses[GPS_TIME_STAMP as int] == "Mixed"@
                &&& g.statuses[GPS_DATE_TIME as int] == "Mixed"@
            }
        }),
{
    reveal_strlit("");
    reveal_strlit(" ");
    assert(" "@ =~= seq![' ']);
    if forall|i: int| 0 <= i < pairs.len() && i != k ==> (#[trigger] pairs[i]) is None {
        the_last_value_is_shown(pairs, k, pairs.len() as int);
        files_with_a_value_are_counted(pairs, k);
    } else {
        let j = choose|j: int| 0 <= j < pairs.len() && j != k && (#[trigger] pairs[j]) is Some;
        assert(0 <= j < pairs.len() && j != k && pairs[j] is Some);
        if j < k {
            lemma_two_values(pairs, j, k);
        } else {
            lemma_two_values(pairs, k, j);
        }
    }
}

// Dates from shifts and from GPS data.

/// Dates are shifted file by file, forward or back as entered, by the seconds that the
/// parts of the shift come to. A shift by nothing is refused, and one that no file can
/// take.
pub proof fn entered_shifts_move_each_date(files: Seq<ShiftFile>, shift: EnteredShift, i: int)
    requires
        0 <= i < files.len(),
    ensures
        ({
            let wanted = date_shift::shift_seconds(
                shift.days@,
                shift.hours@,
                shift.minutes@,
                shift.seconds@,
            );
            let r = staging::media_shift_result(files, shift);
            &&& wanted matches Err(e) ==> r == Err::<(Seq<Option<Seq<char>>>, Seq<char>), Seq<char>>(
                e,
            )
            &&& wanted == Ok::<int, Seq<char>>(0) ==> r == Err::<
                (Seq<Option<Seq<char>>>, Seq<char>),
                Seq<char>,
            >("Enter a non-zero time shift."@)
            &&& r matches Ok((dates, _)) ==> {
                &&& wanted is Ok && wanted->Ok_0 != 0
                &&& dates.len() == files.len()
                &&& dates[i] == date_shift::media_shift(files[i], wanted->Ok_0, shift.subtract)
                &&& exists|k: int| 0 <= k < dates.len() && (#[trigger] dates[k]) is Some
            }
        }),
{
    let wanted = date_shift::shift_seconds(
        shift.days@,
        shift.hours@,
        shift.minutes@,
        shift.seconds@,
    );
    if wanted is Ok {
        let dates = staging::shifted_dates(files, wanted->Ok_0, shift.subtract);
        files_with_a_value_are_counted(dates, dates.len() as int);
    }
}

/// A shift leaves files alone that are no JPEG, PNG or MP4 files, and those whose date
/// cannot be read; it moves the dates of the others.
pub proof fn files_with_a_date_are_shifted(file: ShiftFile, m: Moment, seconds: int, subtract: bool)
    requires
        file.name is Some,
        datetime::display_datetime(text::trim(file.date@)) == Some(m),
    ensures
        media::jpeg_name((file.name->0)@) || media::png_name((file.name->0)@) || media::mp4_name(
            (file.name->0)@,
        ) ==> date_shift::media_shift(file, seconds, subtract) == date_shift::shifted_text(
            Some(m),
            seconds,
            subtract,
        ),
        !media::jpeg_name((file.name->0)@) && !media::png_name((file.name->0)@) && !media::mp4_name(
            (file.name->0)@,
        ) ==> date_shift::media_shift(file, seconds, subtract) is None,
{
}

/// The date and the time of a shifted GPS time are what stands before and behind the
/// first space.
pub proof fn dates_and_times_are_parted_by_a_space(date: Seq<char>, time: Seq<char>)
    requires
        forall|i: int| 0 <= i < date.len() ==> #[trigger] date[i] != ' ',
    ensures
        staging::cut_at_space(date + seq![' '] + time) == Some((date, time)),
        staging::cut_at_space(date) is None,
{
    let value = date + seq![' '] + time;
    assert(value[date.len() as int] == ' ');
    assert forall|i: int| 0 <= i < date.len() implies #[trigger] value[i] == date[i] by {}
    lemma_first(value, ' ', 0, date.len() as int);
    lemma_absent(date, ' ', 0);
    assert(value.take(date.len() as int) =~= date);
    assert(value.skip(date.len() as int + 1) =~= time);
}

proof fn lemma_first(s: Seq<char>, c: char, from: int, at: int)
    requires
        0 <= from <= at < s.len(),
        s[at] == c,
        forall|i: int| from <= i < at ==> #[trigger] s[i] != c,
    ensures
        text::first_char(s, c, from) == Some(at),
    decreases at - from,
{
    if from < at {
        assert(s[from] != c);
        lemma_first(s, c, from + 1, at);
    }
}

proof fn lemma_absent(s: Seq<char>, c: char, from: int)
    requires
        0 <= from <= s.len(),
        forall|i: int| from <= i < s.len() ==> #[trigger] s[i] != c,
    ensures
        text::first_char(s, c, from) is None,
    decreases s.len() - from,
{
    if from < s.len() {
        assert(s[from] != c);
        lemma_absent(s, c, from + 1);
    }
}

/// The media date of a JPEG file with a GPS date and time is that moment nine hours
/// ahead; other files get none, and neither do those where the two make no date.
pub proof fn gps_dates_become_media_dates(file: GpsShiftFile, m: Moment)
    requires
        file.name is Some,
        text::trim(file.date@).len() > 0,
        date_shift::plain_time(file.time@).len() > 0,
    ensures
        ({
            let both = text::trim(file.date@) + seq![' '] + date_shift::plain_time(file.time@);
            let read = datetime::parsed_datetime(both, DISPLAY_DATETIME_FORMAT@);
            &&& media::jpeg_name((file.name->0)@) && read == Some(m) ==> staging::date_from_gps(
                file,
                None,
            ) == Some(datetime::offset_text(m, 540))
            &&& !media::jpeg_name((file.name->0)@) || read is None ==> staging::date_from_gps(
                file,
                None,
            ) is None
        }),
{
    reveal_strlit(" ");
    assert(" "@ =~= seq![' ']);
}

/// What was entered for an only file goes before what the file has; where it lacks the
/// date or the time, the file gets no media date.
pub proof fn entered_gps_dates_go_first(
    file: GpsShiftFile,
    date: Seq<char>,
    time: Seq<char>,
    other: GpsShiftFile,
    e: Seq<char>,
)
    requires
        other.name == file.name,
        other.date@ == date,
        other.time@ == time,
    ensures
        staging::date_from_gps(file, Some(Ok((Some(date), Some(time))))) == staging::date_from_gps(
            other,
            None,
        ),
        staging::date_from_gps(file, Some(Ok((Some(date), None)))) is None,
        staging::date_from_gps(file, Some(Ok((None, Some(time))))) is None,
        staging::date_from_gps(file, Some(Err(e))) is None,
{
}

// Dates that files take.

/// A date replaces the one that is there where it is not later, where there is none, and
/// where the one that is there cannot be read; it must be readable itself to replace one
/// that is.
pub proof fn dates_replace_later_ones(existing: Seq<char>, e: Moment, c: Moment)
    requires
        datetime::valid_moment(e),
        datetime::valid_moment(c),
        e.nano == c.nano,
        text::trim(existing).len() > 0,
        text::trim(existing) != "N/A"@,
        text::trim(existing) != "-"@,
    ensures
        datetime::candidate_applies(existing, Some(e), Some(c)) <==> datetime::timestamp(c)
            <= datetime::timestamp(e),
        datetime::candidate_applies(existing, None, Some(c)),
        datetime::candidate_applies(existing, None, None),
        !datetime::candidate_applies(existing, Some(e), None),
{
    moment_laws::earlier_moments_have_earlier_seconds(e, c);
    moment_laws::earlier_moments_have_earlier_seconds(c, e);
}

/// Any date replaces a missing one.
pub proof fn missing_dates_are_replaced(
    existing: Seq<char>,
    e: Option<Moment>,
    c: Option<Moment>,
)
    requires
        text::trim(existing).len() == 0 || text::trim(existing) == "N/A"@ || text::trim(existing)
            == "-"@,
    ensures
        datetime::candidate_applies(existing, e, c),
{
}

/// A file takes a date where it is a JPEG, PNG or MP4 file, where there is a date for it,
/// and where that date replaces the one that the file has. A JPEG file without EXIF data
/// gets them with the date.
pub proof fn files_take_the_dates_for_them(file: CandidateFile)
    ensures
        ({
            let kind = media::jpeg_name(file.name@) || media::png_name(file.name@)
                || media::mp4_name(file.name@);
            &&& staging::choice(file) == (if kind && file.candidate is Some {
                if datetime::candidate_applies(
                    file.existing@,
                    datetime::display_datetime(text::trim(file.existing@)),
                    datetime::display_datetime((file.candidate->0)@),
                ) {
                    ChoiceModel::Take((file.candidate->0)@)
                } else {
                    ChoiceModel::Later
                }
            } else {
                ChoiceModel::Unavailable
            })
            &&& media::png_name(file.name@) || media::mp4_name(file.name@) || file.has_exif
                ==> !staging::needs_exif(file)
            &&& media::jpeg_name(file.name@) && !media::png_name(file.name@) && !media::mp4_name(
                file.name@,
            ) && !file.has_exif ==> staging::needs_exif(file)
        }),
{
}

/// The date of a movie or of a PNG image is called by another name than that of a
/// photograph.
pub proof fn dates_are_called_by_their_kind()
    ensures
        staging::date_label("mp4"@) == "Media Date"@,
        staging::date_label("png"@) == "Media Date"@,
        staging::date_label("jpeg"@) == "Taken Date"@,
        staging::date_label(""@) == "Taken Date"@,
{
    reveal_strlit("mp4");
    reveal_strlit("png");
    reveal_strlit("jpeg");
    reveal_strlit("");
    assert("jpeg"@.len() == 4 && "mp4"@.len() == 3 && "png"@.len() == 3 && ""@.len() == 0);
}

/// Of the times of a file, that one is taken which no other is before; where there is
/// one alone, it is taken.
pub proof fn the_earlier_time_is_taken(c: Elapsed, m: Elapsed)
    requires
        c.nanos < 1_000_000_000,
        m.nanos < 1_000_000_000,
    ensures
        ({
            let a = c.seconds * 1_000_000_000 + c.nanos;
            let b = m.seconds * 1_000_000_000 + m.nanos;
            &&& a <= b ==> staging_files::earliest(Some(c), Some(m)) == Some(c)
            &&& b < a ==> staging_files::earliest(Some(c), Some(m)) == Some(m)
        }),
        staging_files::earliest(Some(c), None) == Some(c),
        staging_files::earliest(None, Some(m)) == Some(m),
        staging_files::earliest(None, None) is None,
{
}

// Times and names of files.

/// The time of modification of an only file becomes the one of its creation, and no
/// other text changes; for several files the form shows none.
pub proof fn files_count_as_modified_when_created(f: FormModel, files: int)
    requires
        f.well_formed(),
    ensures
        ({
            let g = staging_files::modified_staged(f, files);
            &&& files == 1 ==> g.value(MODIFIED) == f.value(CREATED)
            &&& files > 1 ==> g.value(MODIFIED).len() == 0 && g.statuses[MODIFIED as int]
                == "Mixed"@ && g.dirty[MODIFIED as int] && g.metadata_dirty
            &&& forall|i: int|
                0 <= i < f.values.len() && i != MODIFIED ==> #[trigger] g.values[i] == f.values[i]
        }),
{
    reveal_strlit("");
}

/// The times of creation and of modification of an only file become its media date; for
/// several files the form shows none.
pub proof fn files_get_the_times_of_their_dates(f: FormModel, dates: Seq<Option<Seq<char>>>)
    requires
        f.well_formed(),
        dates.len() > 0,
        dates.len() == 1 ==> dates[0] is Some,
    ensures
        ({
            let g = staging_files::file_dates_staged(f, dates);
            &&& dates.len() == 1 ==> g.value(CREATED) == dates[0]->0 && g.value(MODIFIED)
                == dates[0]->0 && g.statuses[CREATED as int].len() == 0
                && g.statuses[MODIFIED as int].len() == 0
            &&& dates.len() > 1 ==> g.value(CREATED).len() == 0 && g.value(MODIFIED).len() == 0
                && g.statuses[CREATED as int] == "Mixed"@ && g.statuses[MODIFIED as int]
                == "Mixed"@
            &&& g.dirty[CREATED as int] && g.dirty[MODIFIED as int] && g.metadata_dirty
            &&& forall|i: int|
                0 <= i < f.values.len() && i != CREATED && i != MODIFIED ==> #[trigger] g.values[i]
                    == f.values[i]
        }),
{
    reveal_strlit("");
    if dates.len() == 1 {
        the_last_value_is_shown(dates, 0, 1);
    }
}

/// A file gets the name of its date unless it has it already.
pub proof fn files_get_the_names_of_their_dates(files: Seq<NameChoice>, i: int)
    requires
        0 <= i < files.len(),
    ensures
        staging_files::new_names(files).len() == files.len(),
        staging_files::new_names(files)[i] is Some <==> files[i].dated is Some && (
        files[i].dated->0)@ != files[i].current@,
        staging_files::new_names(files)[i] is Some ==> staging_files::new_names(files)[i] == Some(
            (files[i].dated->0)@,
        ),
{
}

/// The form shows no name where several files get names.
pub proof fn several_names_are_not_shown(f: FormModel)
    requires
        f.well_formed(),
    ensures
        ({
            let g = staging_files::names_staged(f);
            &&& g.value(NAME).len() == 0
            &&& g.statuses[NAME as int] == "Mixed"@
            &&& g.dirty[NAME as int]
            &&& g.metadata_dirty
            &&& forall|i: int|
                0 <= i < f.values.len() && i != NAME ==> #[trigger] g.values[i] == f.values[i]
        }),
{
    reveal_strlit("");
}

/// What is taken away from a PNG file is its date, and from a JPEG file its EXIF data.
/// Files of other kinds among the selected ones stand against it.
pub proof fn metadata_go_by_the_kind(files: Seq<RemovalFile>, i: int)
    requires
        0 <= i < files.len(),
    ensures
        media::png_name(files[i].name@) ==> staging_files::removals(files)[i]
            == files[i].has_date,
        media::jpeg_name(files[i].name@) && !media::png_name(files[i].name@)
            ==> staging_files::removals(files)[i] == files[i].has_exif,
        !media::png_name(files[i].name@) && !media::jpeg_name(files[i].name@)
            ==> staging_files::removal_refusal(files) is Some,
        (forall|k: int|
            0 <= k < files.len() ==> (media::png_name((#[trigger] files[k]).name@)
                || media::jpeg_name(files[k].name@))) && staging_files::removals(files)[i]
            ==> staging_files::removal_refusal(files) is None,
{
    lemma_set(staging_files::removals(files), i, files.len() as int);
}

proof fn lemma_set(flags: Seq<bool>, i: int, n: int)
    requires
        0 <= n <= flags.len(),
    ensures
        0 <= i < n && flags[i] ==> staging_files::set_count(flags, n) > 0,
        staging_files::set_count(flags, n) >= 0,
    decreases n,
{
    if n > 0 {
        lemma_set(flags, i, n - 1);
    }
}

/// Flags are counted one by one.
pub proof fn set_flags_are_counted(flags: Seq<bool>, n: int)
    requires
        0 <= n <= flags.len(),
    ensures
        (forall|i: int| 0 <= i < n ==> !#[trigger] flags[i]) <==> staging_files::set_count(
            flags,
            n,
        ) == 0,
        (forall|i: int| 0 <= i < n ==> #[trigger] flags[i]) <==> staging_files::set_count(flags, n)
            == n,
        0 <= staging_files::set_count(flags, n) <= n,
    decreases n,
{
    if n > 0 {
        set_flags_are_counted(flags, n - 1);
        if staging_files::set_count(flags, n) == n {
            assert forall|i: int| 0 <= i < n implies #[trigger] flags[i] by {
                assert(flags[n - 1]);
            }
        }
        if staging_files::set_count(flags, n) == 0 {
            assert forall|i: int| 0 <= i < n implies !#[trigger] flags[i] by {
                assert(!flags[n - 1]);
            }
        }
    }
}

/// Reports say how many files get a value, and how many are left out where some are.
pub proof fn reports_count_the_files(before: Seq<char>, n: nat, after: Seq<char>, skipped: nat)
    ensures
        skipped == 0 ==> staging::staged_report(before, n as int, after, 0) == before
            + text::decimal(n) + after + ". Ctrl+S to save."@,
        skipped > 0 ==> staging::staged_report(before, n as int, after, skipped as int) == before
            + text::decimal(n) + after + "; skipped "@ + text::decimal(skipped)
            + ". Ctrl+S to save."@,
{
    let a = staging::staged_report(before, n as int, after, skipped as int);
    if skipped == 0 {
        assert(a =~= before + text::decimal(n) + after + ". Ctrl+S to save."@);
    } else {
        assert(a =~= before + text::decimal(n) + after + "; skipped "@ + text::decimal(skipped)
            + ". Ctrl+S to save."@);
    }
}

} // verus!
