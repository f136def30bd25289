//! What commands on files and on their metadata come to.
use crate::binary::Endian;
use crate::date_shift::{self, GpsShiftFile, ShiftFile};
use crate::datetime::{self, Moment};
use crate::details_form::{FormModel, DATE_TIME_ORIGINAL, GPS_DATE_TIME, NAME, PNG_CREATION_TIME,
    TAKEN_DATE};
use crate::details_selection::{self, SelectionInfo};
use crate::entries::FileSystemEntry;
use crate::exif::{ExifMetadata, Field};
use crate::exif_build::{self, DecimalReadings, EntryModel};
use crate::exif_edit;
use crate::exif_values;
use crate::file_list::{self, SlintApp};
use crate::file_rows::{FileRow, SelectedEntryDetails};
use crate::file_selection;
use crate::folder;
use crate::form_keys::{self, KeyValue};
use crate::jpeg;
use crate::media::{self, MediaScanJob, MediaScanResult};
use crate::notices;
use crate::path_values;
use crate::paths;
use crate::png::{self, PngDateSources};
use crate::rename_plan::{FrontRearNumberRemovalStats, PlannedRename};
use crate::requests::{self, Extraction};
use crate::save_plan::WriteModel;
use crate::staging::{self, CandidateFile, ChoiceModel};
use crate::staging_files;
use crate::tag_saving::{self, EndModel};
use crate::text;
use crate::tiff;
use vstd::prelude::*;

verus! {

// EXIF data that are made or made anew.

/// EXIF data are made for files without any, and made anew where nothing stands in them
/// but what is made; everything else is refused.
pub proof fn foreign_exif_data_are_not_rewritten(
    bytes: Seq<u8>,
    m: ExifMetadata,
    readings: DecimalReadings,
)
    ensures
        jpeg::exif_tiff_start(bytes) is Some ==> exif_edit::basic_written(bytes, m, readings)
            is Err,
        jpeg::exif_tiff_start(bytes) is None ==> exif_edit::basic_written(bytes, m, readings)
            == exif_edit::rebuilt(bytes, m, readings),
        exif_edit::generated_file(bytes) ==> exif_edit::generated_rewritten(bytes, m, readings)
            == exif_edit::rebuilt(bytes, m, readings),
        !exif_edit::generated_file(bytes) ==> exif_edit::generated_rewritten(bytes, m, readings)
            is Err,
        jpeg::exif_tiff_start(bytes) is None ==> exif_edit::repaired(bytes, m, readings) == Err::<
            Seq<u8>,
            Seq<char>,
        >("EXIF data was not found."@),
        !exif_edit::generated_file(bytes) ==> exif_edit::repaired(bytes, m, readings) is Err,
        jpeg::exif_tiff_start(bytes) is Some && exif_edit::generated_file(bytes)
            ==> exif_edit::repaired(bytes, m, readings) == exif_edit::rebuilt(bytes, m, readings),
{
}

/// A value that is empty, a dash or `N/A` is left out of EXIF data that are made; a value
/// that cannot be read stands against them.
pub proof fn blank_values_are_left_out(value: Seq<char>, v: u16, e: Seq<char>)
    ensures
        text::trim(value).len() == 0 || text::trim(value) == "-"@ || text::trim(value) == "N/A"@
            ==> exif_build::optional(value, Ok::<u16, Seq<char>>(v)) == Ok::<
            Option<u16>,
            Seq<char>,
        >(None) && exif_build::optional(value, Err::<u16, Seq<char>>(e)) == Ok::<
            Option<u16>,
            Seq<char>,
        >(None) && exif_values::entered(value).len() == 0,
        text::trim(value).len() > 0 && text::trim(value) != "-"@ && text::trim(value) != "N/A"@
            ==> exif_build::optional(value, Ok::<u16, Seq<char>>(v)) == Ok::<
            Option<u16>,
            Seq<char>,
        >(Some(v)) && exif_build::optional(value, Err::<u16, Seq<char>>(e)) == Err::<
            Option<u16>,
            Seq<char>,
        >(e) && exif_values::entered(value) == text::trim(value),
{
}

/// Changes are made one after the other: each to what the one before left, until one
/// fails or is left to the caller.
pub proof fn changes_are_made_in_their_order(
    bytes: Seq<u8>,
    writes: Seq<WriteModel>,
    readings: DecimalReadings,
    i: int,
    b: Seq<u8>,
    e: Seq<char>,
)
    requires
        0 <= i < writes.len(),
    ensures
        tag_saving::write_made(bytes, writes[i], readings) == Some(Ok::<Seq<u8>, Seq<char>>(b))
            ==> tag_saving::writes_made(bytes, writes, readings, i) == tag_saving::writes_made(
            b,
            writes,
            readings,
            i + 1,
        ),
        tag_saving::write_made(bytes, writes[i], readings) == Some(Err::<Seq<u8>, Seq<char>>(e))
            ==> tag_saving::writes_made(bytes, writes, readings, i) == (
            bytes,
            EndModel::Failed(e),
        ),
        tag_saving::write_made(bytes, writes[i], readings) is None ==> tag_saving::writes_made(
            bytes,
            writes,
            readings,
            i,
        ) == (bytes, EndModel::Left(i)),
        tag_saving::writes_made(bytes, writes, readings, writes.len() as int) == (
            bytes,
            EndModel::Done,
        ),
        tag_saving::write_made(bytes, WriteModel::RemoveGps, readings) == Some(
            exif_edit::gps_removed(bytes),
        ),
        tag_saving::write_made(bytes, WriteModel::Refuse(e), readings) == Some(
            Err::<Seq<u8>, Seq<char>>(e),
        ),
{
}

/// A text holds another where it stands somewhere in it.
pub proof fn texts_hold_their_parts(before: Seq<char>, part: Seq<char>, after: Seq<char>)
    ensures
        text::contains_text(before + part + after, part),
        before.len() < part.len() ==> !text::contains_text(before, part),
{
    let s = before + part + after;
    let i = before.len() as int;
    assert(s.subrange(i, i + part.len()) =~= part);
}

// Dates.

/// A date that was entered alone stands for its midnight; another text is taken without
/// the blanks around it.
pub proof fn dates_alone_stand_for_midnight(value: Seq<char>, m: Moment)
    requires
        m.hour == 0,
        m.minute == 0,
        m.second == 0,
        m.nano == 0,
    ensures
        datetime::normalized(Some((m.year, m.month, m.day)), value) == datetime::display_text(m),
        datetime::normalized(None, value) == text::trim(value),
        datetime::at_midnight(Some((m.year, m.month, m.day))) == Some(m),
{
}

/// A text is read as a date and a time before it is read as a date alone.
pub proof fn times_of_day_count(value: Seq<char>, m: Moment, d: Moment)
    ensures
        datetime::first_moment(Some(m), Some(d)) == Some(m),
        datetime::first_moment(None, Some(d)) == Some(d),
        datetime::first_moment(Some(m), None) == Some(m),
        datetime::first_moment(None, None) is None,
{
}

/// A creation time is read as Windows writes it, then by the two standards, and then as
/// a date is shown.
pub proof fn creation_times_are_read_in_this_order(
    a: Moment,
    b: Option<Moment>,
    c: Option<Moment>,
    d: Option<Moment>,
)
    ensures
        png::creation_moment(Some(a), b, c, d) == Some(a),
        png::creation_moment(None, Some(a), c, d) == Some(a),
        png::creation_moment(None, None, Some(a), d) == Some(a),
        png::creation_moment(None, None, None, d) == d,
{
}

/// A PNG file has a date where one of its four dates is there.
pub proof fn any_date_is_a_date(bytes: Seq<u8>)
    ensures
        media::png_has_date(bytes) <==> png::png_creation_date(bytes).len() > 0
            || png::png_exif_date(bytes, Field::DateTimeOriginal).len() > 0
            || png::png_exif_date(bytes, Field::DateTimeDigitized).len() > 0
            || png::png_exif_date(bytes, Field::ImageDateTime).len() > 0,
        png::png_exif_date(bytes, Field::DateTimeOriginal).len() > 0 ==> media::png_date(bytes)
            == png::png_exif_date(bytes, Field::DateTimeOriginal),
        png::png_exif_date(bytes, Field::DateTimeOriginal).len() == 0
            && png::png_creation_date(bytes).len() > 0 ==> media::png_date(bytes)
            == png::png_creation_date(bytes),
        png::png_exif_date(bytes, Field::DateTimeOriginal).len() == 0
            && png::png_creation_date(bytes).len() == 0 && png::png_exif_date(
            bytes,
            Field::DateTimeDigitized,
        ).len() > 0 ==> media::png_date(bytes) == png::png_exif_date(
            bytes,
            Field::DateTimeDigitized,
        ),
        !media::png_has_date(bytes) ==> media::png_date(bytes) == "-"@,
{
}

/// A typed time must be there and readable.
pub proof fn typed_times_must_be_read(value: Seq<char>, m: Moment)
    requires
        text::trim(value).len() > 0,
        value != "N/A"@,
        value != "-"@,
    ensures
        staging_files::typed_time(value, Some(m)) == Ok::<Moment, Seq<char>>(m),
        staging_files::typed_time(value, None) is Err,
        staging_files::typed_time("N/A"@, Some(m)) is Err,
        staging_files::typed_time("-"@, Some(m)) is Err,
        staging_files::typed_time(Seq::empty(), Some(m)) is Err,
{
    assert(text::trim(Seq::<char>::empty()).len() == 0) by {
        let none = Seq::<char>::empty();
        crate::text_laws::trimming_takes_the_blanks_away(none, none, none);
        assert(none + none + none =~= none);
    }
}

// Dates for several files.

/// Among files with dates for them, those that take a date, those that have an earlier
/// one and those that get EXIF data are each counted.
pub proof fn choices_are_counted(files: Seq<CandidateFile>, n: int)
    requires
        0 <= n < files.len(),
    ensures
        staging::taken_dates(files).len() == files.len(),
        staging::taken_dates(files)[n] is Some <==> staging::choice(files[n]) is Take,
        staging::choice(files[n]) matches ChoiceModel::Take(d) ==> staging::taken_dates(files)[n]
            == Some(d),
        staging::later_count(files, 0) == 0,
        staging::new_exif_count(files, 0) == 0,
        staging::later_count(files, n + 1) - staging::later_count(files, n) == (
        if staging::choice(files[n]) is Later {
            1int
        } else {
            0
        }),
        staging::new_exif_count(files, n + 1) - staging::new_exif_count(files, n) == (
        if staging::choice(files[n]) is Take && !media::mp4_name(files[n].name@)
            && !media::png_name(files[n].name@) && !files[n].has_exif {
            1int
        } else {
            0
        }),
{
}

/// The date in the name of an only file is taken where the file is of a kind that takes
/// dates, where there is one, and where it is not later than the one that is shown.
pub proof fn the_date_in_an_only_name_is_taken(
    file: CandidateFile,
    shown: Seq<char>,
    kind: Seq<char>,
)
    ensures
        staging::single_name_refusal(file, shown, kind) is None <==> (media::jpeg_name(file.name@)
            || media::png_name(file.name@) || media::mp4_name(file.name@)) && file.candidate is Some
            && datetime::candidate_applies(
            shown,
            datetime::display_datetime(text::trim(shown)),
            datetime::display_datetime((file.candidate->0)@),
        ),
{
}

/// The form shows a date that an only file gets, for a PNG file in each of its dates;
/// EXIF data become available where they are made. For several files it shows none.
pub proof fn staged_dates_open_exif_data(f: FormModel, d: Seq<char>, opens: bool)
    requires
        f.well_formed(),
    ensures
        staging::single_date_staged(f, d, false, opens).value(TAKEN_DATE) == d,
        staging::single_date_staged(f, d, true, opens).value(TAKEN_DATE) == d,
        staging::single_date_staged(f, d, true, opens).value(PNG_CREATION_TIME) == d,
        staging::single_date_staged(f, d, true, opens).value(DATE_TIME_ORIGINAL) == d,
        staging::single_date_staged(f, d, false, opens).exif_available == (f.exif_available
            || opens),
        f.originals[TAKEN_DATE as int] != d ==> staging::single_date_staged(
            f,
            d,
            false,
            opens,
        ).metadata_dirty && staging::single_date_staged(
            f,
            d,
            false,
            opens,
        ).dirty[TAKEN_DATE as int],
        staging::many_dates_staged(f, opens).value(TAKEN_DATE).len() == 0,
        staging::many_dates_staged(f, opens).dirty[TAKEN_DATE as int],
        staging::many_dates_staged(f, opens).metadata_dirty,
        staging::many_dates_staged(f, opens).exif_available == (f.exif_available || opens),
{
    reveal_strlit("");
    let g = staging::single_date_staged(f, d, false, opens);
    if f.originals[TAKEN_DATE as int] != d {
        assert(g.values[TAKEN_DATE as int] != g.originals[TAKEN_DATE as int]);
    }
}

// Values that go with files.

/// A value that is kept for a path goes with its file when that is renamed; the values of
/// other paths stay.
pub proof fn values_go_with_their_files(
    values: Map<Seq<char>, int>,
    renames: Seq<PlannedRename>,
    windows: bool,
    other: Seq<char>,
)
    requires
        renames.len() == 1,
        values.dom().contains(paths::path_id(renames[0].source@.text(), windows)),
        other != paths::path_id(renames[0].source@.text(), windows),
        other != paths::path_id(renames[0].target@.text(), windows),
    ensures
        ({
            let source = paths::path_id(renames[0].source@.text(), windows);
            let target = paths::path_id(renames[0].target@.text(), windows);
            let after = path_values::remapped(values, renames, windows, 1);
            &&& after.dom().contains(target) && after[target] == values[source]
            &&& source != target ==> !after.dom().contains(source)
            &&& after.dom().contains(other) == values.dom().contains(other)
            &&& values.dom().contains(other) ==> after[other] == values[other]
        }),
{
    assert(path_values::remapped(values, renames, windows, 0) == values);
}

/// A path that a rename takes away becomes the one that the rename leads to, and any
/// other stays.
pub proof fn paths_go_with_their_files(
    path: Seq<char>,
    renames: Seq<PlannedRename>,
    windows: bool,
    i: int,
)
    requires
        0 <= i < renames.len(),
        forall|k: int|
            0 <= k < i ==> !paths::same((#[trigger] renames[k]).source@.text(), path, windows),
    ensures
        paths::same(renames[i].source@.text(), path, windows) ==> path_values::path_after(
            path,
            renames,
            windows,
            0,
        ) == renames[i].target@.text(),
        (forall|k: int|
            0 <= k < renames.len() ==> !paths::same(
                (#[trigger] renames[k]).source@.text(),
                path,
                windows,
            )) ==> path_values::path_after(path, renames, windows, 0) == path,
{
    lemma_skips(path, renames, windows, 0, i);
    lemma_stays(path, renames, windows, 0);
}

proof fn lemma_skips(
    path: Seq<char>,
    renames: Seq<PlannedRename>,
    windows: bool,
    from: int,
    to: int,
)
    requires
        0 <= from <= to <= renames.len(),
        forall|k: int|
            from <= k < to ==> !paths::same((#[trigger] renames[k]).source@.text(), path, windows),
    ensures
        path_values::path_after(path, renames, windows, from) == path_values::path_after(
            path,
            renames,
            windows,
            to,
        ),
    decreases to - from,
{
    if from < to {
        assert(!paths::same(renames[from].source@.text(), path, windows));
        lemma_skips(path, renames, windows, from + 1, to);
    }
}

proof fn lemma_stays(path: Seq<char>, renames: Seq<PlannedRename>, windows: bool, from: int)
    requires
        0 <= from <= renames.len(),
    ensures
        (forall|k: int|
            0 <= k < renames.len() ==> !paths::same(
                (#[trigger] renames[k]).source@.text(),
                path,
                windows,
            )) ==> path_values::path_after(path, renames, windows, from) == path,
    decreases renames.len() - from,
{
    if from < renames.len() {
        lemma_stays(path, renames, windows, from + 1);
    }
}

// Selections.

/// A row that is added to a selection and taken away again leaves the selection as it
/// was; no other row changes.
pub proof fn rows_are_added_and_taken_away(s: Seq<i32>, x: i32, y: i32)
    ensures
        file_selection::toggled(s, x).contains(x) <==> !s.contains(x),
        y != x ==> (file_selection::toggled(s, x).contains(y) <==> s.contains(y)),
{
}

/// Each scan has another number than the one before.
pub proof fn scans_have_new_numbers(epoch: u64)
    ensures
        file_selection::next_epoch(epoch) != epoch,
        epoch < u64::MAX ==> file_selection::next_epoch(epoch) == epoch + 1,
{
}

/// The anchor of a selection is its first row.
pub proof fn the_first_row_is_the_anchor(s: Seq<i32>)
    ensures
        s.len() > 0 ==> file_selection::first_selected(s) == Some(s[0]),
        s.len() == 0 ==> file_selection::first_selected(s) is None,
{
}

// Questions and reports.

/// The questions before names are changed tell how many files get a new name, how many
/// are skipped and how many get a number; there is none where no file gets a new name.
pub proof fn questions_count_the_files(stats: FrontRearNumberRemovalStats, count: nat)
    requires
        stats.renameable > 0,
        count > 0,
    ensures
        notices::number_question(stats).1 == "Rename "@ + text::decimal(stats.renameable as nat)
            + " file(s)? "@ + text::decimal(stats.unmatched as nat)
            + " without a matching pattern will be skipped. "@ + text::decimal(
            stats.deduplicated as nat,
        ) + " duplicate result(s) will use _dup001, _dup002, and so on. (Y/N)"@,
        notices::prefix_question(stats).1 == "Rename "@ + text::decimal(stats.renameable as nat)
            + " file(s)? "@ + text::decimal(stats.unmatched as nat)
            + " non-matching file(s) will be skipped. "@ + text::decimal(stats.deduplicated as nat)
            + " collision(s) will use _dupNNN. (Y/N)"@,
        notices::trailing_question(count as int).1
            == "Move the trailing 2- or 3-digit number to the front for "@ + text::decimal(count)
            + " selected file(s)? (Y/N)"@,
        notices::trailing_question(0).0 == "No Matching Files"@,
{
}

/// A thumbnail that could not be written is reported with its file; one that was written
/// without the dates of its file is reported too.
pub proof fn failed_thumbnails_are_reported(path: Seq<char>, e: String, target: String)
    ensures
        requests::extraction_failure(path, Extraction::Complete) is None,
        requests::extraction_failure(path, Extraction::NotJpeg) == Some(
            path + ": not a JPEG file"@,
        ),
        requests::extraction_failure(path, Extraction::Failed(e)) == Some(path + ": "@ + e@),
        requests::extraction_failure(path, Extraction::WithoutDates { target, error: e }) == Some(
            target@ + ": extracted, but file dates could not be copied ("@ + e@ + ")"@,
        ),
{
}

// Further selections.

/// The files without EXIF data are the JPEG files that have none.
pub proof fn files_without_exif_data_are_selected(app: SlintApp, row: int, has_exif: Seq<bool>)
    ensures
        file_selection::lacks_exif(app, row, has_exif) ==> !app.files@[row].is_dir
            && !has_exif[row],
        !app.files@[row].is_dir && app.files@[row].name is Some && media::jpeg_name(
            (app.files@[row].name->0)@,
        ) ==> file_selection::lacks_exif(app, row, has_exif) == !has_exif[row],
{
}

/// A paste replaces a text where a field with a key of it holds more than blanks.
pub proof fn pastes_replace_texts(f: FormModel, values: Seq<KeyValue>, i: int)
    requires
        0 <= i < values.len(),
    ensures
        text::trim(form_keys::key_value(f, values[i].key@)).len() > 0 ==> requests::replaces_text(
            f,
            values,
        ),
        (forall|k: int|
            0 <= k < values.len() ==> text::trim(
                form_keys::key_value(f, (#[trigger] values[k]).key@),
            ).len() == 0) ==> !requests::replaces_text(f, values),
{
}

/// A scan of a file is asked for with its path, its size and the time of its last change.
pub proof fn jobs_tell_the_state_of_the_file(job: MediaScanJob, e: FileSystemEntry)
    requires
        folder::job_for(job, e),
    ensures
        job.path@ == e.path@,
        job.size == e.size,
        job.modified == e.modified,
{
}

/// Of the rows in view each file is scanned once, and no folder.
pub proof fn paths_are_scanned_once(app: SlintApp, rows: Seq<int>, n: int, i: int)
    requires
        0 <= i < n <= rows.len(),
    ensures
        ({
            let p = folder::paths_once(app, rows, n);
            let e = app.files@[file_list::visible(app)[rows[i] - 1]];
            &&& !e.is_dir ==> exists|k: int|
                0 <= k < p.len() && paths::same(#[trigger] p[k], e.path@, app.windows)
            &&& forall|a: int, b: int|
                0 <= a < b < p.len() ==> !paths::same(
                    #[trigger] p[a],
                    #[trigger] p[b],
                    app.windows,
                )
            &&& forall|k: int|
                0 <= k < p.len() ==> exists|j: int|
                    0 <= j < n && !app.files@[file_list::visible(app)[#[trigger] rows[j]
                        - 1]].is_dir && app.files@[file_list::visible(app)[rows[j] - 1]].path@
                        == #[trigger] p[k]
        }),
    decreases n,
{
    let before = folder::paths_once(app, rows, n - 1);
    let p = folder::paths_once(app, rows, n);
    let last = app.files@[file_list::visible(app)[rows[n - 1] - 1]];
    if n - 1 > 0 {
        paths_are_scanned_once(
            app,
            rows,
            n - 1,
            if i < n - 1 {
                i
            } else {
                0
            },
        );
    }
    let e = app.files@[file_list::visible(app)[rows[i] - 1]];
    if !e.is_dir {
        if i < n - 1 {
            let k = choose|k: int|
                0 <= k < before.len() && paths::same(#[trigger] before[k], e.path@, app.windows);
            assert(p[k] == before[k]);
        } else if folder::named(before, last.path@, app.windows) {
            let k = choose|k: int|
                0 <= k < before.len() && paths::same(#[trigger] before[k], e.path@, app.windows);
            assert(p[k] == before[k]);
        } else {
            assert(p[p.len() - 1] == e.path@);
        }
    }
    assert forall|a: int, b: int| 0 <= a < b < p.len() implies !paths::same(
        #[trigger] p[a],
        #[trigger] p[b],
        app.windows,
    ) by {
        assert(p[a] == before[a]);
        if b < before.len() {
            assert(p[b] == before[b]);
        } else {
            assert(p[b] == last.path@);
            assert(!paths::same(before[a], last.path@, app.windows));
        }
    }
    assert forall|k: int| 0 <= k < p.len() implies exists|j: int|
        0 <= j < n && !app.files@[file_list::visible(app)[#[trigger] rows[j] - 1]].is_dir
            && app.files@[file_list::visible(app)[rows[j] - 1]].path@ == #[trigger] p[k] by {
        if k < before.len() {
            assert(p[k] == before[k]);
            let j = choose|j: int|
                0 <= j < n - 1 && !app.files@[file_list::visible(app)[#[trigger] rows[j]
                    - 1]].is_dir && app.files@[file_list::visible(app)[rows[j] - 1]].path@
                    == before[k];
            assert(app.files@[file_list::visible(app)[rows[j] - 1]].path@ == p[k]);
        } else {
            assert(app.files@[file_list::visible(app)[rows[n - 1] - 1]].path@ == p[k]);
        }
    }
}

/// Files of a known kind are those that were scanned and have a kind.
pub proof fn waiting_files_have_no_kind(row: FileRow)
    ensures
        details_selection::known_kind(row) <==> !row.is_dir && row.media_kind@.len() > 0
            && row.media_kind@ != "pending"@,
{
}

/// Of many rows those are counted that stand for an entry; row zero does not.
pub proof fn rows_of_entries_are_counted(taken: Seq<int>, n: int)
    requires
        0 <= n < taken.len(),
    ensures
        details_selection::large_recyclable(taken, 0) == 0,
        taken[n] > 0 ==> details_selection::large_recyclable(taken, n + 1)
            == details_selection::large_recyclable(taken, n) + 1,
        taken[n] == 0 ==> details_selection::large_recyclable(taken, n + 1)
            == details_selection::large_recyclable(taken, n),
{
}

/// Folders and entries without a kind are passed over when kinds are compared.
pub proof fn folders_have_no_kind(entries: Seq<SelectedEntryDetails>, n: int)
    requires
        0 <= n < entries.len(),
    ensures
        entries[n].media_kind@ == ""@ || entries[n].media_kind@ == "folder"@
            ==> details_selection::entry_kinds(entries, n + 1) == details_selection::entry_kinds(
            entries,
            n,
        ),
        entries[n].media_kind@ != ""@ && entries[n].media_kind@ != "folder"@
            ==> details_selection::entry_kinds(entries, n + 1) == details_selection::entry_kinds(
            entries,
            n,
        ).push(entries[n].media_kind@),
        entries[n].media_kind@ == "jpeg"@ ==> details_selection::jpeg_states(entries, n + 1)
            == details_selection::jpeg_states(entries, n).push(entries[n].metadata_status@),
        entries[n].media_kind@ != "jpeg"@ ==> details_selection::jpeg_states(entries, n + 1)
            == details_selection::jpeg_states(entries, n),
{
}

/// The data of up to five selected rows are read; of more rows only their number is
/// shown.
pub proof fn five_rows_are_read(
    before: FormModel,
    after: FormModel,
    r: SelectionInfo,
    indices: Seq<i32>,
    entries: Seq<SelectedEntryDetails>,
    rows: Seq<FileRow>,
    png: Option<PngDateSources>,
    pngs: Seq<PngDateSources>,
)
    requires
        details_selection::shows_selection(
            before,
            after,
            r,
            indices,
            entries,
            rows,
            true,
            png,
            pngs,
        ),
    ensures
        indices.len() == 0 ==> details_selection::shows_nothing(before, after, r),
        indices.len() == 1 && entries.len() > 0 ==> details_selection::shows_entry(
            before,
            after,
            r,
            entries[0],
            indices[0],
            true,
            png,
        ),
        2 <= indices.len() <= 5 ==> details_selection::shows_several(
            before,
            after,
            r,
            indices,
            entries,
            true,
            pngs,
        ),
        indices.len() > 5 ==> details_selection::shows_many(before, after, r, indices, rows),
{
}

/// Many selected rows are shown by their number.
pub proof fn many_rows_are_numbered(
    f: FormModel,
    count: nat,
    taken: Seq<int>,
    rows: Seq<FileRow>,
    m: ExifMetadata,
)
    requires
        f.well_formed(),
    ensures
        details_selection::large_form(f, count as int, taken, rows, m).value(NAME)
            == text::decimal(count) + " items selected"@,
        !details_selection::large_form(f, count as int, taken, rows, m).metadata_dirty,
{
}

// Further dates.

/// Seconds are counted toward zero, before an instant as behind it.
pub proof fn seconds_are_counted_toward_zero(nanos: int, k: int)
    requires
        0 <= k,
        k * 1_000_000_000 <= nanos < (k + 1) * 1_000_000_000,
    ensures
        datetime::whole_seconds(nanos) == k,
        datetime::whole_seconds(-nanos) == -k,
{
    assert(nanos / 1_000_000_000 == k);
}

/// A leap second counts as the second before it for a shift forward, and as the second
/// behind it for a shift back.
pub proof fn leap_seconds_lie_between_their_neighbours(m: Moment, seconds: int)
    ensures
        m.nano < 1_000_000_000 ==> datetime::shift_base(m, seconds) == datetime::timestamp(m),
        m.nano >= 1_000_000_000 && seconds >= 0 ==> datetime::shift_base(m, seconds)
            == datetime::timestamp(m),
        m.nano >= 1_000_000_000 && seconds < 0 ==> datetime::shift_base(m, seconds)
            == datetime::timestamp(m) + 1,
{
}

/// What was entered for GPS data counts for an only file, and where it was changed.
pub proof fn entered_gps_data_count_for_one_file(f: FormModel, files: int)
    ensures
        files != 1 ==> staging::entered_gps(f, files) is None,
        !f.dirty[GPS_DATE_TIME as int] ==> staging::entered_gps(f, files) is None,
        files == 1 && f.dirty[GPS_DATE_TIME as int] ==> staging::entered_gps(f, files) == Some(
            date_shift::parsed_gps(f.value(GPS_DATE_TIME)),
        ),
{
}

/// EXIF data open for several files where all are JPEG files, or where one of these takes
/// a date.
pub proof fn jpeg_files_open_exif_data(files: Seq<CandidateFile>, i: int)
    requires
        0 <= i < files.len(),
    ensures
        !media::jpeg_name(files[i].name@) ==> !staging::only_jpeg(files),
        (forall|k: int| 0 <= k < files.len() ==> media::jpeg_name((#[trigger] files[k]).name@))
            ==> staging::only_jpeg(files),
        media::jpeg_name(files[i].name@) && staging::choice(files[i]) is Take
            ==> staging::jpeg_takes(files),
        (forall|k: int| 0 <= k < files.len() ==> !media::jpeg_name((#[trigger] files[k]).name@))
            ==> !staging::jpeg_takes(files),
{
}

/// Reports on dates tell of new EXIF data first, then of the files that were left out.
pub proof fn reports_tell_of_new_exif_data(n: nat, skipped: nat, new: nat)
    ensures
        new > 0 ==> staging::names_report(n as int, skipped as int, new as int) == "Staged "@
            + text::decimal(n) + " date(s); EXIF will be created for "@ + text::decimal(new)
            + ". Ctrl+S to save."@,
        new == 0 && skipped == 0 ==> staging::names_report(n as int, 0, 0) == "Parsed "@
            + text::decimal(n) + " date(s). Ctrl+S to save."@,
        new == 0 && skipped > 0 ==> staging::names_report(n as int, skipped as int, 0)
            == "Parsed "@ + text::decimal(n) + "; skipped "@ + text::decimal(skipped)
            + ". Ctrl+S to save."@,
        new > 0 ==> staging::times_report(n as int, skipped as int, new as int)
            == "Staged dates for "@ + text::decimal(n) + " files; EXIF will be created for "@
            + text::decimal(new) + ". Ctrl+S to save."@,
        new == 0 && skipped == 0 ==> staging::times_report(n as int, 0, 0)
            == "The earlier file timestamp was staged for "@ + text::decimal(n)
            + " files. Save to apply."@,
{
}

/// The line of a file in the preview of a shift holds its name, its date and the new one.
pub proof fn preview_lines_hold_both_dates(
    files: Seq<ShiftFile>,
    i: int,
    name: String,
    new: Seq<char>,
    seconds: int,
    subtract: bool,
)
    requires
        0 <= i < files.len(),
        files[i].name == Some(name),
        date_shift::media_shift(files[i], seconds, subtract) == Some(new),
    ensures
        date_shift::media_shifts(files, seconds, subtract)[i],
        date_shift::media_lines(files, seconds, subtract)[i] == name@ + ": "@ + files[i].date@
            + "  ->  "@ + new,
{
}

/// The line of a file in the preview of a shift of GPS times holds both in UTC.
pub proof fn gps_preview_lines_hold_both_times(
    files: Seq<GpsShiftFile>,
    i: int,
    name: String,
    present: Seq<char>,
    new: Seq<char>,
    seconds: int,
    subtract: bool,
)
    requires
        0 <= i < files.len(),
        files[i].name == Some(name),
        date_shift::gps_date_time(files[i].name, files[i].date@, files[i].time@) == Some(present),
        date_shift::gps_shift(files[i], seconds, subtract) == Some(new),
    ensures
        date_shift::gps_shifts(files, seconds, subtract)[i],
        date_shift::gps_lines(files, seconds, subtract)[i] == name@ + ": "@ + present
            + " UTC  ->  "@ + new + " UTC"@,
{
}

/// A date counts for duplicates where it is there and was read.
pub proof fn waiting_dates_are_no_dates(d: Seq<char>)
    ensures
        file_list::date_present(d) <==> d.len() > 0 && d != "-"@ && d != "N/A"@ && d
            != "Scanning..."@,
{
}

/// The zone of a date that is shown is the one that was chosen, where the moment is known;
/// else the one that was recorded, or a question.
pub proof fn dates_are_shown_with_their_zone(scan: MediaScanResult, t: i64, minutes: i32)
    ensures
        scan.media_date_utc == Some(t) && datetime::supported_timestamp(t as int) ==> {
            &&& file_list::shown_basis(scan, 2) == "KST"@
            &&& file_list::shown_basis(scan, 1) == "UTC"@
        },
        scan.recorded_offset_minutes is None ==> file_list::shown_basis(scan, 0) == "Local?"@,
        scan.recorded_offset_minutes == Some(minutes) ==> file_list::shown_basis(scan, 0)
            == file_list::offset_label(minutes),
        scan.media_date_utc is None && scan.recorded_offset_minutes is None
            ==> file_list::shown_basis(scan, 2) == "Local?"@ && file_list::shown_basis(scan, 1)
            == "Local?"@,
{
}

// Values of EXIF data that are made.

/// A value that was made from a text: none for a blank one, else what the text stands for.
pub open spec fn made_from<T>(value: Seq<char>, read: Result<T, Seq<char>>, got: Option<T>) -> bool {
    if text::trim(value).len() == 0 || text::trim(value) == "-"@ || text::trim(value) == "N/A"@ {
        got is None
    } else {
        got is Some && read == Ok::<T, Seq<char>>(got->0)
    }
}

/// EXIF data that are made hold what the texts stand for, each in its own field; a text
/// that stands for nothing is refused.
pub proof fn made_values_are_those_of_the_texts(m: ExifMetadata, readings: DecimalReadings)
    ensures
        exif_build::basic_model(m, readings) matches Ok(b) ==> {
            &&& made_from(
                m.orientation@,
                exif_values::orientation_value(m.orientation@),
                b.orientation,
            )
            &&& made_from(
                m.taken_date@,
                datetime::exif_date_of(datetime::known_datetime(m.taken_date@)),
                b.datetime,
            )
            &&& made_from(
                m.shutter_speed@,
                exif_values::rational_value_of(m.shutter_speed@, readings.shutter_speed),
                b.shutter_speed,
            )
            &&& made_from(
                m.aperture@,
                exif_values::aperture_value_of(readings.aperture),
                b.aperture,
            )
            &&& made_from(m.iso_speed@, exif_values::u16_value(m.iso_speed@), b.iso_speed)
            &&& made_from(
                m.metering_mode@,
                exif_values::metering_value(m.metering_mode@),
                b.metering_mode,
            )
            &&& made_from(m.flash_fired@, exif_values::flash_value(m.flash_fired@), b.flash)
            &&& made_from(
                m.focal_length@,
                exif_values::rational_value_of(m.focal_length@, readings.focal_length),
                b.focal_length,
            )
            &&& made_from(
                m.color_space@,
                exif_values::color_space_value(m.color_space@),
                b.color_space,
            )
        },
        !exif_values::is_blank(m.iso_speed@) && exif_values::u16_value(m.iso_speed@) is Err
            ==> exif_build::basic_model(m, readings) is Err,
        !exif_values::is_blank(m.taken_date@) && datetime::known_datetime(m.taken_date@) is None
            ==> exif_build::basic_model(m, readings) is Err,
{
}

/// A text takes at least 64 bytes, so that a longer one finds room later; zeros fill it
/// up.
pub proof fn texts_leave_room(es: Seq<EntryModel>, tag: u16, value: Seq<char>, k: int)
    ensures
        ({
            let e = exif_build::with_text(es, tag, value).last();
            let bytes = vstd::utf8::encode_utf8(exif_values::entered(value));
            &&& exif_build::with_text(es, tag, value).drop_last() == es
            &&& e.tag == tag
            &&& e.field_type == 2
            &&& e.value.len() >= 64
            &&& e.value.len() > bytes.len()
            &&& e.value.take(bytes.len() as int) == bytes
            &&& bytes.len() <= k < e.value.len() ==> e.value[k] == 0
        }),
{
    let t = exif_build::with_text(es, tag, value);
    let bytes = vstd::utf8::encode_utf8(exif_values::entered(value));
    assert(t.drop_last() =~= es);
    assert(t.last().value.take(bytes.len() as int) =~= bytes);
}

/// The units of values take one, two, four or eight bytes by their type; other types have
/// none.
pub proof fn units_take_their_bytes(t: u16)
    ensures
        t == 1 || t == 2 || t == 7 <==> tiff::unit_size(t) == Some(1nat),
        t == 3 <==> tiff::unit_size(t) == Some(2nat),
        t == 4 || t == 9 <==> tiff::unit_size(t) == Some(4nat),
        t == 5 || t == 10 <==> tiff::unit_size(t) == Some(8nat),
{
}

/// A value of up to four bytes is cleared in its entry, and a longer one where its entry
/// leads to, if that is in the file.
pub proof fn values_are_cleared_where_they_stand(
    data: Seq<u8>,
    pos: int,
    endian: Endian,
    unit: nat,
)
    requires
        tiff::unit_size(tiff::type_at(data, pos, endian)) == Some(unit),
    ensures
        ({
            let len = unit * tiff::count_at(data, pos, endian);
            let at = tiff::offset_at(data, pos, endian) as int;
            &&& len <= 4 ==> exif_edit::storage_range(data, pos, endian) == Some((pos + 8, 4int))
            &&& len > 4 && at + len <= data.len() ==> exif_edit::storage_range(data, pos, endian)
                == Some((at, len as int))
            &&& len > 4 && at + len > data.len() ==> exif_edit::storage_range(data, pos, endian)
                is None
        }),
{
}

} // verus!
