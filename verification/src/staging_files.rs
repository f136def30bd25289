//! New names and times of files, and removals, that are saved later.
use crate::date_shift;
use crate::datetime::{self, parse_display_datetime_or_date, Moment};
use crate::details_form::{DetailsForm, FormModel, CREATED, MODIFIED, NAME};
use crate::details_selection;
use crate::exif::ExifMetadata;
use crate::file_actions::Elapsed;
use crate::media::{self, is_jpeg_path, is_png_path};
use crate::notices::{self, check_times, notice, sentence, sentence_of_two, Notice};
use crate::staging;
use crate::text::{self, same_text, trimmed};
use vstd::prelude::*;

verus! {

// Times.

/// A time is before another.
pub open spec fn is_before(a: Elapsed, b: Elapsed) -> bool {
    a.seconds < b.seconds || (a.seconds == b.seconds && a.nanos < b.nanos)
}

/// The earlier of the times that a file has.
pub open spec fn earliest(created: Option<Elapsed>, modified: Option<Elapsed>) -> Option<Elapsed> {
    match (created, modified) {
        (Some(c), Some(m)) => if is_before(m, c) {
            Some(m)
        } else {
            Some(c)
        },
        (Some(c), None) => Some(c),
        (None, m) => m,
    }
}

pub fn earliest_available_timestamp(created: Option<Elapsed>, modified: Option<Elapsed>) -> (r: Option<
    Elapsed,
>)
    ensures
        r == earliest(created, modified),
{
    match (created, modified) {
        (Some(c), Some(m)) => if m.seconds < c.seconds || (m.seconds == c.seconds && m.nanos
            < c.nanos) {
            Some(m)
        } else {
            Some(c)
        },
        (Some(c), None) => Some(c),
        (None, m) => m,
    }
}

/// The date and time that a typed text stands for, or what is wrong with it.
pub open spec fn typed_time(value: Seq<char>, m: Option<Moment>) -> Result<Moment, Seq<char>> {
    if text::trim(value).len() == 0 || value == "N/A"@ || value == "-"@ {
        Err("Invalid timestamp format."@)
    } else {
        match m {
            Some(m) => Ok(m),
            None => Err("Expected datetime format: YYYY-MM-DD or YYYY-MM-DD HH:MM:SS"@),
        }
    }
}

/// The date and time that a typed text stands for, given what was read from it.
pub fn moment_of_timestamp(value: &str, m: Option<Moment>) -> (r: Result<Moment, String>)
    ensures
        match r {
            Ok(v) => typed_time(value@, m) == Ok::<Moment, Seq<char>>(v),
            Err(e) => typed_time(value@, m) == Err::<Moment, Seq<char>>(e@),
        },
{
    if trimmed(value).unicode_len() == 0 || same_text(value, "N/A") || same_text(value, "-") {
        return Err("Invalid timestamp format.".to_owned());
    }
    match m {
        Some(m) => Ok(m),
        None => Err("Expected datetime format: YYYY-MM-DD or YYYY-MM-DD HH:MM:SS".to_owned()),
    }
}

/// The date and time that a typed text stands for. The time zone is not part
/// of it.
pub fn parse_timestamp(value: &str) -> (r: Result<Moment, String>)
    ensures
        match r {
            Ok(v) => typed_time(value@, datetime::display_datetime(value@)) == Ok::<
                Moment,
                Seq<char>,
            >(v),
            Err(e) => typed_time(value@, datetime::display_datetime(value@)) == Err::<
                Moment,
                Seq<char>,
            >(e@),
        },
{
    moment_of_timestamp(value, parse_display_datetime_or_date(value))
}

/// How many flags are set among the first ones.
pub open spec fn set_count(flags: Seq<bool>, n: int) -> int
    decreases n,
{
    if n <= 0 {
        0
    } else {
        set_count(flags, n - 1) + if flags[n - 1] {
            1int
        } else {
            0
        }
    }
}

fn count_set(flags: &[bool]) -> (r: usize)
    ensures
        r == set_count(flags@, flags@.len() as int),
        r <= flags@.len(),
{
    let n: usize = flags.len();
    let mut count: usize = 0;
    let mut i: usize = 0;
    while i < n
        invariant
            i <= n,
            n == flags@.len(),
            count <= i,
            count == set_count(flags@, i as int),
        decreases n - i,
    {
        if flags[i] {
            count += 1;
        }
        i += 1;
    }
    count
}

/// Why the times of modification cannot be set.
pub open spec fn modified_refusal(
    f: FormModel,
    recyclable: int,
    known: Seq<bool>,
    readable: bool,
) -> Option<Seq<char>> {
    match notices::times_refusal(
        f.selected_file_count as int,
        recyclable,
        known.len() as int,
        "Select files before setting Modified Date."@,
    ) {
        Some(t) => Some(t),
        None => if known.len() == 1 {
            if readable {
                None
            } else {
                Some("Selected file created date could not be resolved."@)
            }
        } else if set_count(known, known.len() as int) == 0 {
            Some("Selected file created dates could not be resolved."@)
        } else {
            None
        },
    }
}

/// The form after the times of modification were set to those of creation.
pub open spec fn modified_staged(f: FormModel, files: int) -> FormModel {
    if files == 1 {
        f.with_value(MODIFIED, f.value(CREATED)).counted()
    } else {
        FormModel {
            metadata_dirty: true,
            ..f.with_value(MODIFIED, ""@).with_status(MODIFIED, "Mixed"@).with_dirty(MODIFIED, true)
        }
    }
}

/// Sets the times of modification of files to those of creation: `known` says
/// for which files these can be read, `readable` whether the text in the form
/// is such a time.
pub fn set_modified_date_from_created_date(
    form: &mut DetailsForm,
    recyclable: i32,
    known: &[bool],
    readable: bool,
) -> (r: Result<Option<String>, Notice>)
    requires
        old(form)@.well_formed(),
    ensures
        match r {
            Err(n) => n@.0 == "Unable to Set Modified Date"@ && modified_refusal(
                old(form)@,
                recyclable as int,
                known@,
                readable,
            ) == Some(n@.1) && *final(form) == *old(form),
            Ok(toast) => {
                &&& modified_refusal(old(form)@, recyclable as int, known@, readable) is None
                &&& final(form)@ == modified_staged(old(form)@, known@.len() as int)
                &&& date_shift::text_view(toast) == if known@.len() == 1 {
                    None
                } else {
                    let count = set_count(known@, known@.len() as int);
                    Some(
                        if count == known@.len() {
                            notices::with_number(
                                "Staged "@,
                                count,
                                " modified date(s). Ctrl+S to save."@,
                            )
                        } else {
                            notices::with_numbers(
                                "Staged "@,
                                count,
                                "; skipped "@,
                                known@.len() - count,
                                ". Ctrl+S to save."@,
                            )
                        },
                    )
                }
            },
        },
        final(form)@.well_formed(),
{
    let title = "Unable to Set Modified Date";
    let n: usize = known.len();
    match check_times(
        form.selected_file_count,
        recyclable,
        n,
        "Select files before setting Modified Date.",
    ) {
        Some(text) => {
            return Err(Notice { title: title.to_owned(), text });
        },
        None => {},
    }
    if n == 1 {
        if !readable {
            return Err(notice(title, "Selected file created date could not be resolved."));
        }
        let created = form.value(CREATED).to_owned();
        form.set_value(MODIFIED, created.as_str());
        form.update_metadata_dirty_state();
        return Ok(None);
    }
    let count: usize = count_set(known);
    if count == 0 {
        return Err(notice(title, "Selected file created dates could not be resolved."));
    }
    form.set_value(MODIFIED, "");
    form.set_status(MODIFIED, "Mixed");
    form.set_dirty(MODIFIED, true);
    form.metadata_dirty = true;
    let toast = if count == n {
        sentence("Staged ", count, " modified date(s). Ctrl+S to save.")
    } else {
        sentence_of_two("Staged ", count, "; skipped ", n - count, ". Ctrl+S to save.")
    };
    Ok(Some(toast))
}

/// Why the times of files cannot be set to their media dates.
pub open spec fn file_dates_refusal(f: FormModel, recyclable: int, dates: Seq<Option<Seq<char>>>) -> Option<
    Seq<char>,
> {
    match notices::times_refusal(
        f.selected_file_count as int,
        recyclable,
        dates.len() as int,
        "Select files before setting file dates."@,
    ) {
        Some(t) => Some(t),
        None => if staging::staged_count(dates, dates.len() as int) == 0 {
            Some("No selected file has a usable Media Date."@)
        } else {
            None
        },
    }
}

/// The form after the times of files were set to their media dates.
pub open spec fn file_dates_staged(f: FormModel, dates: Seq<Option<Seq<char>>>) -> FormModel {
    let (value, status) = match staging::last_staged(dates, dates.len() as int) {
        Some(d) if dates.len() == 1 => (d, ""@),
        _ => (""@, "Mixed"@),
    };
    FormModel {
        metadata_dirty: true,
        ..f.with_value(CREATED, value).with_value(MODIFIED, value).with_status(
            CREATED,
            status,
        ).with_status(MODIFIED, status).with_dirty(CREATED, true).with_dirty(MODIFIED, true)
    }
}

/// Sets the times of files to their media dates; a file whose date is no time
/// has none here.
pub fn set_file_dates_from_media_date(
    form: &mut DetailsForm,
    recyclable: i32,
    dates: &Vec<Option<String>>,
) -> (r: Result<String, Notice>)
    requires
        old(form)@.well_formed(),
    ensures
        match r {
            Err(n) => n@.0 == "Unable to Set File Dates"@ && file_dates_refusal(
                old(form)@,
                recyclable as int,
                staging::text_options(dates@),
            ) == Some(n@.1) && *final(form) == *old(form),
            Ok(toast) => {
                let options = staging::text_options(dates@);
                let count = staging::staged_count(options, options.len() as int);
                &&& file_dates_refusal(old(form)@, recyclable as int, options) is None
                &&& final(form)@ == file_dates_staged(old(form)@, options)
                &&& toast@ == if count == dates@.len() {
                    notices::with_number(
                        "Staged Created and Modified dates for "@,
                        count,
                        " file(s). Ctrl+S to save."@,
                    )
                } else {
                    notices::with_numbers(
                        "Staged "@,
                        count,
                        "; skipped "@,
                        dates@.len() - count,
                        " without Media Date. Ctrl+S to save."@,
                    )
                }
            },
        },
        final(form)@.well_formed(),
{
    let title = "Unable to Set File Dates";
    let n: usize = dates.len();
    match check_times(
        form.selected_file_count,
        recyclable,
        n,
        "Select files before setting file dates.",
    ) {
        Some(text) => {
            return Err(Notice { title: title.to_owned(), text });
        },
        None => {},
    }
    let count: usize = staging::count_staged(dates);
    if count == 0 {
        return Err(notice(title, "No selected file has a usable Media Date."));
    }
    match staging::find_last_staged(dates) {
        Some(d) if n == 1 => {
            show_times(form, d.as_str(), "");
        },
        _ => {
            show_times(form, "", "Mixed");
        },
    }
    let toast = if count == n {
        sentence("Staged Created and Modified dates for ", count, " file(s). Ctrl+S to save.")
    } else {
        sentence_of_two(
            "Staged ",
            count,
            "; skipped ",
            n - count,
            " without Media Date. Ctrl+S to save.",
        )
    };
    Ok(toast)
}

fn show_times(form: &mut DetailsForm, value: &str, status: &str)
    requires
        old(form)@.well_formed(),
    ensures
        final(form)@ == (FormModel {
            metadata_dirty: true,
            ..old(form)@.with_value(CREATED, value@).with_value(MODIFIED, value@).with_status(
                CREATED,
                status@,
            ).with_status(MODIFIED, status@).with_dirty(CREATED, true).with_dirty(MODIFIED, true)
        }),
        final(form)@.well_formed(),
{
    form.set_value(CREATED, value);
    form.set_value(MODIFIED, value);
    form.set_status(CREATED, status);
    form.set_status(MODIFIED, status);
    form.set_dirty(CREATED, true);
    form.set_dirty(MODIFIED, true);
    form.metadata_dirty = true;
}

// Names.

/// A file and the name that its media date gives, if it gives one.
#[derive(Debug)]
pub struct NameChoice {
    pub current: String,
    pub dated: Option<String>,
}

/// The names that files get; a file keeps a name that is right already.
pub open spec fn new_names(files: Seq<NameChoice>) -> Seq<Option<Seq<char>>> {
    Seq::new(
        files.len(),
        |i: int|
            match files[i].dated {
                Some(n) => if n@ == files[i].current@ {
                    None
                } else {
                    Some(n@)
                },
                None => None,
            },
    )
}

/// Whether files can be named after their media dates.
pub fn check_names_from_dates(files: usize) -> (r: Option<Notice>)
    ensures
        match r {
            Some(n) => files == 0 && n@ == (
                "Unable to Set Filename"@,
                "Select one or more files before setting filenames from Media Date."@,
            ),
            None => files > 0,
        },
{
    if files == 0 {
        return Some(
            notice(
                "Unable to Set Filename",
                "Select one or more files before setting filenames from Media Date.",
            ),
        );
    }
    None
}

/// Gives an only file the name of its media date, or says why it has none.
pub fn stage_filename(form: &mut DetailsForm, name: Result<String, String>) -> (r: Option<Notice>)
    requires
        old(form)@.well_formed(),
    ensures
        match name {
            Ok(t) => r is None && final(form)@ == old(form)@.with_value(NAME, t@).counted(),
            Err(e) => r matches Some(n) && n@ == ("Unable to Set Filename"@, e@) && *final(form)
                == *old(form),
        },
        final(form)@.well_formed(),
{
    match name {
        Ok(t) => {
            form.set_value(NAME, t.as_str());
            form.update_metadata_dirty_state();
            None
        },
        Err(e) => Some(Notice { title: "Unable to Set Filename".to_owned(), text: e }),
    }
}

/// The form after several files got new names.
pub open spec fn names_staged(f: FormModel) -> FormModel {
    FormModel {
        metadata_dirty: true,
        ..f.with_value(NAME, ""@).with_status(NAME, "Mixed"@).with_dirty(NAME, true)
    }
}

/// Gives several files the names of their media dates.
pub fn stage_filenames(form: &mut DetailsForm, files: &[NameChoice]) -> (r: Result<
    (Vec<Option<String>>, String),
    Notice,
>)
    requires
        old(form)@.well_formed(),
    ensures
        ({
            let names = new_names(files@);
            let count = staging::staged_count(names, names.len() as int);
            match r {
                Err(n) => count == 0 && n@ == (
                    "Unable to Set Filename"@,
                    "No selected file has a usable Media Date or requires renaming."@,
                ) && *final(form) == *old(form),
                Ok((v, toast)) => {
                    &&& count > 0
                    &&& staging::text_options(v@) == names
                    &&& final(form)@ == names_staged(old(form)@)
                    &&& toast@ == if count == files@.len() {
                        notices::with_number("Staged "@, count, " filename(s). Ctrl+S to save."@)
                    } else {
                        notices::with_numbers(
                            "Staged "@,
                            count,
                            "; skipped "@,
                            files@.len() - count,
                            ". Ctrl+S to save."@,
                        )
                    }
                },
            }
        }),
        final(form)@.well_formed(),
{
    let n: usize = files.len();
    let ghost names = new_names(files@);
    let mut out: Vec<Option<String>> = Vec::new();
    let mut i: usize = 0;
    while i < n
        invariant
            i <= n,
            n == files@.len(),
            names == new_names(files@),
            out@.len() == i,
            forall|k: int| 0 <= k < i ==> date_shift::text_view(#[trigger] out@[k]) == names[k],
        decreases n - i,
    {
        let name = match &files[i].dated {
            Some(d) => if same_text(d.as_str(), files[i].current.as_str()) {
                None
            } else {
                Some(d.clone())
            },
            None => None,
        };
        out.push(name);
        i += 1;
    }
    assert(staging::text_options(out@) =~= names);
    let count: usize = staging::count_staged(&out);
    if count == 0 {
        return Err(
            notice(
                "Unable to Set Filename",
                "No selected file has a usable Media Date or requires renaming.",
            ),
        );
    }
    form.set_value(NAME, "");
    form.set_status(NAME, "Mixed");
    form.set_dirty(NAME, true);
    form.metadata_dirty = true;
    let toast = if count == n {
        sentence("Staged ", count, " filename(s). Ctrl+S to save.")
    } else {
        sentence_of_two("Staged ", count, "; skipped ", n - count, ". Ctrl+S to save.")
    };
    Ok((out, toast))
}

// Removing metadata.

/// A file whose metadata may be removed: whether a JPEG file has EXIF data, or a
/// PNG file a date.
#[derive(Debug)]
pub struct RemovalFile {
    pub name: String,
    pub has_exif: bool,
    pub has_date: bool,
}

pub open spec fn removable(file: RemovalFile) -> bool {
    if media::png_name(file.name@) {
        file.has_date
    } else {
        file.has_exif
    }
}

pub open spec fn removals(files: Seq<RemovalFile>) -> Seq<bool> {
    Seq::new(files.len(), |i: int| removable(files[i]))
}

/// Why no metadata are removed.
pub open spec fn removal_refusal(files: Seq<RemovalFile>) -> Option<(Seq<char>, Seq<char>)> {
    if files.len() == 0 {
        Some(("Remove Metadata Failed"@, "Select JPEG or PNG files first."@))
    } else if exists|i: int|
        0 <= i < files.len() && !media::jpeg_name((#[trigger] files[i]).name@)
            && !media::png_name(files[i].name@) {
        Some(
            (
                "Remove Metadata Failed"@,
                "Metadata removal is supported for JPEG and PNG files only."@,
            ),
        )
    } else if set_count(removals(files), files.len() as int) == 0 {
        Some(
            (
                "Remove Metadata"@,
                "The selected files do not contain removable metadata."@,
            ),
        )
    } else {
        None
    }
}

/// Marks the files whose metadata are removed.
pub fn remove_exif_tags(form: &mut DetailsForm, files: &[RemovalFile]) -> (r: Result<
    (Vec<bool>, String),
    Notice,
>)
    requires
        old(form)@.well_formed(),
    ensures
        match r {
            Err(n) => removal_refusal(files@) == Some(n@) && *final(form) == *old(form),
            Ok((marks, toast)) => {
                &&& removal_refusal(files@) is None
                &&& marks@ == removals(files@)
                &&& exists|m: ExifMetadata|
                    #![trigger details_selection::blank(m, false)]
                    details_selection::blank(m, false) && final(form)@ == (FormModel {
                        exif_available: false,
                        metadata_dirty: true,
                        ..old(form)@.showing(m)
                    })
                &&& toast@ == notices::with_number(
                    "Staged metadata removal for "@,
                    set_count(removals(files@), files@.len() as int),
                    " file(s). Ctrl+S to save."@,
                )
            },
        },
        final(form)@.well_formed(),
{
    let n: usize = files.len();
    if n == 0 {
        return Err(notice("Remove Metadata Failed", "Select JPEG or PNG files first."));
    }
    let ghost wanted = removals(files@);
    let mut marks: Vec<bool> = Vec::new();
    let mut i: usize = 0;
    while i < n
        invariant
            form@.well_formed(),
            i <= n,
            n == files@.len(),
            wanted == removals(files@),
            marks@.len() == i,
            forall|k: int| 0 <= k < i ==> #[trigger] marks@[k] == wanted[k],
            forall|k: int|
                0 <= k < i ==> media::jpeg_name((#[trigger] files@[k]).name@) || media::png_name(
                    files@[k].name@,
                ),
        decreases n - i,
    {
        let file = &files[i];
        let png = is_png_path(file.name.as_str());
        if !png && !is_jpeg_path(file.name.as_str()) {
            assert(!media::jpeg_name(files@[i as int].name@) && !media::png_name(
                files@[i as int].name@,
            ));
            return Err(
                notice(
                    "Remove Metadata Failed",
                    "Metadata removal is supported for JPEG and PNG files only.",
                ),
            );
        }
        marks.push(
            if png {
                file.has_date
            } else {
                file.has_exif
            },
        );
        i += 1;
    }
    assert(marks@ =~= wanted);
    let count: usize = count_set(marks.as_slice());
    if count == 0 {
        return Err(
            notice("Remove Metadata", "The selected files do not contain removable metadata."),
        );
    }
    let none = ExifMetadata::default();
    form.set_exif_metadata(&none);
    form.exif_available = false;
    form.metadata_dirty = true;
    assert(details_selection::blank(none, false));
    let toast = sentence("Staged metadata removal for ", count, " file(s). Ctrl+S to save.");
    Ok((marks, toast))
}

} // verus!
