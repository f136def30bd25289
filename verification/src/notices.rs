//! The texts that report on actions, and the conditions of simple actions.
use crate::media::{self, is_jpeg_path};
use crate::rename_plan::FrontRearNumberRemovalStats;
use crate::text::{self, decimal_text};
use vstd::prelude::*;

verus! {

/// A message with its title.
#[derive(Debug)]
pub struct Notice {
    pub title: String,
    pub text: String,
}

impl View for Notice {
    type V = (Seq<char>, Seq<char>);

    open spec fn view(&self) -> (Seq<char>, Seq<char>) {
        (self.title@, self.text@)
    }
}

pub fn notice(title: &str, text: &str) -> (r: Notice)
    ensures
        r@ == (title@, text@),
{
    Notice { title: title.to_owned(), text: text.to_owned() }
}

/// A sentence with one number.
pub open spec fn with_number(a: Seq<char>, n: int, b: Seq<char>) -> Seq<char> {
    a + text::decimal(n as nat) + b
}

/// A sentence with two numbers.
pub open spec fn with_numbers(a: Seq<char>, n: int, b: Seq<char>, k: int, c: Seq<char>) -> Seq<char> {
    with_number(a, n, b) + text::decimal(k as nat) + c
}

/// A sentence with three numbers.
pub open spec fn with_three_numbers(
    a: Seq<char>,
    n: int,
    b: Seq<char>,
    k: int,
    c: Seq<char>,
    m: int,
    d: Seq<char>,
) -> Seq<char> {
    with_numbers(a, n, b, k, c) + text::decimal(m as nat) + d
}

pub(crate) fn sentence(a: &str, n: usize, b: &str) -> (r: String)
    ensures
        r@ == with_number(a@, n as int, b@),
{
    let mut out = a.to_owned();
    out.append(decimal_text(n as u64).as_str());
    out.append(b);
    out
}

pub(crate) fn sentence_of_two(a: &str, n: usize, b: &str, k: usize, c: &str) -> (r: String)
    ensures
        r@ == with_numbers(a@, n as int, b@, k as int, c@),
{
    let mut out = sentence(a, n, b);
    out.append(decimal_text(k as u64).as_str());
    out.append(c);
    out
}

fn sentence_of_three(a: &str, n: usize, b: &str, k: usize, c: &str, m: usize, d: &str) -> (r: String)
    ensures
        r@ == with_three_numbers(a@, n as int, b@, k as int, c@, m as int, d@),
{
    let mut out = sentence_of_two(a, n, b, k, c);
    out.append(decimal_text(m as u64).as_str());
    out.append(d);
    out
}

// Changing the names of many files.

/// What is asked before numbers are moved to the front of names.
pub open spec fn trailing_question(count: int) -> (Seq<char>, Seq<char>) {
    if count == 0 {
        (
            "No Matching Files"@,
            "None of the selected files end with a delimited 2- or 3-digit number."@,
        )
    } else {
        (
            "Confirm Filename Change"@,
            with_number(
                "Move the trailing 2- or 3-digit number to the front for "@,
                count,
                " selected file(s)? (Y/N)"@,
            ),
        )
    }
}

pub fn confirm_trailing_numbers(count: usize) -> (r: Notice)
    ensures
        r@ == trailing_question(count as int),
{
    if count == 0 {
        return notice(
            "No Matching Files",
            "None of the selected files end with a delimited 2- or 3-digit number.",
        );
    }
    Notice {
        title: "Confirm Filename Change".to_owned(),
        text: sentence(
            "Move the trailing 2- or 3-digit number to the front for ",
            count,
            " selected file(s)? (Y/N)",
        ),
    }
}

/// What is asked before numbers are taken away from names.
pub open spec fn number_question(stats: FrontRearNumberRemovalStats) -> (Seq<char>, Seq<char>) {
    if stats.renameable == 0 {
        (
            "No Files Renamed"@,
            "None of the selected files begin or end with an underscored 2- or 3-digit number."@,
        )
    } else {
        (
            "Confirm Filename Change"@,
            with_three_numbers(
                "Rename "@,
                stats.renameable as int,
                " file(s)? "@,
                stats.unmatched as int,
                " without a matching pattern will be skipped. "@,
                stats.deduplicated as int,
                " duplicate result(s) will use _dup001, _dup002, and so on. (Y/N)"@,
            ),
        )
    }
}

pub fn confirm_number_removal(stats: &FrontRearNumberRemovalStats) -> (r: Notice)
    ensures
        r@ == number_question(*stats),
{
    if stats.renameable == 0 {
        return notice(
            "No Files Renamed",
            "None of the selected files begin or end with an underscored 2- or 3-digit number.",
        );
    }
    Notice {
        title: "Confirm Filename Change".to_owned(),
        text: sentence_of_three(
            "Rename ",
            stats.renameable,
            " file(s)? ",
            stats.unmatched,
            " without a matching pattern will be skipped. ",
            stats.deduplicated,
            " duplicate result(s) will use _dup001, _dup002, and so on. (Y/N)",
        ),
    }
}

/// What is asked before prefixes are taken away from names.
pub open spec fn prefix_question(stats: FrontRearNumberRemovalStats) -> (Seq<char>, Seq<char>) {
    if stats.renameable == 0 {
        (
            "No Files Renamed"@,
            "None of the selected filenames begin with IMG_ or VID_."@,
        )
    } else {
        (
            "Confirm Filename Change"@,
            with_three_numbers(
                "Rename "@,
                stats.renameable as int,
                " file(s)? "@,
                stats.unmatched as int,
                " non-matching file(s) will be skipped. "@,
                stats.deduplicated as int,
                " collision(s) will use _dupNNN. (Y/N)"@,
            ),
        )
    }
}

pub fn confirm_prefix_removal(stats: &FrontRearNumberRemovalStats) -> (r: Notice)
    ensures
        r@ == prefix_question(*stats),
{
    if stats.renameable == 0 {
        return notice(
            "No Files Renamed",
            "None of the selected filenames begin with IMG_ or VID_.",
        );
    }
    Notice {
        title: "Confirm Filename Change".to_owned(),
        text: sentence_of_three(
            "Rename ",
            stats.renameable,
            " file(s)? ",
            stats.unmatched,
            " non-matching file(s) will be skipped. ",
            stats.deduplicated,
            " collision(s) will use _dupNNN. (Y/N)",
        ),
    }
}

/// Whether the names of the selected files can be changed.
pub fn check_rename(files: usize) -> (r: Option<Notice>)
    ensures
        match r {
            Some(n) => files == 0 && n@ == (
                "No Files Selected"@,
                "Select one or more files first."@,
            ),
            None => files > 0,
        },
{
    if files == 0 {
        return Some(notice("No Files Selected", "Select one or more files first."));
    }
    None
}

/// The question before numbers are moved to the front of names, or why there is
/// none; and whether it is one.
pub fn request_trailing_numbers(files: usize, count: Result<usize, String>) -> (r: (Notice, bool))
    ensures
        r.1 == (files > 0 && (count matches Ok(n) && n > 0)),
        files == 0 ==> r.0@ == ("No Files Selected"@, "Select one or more files first."@),
        files > 0 ==> match count {
            Err(e) => r.0@ == ("Filename Change Failed"@, e@),
            Ok(n) => r.0@ == trailing_question(n as int),
        },
{
    match check_rename(files) {
        Some(n) => (n, false),
        None => match count {
            Err(e) => (Notice { title: "Filename Change Failed".to_owned(), text: e }, false),
            Ok(n) => (confirm_trailing_numbers(n), n > 0),
        },
    }
}

/// The question before numbers are taken away from names, or why there is none;
/// and whether it is one.
pub fn request_number_removal(
    files: usize,
    stats: Result<FrontRearNumberRemovalStats, String>,
) -> (r: (Notice, bool))
    ensures
        r.1 == (files > 0 && (stats matches Ok(s) && s.renameable > 0)),
        files == 0 ==> r.0@ == ("No Files Selected"@, "Select one or more files first."@),
        files > 0 ==> match stats {
            Err(e) => r.0@ == ("Filename Change Failed"@, e@),
            Ok(s) => r.0@ == number_question(s),
        },
{
    match check_rename(files) {
        Some(n) => (n, false),
        None => match stats {
            Err(e) => (Notice { title: "Filename Change Failed".to_owned(), text: e }, false),
            Ok(s) => (confirm_number_removal(&s), s.renameable > 0),
        },
    }
}

/// The question before prefixes are taken away from names, or why there is none;
/// and whether it is one.
pub fn request_prefix_removal(
    files: usize,
    stats: Result<FrontRearNumberRemovalStats, String>,
) -> (r: (Notice, bool))
    ensures
        r.1 == (files > 0 && (stats matches Ok(s) && s.renameable > 0)),
        files == 0 ==> r.0@ == ("No Files Selected"@, "Select one or more files first."@),
        files > 0 ==> match stats {
            Err(e) => r.0@ == ("Filename Change Failed"@, e@),
            Ok(s) => r.0@ == prefix_question(s),
        },
{
    match check_rename(files) {
        Some(n) => (n, false),
        None => match stats {
            Err(e) => (Notice { title: "Filename Change Failed".to_owned(), text: e }, false),
            Ok(s) => (confirm_prefix_removal(&s), s.renameable > 0),
        },
    }
}

pub fn trailing_numbers_moved(count: usize) -> (r: Notice)
    ensures
        r@ == ("Filename Change Complete"@, with_number("Renamed "@, count as int, " file(s)."@)),
{
    Notice {
        title: "Filename Change Complete".to_owned(),
        text: sentence("Renamed ", count, " file(s)."),
    }
}

pub fn numbers_removed(stats: &FrontRearNumberRemovalStats) -> (r: Notice)
    ensures
        r@ == (
            "Filename Change Complete"@,
            with_three_numbers(
                "Renamed "@,
                stats.renameable as int,
                " file(s). Skipped "@,
                stats.unmatched as int,
                " without a matching pattern. Resolved "@,
                stats.deduplicated as int,
                " duplicate filename(s) with numbered suffixes."@,
            ),
        ),
{
    Notice {
        title: "Filename Change Complete".to_owned(),
        text: sentence_of_three(
            "Renamed ",
            stats.renameable,
            " file(s). Skipped ",
            stats.unmatched,
            " without a matching pattern. Resolved ",
            stats.deduplicated,
            " duplicate filename(s) with numbered suffixes.",
        ),
    }
}

pub fn prefixes_removed(stats: &FrontRearNumberRemovalStats) -> (r: Notice)
    ensures
        r@ == (
            "Filename Change Complete"@,
            with_three_numbers(
                "Renamed "@,
                stats.renameable as int,
                " file(s). Skipped "@,
                stats.unmatched as int,
                ". Resolved "@,
                stats.deduplicated as int,
                " filename collision(s)."@,
            ),
        ),
{
    Notice {
        title: "Filename Change Complete".to_owned(),
        text: sentence_of_three(
            "Renamed ",
            stats.renameable,
            " file(s). Skipped ",
            stats.unmatched,
            ". Resolved ",
            stats.deduplicated,
            " filename collision(s).",
        ),
    }
}

// Creating EXIF data.

/// All names are names of JPEG files.
pub open spec fn all_jpeg(names: Seq<String>) -> bool {
    forall|i: int| 0 <= i < names.len() ==> media::jpeg_name((#[trigger] names[i])@)
}

pub(crate) fn check_all_jpeg(names: &[String]) -> (r: bool)
    ensures
        r == all_jpeg(names@),
{
    let n: usize = names.len();
    let mut i: usize = 0;
    while i < n
        invariant
            i <= n,
            n == names@.len(),
            forall|k: int| 0 <= k < i ==> media::jpeg_name((#[trigger] names@[k])@),
        decreases n - i,
    {
        if !is_jpeg_path(names[i].as_str()) {
            return false;
        }
        i += 1;
    }
    true
}

/// Why no EXIF data can be created for the selected files.
pub open spec fn creation_refusal(selected: int, names: Seq<String>) -> Option<Seq<char>> {
    if selected == 0 {
        Some("Select a file before creating EXIF."@)
    } else if names.len() == 0 {
        Some("Selected file could not be resolved."@)
    } else if !all_jpeg(names) {
        Some("Creating an EXIF structure is supported for JPEG files only."@)
    } else {
        None
    }
}

/// Whether EXIF data can be created for the selected files.
pub fn check_exif_creation(selected: i32, names: &[String]) -> (r: Option<Notice>)
    ensures
        match r {
            Some(n) => n@.0 == "Create EXIF Failed"@ && creation_refusal(selected as int, names@)
                == Some(n@.1),
            None => creation_refusal(selected as int, names@) is None,
        },
{
    if selected == 0 {
        return Some(notice("Create EXIF Failed", "Select a file before creating EXIF."));
    }
    if names.len() == 0 {
        return Some(notice("Create EXIF Failed", "Selected file could not be resolved."));
    }
    if !check_all_jpeg(names) {
        return Some(
            notice(
                "Create EXIF Failed",
                "Creating an EXIF structure is supported for JPEG files only.",
            ),
        );
    }
    None
}

/// The report on the creation of EXIF data.
pub fn exif_created(created: usize, skipped: usize, first: &str) -> (r: Notice)
    ensures
        r@ == if created == 0 {
            ("Create EXIF"@, "EXIF is already available for the selected files."@)
        } else if created == 1 && skipped == 0 {
            ("EXIF File Created"@, "Created "@ + first@)
        } else if skipped == 0 {
            (
                "EXIF Files Created"@,
                with_number("Created EXIF files for "@, created as int, " selected files."@),
            )
        } else {
            (
                "EXIF Files Created"@,
                with_numbers(
                    "Created EXIF files for "@,
                    created as int,
                    " selected files. Skipped "@,
                    skipped as int,
                    " files that already had EXIF."@,
                ),
            )
        },
{
    if created == 0 {
        return notice("Create EXIF", "EXIF is already available for the selected files.");
    }
    if created == 1 && skipped == 0 {
        let mut text = "Created ".to_owned();
        text.append(first);
        return Notice { title: "EXIF File Created".to_owned(), text };
    }
    let text = if skipped == 0 {
        sentence("Created EXIF files for ", created, " selected files.")
    } else {
        sentence_of_two(
            "Created EXIF files for ",
            created,
            " selected files. Skipped ",
            skipped,
            " files that already had EXIF.",
        )
    };
    Notice { title: "EXIF Files Created".to_owned(), text }
}

// Thumbnails.

/// The report on the extraction of thumbnails; the first failure is shown.
pub fn thumbnails_extracted(extracted: usize, failures: &[String]) -> (r: Notice)
    ensures
        r@ == if failures@.len() == 0 {
            (
                "Thumbnail Extraction Complete"@,
                with_number(
                    "Extracted "@,
                    extracted as int,
                    " thumbnail file(s) with the original EXIF metadata."@,
                ),
            )
        } else {
            (
                if extracted == 0 {
                    "Thumbnail Extraction Failed"@
                } else {
                    "Thumbnail Extraction Complete"@
                },
                with_numbers(
                    "Extracted "@,
                    extracted as int,
                    "; skipped "@,
                    failures@.len() as int,
                    ".\n"@,
                ) + failures@[0]@,
            )
        },
{
    if failures.len() == 0 {
        return Notice {
            title: "Thumbnail Extraction Complete".to_owned(),
            text: sentence(
                "Extracted ",
                extracted,
                " thumbnail file(s) with the original EXIF metadata.",
            ),
        };
    }
    let mut text = sentence_of_two("Extracted ", extracted, "; skipped ", failures.len(), ".\n");
    text.append(failures[0].as_str());
    let title = if extracted == 0 {
        "Thumbnail Extraction Failed".to_owned()
    } else {
        "Thumbnail Extraction Complete".to_owned()
    };
    Notice { title, text }
}

// Conditions of simple actions.

/// Why files cannot be copied: some of what is selected is a folder, or nothing
/// is selected.
pub open spec fn copy_refusal(recyclable: int, files: int, resolved: int) -> Option<Seq<char>> {
    if recyclable == 0 {
        Some("Select files before copying."@)
    } else if recyclable != files {
        Some("Please select files only."@)
    } else if resolved == 0 {
        Some("Selected files could not be resolved."@)
    } else {
        None
    }
}

/// Whether the selected files can be copied.
pub fn check_copy(recyclable: i32, files: i32, resolved: usize) -> (r: Option<Notice>)
    ensures
        match r {
            Some(n) => n@.0 == "Copy Failed"@ && copy_refusal(
                recyclable as int,
                files as int,
                resolved as int,
            ) == Some(n@.1),
            None => copy_refusal(recyclable as int, files as int, resolved as int) is None,
        },
{
    if recyclable == 0 {
        return Some(notice("Copy Failed", "Select files before copying."));
    }
    if recyclable != files {
        return Some(notice("Copy Failed", "Please select files only."));
    }
    if resolved == 0 {
        return Some(notice("Copy Failed", "Selected files could not be resolved."));
    }
    None
}

/// Whether a copy of the selected file can be saved.
pub fn check_save_copy(index: i32, is_dir: bool, resolved: bool) -> (r: Option<Notice>)
    ensures
        match r {
            Some(n) => n@ == if index < 0 || is_dir {
                ("Save Copy Failed"@, "Select a file before saving a copy."@)
            } else {
                ("Save Copy Failed"@, "Selected file could not be resolved."@)
            } && (index < 0 || is_dir || !resolved),
            None => index >= 0 && !is_dir && resolved,
        },
{
    if index < 0 || is_dir {
        return Some(notice("Save Copy Failed", "Select a file before saving a copy."));
    }
    if !resolved {
        return Some(notice("Save Copy Failed", "Selected file could not be resolved."));
    }
    None
}

/// Why what is selected cannot be deleted.
pub open spec fn delete_refusal(recyclable: int, resolved: int) -> Option<Seq<char>> {
    if recyclable == 0 {
        Some("Select a file or folder before deleting."@)
    } else if resolved == 0 {
        Some("Selected file could not be resolved."@)
    } else {
        None
    }
}

/// Whether what is selected can be deleted.
pub fn check_delete(recyclable: i32, resolved: usize) -> (r: Option<Notice>)
    ensures
        match r {
            Some(n) => n@.0 == "Delete Failed"@ && delete_refusal(
                recyclable as int,
                resolved as int,
            ) == Some(n@.1),
            None => delete_refusal(recyclable as int, resolved as int) is None,
        },
{
    if recyclable == 0 {
        return Some(notice("Delete Failed", "Select a file or folder before deleting."));
    }
    if resolved == 0 {
        return Some(notice("Delete Failed", "Selected file could not be resolved."));
    }
    None
}

/// The report on the dates and times of GPS data that were saved.
pub fn gps_date_times_saved(count: usize) -> (r: String)
    ensures
        r@ == with_number("Saved GPS Date/Time for "@, count as int, " file(s)."@),
{
    sentence("Saved GPS Date/Time for ", count, " file(s).")
}

/// Why the times of the selected files cannot be set.
pub open spec fn times_refusal(
    files: int,
    recyclable: int,
    resolved: int,
    nothing: Seq<char>,
) -> Option<Seq<char>> {
    if files == 0 {
        Some(nothing)
    } else if recyclable != files {
        Some("Please select files only."@)
    } else if resolved == 0 {
        Some("Selected files could not be resolved."@)
    } else {
        None
    }
}

pub(crate) fn check_times(files: i32, recyclable: i32, resolved: usize, nothing: &str) -> (r: Option<
    String,
>)
    ensures
        match r {
            Some(t) => times_refusal(files as int, recyclable as int, resolved as int, nothing@)
                == Some(t@),
            None => times_refusal(files as int, recyclable as int, resolved as int, nothing@)
                is None,
        },
{
    if files == 0 {
        return Some(nothing.to_owned());
    }
    if recyclable != files {
        return Some("Please select files only.".to_owned());
    }
    if resolved == 0 {
        return Some("Selected files could not be resolved.".to_owned());
    }
    None
}

} // verus!
