//! Requests of the user that need something to be selected, and what they report.
use crate::details_form::{DetailsForm, FormModel};
use crate::form_keys::{self, KeyValue};
use crate::notices::{notice, Notice};
use crate::text;
use vstd::prelude::*;

verus! {

fn refused(refuse: bool, title: &str, text: &str) -> (r: Option<Notice>)
    ensures
        match r {
            Some(n) => refuse && n@ == (title@, text@),
            None => !refuse,
        },
{
    if refuse {
        Some(notice(title, text))
    } else {
        None
    }
}

// Files and folders.

/// Whether copied files can be pasted.
pub fn check_paste(copied: usize) -> (r: Option<Notice>)
    ensures
        match r {
            Some(n) => copied == 0 && n@ == ("Paste Failed"@, "Copy files before pasting."@),
            None => copied > 0,
        },
{
    refused(copied == 0, "Paste Failed", "Copy files before pasting.")
}

/// Whether the selected row can be opened: it has to be that of a file.
pub fn check_open(is_file: bool) -> (r: Option<Notice>)
    ensures
        match r {
            Some(n) => !is_file && n@ == (
                "Open Failed"@,
                "The selected file could not be resolved."@,
            ),
            None => is_file,
        },
{
    refused(!is_file, "Open Failed", "The selected file could not be resolved.")
}

/// Whether a row can be shown in the file manager.
pub fn check_reveal(resolved: bool) -> (r: Option<Notice>)
    ensures
        match r {
            Some(n) => !resolved && n@ == (
                "Open in Explorer Failed"@,
                "The selected item could not be resolved."@,
            ),
            None => resolved,
        },
{
    refused(!resolved, "Open in Explorer Failed", "The selected item could not be resolved.")
}

/// Whether a path that was entered can be shown.
pub fn check_folder(is_folder: bool) -> (r: Option<Notice>)
    ensures
        match r {
            Some(n) => !is_folder && n@ == (
                "Invalid Path"@,
                "The entered path is not a valid folder."@,
            ),
            None => is_folder,
        },
{
    refused(!is_folder, "Invalid Path", "The entered path is not a valid folder.")
}

/// The folder that a double click opens: the parent for the first row, and for
/// another row the folder in it.
pub fn folder_to_open(index: i32, parent: Option<String>, path: Option<String>, is_folder: bool) -> (r:
    Option<String>)
    ensures
        r == if index == 0 {
            parent
        } else if is_folder {
            path
        } else {
            None
        },
{
    if index == 0 {
        parent
    } else if is_folder {
        path
    } else {
        None
    }
}

/// What follows the choice of a folder.
#[derive(Debug)]
pub enum FolderChoice {
    Failed(Notice),
    /// No folder was chosen.
    Nothing,
    Open(String),
}

/// What follows the choice of a folder: an error is shown, and the folder is
/// opened if there is one.
pub fn folder_choice(chosen: Result<Option<String>, String>) -> (r: FolderChoice)
    ensures
        match chosen {
            Err(e) => if e@.len() > 0 {
                r matches FolderChoice::Failed(n) && n@ == ("Open Folder Failed"@, e@)
            } else {
                r is Nothing
            },
            Ok(Some(p)) => if p@.len() > 0 {
                r matches FolderChoice::Open(q) && q@ == p@
            } else {
                r is Nothing
            },
            Ok(None) => r is Nothing,
        },
{
    match chosen {
        Err(e) => if e.as_str().unicode_len() > 0 {
            FolderChoice::Failed(Notice { title: "Open Folder Failed".to_owned(), text: e })
        } else {
            FolderChoice::Nothing
        },
        Ok(Some(p)) => if p.as_str().unicode_len() > 0 {
            FolderChoice::Open(p)
        } else {
            FolderChoice::Nothing
        },
        Ok(None) => FolderChoice::Nothing,
    }
}

// Dates.

/// Whether media dates can be shifted.
pub fn check_media_shift(files: usize) -> (r: Option<Notice>)
    ensures
        match r {
            Some(n) => files == 0 && n@ == (
                "Unable to Shift Media Date"@,
                "Select one or more media files first."@,
            ),
            None => files > 0,
        },
{
    refused(
        files == 0,
        "Unable to Shift Media Date",
        "Select one or more media files first.",
    )
}

/// What is asked before dates of PNG files are overwritten.
pub fn confirm_date_overwrite() -> (r: Notice)
    ensures
        r@ == (
            "Confirm Date Overwrite"@,
            "Existing date metadata may be overwritten. Continue? (Y/N)"@,
        ),
{
    notice(
        "Confirm Date Overwrite",
        "Existing date metadata may be overwritten. Continue? (Y/N)",
    )
}

// Thumbnails.

/// Whether thumbnails can be extracted.
pub fn check_thumbnails(files: usize) -> (r: Option<Notice>)
    ensures
        match r {
            Some(n) => files == 0 && n@ == (
                "No Files Selected"@,
                "Select one or more JPEG files first."@,
            ),
            None => files > 0,
        },
{
    refused(files == 0, "No Files Selected", "Select one or more JPEG files first.")
}

/// What came of the extraction of one thumbnail.
#[derive(Debug)]
pub enum Extraction {
    NotJpeg,
    Failed(String),
    /// The thumbnail was written, but its file did not get the dates.
    WithoutDates { target: String, error: String },
    Complete,
}

/// The failure that is reported of one file, if there is one.
pub open spec fn extraction_failure(path: Seq<char>, outcome: Extraction) -> Option<Seq<char>> {
    match outcome {
        Extraction::NotJpeg => Some(path + ": not a JPEG file"@),
        Extraction::Failed(e) => Some(path + ": "@ + e@),
        Extraction::WithoutDates { target, error } => Some(
            target@ + ": extracted, but file dates could not be copied ("@ + error@ + ")"@,
        ),
        Extraction::Complete => None,
    }
}

/// The failure that is reported of one file, if there is one, and whether its
/// thumbnail was written.
pub fn report_extraction(path: &str, outcome: &Extraction) -> (r: (Option<String>, bool))
    ensures
        match r.0 {
            Some(t) => extraction_failure(path@, *outcome) == Some(t@),
            None => extraction_failure(path@, *outcome) is None,
        },
        r.1 == (*outcome is WithoutDates || *outcome is Complete),
{
    match outcome {
        Extraction::NotJpeg => {
            let mut text = path.to_owned();
            text.append(": not a JPEG file");
            (Some(text), false)
        },
        Extraction::Failed(e) => {
            let mut text = path.to_owned();
            text.append(": ");
            text.append(e.as_str());
            (Some(text), false)
        },
        Extraction::WithoutDates { target, error } => {
            let mut text = target.clone();
            text.append(": extracted, but file dates could not be copied (");
            text.append(error.as_str());
            text.append(")");
            (Some(text), true)
        },
        Extraction::Complete => (None, true),
    }
}

// Metadata.

/// The report on metadata that were removed from a file: some tags, or all.
pub fn removal_report(all: bool) -> (r: String)
    ensures
        r@ == if all {
            "Metadata tags were removed."@
        } else {
            "Metadata tag(s) removed."@
        },
{
    if all {
        "Metadata tags were removed.".to_owned()
    } else {
        "Metadata tag(s) removed.".to_owned()
    }
}

/// What a click on a section of metadata reports where there is nothing to copy.
pub fn check_section(values: &[KeyValue]) -> (r: Option<String>)
    ensures
        match r {
            Some(t) => values@.len() == 0 && t@ == "This EXIF section is read-only."@,
            None => values@.len() > 0,
        },
{
    if values.len() == 0 {
        Some("This EXIF section is read-only.".to_owned())
    } else {
        None
    }
}

/// A paste would replace a text.
pub open spec fn replaces_text(f: FormModel, values: Seq<KeyValue>) -> bool {
    exists|i: int|
        0 <= i < values.len() && text::trim(
            form_keys::key_value(f, (#[trigger] values[i]).key@),
        ).len() > 0
}

/// Pastes texts into the form and reports it; where a text would be replaced it
/// asks first, and changes nothing.
pub fn stage_or_confirm_exif_paste(form: &mut DetailsForm, values: &[KeyValue]) -> (r: Result<
    String,
    Notice,
>)
    requires
        old(form)@.well_formed(),
    ensures
        match r {
            Ok(toast) => !replaces_text(old(form)@, values@) && final(form)@ == form_keys::pasted(
                old(form)@,
                values@,
                values@.len() as int,
            ).counted() && toast@ == "Pasted. Save to apply."@,
            Err(n) => replaces_text(old(form)@, values@) && *final(form) == *old(form) && n@ == (
                "Confirm Paste"@,
                "Destination contains a value. Paste anyway? (Y/N)"@,
            ),
        },
        final(form)@.well_formed(),
{
    if form.paste_needs_confirmation(values) {
        return Err(
            notice("Confirm Paste", "Destination contains a value. Paste anyway? (Y/N)"),
        );
    }
    form.apply_exif_paste(values);
    Ok("Pasted. Save to apply.".to_owned())
}

/// Pastes texts that were to be confirmed, if they were, and reports it.
pub fn confirm_exif_paste(form: &mut DetailsForm, values: &[KeyValue], confirmed: bool) -> (r: Option<
    String,
>)
    requires
        old(form)@.well_formed(),
    ensures
        match r {
            Some(toast) => confirmed && toast@ == "Pasted. Save to apply."@ && final(form)@
                == form_keys::pasted(old(form)@, values@, values@.len() as int).counted(),
            None => !confirmed && *final(form) == *old(form),
        },
        final(form)@.well_formed(),
{
    if !confirmed {
        return None;
    }
    form.apply_exif_paste(values);
    Some("Pasted. Save to apply.".to_owned())
}

} // verus!
