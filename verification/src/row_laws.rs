//! What the rows of the list and the details of a selected row show of a file.
use crate::entries::{FileSystemEntry, FileTime};
use crate::file_list::{self, SlintApp};
use crate::file_rows::{self, FileRow, SelectedEntryDetails, TableRow};
use crate::media::{self, MediaScanResult};
use crate::text;
use vstd::prelude::*;

verus! {

/// The row of a file shows its name, its size and its two times, and of a scan the kind,
/// the date and the state; a row is selected where its number is.
pub proof fn rows_show_their_file(
    row: FileRow,
    app: SlintApp,
    place: int,
    entry: FileSystemEntry,
    name: String,
    created: FileTime,
    modified: FileTime,
    scan: MediaScanResult,
)
    requires
        file_rows::shows_entry(row, app, place),
        0 <= place < file_list::visible(app).len() <= i32::MAX,
        entry == app.files@[file_list::visible(app)[place]],
        !entry.is_dir,
        entry.name == Some(name),
        entry.created == Some(created),
        entry.modified == Some(modified),
        file_list::scan_of(app, entry) == Some(scan),
    ensures
        row.name@ == name@,
        row.size == Some(entry.size),
        row.created@ == created.shown@,
        row.modified@ == modified.shown@,
        !row.is_dir,
        row.media_kind@ == scan.media_kind@,
        row.media_date@ == file_list::shown_date(scan, app.time_display_mode),
        row.metadata_status@ == scan.metadata_status@,
        row.selected <==> app.selected_indices@.contains((place + 1) as i32),
        row.duplicate_name == file_rows::is_marked(app, place, 1),
        row.duplicate_size == file_rows::is_marked(app, place, 2),
        row.duplicate_modified == file_rows::is_marked(app, place, 3),
        row.duplicate_media_date == file_rows::is_marked(app, place, 4),
{
    if row.selected {
        let k = choose|k: int|
            0 <= k < app.selected_indices@.len() && #[trigger] app.selected_indices@[k] == place
                + 1;
        assert(app.selected_indices@[k] == (place + 1) as i32);
    } else if app.selected_indices@.contains((place + 1) as i32) {
        let k = choose|k: int|
            0 <= k < app.selected_indices@.len() && app.selected_indices@[k] == (place + 1) as i32;
        assert(app.selected_indices@[k] == place + 1);
    }
}

/// The row of a folder shows no size and no date, and one of a file that was not scanned
/// that it waits; a time or a name that is not known has a text of its own.
pub proof fn rows_show_what_is_missing(
    row: FileRow,
    app: SlintApp,
    place: int,
    entry: FileSystemEntry,
)
    requires
        file_rows::shows_entry(row, app, place),
        entry == app.files@[file_list::visible(app)[place]],
    ensures
        entry.is_dir ==> row.is_dir && row.size is None && row.media_kind@ == "folder"@
            && row.media_date@ == "-"@ && row.metadata_status@ == "-"@,
        !entry.is_dir && file_list::scan_of(app, entry) is None ==> row.media_kind@ == "pending"@
            && row.media_date@ == "…"@ && row.metadata_status@ == "…"@,
        entry.created is None ==> row.created@ == "-"@,
        entry.modified is None ==> row.modified@ == "-"@,
        entry.name is None ==> row.name@ == "Unknown"@,
{
}

/// The row above all others leads to the folder above.
pub proof fn the_first_row_is_the_folder_above(row: FileRow, app: SlintApp)
    requires
        file_rows::shows_parent(row, app),
    ensures
        row.name@ == seq!['[', '.', '.', ']'],
        row.is_dir,
        row.size is None,
        row.selected <==> app.selected_indices@.contains(0),
{
    reveal_strlit("[..]");
    assert("[..]"@ =~= seq!['[', '.', '.', ']']);
    if row.selected {
        let k = choose|k: int|
            0 <= k < app.selected_indices@.len() && #[trigger] app.selected_indices@[k] == 0;
        assert(app.selected_indices@[k] == 0i32);
    }
}

/// The table shows a folder in brackets, and of a file its size, the time of its last
/// change, its date and its state.
pub proof fn tables_show_their_file(
    row: TableRow,
    app: SlintApp,
    place: int,
    entry: FileSystemEntry,
    name: String,
    modified: FileTime,
    scan: MediaScanResult,
)
    requires
        file_rows::shows_table_row(row, app, place),
        entry == app.files@[file_list::visible(app)[place]],
        entry.name == Some(name),
        entry.modified == Some(modified),
        file_list::scan_of(app, entry) == Some(scan),
    ensures
        entry.is_dir ==> row.name@ == seq!['['] + name@ + seq![']'] && row.size is None,
        !entry.is_dir ==> row.name@ == name@ && row.size == Some(entry.size),
        row.modified@ == modified.shown@,
        row.media_date@ == file_list::shown_date(scan, app.time_display_mode),
        row.metadata@ == scan.metadata_status@,
{
}

/// The details of a selected file are those of its entry and of its scan.
pub proof fn details_show_their_file(
    d: SelectedEntryDetails,
    app: SlintApp,
    index: int,
    entry: FileSystemEntry,
    name: String,
    created: FileTime,
    modified: FileTime,
    scan: MediaScanResult,
)
    requires
        file_rows::shows_details(d, app, index),
        index > 0,
        entry == app.files@[file_list::visible(app)[index - 1]],
        !entry.is_dir,
        entry.name == Some(name),
        entry.created == Some(created),
        entry.modified == Some(modified),
        file_list::scan_of(app, entry) == Some(scan),
    ensures
        d.path matches Some(p) && p@ == entry.path@,
        d.name@ == name@,
        d.exact_size@ == file_rows::grouped(text::decimal(entry.size as nat)) + seq![
            ' ',
            'B',
            'y',
            't',
            'e',
        ],
        d.created@ == created.shown@,
        d.modified@ == modified.shown@,
        !d.is_dir,
        d.media_kind@ == scan.media_kind@,
        d.media_type@ == scan.media_type@,
        d.media_date@ == file_list::shown_date(scan, app.time_display_mode),
        d.metadata_status@ == file_rows::metadata_label(scan.metadata_status@),
        d.time_interpretation@ == file_list::shown_basis(scan, app.time_display_mode),
        d.exif_metadata == scan.exif_metadata,
{
    reveal_strlit(" Byte");
    assert(" Byte"@ =~= seq![' ', 'B', 'y', 't', 'e']);
    let m = file_rows::details_media(d);
    assert(m == file_rows::media_of(app, entry));
    assert(m.kind == d.media_kind@);
}

/// The details of a file that was not scanned tell its kind by its name and wait for the
/// rest.
pub proof fn details_wait_for_the_scan(
    d: SelectedEntryDetails,
    app: SlintApp,
    index: int,
    entry: FileSystemEntry,
    name: String,
)
    requires
        file_rows::shows_details(d, app, index),
        index > 0,
        entry == app.files@[file_list::visible(app)[index - 1]],
        !entry.is_dir,
        entry.name == Some(name),
        file_list::scan_of(app, entry) is None,
    ensures
        media::jpeg_name(name@) ==> d.media_kind@ == "jpeg"@ && d.media_type@ == "JPEG image"@
            && d.media_date@ == "Scanning..."@ && d.metadata_status@ == "Scanning..."@,
        !media::jpeg_name(name@) && media::png_name(name@) ==> d.media_kind@ == "png"@
            && d.media_type@ == "PNG image"@ && d.media_date@ == "Scanning..."@,
        !media::image_name(name@) && media::mp4_name(name@) ==> d.media_kind@ == "mp4"@
            && d.media_type@ == media::video_type(name@) && d.media_date@ == "Scanning..."@,
        !media::image_name(name@) && !media::mp4_name(name@) && media::transport_name(name@)
            ==> d.media_kind@ == "mts"@ && d.media_date@ == "Scanning..."@,
        !media::image_name(name@) && !media::video_name(name@) ==> d.media_kind@.len() == 0,
{
    reveal_strlit("");
    let m = file_rows::details_media(d);
    assert(m == file_rows::media_of(app, entry));
    assert(m.kind == d.media_kind@);
}

/// A scan gives the kind, the type, the date, the state and the basis of its time, each in
/// its own field.
pub proof fn scans_fill_their_fields(
    r: MediaScanResult,
    kind: Seq<char>,
    media_type: Seq<char>,
    date: Seq<char>,
    status: Seq<char>,
    basis: Seq<char>,
)
    requires
        media::scanned_as(r, kind, media_type, date, status, basis),
    ensures
        r.media_kind@ == kind,
        r.media_type@ == media_type,
        r.media_date@ == date,
        r.metadata_status@ == status,
        r.time_interpretation@ == basis,
        r.media_date_utc is None,
        r.recorded_offset_minutes is None,
{
}

/// A scan without a date shows a dash, and one with a date that date.
pub proof fn empty_dates_are_dashes(date: Seq<char>)
    ensures
        text::trim(date).len() == 0 ==> media::date_or_dash(date) == seq!['-'],
        text::trim(date).len() > 0 ==> media::date_or_dash(date) == date,
{
    reveal_strlit("-");
    assert("-"@ =~= seq!['-']);
}

/// JPEG files are known by three bytes, and other files of media by their brand; a movie
/// of QuickTime may begin without one.
pub proof fn files_are_known_by_their_first_bytes(name: Seq<char>, s: Seq<u8>)
    ensures
        media::jpeg_start(s) <==> s.len() >= 3 && s[0] == 0xff && s[1] == 0xd8 && s[2] == 0xff,
        s.len() >= 12 && s[4] == 'f' as u8 && s[5] == 't' as u8 && s[6] == 'y' as u8 && s[7]
            == 'p' as u8 ==> media::iso_start(name, s),
        media::iso_start(name, s) && !media::quicktime_name(name) ==> s.len() >= 12 && s[4]
            == 'f' as u8 && s[5] == 't' as u8 && s[6] == 'y' as u8 && s[7] == 'p' as u8,
{
    if s.len() >= 12 {
        crate::movie_laws::atoms_are_told_by_their_letters(s, 0);
    }
}

} // verus!
