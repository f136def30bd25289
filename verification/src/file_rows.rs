//! The rows of the file list as they are shown, and the details of those that
//! are selected.
use crate::arrange;
use crate::entries::{self, time_text, FileSystemEntry};
use crate::exif::ExifMetadata;
use crate::file_list::{self, display_media_date, find_scan, SlintApp};
use crate::media::{self, fallback_video_media_type, is_jpeg_path, is_mp4_path, is_mpeg_ts_path,
    is_png_path};
use crate::text::{self, chars_of, decimal_text, joined_text, same_text, text_of, to_lowercase,
    trimmed};
use vstd::prelude::*;

verus! {

/// A row of the file list. The size is not known for a folder.
#[derive(Debug)]
pub struct FileRow {
    pub name: String,
    pub size: Option<u64>,
    pub modified: String,
    pub created: String,
    pub is_dir: bool,
    pub selected: bool,
    pub media_kind: String,
    pub media_date: String,
    pub metadata_status: String,
    pub duplicate_name: bool,
    pub duplicate_size: bool,
    pub duplicate_modified: bool,
    pub duplicate_media_date: bool,
}

/// A row of the plain table.
#[derive(Debug)]
pub struct TableRow {
    pub name: String,
    pub size: Option<u64>,
    pub modified: String,
    pub media_date: String,
    pub metadata: String,
}

/// What is shown of a selected row.
#[derive(Debug)]
pub struct SelectedEntryDetails {
    pub path: Option<String>,
    pub name: String,
    pub exact_size: String,
    pub created: String,
    pub modified: String,
    pub is_dir: bool,
    pub media_kind: String,
    pub media_type: String,
    pub media_date: String,
    pub metadata_status: String,
    pub time_interpretation: String,
    pub exif_metadata: Option<ExifMetadata>,
}

// Numbers with separators.

/// Digits in groups of three, with a comma between the groups.
pub open spec fn grouped(digits: Seq<char>) -> Seq<char>
    decreases digits.len(),
{
    if digits.len() <= 3 {
        digits
    } else {
        grouped(digits.take(digits.len() - 3)) + seq![','] + digits.skip(digits.len() - 3)
    }
}

/// The first digits of a number, each group of three counted from its end.
spec fn grouped_prefix(digits: Seq<char>, n: int) -> Seq<char>
    decreases n,
{
    if n <= 0 {
        Seq::empty()
    } else {
        let before = grouped_prefix(digits, n - 1);
        if n - 1 > 0 && (digits.len() - (n - 1)) % 3 == 0 {
            before.push(',').push(digits[n - 1])
        } else {
            before.push(digits[n - 1])
        }
    }
}

proof fn lemma_grouped_prefix_shorter(digits: Seq<char>, n: int)
    requires
        3 < digits.len(),
        0 <= n <= digits.len() - 3,
    ensures
        grouped_prefix(digits, n) == grouped_prefix(digits.take(digits.len() - 3), n),
    decreases n,
{
    if n > 0 {
        lemma_grouped_prefix_shorter(digits, n - 1);
        let m = digits.len() - (n - 1);
        assert((m - 3) % 3 == m % 3) by (nonlinear_arith);
    }
}

proof fn lemma_grouped(digits: Seq<char>)
    ensures
        grouped_prefix(digits, digits.len() as int) == grouped(digits),
    decreases digits.len(),
{
    let n = digits.len() as int;
    reveal_with_fuel(grouped_prefix, 4);
    if n <= 3 {
        assert(grouped_prefix(digits, n) =~= digits);
    } else {
        let start = digits.take(n - 3);
        lemma_grouped(start);
        lemma_grouped_prefix_shorter(digits, n - 3);
        let before = grouped_prefix(digits, n - 3);
        assert(before == grouped(start));
        assert((digits.len() - (n - 3)) % 3 == 0);
        assert(grouped_prefix(digits, n - 2) == before.push(',').push(digits[n - 3]));
        assert(grouped_prefix(digits, n - 1) == grouped_prefix(digits, n - 2).push(
            digits[n - 2],
        ));
        assert(grouped_prefix(digits, n) == grouped_prefix(digits, n - 1).push(digits[n - 1]));
        assert(grouped_prefix(digits, n) =~= before + seq![','] + digits.skip(n - 3));
    }
}

pub fn format_number_with_commas(value: u64) -> (r: String)
    ensures
        r@ == grouped(text::decimal(value as nat)),
{
    let digits = chars_of(decimal_text(value).as_str());
    let n: usize = digits.len();
    let mut out: Vec<char> = Vec::new();
    let mut i: usize = 0;
    while i < n
        invariant
            i <= n,
            n == digits@.len(),
            out@ == grouped_prefix(digits@, i as int),
        decreases n - i,
    {
        if i > 0 && (n - i) % 3 == 0 {
            out.push(',');
        }
        out.push(digits[i]);
        i += 1;
    }
    proof {
        lemma_grouped(digits@);
    }
    text_of(out.as_slice())
}

/// The digits of a number are found again when the commas are left out.
pub proof fn grouping_keeps_the_digits(digits: Seq<char>)
    requires
        !digits.contains(','),
    ensures
        grouped(digits).filter(|c: char| c != ',') == digits,
    decreases digits.len(),
{
    let keep = |c: char| c != ',';
    if digits.len() <= 3 {
        text::lemma_all_kept(digits, keep);
    } else {
        let n = digits.len() as int;
        let start = digits.take(n - 3);
        let end = digits.skip(n - 3);
        assert(!start.contains(',')) by {
            if start.contains(',') {
                let i = choose|i: int| 0 <= i < start.len() && start[i] == ',';
                assert(digits[i] == ',');
            }
        }
        grouping_keeps_the_digits(start);
        text::lemma_all_kept(end, keep);
        text::lemma_none_kept(seq![','], keep);
        text::lemma_filter_joined(grouped(start), seq![','], keep);
        text::lemma_filter_joined(grouped(start) + seq![','], end, keep);
        assert(start + Seq::<char>::empty() + end =~= digits);
    }
}

// Rows.

/// The value of an entry in a column, where it can be told apart from others.
pub open spec fn sort_value(app: SlintApp, entry: FileSystemEntry, column: int) -> Option<
    Seq<char>,
> {
    if entry.is_dir {
        None
    } else if column == 1 {
        Some(text::lowercased(entry.sort_name()))
    } else if column == 2 {
        Some(text::decimal(entry.size as nat))
    } else if column == 3 {
        match entry.modified {
            Some(t) => Some(t.shown@),
            None => None,
        }
    } else if column == 4 {
        match file_list::scan_of(app, entry) {
            Some(scan) => {
                let date = file_list::shown_date(scan, app.time_display_mode);
                if date != "-"@ && date != "…"@ && text::trim(date).len() > 0 {
                    Some(date)
                } else {
                    None
                }
            },
            None => None,
        }
    } else {
        None
    }
}

fn active_sort_value(app: &SlintApp, entry: &FileSystemEntry, column: i32) -> (r: Option<String>)
    requires
        file_list::all_plausible(app.scan_results@),
    ensures
        match r {
            Some(v) => sort_value(*app, *entry, column as int) == Some(v@),
            None => sort_value(*app, *entry, column as int) is None,
        },
{
    if entry.is_dir {
        return None;
    }
    if column == 1 {
        Some(to_lowercase(entry.file_name_for_sort()))
    } else if column == 2 {
        Some(decimal_text(entry.size))
    } else if column == 3 {
        match &entry.modified {
            Some(t) => Some(t.shown.clone()),
            None => None,
        }
    } else if column == 4 {
        match find_scan(app, entry) {
            Some(scan) => {
                proof {
                    file_list::lemma_scan_plausible(*app, *entry);
                }
                let date = display_media_date(scan, app.time_display_mode).0;
                if !same_text(date.as_str(), "-") && !same_text(date.as_str(), "…") && trimmed(
                    date.as_str(),
                ).unicode_len() > 0 {
                    Some(date)
                } else {
                    None
                }
            },
            None => None,
        }
    } else {
        None
    }
}

/// Equal values are marked while the list is sorted by one of the first four
/// columns.
pub open spec fn marks_equals(app: SlintApp) -> bool {
    app.sort_direction != 0 && 1 <= app.sort_column <= 4 && (app.dynamic_sort_ready
        || app.sort_column != 4)
}

/// Two rows have the same value in the sorted column and in another one.
pub open spec fn equal_in(app: SlintApp, a: FileSystemEntry, b: FileSystemEntry, column: int) -> bool {
    &&& sort_value(app, a, app.sort_column as int) is Some
    &&& sort_value(app, a, app.sort_column as int) == sort_value(app, b, app.sort_column as int)
    &&& sort_value(app, a, column) is Some
    &&& sort_value(app, a, column) == sort_value(app, b, column)
}

/// A value of a row is marked: another row of the list is equal to it.
pub open spec fn is_marked(app: SlintApp, place: int, column: int) -> bool {
    let rows = file_list::visible(app);
    marks_equals(app) && exists|other: int|
        0 <= other < rows.len() && other != place && equal_in(
            app,
            app.files@[rows[place]],
            app.files@[#[trigger] rows[other]],
            column,
        )
}

pub open spec fn view_of(v: Option<String>) -> Option<Seq<char>> {
    match v {
        Some(t) => Some(t@),
        None => None,
    }
}

/// The values of the list's rows in a column.
pub open spec fn are_values(values: Seq<Option<String>>, app: SlintApp, column: int) -> bool {
    let rows = file_list::visible(app);
    &&& values.len() == rows.len()
    &&& forall|i: int|
        0 <= i < values.len() ==> view_of(#[trigger] values[i]) == sort_value(
            app,
            app.files@[rows[i]],
            column,
        )
}

fn column_values(app: &SlintApp, rows: &Vec<usize>, column: i32) -> (r: Vec<Option<String>>)
    requires
        file_list::all_plausible(app.scan_results@),
        arrange::indices(rows@) == file_list::visible(*app),
        forall|i: int| 0 <= i < rows@.len() ==> (#[trigger] rows@[i]) < app.files@.len(),
    ensures
        are_values(r@, *app, column as int),
{
    let n: usize = rows.len();
    let mut out: Vec<Option<String>> = Vec::new();
    let mut i: usize = 0;
    while i < n
        invariant
            i <= n,
            n == rows@.len(),
            file_list::all_plausible(app.scan_results@),
            arrange::indices(rows@) == file_list::visible(*app),
            forall|k: int| 0 <= k < rows@.len() ==> (#[trigger] rows@[k]) < app.files@.len(),
            out@.len() == i,
            forall|k: int|
                0 <= k < i ==> view_of(#[trigger] out@[k]) == sort_value(
                    *app,
                    app.files@[file_list::visible(*app)[k]],
                    column as int,
                ),
        decreases n - i,
    {
        let row: usize = rows[i];
        assert(arrange::indices(rows@)[i as int] == row);
        let value = active_sort_value(app, &app.files[row], column);
        out.push(value);
        i += 1;
    }
    assert(arrange::indices(rows@).len() == rows@.len());
    out
}

fn same_value(a: &Option<String>, b: &Option<String>) -> (r: bool)
    ensures
        r == (view_of(*a) is Some && view_of(*a) == view_of(*b)),
{
    match (a, b) {
        (Some(a), Some(b)) => same_text(a.as_str(), b.as_str()),
        _ => false,
    }
}

fn check_marked(
    app: &SlintApp,
    sorted: &Vec<Option<String>>,
    values: &Vec<Option<String>>,
    place: usize,
    column: i32,
) -> (r: bool)
    requires
        marks_equals(*app),
        are_values(sorted@, *app, app.sort_column as int),
        are_values(values@, *app, column as int),
        place < file_list::visible(*app).len(),
    ensures
        r == is_marked(*app, place as int, column as int),
{
    let ghost rows = file_list::visible(*app);
    let n: usize = values.len();
    let mut i: usize = 0;
    while i < n
        invariant
            i <= n,
            n == values@.len(),
            rows == file_list::visible(*app),
            n == rows.len(),
            place < n,
            are_values(sorted@, *app, app.sort_column as int),
            are_values(values@, *app, column as int),
            marks_equals(*app),
            forall|k: int|
                0 <= k < i && k != place ==> !equal_in(
                    *app,
                    app.files@[rows[place as int]],
                    app.files@[#[trigger] rows[k]],
                    column as int,
                ),
        decreases n - i,
    {
        if i != place && same_value(&sorted[place], &sorted[i]) && same_value(
            &values[place],
            &values[i],
        ) {
            assert(equal_in(
                *app,
                app.files@[rows[place as int]],
                app.files@[rows[i as int]],
                column as int,
            ));
            return true;
        }
        i += 1;
    }
    false
}

/// Whether a row is selected.
pub open spec fn row_selected(app: SlintApp, index: int) -> bool {
    exists|k: int|
        0 <= k < app.selected_indices@.len() && #[trigger] app.selected_indices@[k] == index
}

fn selects_row(app: &SlintApp, index: i32) -> (r: bool)
    ensures
        r == row_selected(*app, index as int),
{
    let n: usize = app.selected_indices.len();
    let mut i: usize = 0;
    while i < n
        invariant
            i <= n,
            n == app.selected_indices@.len(),
            forall|k: int| 0 <= k < i ==> #[trigger] app.selected_indices@[k] != index,
        decreases n - i,
    {
        if app.selected_indices[i] == index {
            return true;
        }
        i += 1;
    }
    false
}

// Rows that are shown already.

/// A row of a list is selected.
pub open spec fn among_rows(indices: Seq<i32>, row: int) -> bool {
    exists|k: int| 0 <= k < indices.len() && #[trigger] indices[k] == row
}

fn is_among(indices: &[i32], row: usize) -> (r: bool)
    ensures
        r == among_rows(indices@, row as int),
{
    if row > i32::MAX as usize {
        return false;
    }
    let wanted: i32 = row as i32;
    let n: usize = indices.len();
    let mut i: usize = 0;
    while i < n
        invariant
            i <= n,
            n == indices@.len(),
            wanted == row,
            forall|k: int| 0 <= k < i ==> #[trigger] indices@[k] != wanted,
        decreases n - i,
    {
        if indices[i] == wanted {
            return true;
        }
        i += 1;
    }
    false
}

/// The row, selected or not.
pub open spec fn marked(row: FileRow, selected: bool) -> FileRow {
    FileRow { selected, ..row }
}

/// Marks the selected rows, and no others.
pub fn sync_file_selection_model(rows: &mut Vec<FileRow>, selected: &[i32])
    ensures
        final(rows)@.len() == old(rows)@.len(),
        forall|i: int|
            0 <= i < final(rows)@.len() ==> #[trigger] final(rows)@[i] == marked(
                old(rows)@[i],
                among_rows(selected@, i),
            ),
{
    let n: usize = rows.len();
    let mut i: usize = 0;
    while i < n
        invariant
            i <= n,
            n == rows@.len(),
            n == old(rows)@.len(),
            forall|k: int|
                0 <= k < i ==> #[trigger] rows@[k] == marked(
                    old(rows)@[k],
                    among_rows(selected@, k),
                ),
            forall|k: int| i <= k < n ==> #[trigger] rows@[k] == old(rows)@[k],
        decreases n - i,
    {
        rows[i].selected = is_among(selected, i);
        i += 1;
    }
}

/// Marks the rows whose selection has changed.
pub fn sync_changed_file_selection_model(rows: &mut Vec<FileRow>, previous: &[i32], current: &[i32])
    ensures
        final(rows)@.len() == old(rows)@.len(),
        forall|i: int|
            0 <= i < final(rows)@.len() ==> #[trigger] final(rows)@[i] == if among_rows(
                previous@,
                i,
            ) != among_rows(current@, i) {
                marked(old(rows)@[i], among_rows(current@, i))
            } else {
                old(rows)@[i]
            },
{
    let n: usize = rows.len();
    let mut i: usize = 0;
    while i < n
        invariant
            i <= n,
            n == rows@.len(),
            n == old(rows)@.len(),
            forall|k: int|
                0 <= k < i ==> #[trigger] rows@[k] == if among_rows(previous@, k) != among_rows(
                    current@,
                    k,
                ) {
                    marked(old(rows)@[k], among_rows(current@, k))
                } else {
                    old(rows)@[k]
                },
            forall|k: int| i <= k < n ==> #[trigger] rows@[k] == old(rows)@[k],
        decreases n - i,
    {
        let now = is_among(current, i);
        if is_among(previous, i) != now {
            rows[i].selected = now;
        }
        i += 1;
    }
}

/// Marks a row as selected or not, if there is such a row.
pub fn sync_file_selection_row(rows: &mut Vec<FileRow>, index: i32, selected: bool)
    ensures
        final(rows)@ == if 0 <= index < old(rows)@.len() {
            old(rows)@.update(index as int, marked(old(rows)@[index as int], selected))
        } else {
            old(rows)@
        },
{
    if index >= 0 && (index as usize) < rows.len() {
        rows[index as usize].selected = selected;
        assert(rows@ =~= old(rows)@.update(
            index as int,
            marked(old(rows)@[index as int], selected),
        ));
    }
}

/// Marking the rows that changed marks what marking all rows would, where the rows
/// showed the earlier selection.
pub proof fn changed_rows_are_enough(rows: Seq<FileRow>, previous: Seq<i32>, current: Seq<i32>, i: int)
    requires
        0 <= i < rows.len(),
        rows[i].selected == among_rows(previous, i),
    ensures
        (if among_rows(previous, i) != among_rows(current, i) {
            marked(rows[i], among_rows(current, i))
        } else {
            rows[i]
        }) == marked(rows[i], among_rows(current, i)),
{
}

/// The size of an entry as a row gives it.
pub open spec fn row_size(entry: FileSystemEntry) -> Option<u64> {
    if entry.is_dir {
        None
    } else {
        Some(entry.size)
    }
}

/// The kind, the date and the state of an entry as a row gives them.
pub open spec fn row_media(app: SlintApp, entry: FileSystemEntry) -> (
    Seq<char>,
    Seq<char>,
    Seq<char>,
) {
    if entry.is_dir {
        ("folder"@, "-"@, "-"@)
    } else {
        match file_list::scan_of(app, entry) {
            Some(scan) => (
                scan.media_kind@,
                file_list::shown_date(scan, app.time_display_mode),
                scan.metadata_status@,
            ),
            None => ("pending"@, "…"@, "…"@),
        }
    }
}

/// The number by which a row counts as selected.
pub open spec fn row_number(place: int) -> int {
    if place + 1 <= i32::MAX {
        place + 1
    } else {
        i32::MAX as int
    }
}

/// What the first row shows: it leads to the folder above.
pub open spec fn shows_parent(row: FileRow, app: SlintApp) -> bool {
    &&& row.name@ == "[..]"@
    &&& row.size is None
    &&& row.modified@ == "-"@
    &&& row.created@ == "-"@
    &&& row.is_dir
    &&& row.selected == row_selected(app, 0)
    &&& row.media_kind@ == "folder"@
    &&& row.media_date@ == "-"@
    &&& row.metadata_status@ == "-"@
    &&& !row.duplicate_name
    &&& !row.duplicate_size
    &&& !row.duplicate_modified
    &&& !row.duplicate_media_date
}

/// What a row of the list shows.
pub open spec fn shows_entry(row: FileRow, app: SlintApp, place: int) -> bool {
    let entry = app.files@[file_list::visible(app)[place]];
    &&& row.name@ == entry.label()
    &&& row.size == row_size(entry)
    &&& row.modified@ == entries::shown_time(entry.modified)
    &&& row.created@ == entries::shown_time(entry.created)
    &&& row.is_dir == entry.is_dir
    &&& row.selected == row_selected(app, row_number(place))
    &&& (row.media_kind@, row.media_date@, row.metadata_status@) == row_media(app, entry)
    &&& row.duplicate_name == is_marked(app, place, 1)
    &&& row.duplicate_size == is_marked(app, place, 2)
    &&& row.duplicate_modified == is_marked(app, place, 3)
    &&& row.duplicate_media_date == is_marked(app, place, 4)
}

/// What a row of the plain table shows.
pub open spec fn shows_table_row(row: TableRow, app: SlintApp, place: int) -> bool {
    let entry = app.files@[file_list::visible(app)[place]];
    &&& row.name@ == if entry.is_dir {
        seq!['['] + entry.label() + seq![']']
    } else {
        entry.label()
    }
    &&& row.size == row_size(entry)
    &&& row.modified@ == entries::shown_time(entry.modified)
    &&& match file_list::scan_of(app, entry) {
        Some(scan) => row.media_date@ == file_list::shown_date(scan, app.time_display_mode)
            && row.metadata@ == scan.metadata_status@,
        None => row.media_date@ == "…"@ && row.metadata@ == "…"@,
    }
}

fn entry_media(app: &SlintApp, entry: &FileSystemEntry) -> (r: (String, String, String))
    requires
        file_list::all_plausible(app.scan_results@),
    ensures
        (r.0@, r.1@, r.2@) == row_media(*app, *entry),
{
    if entry.is_dir {
        return ("folder".to_owned(), "-".to_owned(), "-".to_owned());
    }
    match find_scan(app, entry) {
        Some(scan) => {
            proof {
                file_list::lemma_scan_plausible(*app, *entry);
            }
            (
                scan.media_kind.clone(),
                display_media_date(scan, app.time_display_mode).0,
                scan.metadata_status.clone(),
            )
        },
        None => ("pending".to_owned(), "…".to_owned(), "…".to_owned()),
    }
}

fn entry_size(entry: &FileSystemEntry) -> (r: Option<u64>)
    ensures
        r == row_size(*entry),
{
    if entry.is_dir {
        None
    } else {
        Some(entry.size)
    }
}

// Details.

/// The words for the state of a file's metadata.
pub open spec fn metadata_label(status: Seq<char>) -> Seq<char> {
    if status == "O"@ {
        "Available"@
    } else if status == "X"@ {
        "Not Found"@
    } else if status == "!"@ {
        "Read Error"@
    } else if status == "…"@ {
        "Scanning..."@
    } else {
        "-"@
    }
}

pub fn media_metadata_label(status: &str) -> (r: String)
    ensures
        r@ == metadata_label(status@),
{
    if same_text(status, "O") {
        "Available".to_owned()
    } else if same_text(status, "X") {
        "Not Found".to_owned()
    } else if same_text(status, "!") {
        "Read Error".to_owned()
    } else if same_text(status, "…") {
        "Scanning...".to_owned()
    } else {
        "-".to_owned()
    }
}

/// What the details say of a file's media.
pub struct MediaModel {
    pub kind: Seq<char>,
    pub media_type: Seq<char>,
    pub date: Seq<char>,
    pub status: Seq<char>,
    pub basis: Seq<char>,
    pub exif: Option<ExifMetadata>,
}

pub open spec fn media_model(
    kind: Seq<char>,
    media_type: Seq<char>,
    date: Seq<char>,
    status: Seq<char>,
) -> MediaModel {
    MediaModel { kind, media_type, date, status, basis: ""@, exif: None }
}

/// The media of an entry: what its scan gave, or what its name tells while
/// there is none.
pub open spec fn media_of(app: SlintApp, entry: FileSystemEntry) -> MediaModel {
    let name = entry.kind_name();
    let wait = "Scanning..."@;
    if entry.is_dir {
        media_model("folder"@, "Folder"@, "-"@, "-"@)
    } else {
        match file_list::scan_of(app, entry) {
            Some(scan) => MediaModel {
                kind: scan.media_kind@,
                media_type: scan.media_type@,
                date: file_list::shown_date(scan, app.time_display_mode),
                status: metadata_label(scan.metadata_status@),
                basis: file_list::shown_basis(scan, app.time_display_mode),
                exif: scan.exif_metadata,
            },
            None => if media::jpeg_name(name) {
                media_model("jpeg"@, "JPEG image"@, wait, wait)
            } else if media::png_name(name) {
                media_model("png"@, "PNG image"@, wait, wait)
            } else if media::mp4_name(name) {
                media_model("mp4"@, media::video_type(name), wait, wait)
            } else if media::transport_name(name) {
                media_model("mts"@, "AVCHD transport stream"@, wait, wait)
            } else {
                media_model(""@, ""@, ""@, ""@)
            },
        }
    }
}

/// The media that details give.
pub open spec fn details_media(d: SelectedEntryDetails) -> MediaModel {
    MediaModel {
        kind: d.media_kind@,
        media_type: d.media_type@,
        date: d.media_date@,
        status: d.metadata_status@,
        basis: d.time_interpretation@,
        exif: d.exif_metadata,
    }
}

/// The details of a row, counted from the row that leads to the folder above.
pub open spec fn shows_details(d: SelectedEntryDetails, app: SlintApp, index: int) -> bool {
    if index == 0 {
        &&& view_of(d.path) == view_of(app.parent_path)
        &&& d.name@ == "[..]"@
        &&& d.exact_size@ == "-"@
        &&& d.created@ == "-"@
        &&& d.modified@ == "-"@
        &&& d.is_dir
        &&& details_media(d) == media_model("folder"@, "Folder"@, "-"@, "-"@)
    } else {
        let entry = app.files@[file_list::visible(app)[index - 1]];
        &&& view_of(d.path) == Some(entry.path@)
        &&& d.name@ == entry.label()
        &&& d.exact_size@ == if entry.is_dir {
            "-"@
        } else {
            grouped(text::decimal(entry.size as nat)) + " Byte"@
        }
        &&& d.created@ == entries::shown_time(entry.created)
        &&& d.modified@ == entries::shown_time(entry.modified)
        &&& d.is_dir == entry.is_dir
        &&& details_media(d) == media_of(app, entry)
    }
}

/// The selected rows that exist.
pub open spec fn selected_rows(app: SlintApp, n: int) -> Seq<int>
    decreases n,
{
    if n <= 0 {
        Seq::empty()
    } else {
        let before = selected_rows(app, n - 1);
        let index = app.selected_indices@[n - 1];
        if 0 <= index <= file_list::visible(app).len() {
            before.push(index as int)
        } else {
            before
        }
    }
}

fn pending_details(entry: &FileSystemEntry) -> (r: (String, String, String))
    ensures
        ({
            let name = entry.kind_name();
            (r.0@, r.1@, r.2@) == if media::jpeg_name(name) {
                ("jpeg"@, "JPEG image"@, "Scanning..."@)
            } else if media::png_name(name) {
                ("png"@, "PNG image"@, "Scanning..."@)
            } else if media::mp4_name(name) {
                ("mp4"@, media::video_type(name), "Scanning..."@)
            } else if media::transport_name(name) {
                ("mts"@, "AVCHD transport stream"@, "Scanning..."@)
            } else {
                (""@, ""@, ""@)
            }
        }),
{
    let name = entry.file_name();
    if is_jpeg_path(name) {
        ("jpeg".to_owned(), "JPEG image".to_owned(), "Scanning...".to_owned())
    } else if is_png_path(name) {
        ("png".to_owned(), "PNG image".to_owned(), "Scanning...".to_owned())
    } else if is_mp4_path(name) {
        ("mp4".to_owned(), fallback_video_media_type(name), "Scanning...".to_owned())
    } else if is_mpeg_ts_path(name) {
        ("mts".to_owned(), "AVCHD transport stream".to_owned(), "Scanning...".to_owned())
    } else {
        ("".to_owned(), "".to_owned(), "".to_owned())
    }
}

fn clone_exif(m: &Option<ExifMetadata>) -> (r: Option<ExifMetadata>)
    ensures
        r == *m,
{
    match m {
        Some(m) => Some(m.clone()),
        None => None,
    }
}

fn parent_details(app: &SlintApp) -> (r: SelectedEntryDetails)
    ensures
        shows_details(r, *app, 0),
{
    SelectedEntryDetails {
        path: match &app.parent_path {
            Some(p) => Some(p.clone()),
            None => None,
        },
        name: "[..]".to_owned(),
        exact_size: "-".to_owned(),
        created: "-".to_owned(),
        modified: "-".to_owned(),
        is_dir: true,
        media_kind: "folder".to_owned(),
        media_type: "Folder".to_owned(),
        media_date: "-".to_owned(),
        metadata_status: "-".to_owned(),
        time_interpretation: "".to_owned(),
        exif_metadata: None,
    }
}

fn entry_details(app: &SlintApp, entry: &FileSystemEntry) -> (r: SelectedEntryDetails)
    requires
        file_list::all_plausible(app.scan_results@),
    ensures
        view_of(r.path) == Some(entry.path@),
        r.name@ == entry.label(),
        r.exact_size@ == if entry.is_dir {
            "-"@
        } else {
            grouped(text::decimal(entry.size as nat)) + " Byte"@
        },
        r.created@ == entries::shown_time(entry.created),
        r.modified@ == entries::shown_time(entry.modified),
        r.is_dir == entry.is_dir,
        details_media(r) == media_of(*app, *entry),
{
    let mut details = SelectedEntryDetails {
        path: Some(entry.path.clone()),
        name: entry.display_name(),
        exact_size: if entry.is_dir {
            "-".to_owned()
        } else {
            joined_text(format_number_with_commas(entry.size).as_str(), " Byte")
        },
        created: time_text(&entry.created),
        modified: time_text(&entry.modified),
        is_dir: entry.is_dir,
        media_kind: "folder".to_owned(),
        media_type: "Folder".to_owned(),
        media_date: "-".to_owned(),
        metadata_status: "-".to_owned(),
        time_interpretation: "".to_owned(),
        exif_metadata: None,
    };
    if entry.is_dir {
        return details;
    }
    match find_scan(app, entry) {
        Some(scan) => {
            proof {
                file_list::lemma_scan_plausible(*app, *entry);
            }
            let (date, basis) = display_media_date(scan, app.time_display_mode);
            details.media_kind = scan.media_kind.clone();
            details.media_type = scan.media_type.clone();
            details.media_date = date;
            details.metadata_status = media_metadata_label(scan.metadata_status.as_str());
            details.time_interpretation = basis;
            details.exif_metadata = clone_exif(&scan.exif_metadata);
        },
        None => {
            let (kind, media_type, wait) = pending_details(entry);
            details.media_kind = kind;
            details.media_type = media_type;
            details.metadata_status = wait.clone();
            details.media_date = wait;
        },
    }
    details
}

impl SlintApp {
    /// The rows of the file list.
    pub fn get_ui_model(&self) -> (r: Vec<FileRow>)
        requires
            file_list::all_plausible(self.scan_results@),
        ensures
            r@.len() == file_list::visible(*self).len() + 1,
            shows_parent(r@[0], *self),
            forall|i: int| 1 <= i < r@.len() ==> shows_entry(#[trigger] r@[i], *self, i - 1),
    {
        let rows = self.visible_files();
        let n: usize = rows.len();
        assert(arrange::indices(rows@).len() == n);
        let marking = self.sort_direction != 0 && self.sort_column >= 1 && self.sort_column <= 4
            && (self.dynamic_sort_ready || self.sort_column != 4);
        let mut out: Vec<FileRow> = Vec::new();
        out.push(
            FileRow {
                name: "[..]".to_owned(),
                size: None,
                modified: "-".to_owned(),
                created: "-".to_owned(),
                is_dir: true,
                selected: selects_row(self, 0),
                media_kind: "folder".to_owned(),
                media_date: "-".to_owned(),
                metadata_status: "-".to_owned(),
                duplicate_name: false,
                duplicate_size: false,
                duplicate_modified: false,
                duplicate_media_date: false,
            },
        );
        let sorted = column_values(self, &rows, self.sort_column);
        let names = column_values(self, &rows, 1);
        let sizes = column_values(self, &rows, 2);
        let times = column_values(self, &rows, 3);
        let dates = column_values(self, &rows, 4);
        let mut i: usize = 0;
        while i < n
            invariant
                i <= n,
                n == rows@.len(),
                n == file_list::visible(*self).len(),
                file_list::all_plausible(self.scan_results@),
                arrange::indices(rows@) == file_list::visible(*self),
                forall|k: int| 0 <= k < rows@.len() ==> (#[trigger] rows@[k]) < self.files@.len(),
                marking == marks_equals(*self),
                are_values(sorted@, *self, self.sort_column as int),
                are_values(names@, *self, 1),
                are_values(sizes@, *self, 2),
                are_values(times@, *self, 3),
                are_values(dates@, *self, 4),
                out@.len() == i + 1,
                shows_parent(out@[0], *self),
                forall|k: int| 1 <= k <= i ==> shows_entry(#[trigger] out@[k], *self, k - 1),
            decreases n - i,
        {
            let row: usize = rows[i];
            assert(arrange::indices(rows@)[i as int] == row);
            let entry = &self.files[row];
            let number: i32 = if i < i32::MAX as usize {
                (i + 1) as i32
            } else {
                i32::MAX
            };
            let (media_kind, media_date, metadata_status) = entry_media(self, entry);
            let shown = FileRow {
                name: entry.display_name(),
                size: entry_size(entry),
                modified: time_text(&entry.modified),
                created: time_text(&entry.created),
                is_dir: entry.is_dir,
                selected: selects_row(self, number),
                media_kind,
                media_date,
                metadata_status,
                duplicate_name: marking && check_marked(self, &sorted, &names, i, 1),
                duplicate_size: marking && check_marked(self, &sorted, &sizes, i, 2),
                duplicate_modified: marking && check_marked(self, &sorted, &times, i, 3),
                duplicate_media_date: marking && check_marked(self, &sorted, &dates, i, 4),
            };
            assert(shows_entry(shown, *self, i as int));
            out.push(shown);
            i += 1;
        }
        out
    }

    /// The rows of the plain table.
    pub fn get_table_model(&self) -> (r: Vec<TableRow>)
        requires
            file_list::all_plausible(self.scan_results@),
        ensures
            r@.len() == file_list::visible(*self).len() + 1,
            r@[0].name@ == "[..]"@,
            r@[0].size is None,
            r@[0].modified@ == "-"@,
            r@[0].media_date@ == "-"@,
            r@[0].metadata@ == "-"@,
            forall|i: int| 1 <= i < r@.len() ==> shows_table_row(#[trigger] r@[i], *self, i - 1),
    {
        let rows = self.visible_files();
        let n: usize = rows.len();
        assert(arrange::indices(rows@).len() == n);
        let mut out: Vec<TableRow> = Vec::new();
        let first = TableRow {
            name: "[..]".to_owned(),
            size: None,
            modified: "-".to_owned(),
            media_date: "-".to_owned(),
            metadata: "-".to_owned(),
        };
        let ghost head = first;
        out.push(first);
        let mut i: usize = 0;
        while i < n
            invariant
                i <= n,
                n == rows@.len(),
                file_list::all_plausible(self.scan_results@),
                arrange::indices(rows@) == file_list::visible(*self),
                forall|k: int| 0 <= k < rows@.len() ==> (#[trigger] rows@[k]) < self.files@.len(),
                out@.len() == i + 1,
                out@[0] == head,
                forall|k: int| 1 <= k <= i ==> shows_table_row(#[trigger] out@[k], *self, k - 1),
            decreases n - i,
        {
            let row: usize = rows[i];
            assert(arrange::indices(rows@)[i as int] == row);
            let entry = &self.files[row];
            let label = entry.display_name();
            let name = if entry.is_dir {
                let mut t = "".to_owned();
                t.push('[');
                t.append(label.as_str());
                t.push(']');
                proof {
                    reveal_strlit("");
                    assert(t@ =~= seq!['['] + entry.label() + seq![']']);
                }
                t
            } else {
                label
            };
            let (media_date, metadata) = match find_scan(self, entry) {
                Some(scan) => {
                    proof {
                        file_list::lemma_scan_plausible(*self, *entry);
                    }
                    (
                        display_media_date(scan, self.time_display_mode).0,
                        scan.metadata_status.clone(),
                    )
                },
                None => ("…".to_owned(), "…".to_owned()),
            };
            let shown = TableRow {
                name,
                size: entry_size(entry),
                modified: time_text(&entry.modified),
                media_date,
                metadata,
            };
            assert(shows_table_row(shown, *self, i as int));
            out.push(shown);
            i += 1;
        }
        out
    }

    /// The name, the time of creation and of the last change of a row, and
    /// whether it is a folder.
    pub fn ui_details_for_index(&self, index: i32) -> (r: Option<(String, String, String, bool)>)
        requires
            file_list::all_plausible(self.scan_results@),
        ensures
            r is Some == (0 <= index <= file_list::visible(*self).len()),
            r matches Some(d) ==> {
                if index == 0 {
                    d.0@ == "[..]"@ && d.1@ == "-"@ && d.2@ == "-"@ && d.3
                } else {
                    let entry = self.files@[file_list::visible(*self)[index - 1]];
                    &&& d.0@ == entry.label()
                    &&& d.1@ == entries::shown_time(entry.created)
                    &&& d.2@ == entries::shown_time(entry.modified)
                    &&& d.3 == entry.is_dir
                }
            },
    {
        if index < 0 {
            return None;
        }
        if index == 0 {
            return Some(("[..]".to_owned(), "-".to_owned(), "-".to_owned(), true));
        }
        let rows = self.visible_files();
        assert(arrange::indices(rows@).len() == rows@.len());
        let place: usize = (index - 1) as usize;
        if place >= rows.len() {
            return None;
        }
        assert(arrange::indices(rows@)[place as int] == rows@[place as int]);
        let entry = &self.files[rows[place]];
        Some(
            (
                entry.display_name(),
                time_text(&entry.created),
                time_text(&entry.modified),
                entry.is_dir,
            ),
        )
    }

    /// The details of the selected rows.
    pub fn selected_entry_details(&self) -> (r: Vec<SelectedEntryDetails>)
        requires
            file_list::all_plausible(self.scan_results@),
        ensures
            ({
                let rows = selected_rows(*self, self.selected_indices@.len() as int);
                &&& r@.len() == rows.len()
                &&& forall|i: int|
                    0 <= i < r@.len() ==> shows_details(#[trigger] r@[i], *self, rows[i])
            }),
    {
        let rows = self.visible_files();
        assert(arrange::indices(rows@).len() == rows@.len());
        let n: usize = self.selected_indices.len();
        let mut out: Vec<SelectedEntryDetails> = Vec::new();
        let mut i: usize = 0;
        while i < n
            invariant
                i <= n,
                n == self.selected_indices@.len(),
                file_list::all_plausible(self.scan_results@),
                arrange::indices(rows@) == file_list::visible(*self),
                file_list::visible(*self).len() == rows@.len(),
                forall|k: int| 0 <= k < rows@.len() ==> (#[trigger] rows@[k]) < self.files@.len(),
                out@.len() == selected_rows(*self, i as int).len(),
                forall|k: int|
                    0 <= k < out@.len() ==> shows_details(
                        #[trigger] out@[k],
                        *self,
                        selected_rows(*self, i as int)[k],
                    ),
            decreases n - i,
        {
            let index: i32 = self.selected_indices[i];
            if index == 0 {
                out.push(parent_details(self));
            } else if index > 0 && index as usize <= rows.len() {
                let row: usize = rows[index as usize - 1];
                assert(arrange::indices(rows@)[index - 1] == row);
                let d = entry_details(self, &self.files[row]);
                assert(shows_details(d, *self, index as int));
                out.push(d);
            }
            i += 1;
        }
        out
    }

    /// The kind, the date and the state that a scan gave for a row.
    pub fn cached_media_fields_for_ui_index(&self, index: i32) -> (r: Option<
        (String, String, String),
    >)
        requires
            file_list::all_plausible(self.scan_results@),
        ensures
            ({
                let rows = file_list::visible(*self);
                let scan = if 1 <= index <= rows.len() && !self.files@[rows[index - 1]].is_dir {
                    file_list::scan_of(*self, self.files@[rows[index - 1]])
                } else {
                    None
                };
                match r {
                    Some(f) => scan matches Some(s) && f.0@ == s.media_kind@ && f.1@
                        == s.media_date@ && f.2@ == s.metadata_status@,
                    None => scan is None,
                }
            }),
    {
        if index < 1 {
            return None;
        }
        let rows = self.visible_files();
        assert(arrange::indices(rows@).len() == rows@.len());
        let place: usize = (index - 1) as usize;
        if place >= rows.len() {
            return None;
        }
        assert(arrange::indices(rows@)[place as int] == rows@[place as int]);
        let entry = &self.files[rows[place]];
        if entry.is_dir {
            return None;
        }
        match find_scan(self, entry) {
            Some(s) => Some(
                (s.media_kind.clone(), s.media_date.clone(), s.metadata_status.clone()),
            ),
            None => None,
        }
    }
}

} // verus!
