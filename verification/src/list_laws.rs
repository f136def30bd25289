//! How the list of a folder's files is ordered, and which files stand in it.
use crate::calendar;
use crate::datetime::{self, Moment};
use crate::entries::{self, FileSystemEntry};
use crate::file_list::{self, SlintApp};
use crate::media::{self, MediaScanResult};
use crate::moment_laws;
use crate::order::{self, Order};
use crate::order_laws;
use crate::paths;
use crate::text;
use vstd::prelude::*;

verus! {

// The order of two files.

/// One file stands before another, and the other behind it.
pub open spec fn stands_first(app: SlintApp, a: FileSystemEntry, b: FileSystemEntry) -> bool {
    &&& file_list::list_order(app, a, b) == Order::Less
    &&& file_list::list_order(app, b, a) == Order::Greater
}

/// Folders stand before files, whatever the list is sorted by, and among themselves
/// by their names.
pub proof fn folders_stand_first(app: SlintApp, a: FileSystemEntry, b: FileSystemEntry)
    requires
        a.is_dir,
    ensures
        !b.is_dir ==> stands_first(app, a, b),
        b.is_dir ==> file_list::list_order(app, a, b) == order::natural_order(
            a.sort_name(),
            b.sort_name(),
        ),
{
}

/// Sorted by name, the files stand in the order of their names upward and in the
/// opposite order downward.
pub proof fn names_sort_both_ways(app: SlintApp, a: FileSystemEntry, b: FileSystemEntry)
    requires
        !a.is_dir,
        !b.is_dir,
        app.sort_column == 1,
        order::natural_order(a.sort_name(), b.sort_name()) == Order::Less,
    ensures
        app.sort_direction == 1 ==> stands_first(app, a, b),
        app.sort_direction == 2 ==> stands_first(app, b, a),
{
    order::names_are_ordered(a.sort_name(), b.sort_name(), a.sort_name());
}

/// Sorted by size, the smaller file stands first upward and last downward; files of
/// one size stand by their names either way.
pub proof fn sizes_sort_both_ways(app: SlintApp, a: FileSystemEntry, b: FileSystemEntry)
    requires
        !a.is_dir,
        !b.is_dir,
        app.sort_column == 2,
    ensures
        a.size < b.size && app.sort_direction == 1 ==> stands_first(app, a, b),
        a.size < b.size && app.sort_direction == 2 ==> stands_first(app, b, a),
        a.size == b.size ==> file_list::list_order(app, a, b) == order::natural_order(
            a.sort_name(),
            b.sort_name(),
        ),
{
}

/// Sorted by the time of the last change, the older file stands first upward and
/// last downward. A file without a time stands last either way, and files of one
/// time stand by their names.
pub proof fn times_sort_both_ways(app: SlintApp, a: FileSystemEntry, b: FileSystemEntry)
    requires
        !a.is_dir,
        !b.is_dir,
        app.sort_column == 3,
    ensures
        a.modified is Some && b.modified is Some && (a.modified->0).nanos < (b.modified->0).nanos ==> {
            &&& app.sort_direction == 1 ==> stands_first(app, a, b)
            &&& app.sort_direction == 2 ==> stands_first(app, b, a)
        },
        a.modified is Some && b.modified is None ==> stands_first(app, a, b),
        a.modified is Some && b.modified is Some && (a.modified->0).nanos == (b.modified->0).nanos
            ==> file_list::list_order(app, a, b) == order::natural_order(
            a.sort_name(),
            b.sort_name(),
        ),
        a.modified is None && b.modified is None ==> file_list::list_order(app, a, b)
            == order::natural_order(a.sort_name(), b.sort_name()),
{
}

/// The date that is shown for a file, without white space at its ends; none for a
/// file without a scan, or where the date is empty, a dash or `N/A`.
pub open spec fn has_shown_date(app: SlintApp, a: FileSystemEntry, date: Seq<char>) -> bool {
    &&& file_list::scan_of(app, a) is Some
    &&& date == text::trim(
        file_list::shown_date(file_list::scan_of(app, a)->0, app.time_display_mode),
    )
    &&& date.len() > 0
    &&& date != "-"@
    &&& date != "N/A"@
}

/// Sorted by media date, the file whose shown date is less as a text stands first
/// upward and last downward. Files of one date stand by their names either way.
pub proof fn media_dates_sort_both_ways(
    app: SlintApp,
    a: FileSystemEntry,
    b: FileSystemEntry,
    date_a: Seq<char>,
    date_b: Seq<char>,
)
    requires
        !a.is_dir,
        !b.is_dir,
        app.sort_column == 4,
        has_shown_date(app, a, date_a),
        has_shown_date(app, b, date_b),
    ensures
        order_laws::less_text(date_a, date_b) ==> {
            &&& app.sort_direction == 1 ==> stands_first(app, a, b)
            &&& app.sort_direction == 2 ==> stands_first(app, b, a)
        },
        date_a == date_b ==> file_list::list_order(app, a, b) == order::natural_order(
            a.sort_name(),
            b.sort_name(),
        ),
{
    order_laws::texts_stand_by_their_first_difference(date_a, date_b);
    order_laws::texts_stand_by_their_first_difference(date_b, date_a);
}

/// Sorted by media date, files without a date stand behind those that have one, upward
/// and downward, and among themselves by their names.
pub proof fn files_without_a_date_stand_last(
    app: SlintApp,
    a: FileSystemEntry,
    b: FileSystemEntry,
    date_a: Seq<char>,
)
    requires
        !a.is_dir,
        !b.is_dir,
        app.sort_column == 4,
        forall|date: Seq<char>| !has_shown_date(app, b, date),
    ensures
        has_shown_date(app, a, date_a) ==> stands_first(app, a, b),
        (forall|date: Seq<char>| !has_shown_date(app, a, date)) ==> file_list::list_order(app, a, b)
            == order::natural_order(a.sort_name(), b.sort_name()),
{
    if let Some(s) = file_list::scan_of(app, b) {
        let date = text::trim(file_list::shown_date(s, app.time_display_mode));
        assert(!has_shown_date(app, b, date));
    }
    if forall|date: Seq<char>| !has_shown_date(app, a, date) {
        if let Some(s) = file_list::scan_of(app, a) {
            let date = text::trim(file_list::shown_date(s, app.time_display_mode));
            assert(!has_shown_date(app, a, date));
        }
    }
}

/// Metadata was found: `O` or `Available`.
pub open spec fn found(status: Seq<char>) -> bool {
    text::trim(status) == "O"@ || text::trim(status) == "Available"@
}

/// No metadata was found: `X` or `Not Found`.
pub open spec fn not_found(status: Seq<char>) -> bool {
    text::trim(status) == "X"@ || text::trim(status) == "Not Found"@
}

/// The file could not be read: `!` or `Error`.
pub open spec fn failed(status: Seq<char>) -> bool {
    text::trim(status) == "!"@ || text::trim(status) == "Error"@
}

/// A status that comes earlier than another: found, not found, failed, anything else.
pub open spec fn earlier_status(a: Seq<char>, b: Seq<char>) -> bool {
    ||| found(a) && !found(b)
    ||| not_found(a) && !found(b) && !not_found(b)
    ||| failed(a) && !found(b) && !not_found(b) && !failed(b)
}

/// Sorted by metadata status, the file of the earlier status stands first upward and
/// last downward; files that were not scanned stand last either way.
pub proof fn statuses_sort_both_ways(app: SlintApp, a: FileSystemEntry, b: FileSystemEntry)
    requires
        !a.is_dir,
        !b.is_dir,
        app.sort_column == 5,
        file_list::scan_of(app, a) is Some,
    ensures
        file_list::scan_of(app, b) is None ==> stands_first(app, a, b),
        file_list::scan_of(app, b) is Some && earlier_status(
            (file_list::scan_of(app, a)->0).metadata_status@,
            (file_list::scan_of(app, b)->0).metadata_status@,
        ) ==> {
            &&& app.sort_direction == 1 ==> stands_first(app, a, b)
            &&& app.sort_direction == 2 ==> stands_first(app, b, a)
        },
        file_list::scan_of(app, b) is Some && !earlier_status(
            (file_list::scan_of(app, a)->0).metadata_status@,
            (file_list::scan_of(app, b)->0).metadata_status@,
        ) && !earlier_status(
            (file_list::scan_of(app, b)->0).metadata_status@,
            (file_list::scan_of(app, a)->0).metadata_status@,
        ) ==> file_list::list_order(app, a, b) == order::natural_order(a.sort_name(), b.sort_name()),
{
    reveal_strlit("O");
    reveal_strlit("Available");
    reveal_strlit("X");
    reveal_strlit("Not Found");
    reveal_strlit("!");
    reveal_strlit("Error");
    assert("O"@[0] == 'O' && "X"@[0] == 'X' && "!"@[0] == '!');
    assert("O"@.len() == 1 && "X"@.len() == 1 && "!"@.len() == 1);
    assert("Available"@.len() == 9 && "Not Found"@.len() == 9 && "Error"@.len() == 5);
    assert("Available"@[0] == 'A' && "Not Found"@[0] == 'N');
}

// The rows.

/// Of two rows of a sorted list the upper one does not belong behind the lower one;
/// where neither belongs before the other, they stand as in the folder. A list that
/// is not sorted, or that waits for the scans it is sorted by, stands as the folder.
pub proof fn rows_stand_in_order(app: SlintApp, i: int, j: int)
    requires
        0 <= i < j < file_list::visible(app).len(),
    ensures
        ({
            let up = file_list::visible(app)[i];
            let low = file_list::visible(app)[j];
            if app.sort_direction == 0 || ((app.sort_column == 4 || app.sort_column == 5)
                && !app.dynamic_sort_ready) {
                up < low
            } else {
                let o = file_list::list_order(app, app.files@[up], app.files@[low]);
                o == Order::Less || (o == Order::Equal && up < low)
            }
        }),
{
    file_list::list_exists(app);
    let rows = file_list::visible(app);
    let before = |a: int, b: int| file_list::stands_before(app, a, b);
    assert(before(rows[i], rows[j]));
}

/// The list has a row for each file that is shown, and no file has two.
pub proof fn rows_are_the_shown_files(app: SlintApp, k: int)
    ensures
        file_list::visible(app).contains(k) <==> file_list::is_shown(app, k),
        file_list::visible(app).no_duplicates(),
{
    file_list::list_exists(app);
    let rows = file_list::visible(app);
    let shown = |k: int| file_list::is_shown(app, k);
    if shown(k) {
        assert(rows.contains(k));
    }
    if rows.contains(k) {
        let i = choose|i: int| 0 <= i < rows.len() && rows[i] == k;
        assert(shown(rows[i]));
    }
    assert forall|i: int, j: int| 0 <= i < j < rows.len() implies rows[i] != rows[j] by {
        rows_stand_in_order(app, i, j);
        file_list::list_is_ordered(app, app.files@[rows[i]], app.files@[rows[i]], app.files@[rows[i]]);
    }
}

// Which files are shown.

/// A date that a scan found stands for none where it is empty, a dash or `N/A`.
pub open spec fn no_date(date: Seq<char>) -> bool {
    let t = text::trim(date);
    t.len() == 0 || t == "-"@ || t == "N/A"@
}

/// Another file that the filter takes shows the same date, which is a date.
pub open spec fn shares_its_date(app: SlintApp, k: int) -> bool {
    exists|j: int|
        0 <= j < app.files@.len() && j != k && #[trigger] same_date(app, app.files@[j], app.files@[k])
}

pub open spec fn same_date(app: SlintApp, a: FileSystemEntry, b: FileSystemEntry) -> bool {
    &&& !a.is_dir && !b.is_dir
    &&& media::filter_takes(app.file_filter, a.kind_name())
    &&& media::filter_takes(app.file_filter, b.kind_name())
    &&& file_list::scan_of(app, a) is Some
    &&& file_list::scan_of(app, b) is Some
    &&& {
        let x = text::trim(
            file_list::shown_date(file_list::scan_of(app, a)->0, app.time_display_mode),
        );
        let y = text::trim(
            file_list::shown_date(file_list::scan_of(app, b)->0, app.time_display_mode),
        );
        x == y && x.len() > 0 && x != "-"@ && x != "N/A"@ && x != "Scanning..."@
    }
}

/// Folders are always shown. A file is shown only if the filter takes it; where no
/// dates are asked for, that is enough.
pub proof fn filters_choose_files(app: SlintApp, k: int)
    requires
        0 <= k < app.files@.len(),
    ensures
        app.files@[k].is_dir ==> file_list::is_shown(app, k),
        !app.files@[k].is_dir && !media::filter_takes(app.file_filter, app.files@[k].kind_name())
            ==> !file_list::is_shown(app, k),
        !app.files@[k].is_dir && !app.show_only_missing_media_date
            && !app.show_only_missing_time_zone_offset && !app.show_only_duplicate_media_date
            ==> file_list::is_shown(app, k) == media::filter_takes(
            app.file_filter,
            app.files@[k].kind_name(),
        ),
{
}

/// Where dates are asked for, a scanned file is shown if it meets one of the
/// conditions that are on: it has no date; it is a JPEG image whose date has no time
/// zone; another file has its date. A file that was not scanned is shown with either
/// of the first two on.
pub proof fn date_conditions_choose_files(app: SlintApp, k: int)
    requires
        0 <= k < app.files@.len(),
        !app.files@[k].is_dir,
        media::filter_takes(app.file_filter, app.files@[k].kind_name()),
        app.show_only_missing_media_date || app.show_only_missing_time_zone_offset
            || app.show_only_duplicate_media_date,
    ensures
        file_list::scan_of(app, app.files@[k]) is None ==> file_list::is_shown(app, k) == (
        app.show_only_missing_media_date || app.show_only_missing_time_zone_offset),
        file_list::scan_of(app, app.files@[k]) matches Some(s) ==> file_list::is_shown(app, k) == {
            ||| app.show_only_missing_media_date && no_date(s.media_date@)
            ||| app.show_only_missing_time_zone_offset && s.media_kind@ == "jpeg"@ && !no_date(
                s.media_date@,
            ) && s.recorded_offset_minutes is None
            ||| app.show_only_duplicate_media_date && shares_its_date(app, k)
        },
{
    let e = app.files@[k];
    if file_list::has_duplicate(app, k) {
        let j = choose|j: int|
            0 <= j < app.files@.len() && j != k && #[trigger] file_list::duplicate_key(
                app,
                app.files@[j],
            ) == file_list::duplicate_key(app, app.files@[k]);
        assert(same_date(app, app.files@[j], e));
    }
    if shares_its_date(app, k) {
        let j = choose|j: int|
            0 <= j < app.files@.len() && j != k && #[trigger] same_date(app, app.files@[j], e);
        assert(file_list::duplicate_key(app, app.files@[j]) == file_list::duplicate_key(app, e));
    }
}

// What is shown for a scan.

/// In the recorded zone the recorded date is shown, or the media date where none was
/// recorded; so is it in another zone where the time in UTC is not known.
pub proof fn recorded_dates_are_shown(scan: MediaScanResult, mode: i32)
    requires
        mode == 0 || scan.media_date_utc is None,
    ensures
        text::trim(scan.recorded_media_date@).len() > 0 ==> file_list::shown_date(scan, mode)
            == scan.recorded_media_date@,
        text::trim(scan.recorded_media_date@).len() == 0 ==> file_list::shown_date(scan, mode)
            == scan.media_date@,
        scan.recorded_offset_minutes is None ==> file_list::shown_basis(scan, mode) == "Local?"@,
        scan.recorded_offset_minutes matches Some(m) ==> file_list::shown_basis(scan, mode)
            == file_list::offset_label(m),
{
}

/// A date whose time in UTC is known is shown at that time in the other zones: nine
/// hours ahead in Korean time, and in UTC otherwise.
pub proof fn known_times_are_shown_in_other_zones(scan: MediaScanResult, m: Moment, mode: i32)
    requires
        datetime::valid_moment(m),
        m.nano == 0,
        scan.media_date_utc matches Some(t) && t == datetime::timestamp(m),
        mode != 0,
    ensures
        mode == 2 ==> file_list::shown_date(scan, mode) == datetime::offset_text(m, 540),
        mode == 2 ==> file_list::shown_basis(scan, mode) == "KST"@,
        mode != 2 ==> file_list::shown_date(scan, mode) == datetime::offset_text(m, 0),
        mode != 2 ==> file_list::shown_basis(scan, mode) == "UTC"@,
{
    calendar::moments_are_supported(m);
    calendar::moment_is_at_its_second(m);
}

/// A zone is written by its hours and minutes, two digits each, behind `UTC` and a
/// sign; without a difference it is `UTC` alone.
pub proof fn zones_are_written_by_hours_and_minutes(hours: int, minutes: int, sign: int)
    requires
        0 <= hours <= 99,
        0 <= minutes <= 59,
        sign == 1 || sign == -1,
    ensures
        ({
            let s = file_list::offset_label((sign * (60 * hours + minutes)) as i32);
            if hours == 0 && minutes == 0 {
                s == "UTC"@
            } else {
                &&& s.len() == 9
                &&& s.take(3) == "UTC"@
                &&& s[3] == if sign == 1 {
                    '+'
                } else {
                    '-'
                }
                &&& moment_laws::writes_two(s, 4, hours)
                &&& s[6] == ':'
                &&& moment_laws::writes_two(s, 7, minutes)
            }
        }),
{
    let n = sign * (60 * hours + minutes);
    assert(sign == 1 ==> n == 60 * hours + minutes);
    assert(sign == -1 ==> n == -(60 * hours + minutes));
    moment_laws::lemma_two(hours);
    moment_laws::lemma_two(minutes);
    let h = datetime::two(hours);
    let m = datetime::two(minutes);
    let s = file_list::offset_label(n as i32);
    reveal_strlit("UTC");
    if hours != 0 || minutes != 0 {
        assert(s =~= "UTC"@ + (if n < 0 {
            seq!['-']
        } else {
            seq!['+']
        }) + h + seq![':'] + m);
        assert(s.take(3) =~= "UTC"@);
        assert(s[4] == h[0] && s[5] == h[1]);
        assert(s[7] == m[0] && s[8] == m[1]);
    }
}

// Scans.

/// A scan counts for a file while the file has the size and the time that it had
/// when it was scanned, and no longer.
pub proof fn scans_count_while_files_are_unchanged(app: SlintApp, e: FileSystemEntry, i: int)
    requires
        file_list::one_record_each(app.scan_results@, app.windows),
        0 <= i < app.scan_results@.len(),
        app.scan_results@[i].path@ == e.path@,
    ensures
        ({
            let scan = app.scan_results@[i].scan;
            let same_time = match (scan.modified, e.modified) {
                (Some(a), Some(b)) => a.nanos == b.nanos,
                (None, None) => true,
                _ => false,
            };
            &&& scan.size == e.size && same_time ==> file_list::scan_of(app, e) == Some(scan.result)
            &&& scan.size != e.size || !same_time ==> file_list::scan_of(app, e) is None
        }),
{
    lemma_record(app.scan_results@, e.path@, app.windows, i, 0);
}

proof fn lemma_record(
    records: Seq<file_list::ScanRecord>,
    path: Seq<char>,
    windows: bool,
    i: int,
    from: int,
)
    requires
        file_list::one_record_each(records, windows),
        0 <= from <= i < records.len(),
        records[i].path@ == path,
    ensures
        file_list::record_from(records, path, windows, from) == Some(records[i].scan),
    decreases i - from,
{
    if from < i {
        assert(!paths::same(records[from].path@, records[i].path@, windows));
        lemma_record(records, path, windows, i, from + 1);
    } else {
        assert(paths::same(records[i].path@, path, windows));
    }
}

/// A file without a record has no scan.
pub proof fn unknown_files_have_no_scan(app: SlintApp, e: FileSystemEntry)
    requires
        forall|i: int|
            0 <= i < app.scan_results@.len() ==> !paths::same(
                (#[trigger] app.scan_results@[i]).path@,
                e.path@,
                app.windows,
            ),
    ensures
        file_list::scan_of(app, e) is None,
{
    lemma_no_record(app.scan_results@, e.path@, app.windows, 0);
}

proof fn lemma_no_record(
    records: Seq<file_list::ScanRecord>,
    path: Seq<char>,
    windows: bool,
    from: int,
)
    requires
        0 <= from,
        forall|i: int|
            0 <= i < records.len() ==> !paths::same(
                (#[trigger] records[i]).path@,
                path,
                windows,
            ),
    ensures
        file_list::record_from(records, path, windows, from) is None,
    decreases records.len() - from,
{
    if from < records.len() {
        assert(!paths::same(records[from].path@, path, windows));
        lemma_no_record(records, path, windows, from + 1);
    }
}

// The order of a folder.

/// In a folder that was read, folders stand before files, and otherwise the entry whose
/// name is less in small letters stands first, or, where these agree, the entry
/// whose name is less as it is.
pub proof fn folders_are_read_in_order(
    r: Seq<FileSystemEntry>,
    given: Seq<FileSystemEntry>,
    i: int,
    j: int,
)
    requires
        entries::listed_in_order(r, given),
        0 <= i < j < r.len(),
    ensures
        r[j].is_dir ==> r[i].is_dir,
        r[i].is_dir == r[j].is_dir ==> !order_laws::less_text(
            text::lowercased(r[j].sort_name()),
            text::lowercased(r[i].sort_name()),
        ),
        r[i].is_dir == r[j].is_dir && text::lowercased(r[j].sort_name()) == text::lowercased(
            r[i].sort_name(),
        ) ==> !order_laws::less_text(r[j].sort_name(), r[i].sort_name()),
{
    let rows = choose|rows: Seq<int>|
        {
            &&& #[trigger] entries::is_folder_order(rows, given, given.len() as int)
            &&& r.len() == rows.len()
            &&& forall|i: int| 0 <= i < r.len() ==> #[trigger] r[i] == given[rows[i]]
        };
    let before = |a: int, b: int| entries::entry_before(given, a, b);
    assert(before(rows[i], rows[j]));
    assert(r[i] == given[rows[i]] && r[j] == given[rows[j]]);
    order_laws::texts_stand_by_their_first_difference(
        text::lowercased(r[i].sort_name()),
        text::lowercased(r[j].sort_name()),
    );
    order_laws::texts_stand_by_their_first_difference(r[i].sort_name(), r[j].sort_name());
}

/// Every entry of a folder is in the order, and the order has no others.
pub proof fn folder_order_keeps_the_entries(r: Seq<FileSystemEntry>, given: Seq<FileSystemEntry>, k: int)
    requires
        entries::listed_in_order(r, given),
    ensures
        0 <= k < given.len() ==> r.contains(given[k]),
        0 <= k < r.len() ==> given.contains(r[k]),
{
    let rows = choose|rows: Seq<int>|
        {
            &&& #[trigger] entries::is_folder_order(rows, given, given.len() as int)
            &&& r.len() == rows.len()
            &&& forall|i: int| 0 <= i < r.len() ==> #[trigger] r[i] == given[rows[i]]
        };
    let shown = |k: int| 0 <= k < given.len();
    if 0 <= k < given.len() {
        assert(shown(k));
        assert(rows.contains(k));
        let i = choose|i: int| 0 <= i < rows.len() && rows[i] == k;
        assert(r[i] == given[k]);
    }
    if 0 <= k < r.len() {
        assert(shown(rows[k]));
        assert(r[k] == given[rows[k]]);
    }
}

} // verus!
