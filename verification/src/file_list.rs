//! The list of a folder's files: which of them are shown, in which order, and
//! which are selected.
use crate::arrange;
use crate::calendar;
use crate::datetime::{self, moment_at, text_at_offset};
use crate::entries::{self, same_time, FileSystemEntry, FileTime};
use crate::media::{self, matches_file_filter, MediaScanResult};
use crate::order::{self, compare_texts, directional_order, natural_name_order, Order};
use crate::paths::{self, same_path};
use crate::text::{self, padded_text, same_text, trimmed};
use vstd::prelude::*;

verus! {

/// Dates are shown as they were recorded.
pub const TIME_DISPLAY_RECORDED: i32 = 0;

/// Dates are shown in Korean time.
pub const TIME_DISPLAY_KST: i32 = 2;

/// What a scan of a file gave, with the size and the time that the file had.
#[derive(Debug)]
pub struct CachedMediaScan {
    pub size: u64,
    pub modified: Option<FileTime>,
    pub result: MediaScanResult,
}

/// The scans that are known, by the path of the file.
#[derive(Debug)]
pub struct ScanRecord {
    pub path: String,
    pub scan: CachedMediaScan,
}

/// The list of a folder's files.
#[derive(Debug)]
pub struct SlintApp {
    pub current_path: String,
    /// The folder that holds the current one, if there is one.
    pub parent_path: Option<String>,
    pub files: Vec<FileSystemEntry>,
    pub selected_indices: Vec<i32>,
    pub file_filter: i32,
    pub show_only_missing_media_date: bool,
    pub show_only_missing_time_zone_offset: bool,
    pub show_only_duplicate_media_date: bool,
    pub time_display_mode: i32,
    pub sort_column: i32,
    pub sort_direction: i32,
    /// What scans gave, at most one record a path.
    pub scan_results: Vec<ScanRecord>,
    pub scan_epoch: u64,
    pub selection_anchor: Option<i32>,
    pub dynamic_sort_ready: bool,
    /// Whether paths are those of Windows.
    pub windows: bool,
}

// Known scans.

/// The scan that is known for a path, among the records from a place on.
pub open spec fn record_from(
    records: Seq<ScanRecord>,
    path: Seq<char>,
    windows: bool,
    i: int,
) -> Option<CachedMediaScan>
    decreases records.len() - i,
{
    if i < 0 || i >= records.len() {
        None
    } else if paths::same(records[i].path@, path, windows) {
        Some(records[i].scan)
    } else {
        record_from(records, path, windows, i + 1)
    }
}

pub open spec fn known_scan(records: Seq<ScanRecord>, path: Seq<char>, windows: bool) -> Option<
    CachedMediaScan,
> {
    record_from(records, path, windows, 0)
}

/// No path has two records.
pub open spec fn one_record_each(records: Seq<ScanRecord>, windows: bool) -> bool {
    forall|i: int, j: int|
        0 <= i < j < records.len() ==> !paths::same(
            (#[trigger] records[i]).path@,
            (#[trigger] records[j]).path@,
            windows,
        )
}

/// The scan of an entry, if the file has not changed since.
pub open spec fn scan_of(app: SlintApp, entry: FileSystemEntry) -> Option<MediaScanResult> {
    match known_scan(app.scan_results@, entry.path@, app.windows) {
        Some(c) => if c.size == entry.size && entries::instant(c.modified) == entries::instant(
            entry.modified,
        ) {
            Some(c.result)
        } else {
            None
        },
        None => None,
    }
}

pub(crate) fn find_record<'a>(records: &'a Vec<ScanRecord>, path: &str, windows: bool) -> (r:
    Option<&'a CachedMediaScan>)
    ensures
        match r {
            Some(c) => known_scan(records@, path@, windows) == Some(*c),
            None => known_scan(records@, path@, windows) is None,
        },
{
    let n: usize = records.len();
    let mut i: usize = 0;
    while i < n
        invariant
            i <= n,
            n == records@.len(),
            known_scan(records@, path@, windows) == record_from(
                records@,
                path@,
                windows,
                i as int,
            ),
        decreases n - i,
    {
        if same_path(records[i].path.as_str(), path, windows) {
            return Some(&records[i].scan);
        }
        i += 1;
    }
    None
}

pub(crate) fn find_scan<'a>(app: &'a SlintApp, entry: &FileSystemEntry) -> (r: Option<
    &'a MediaScanResult,
>)
    ensures
        match r {
            Some(s) => scan_of(*app, *entry) == Some(*s),
            None => scan_of(*app, *entry) is None,
        },
{
    match find_record(&app.scan_results, entry.path.as_str(), app.windows) {
        Some(c) => if c.size == entry.size && same_time(&c.modified, &entry.modified) {
            Some(&c.result)
        } else {
            None
        },
        None => None,
    }
}

// Dates as they are shown.

/// The label of a time zone by its minutes from UTC.
pub open spec fn offset_label(minutes: i32) -> Seq<char> {
    if minutes == 0 {
        "UTC"@
    } else {
        let m = if minutes < 0 {
            -minutes
        } else {
            minutes as int
        };
        "UTC"@ + (if minutes < 0 {
            seq!['-']
        } else {
            seq!['+']
        }) + text::zero_padded((m / 60) as nat, 2) + seq![':'] + text::zero_padded(
            (m % 60) as nat,
            2,
        )
    }
}

pub fn format_offset_label(minutes: i32) -> (r: String)
    requires
        minutes > i32::MIN,
    ensures
        r@ == offset_label(minutes),
{
    if minutes == 0 {
        return "UTC".to_owned();
    }
    let m: i32 = if minutes < 0 {
        -minutes
    } else {
        minutes
    };
    let mut out = "UTC".to_owned();
    out.push(
        if minutes < 0 {
            '-'
        } else {
            '+'
        },
    );
    let hours = padded_text((m / 60) as u64, 2);
    let rest = padded_text((m % 60) as u64, 2);
    out.append(hours.as_str());
    out.push(':');
    out.append(rest.as_str());
    assert(out@ =~= offset_label(minutes));
    out
}

/// The date as it was recorded.
pub open spec fn recorded_date(scan: MediaScanResult) -> Seq<char> {
    if text::trim(scan.recorded_media_date@).len() == 0 {
        scan.media_date@
    } else {
        scan.recorded_media_date@
    }
}

pub open spec fn recorded_basis(scan: MediaScanResult) -> Seq<char> {
    match scan.recorded_offset_minutes {
        Some(m) => offset_label(m),
        None => "Local?"@,
    }
}

/// Whether a date can be shown in a zone other than the one it was recorded in.
pub open spec fn converts(scan: MediaScanResult, mode: i32) -> bool {
    mode != TIME_DISPLAY_RECORDED && (scan.media_date_utc matches Some(t)
        && datetime::supported_timestamp(t as int))
}

pub open spec fn mode_offset(mode: i32) -> i32 {
    if mode == TIME_DISPLAY_KST {
        540
    } else {
        0
    }
}

/// The date that is shown for a scan.
pub open spec fn shown_date(scan: MediaScanResult, mode: i32) -> Seq<char> {
    if converts(scan, mode) {
        datetime::offset_text(
            datetime::moment_of(scan.media_date_utc->0 as int, 0),
            mode_offset(mode),
        )
    } else {
        recorded_date(scan)
    }
}

/// The zone that is named with the date.
pub open spec fn shown_basis(scan: MediaScanResult, mode: i32) -> Seq<char> {
    if converts(scan, mode) {
        if mode == TIME_DISPLAY_KST {
            "KST"@
        } else {
            "UTC"@
        }
    } else {
        recorded_basis(scan)
    }
}

/// A scan whose zone, if it is known, is a number of minutes that has an opposite.
pub open spec fn plausible(scan: MediaScanResult) -> bool {
    scan.recorded_offset_minutes matches Some(m) ==> m > i32::MIN
}

pub fn display_media_date(scan: &MediaScanResult, mode: i32) -> (r: (String, String))
    requires
        plausible(*scan),
    ensures
        r.0@ == shown_date(*scan, mode),
        r.1@ == shown_basis(*scan, mode),
        converts(*scan, mode) && datetime::supported_timestamp(
            scan.media_date_utc->0 + 60 * mode_offset(mode),
        ) ==> r.0@ == datetime::display_text(
            datetime::moment_of(scan.media_date_utc->0 + 60 * mode_offset(mode), 0),
        ),
{
    let recorded = if trimmed(scan.recorded_media_date.as_str()).is_empty() {
        scan.media_date.clone()
    } else {
        scan.recorded_media_date.clone()
    };
    let basis = match scan.recorded_offset_minutes {
        Some(m) => format_offset_label(m),
        None => "Local?".to_owned(),
    };
    if mode == TIME_DISPLAY_RECORDED {
        return (recorded, basis);
    }
    match scan.media_date_utc {
        None => (recorded, basis),
        Some(t) => {
            let offset: i32 = if mode == TIME_DISPLAY_KST {
                540
            } else {
                0
            };
            match moment_at(t) {
                None => (recorded, basis),
                Some(m) => {
                    let date = text_at_offset(m, offset);
                    proof {
                        calendar::moment_is_at_its_second(m);
                    }
                    (
                        date,
                        if mode == TIME_DISPLAY_KST {
                            "KST".to_owned()
                        } else {
                            "UTC".to_owned()
                        },
                    )
                },
            }
        },
    }
}

pub open spec fn all_plausible(records: Seq<ScanRecord>) -> bool {
    forall|i: int| 0 <= i < records.len() ==> plausible((#[trigger] records[i]).scan.result)
}

proof fn lemma_known_plausible(
    records: Seq<ScanRecord>,
    path: Seq<char>,
    windows: bool,
    i: int,
)
    requires
        all_plausible(records),
        0 <= i,
    ensures
        record_from(records, path, windows, i) matches Some(c) ==> plausible(c.result),
    decreases records.len() - i,
{
    if i < records.len() {
        assert(plausible(records[i].scan.result));
        lemma_known_plausible(records, path, windows, i + 1);
    }
}

pub proof fn lemma_scan_plausible(app: SlintApp, entry: FileSystemEntry)
    requires
        all_plausible(app.scan_results@),
    ensures
        scan_of(app, entry) matches Some(s) ==> plausible(s),
{
    lemma_known_plausible(app.scan_results@, entry.path@, app.windows, 0);
}

/// The date that is shown for an entry, if it was scanned.
pub(crate) fn entry_date(app: &SlintApp, entry: &FileSystemEntry) -> (r: Option<String>)
    requires
        all_plausible(app.scan_results@),
    ensures
        match r {
            Some(t) => scan_of(*app, *entry) matches Some(s) && t@ == shown_date(
                s,
                app.time_display_mode,
            ),
            None => scan_of(*app, *entry) is None,
        },
{
    proof {
        lemma_known_plausible(app.scan_results@, entry.path@, app.windows, 0);
    }
    match find_scan(app, entry) {
        Some(scan) => {
            let (date, _) = display_media_date(scan, app.time_display_mode);
            Some(date)
        },
        None => None,
    }
}

// Which entries are shown.

/// Whether a value stands for no date.
pub open spec fn no_media_date(value: Seq<char>) -> bool {
    let t = text::trim(value);
    t.len() == 0 || t == "-"@ || t == "N/A"@
}

/// Whether a scan found no date; a file that was not scanned has none yet.
pub open spec fn date_missing(scan: Option<MediaScanResult>) -> bool {
    match scan {
        Some(s) => no_media_date(s.media_date@),
        None => true,
    }
}

pub fn media_date_is_missing(scan: Option<&MediaScanResult>) -> (r: bool)
    ensures
        r == match scan {
            Some(s) => date_missing(Some(*s)),
            None => true,
        },
{
    match scan {
        Some(s) => {
            let t = trimmed(s.media_date.as_str());
            t.is_empty() || same_text(t, "-") || same_text(t, "N/A")
        },
        None => true,
    }
}

/// Whether a value is a date that can be compared with others.
pub open spec fn date_present(value: Seq<char>) -> bool {
    value.len() > 0 && value != "-"@ && value != "N/A"@ && value != "Scanning..."@
}

pub fn media_date_value_is_present(value: &str) -> (r: bool)
    ensures
        r == date_present(value@),
{
    !value.is_empty() && !same_text(value, "-") && !same_text(value, "N/A") && !same_text(
        value,
        "Scanning...",
    )
}

/// The date by which an entry is looked for among duplicates.
pub open spec fn duplicate_key(app: SlintApp, entry: FileSystemEntry) -> Option<Seq<char>> {
    if entry.is_dir || !media::filter_takes(app.file_filter, entry.kind_name()) {
        None
    } else {
        match scan_of(app, entry) {
            Some(s) => {
                let date = text::trim(shown_date(s, app.time_display_mode));
                if date_present(date) {
                    Some(date)
                } else {
                    None
                }
            },
            None => None,
        }
    }
}

/// Whether another file has the same date as an entry.
pub open spec fn has_duplicate(app: SlintApp, k: int) -> bool {
    duplicate_key(app, app.files@[k]) is Some && exists|j: int|
        0 <= j < app.files@.len() && j != k && #[trigger] duplicate_key(app, app.files@[j])
            == duplicate_key(app, app.files@[k])
}

pub open spec fn filters_dates(app: SlintApp) -> bool {
    app.show_only_missing_media_date || app.show_only_missing_time_zone_offset
        || app.show_only_duplicate_media_date
}

/// Whether an entry is shown: folders always, files by the filter and, where
/// dates are asked for, by any of the conditions on them.
pub open spec fn is_shown(app: SlintApp, k: int) -> bool {
    0 <= k < app.files@.len() && {
        let entry = app.files@[k];
        entry.is_dir || (media::filter_takes(app.file_filter, entry.kind_name()) && (!filters_dates(
            app,
        ) || match scan_of(app, entry) {
            None => app.show_only_missing_media_date || app.show_only_missing_time_zone_offset,
            Some(s) => {
                ||| app.show_only_missing_media_date && date_missing(Some(s))
                ||| app.show_only_missing_time_zone_offset && s.media_kind@ == "jpeg"@
                    && !date_missing(Some(s)) && s.recorded_offset_minutes is None
                ||| app.show_only_duplicate_media_date && has_duplicate(app, k)
            },
        }))
    }
}

fn find_duplicate_key(app: &SlintApp, entry: &FileSystemEntry) -> (r: Option<String>)
    requires
        all_plausible(app.scan_results@),
    ensures
        match r {
            Some(t) => duplicate_key(*app, *entry) == Some(t@),
            None => duplicate_key(*app, *entry) is None,
        },
{
    if entry.is_dir || !matches_file_filter(app.file_filter, entry.file_name()) {
        return None;
    }
    match entry_date(app, entry) {
        None => None,
        Some(date) => {
            let t = trimmed(date.as_str());
            if media_date_value_is_present(t) {
                Some(t.to_owned())
            } else {
                None
            }
        },
    }
}

/// The dates of all files by which duplicates are looked for.
fn duplicate_keys(app: &SlintApp) -> (r: Vec<Option<String>>)
    requires
        all_plausible(app.scan_results@),
    ensures
        r@.len() == app.files@.len(),
        forall|i: int|
            0 <= i < r@.len() ==> match #[trigger] r@[i] {
                Some(t) => duplicate_key(*app, app.files@[i]) == Some(t@),
                None => duplicate_key(*app, app.files@[i]) is None,
            },
{
    let n: usize = app.files.len();
    let mut keys: Vec<Option<String>> = Vec::new();
    let mut i: usize = 0;
    while i < n
        invariant
            i <= n,
            n == app.files@.len(),
            all_plausible(app.scan_results@),
            keys@.len() == i,
            forall|k: int|
                0 <= k < i ==> match #[trigger] keys@[k] {
                    Some(t) => duplicate_key(*app, app.files@[k]) == Some(t@),
                    None => duplicate_key(*app, app.files@[k]) is None,
                },
        decreases n - i,
    {
        keys.push(find_duplicate_key(app, &app.files[i]));
        i += 1;
    }
    keys
}

fn occurs_elsewhere(app: &SlintApp, keys: &Vec<Option<String>>, k: usize) -> (r: bool)
    requires
        k < app.files@.len(),
        keys@.len() == app.files@.len(),
        forall|i: int|
            0 <= i < keys@.len() ==> match #[trigger] keys@[i] {
                Some(t) => duplicate_key(*app, app.files@[i]) == Some(t@),
                None => duplicate_key(*app, app.files@[i]) is None,
            },
    ensures
        r == has_duplicate(*app, k as int),
{
    let n: usize = keys.len();
    let key = match &keys[k] {
        None => {
            return false;
        },
        Some(key) => key,
    };
    let mut i: usize = 0;
    while i < n
        invariant
            i <= n,
            n == keys@.len(),
            n == app.files@.len(),
            k < n,
            keys@[k as int] == Some(*key),
            duplicate_key(*app, app.files@[k as int]) == Some(key@),
            forall|j: int|
                0 <= j < keys@.len() ==> match #[trigger] keys@[j] {
                    Some(t) => duplicate_key(*app, app.files@[j]) == Some(t@),
                    None => duplicate_key(*app, app.files@[j]) is None,
                },
            forall|j: int|
                0 <= j < i && j != k ==> #[trigger] duplicate_key(*app, app.files@[j])
                    != duplicate_key(*app, app.files@[k as int]),
        decreases n - i,
    {
        if i != k {
            match &keys[i] {
                Some(t) => {
                    if *t == *key {
                        assert(duplicate_key(*app, app.files@[i as int]) == duplicate_key(
                            *app,
                            app.files@[k as int],
                        ));
                        return true;
                    }
                },
                None => {},
            }
        }
        i += 1;
    }
    false
}

fn check_shown(app: &SlintApp, keys: &Vec<Option<String>>, k: usize) -> (r: bool)
    requires
        k < app.files@.len(),
        all_plausible(app.scan_results@),
        app.show_only_duplicate_media_date ==> keys@.len() == app.files@.len() && forall|i: int|
            0 <= i < keys@.len() ==> match #[trigger] keys@[i] {
                Some(t) => duplicate_key(*app, app.files@[i]) == Some(t@),
                None => duplicate_key(*app, app.files@[i]) is None,
            },
    ensures
        r == is_shown(*app, k as int),
{
    let entry = &app.files[k];
    if entry.is_dir {
        return true;
    }
    if !matches_file_filter(app.file_filter, entry.file_name()) {
        return false;
    }
    if !(app.show_only_missing_media_date || app.show_only_missing_time_zone_offset
        || app.show_only_duplicate_media_date) {
        return true;
    }
    let scan = match find_scan(app, entry) {
        None => {
            return app.show_only_missing_media_date || app.show_only_missing_time_zone_offset;
        },
        Some(scan) => scan,
    };
    let missing = media_date_is_missing(Some(scan));
    if app.show_only_missing_media_date && missing {
        return true;
    }
    if app.show_only_missing_time_zone_offset && same_text(scan.media_kind.as_str(), "jpeg")
        && !missing && scan.recorded_offset_minutes.is_none() {
        return true;
    }
    app.show_only_duplicate_media_date && occurs_elsewhere(app, keys, k)
}

// In which order they are shown.

/// The order of two values of which any may be missing: a missing one stands last.
pub open spec fn missing_last_int(a: Option<int>, b: Option<int>, descending: bool) -> Order {
    match (a, b) {
        (Some(x), Some(y)) => order::directed(order::int_order(x, y), descending),
        (Some(_), None) => Order::Less,
        (None, Some(_)) => Order::Greater,
        (None, None) => Order::Equal,
    }
}

pub open spec fn missing_last_text(
    a: Option<Seq<char>>,
    b: Option<Seq<char>>,
    descending: bool,
) -> Order {
    match (a, b) {
        (Some(x), Some(y)) => order::directed(order::text_order(x, y), descending),
        (Some(_), None) => Order::Less,
        (None, Some(_)) => Order::Greater,
        (None, None) => Order::Equal,
    }
}

pub open spec fn modified_key(entry: FileSystemEntry) -> Option<int> {
    match entry.modified {
        Some(t) => Some(t.nanos as int),
        None => None,
    }
}

/// A value by which files can be ordered.
pub open spec fn usable_value(value: Seq<char>) -> Option<Seq<char>> {
    if no_media_date(value) {
        None
    } else {
        Some(text::trim(value))
    }
}

pub open spec fn date_key(app: SlintApp, entry: FileSystemEntry) -> Option<Seq<char>> {
    match scan_of(app, entry) {
        Some(s) => usable_value(shown_date(s, app.time_display_mode)),
        None => None,
    }
}

/// The rank of what is known of a file's metadata.
pub open spec fn status_rank(value: Seq<char>) -> int {
    let t = text::trim(value);
    if t == "O"@ || t == "Available"@ {
        0
    } else if t == "X"@ || t == "Not Found"@ {
        1
    } else if t == "!"@ || t == "Error"@ {
        2
    } else {
        3
    }
}

pub open spec fn status_key(app: SlintApp, entry: FileSystemEntry) -> Option<int> {
    match scan_of(app, entry) {
        Some(s) => Some(status_rank(s.metadata_status@)),
        None => None,
    }
}

/// The order of two files by the column that the list is sorted by.
pub open spec fn column_order(app: SlintApp, a: FileSystemEntry, b: FileSystemEntry) -> Order {
    let descending = app.sort_direction == 2;
    if app.sort_column == 1 {
        order::directed(order::natural_order(a.sort_name(), b.sort_name()), descending)
    } else if app.sort_column == 2 {
        order::directed(order::int_order(a.size as int, b.size as int), descending)
    } else if app.sort_column == 3 {
        missing_last_int(modified_key(a), modified_key(b), descending)
    } else if app.sort_column == 4 {
        missing_last_text(date_key(app, a), date_key(app, b), descending)
    } else if app.sort_column == 5 {
        missing_last_int(status_key(app, a), status_key(app, b), descending)
    } else {
        Order::Equal
    }
}

/// The order of two entries: folders first by name, then files by the column
/// and, where that does not tell, by name.
pub open spec fn list_order(app: SlintApp, a: FileSystemEntry, b: FileSystemEntry) -> Order {
    if a.is_dir != b.is_dir {
        entries::folder_order(a.is_dir, b.is_dir)
    } else if a.is_dir {
        order::natural_order(a.sort_name(), b.sort_name())
    } else {
        order::chained(
            column_order(app, a, b),
            order::natural_order(a.sort_name(), b.sort_name()),
        )
    }
}

/// Whether the list is sorted now: a column that rests on scans has to wait
/// until they are done.
pub open spec fn sorts(app: SlintApp) -> bool {
    app.sort_direction != 0 && (app.dynamic_sort_ready || !(app.sort_column == 4
        || app.sort_column == 5))
}

/// One entry stands before another in the list.
pub open spec fn stands_before(app: SlintApp, a: int, b: int) -> bool {
    if sorts(app) {
        match list_order(app, app.files@[a], app.files@[b]) {
            Order::Less => true,
            Order::Equal => a < b,
            Order::Greater => false,
        }
    } else {
        a < b
    }
}

/// The rows of the list, as numbers of the folder's entries.
pub open spec fn is_list(app: SlintApp, rows: Seq<int>) -> bool {
    arrange::arranged(
        rows,
        |k: int| is_shown(app, k),
        |a: int, b: int| stands_before(app, a, b),
    )
}

pub open spec fn visible(app: SlintApp) -> Seq<int> {
    choose|rows: Seq<int>| is_list(app, rows)
}

proof fn lemma_column_order(
    app: SlintApp,
    a: FileSystemEntry,
    b: FileSystemEntry,
    c: FileSystemEntry,
)
    ensures
        order::consistent(
            column_order(app, a, b),
            column_order(app, b, c),
            column_order(app, a, c),
        ),
        column_order(app, b, a) == order::reversed(column_order(app, a, b)),
        column_order(app, a, a) == Order::Equal,
{
    order::names_are_consistent(a.sort_name(), b.sort_name(), c.sort_name());
    match (date_key(app, a), date_key(app, b), date_key(app, c)) {
        (Some(x), Some(y), Some(z)) => order::texts_are_consistent(x, y, z),
        (Some(x), Some(y), None) => order::texts_are_consistent(x, y, y),
        (Some(x), None, Some(z)) => order::texts_are_consistent(x, z, z),
        (None, Some(y), Some(z)) => order::texts_are_consistent(y, z, z),
        (Some(x), None, None) => order::texts_are_consistent(x, x, x),
        (None, Some(y), None) => order::texts_are_consistent(y, y, y),
        (None, None, Some(z)) => order::texts_are_consistent(z, z, z),
        _ => {},
    }
}

/// The order of the list is total: what stands before stays before along a chain.
pub proof fn list_is_ordered(
    app: SlintApp,
    a: FileSystemEntry,
    b: FileSystemEntry,
    c: FileSystemEntry,
)
    ensures
        order::consistent(list_order(app, a, b), list_order(app, b, c), list_order(app, a, c)),
        list_order(app, b, a) == order::reversed(list_order(app, a, b)),
        list_order(app, a, a) == Order::Equal,
{
    lemma_column_order(app, a, b, c);
    order::names_are_consistent(a.sort_name(), b.sort_name(), c.sort_name());
}

pub proof fn lemma_list_strict(app: SlintApp)
    ensures
        arrange::strict(|a: int, b: int| stands_before(app, a, b)),
{
    let before = |a: int, b: int| stands_before(app, a, b);
    assert forall|a: int, b: int| #![trigger before(a, b)] a != b implies before(a, b) != before(
        b,
        a,
    ) by {
        list_is_ordered(app, app.files@[a], app.files@[b], app.files@[a]);
    }
    assert forall|a: int| #![trigger before(a, a)] !before(a, a) by {
        list_is_ordered(app, app.files@[a], app.files@[a], app.files@[a]);
    }
    assert forall|a: int, b: int, c: int|
        #![trigger before(a, b), before(b, c)]
        before(a, b) && before(b, c) implies before(a, c) by {
        list_is_ordered(app, app.files@[a], app.files@[b], app.files@[c]);
    }
}

/// A folder's files always make a list.
pub proof fn list_exists(app: SlintApp)
    ensures
        is_list(app, visible(app)),
{
    lemma_list_strict(app);
    let rows = arrange::arrangement_exists(
        |k: int| is_shown(app, k),
        |a: int, b: int| stands_before(app, a, b),
        app.files@.len() as int,
    );
    assert(is_list(app, rows));
}

/// There is only one list of a folder's files.
pub proof fn list_is_unique(app: SlintApp, rows: Seq<int>)
    requires
        is_list(app, rows),
    ensures
        rows == visible(app),
        is_list(app, visible(app)),
{
    lemma_list_strict(app);
    assert(is_list(app, visible(app)));
    arrange::arrangement_is_unique(
        rows,
        visible(app),
        |k: int| is_shown(app, k),
        |a: int, b: int| stands_before(app, a, b),
    );
}

fn compare_ints(a: Option<i128>, b: Option<i128>, descending: bool) -> (r: Order)
    ensures
        r == missing_last_int(
            match a {
                Some(x) => Some(x as int),
                None => None,
            },
            match b {
                Some(x) => Some(x as int),
                None => None,
            },
            descending,
        ),
{
    match (a, b) {
        (Some(x), Some(y)) => directional_order(
            if x < y {
                Order::Less
            } else if x > y {
                Order::Greater
            } else {
                Order::Equal
            },
            descending,
        ),
        (Some(_), None) => Order::Less,
        (None, Some(_)) => Order::Greater,
        (None, None) => Order::Equal,
    }
}

fn compare_optional_texts(a: &Option<String>, b: &Option<String>, descending: bool) -> (r: Order)
    ensures
        r == missing_last_text(
            match *a {
                Some(x) => Some(x@),
                None => None,
            },
            match *b {
                Some(x) => Some(x@),
                None => None,
            },
            descending,
        ),
{
    match (a, b) {
        (Some(x), Some(y)) => directional_order(
            compare_texts(x.as_str(), y.as_str()),
            descending,
        ),
        (Some(_), None) => Order::Less,
        (None, Some(_)) => Order::Greater,
        (None, None) => Order::Equal,
    }
}

fn find_date_key(app: &SlintApp, entry: &FileSystemEntry) -> (r: Option<String>)
    requires
        all_plausible(app.scan_results@),
    ensures
        match r {
            Some(t) => date_key(*app, *entry) == Some(t@),
            None => date_key(*app, *entry) is None,
        },
{
    match entry_date(app, entry) {
        None => None,
        Some(date) => {
            let t = trimmed(date.as_str());
            if t.is_empty() || same_text(t, "-") || same_text(t, "N/A") {
                None
            } else {
                Some(t.to_owned())
            }
        },
    }
}

pub fn metadata_sort_rank(value: &str) -> (r: i128)
    ensures
        r == status_rank(value@),
{
    let t = trimmed(value);
    if same_text(t, "O") || same_text(t, "Available") {
        0
    } else if same_text(t, "X") || same_text(t, "Not Found") {
        1
    } else if same_text(t, "!") || same_text(t, "Error") {
        2
    } else {
        3
    }
}

fn find_status_key(app: &SlintApp, entry: &FileSystemEntry) -> (r: Option<i128>)
    ensures
        match r {
            Some(t) => status_key(*app, *entry) == Some(t as int),
            None => status_key(*app, *entry) is None,
        },
{
    match find_scan(app, entry) {
        Some(s) => Some(metadata_sort_rank(s.metadata_status.as_str())),
        None => None,
    }
}

fn find_modified_key(entry: &FileSystemEntry) -> (r: Option<i128>)
    ensures
        match r {
            Some(t) => modified_key(*entry) == Some(t as int),
            None => modified_key(*entry) is None,
        },
{
    match &entry.modified {
        Some(t) => Some(t.nanos),
        None => None,
    }
}

pub fn compare_file_entries(app: &SlintApp, left: &FileSystemEntry, right: &FileSystemEntry) -> (r:
    Order)
    requires
        all_plausible(app.scan_results@),
    ensures
        r == list_order(*app, *left, *right),
{
    if left.is_dir != right.is_dir {
        return if left.is_dir {
            Order::Less
        } else {
            Order::Greater
        };
    }
    let by_name = natural_name_order(left.file_name_for_sort(), right.file_name_for_sort());
    if left.is_dir {
        return by_name;
    }
    let descending = app.sort_direction == 2;
    let primary = if app.sort_column == 1 {
        directional_order(by_name, descending)
    } else if app.sort_column == 2 {
        directional_order(
            if left.size < right.size {
                Order::Less
            } else if left.size > right.size {
                Order::Greater
            } else {
                Order::Equal
            },
            descending,
        )
    } else if app.sort_column == 3 {
        compare_ints(find_modified_key(left), find_modified_key(right), descending)
    } else if app.sort_column == 4 {
        compare_optional_texts(
            &find_date_key(app, left),
            &find_date_key(app, right),
            descending,
        )
    } else if app.sort_column == 5 {
        compare_ints(find_status_key(app, left), find_status_key(app, right), descending)
    } else {
        Order::Equal
    };
    match primary {
        Order::Equal => by_name,
        o => o,
    }
}

/// The entries below a number that are shown.
spec fn shown_below(app: SlintApp, n: int) -> spec_fn(int) -> bool {
    |k: int| k < n && is_shown(app, k)
}

spec fn before_in(app: SlintApp) -> spec_fn(int, int) -> bool {
    |a: int, b: int| stands_before(app, a, b)
}

fn check_before(app: &SlintApp, a: usize, b: usize) -> (r: bool)
    requires
        all_plausible(app.scan_results@),
        a < app.files@.len(),
        b < app.files@.len(),
    ensures
        r == stands_before(*app, a as int, b as int),
{
    if app.sort_direction != 0 && (app.dynamic_sort_ready || !(app.sort_column == 4
        || app.sort_column == 5)) {
        match compare_file_entries(app, &app.files[a], &app.files[b]) {
            Order::Less => true,
            Order::Equal => a < b,
            Order::Greater => false,
        }
    } else {
        a < b
    }
}

fn find_row_slot(app: &SlintApp, rows: &Vec<usize>, x: usize) -> (r: usize)
    requires
        all_plausible(app.scan_results@),
        x < app.files@.len(),
        arrange::arranged(
            arrange::indices(rows@),
            shown_below(*app, x as int),
            before_in(*app),
        ),
    ensures
        r <= rows@.len(),
        forall|i: int|
            0 <= i < r ==> before_in(*app)(#[trigger] arrange::indices(rows@)[i], x as int),
        forall|i: int|
            r <= i < rows@.len() ==> before_in(*app)(
                x as int,
                #[trigger] arrange::indices(rows@)[i],
            ),
{
    let ghost all = arrange::indices(rows@);
    let ghost before = before_in(*app);
    proof {
        lemma_list_strict(*app);
        assert(before =~= (|a: int, b: int| stands_before(*app, a, b)));
    }
    let mut low: usize = 0;
    let mut high: usize = rows.len();
    while low < high
        invariant
            low <= high <= rows@.len(),
            all_plausible(app.scan_results@),
            all == arrange::indices(rows@),
            before == before_in(*app),
            arrange::strict(before),
            x < app.files@.len(),
            arrange::arranged(all, shown_below(*app, x as int), before),
            forall|i: int| 0 <= i < low ==> before(#[trigger] all[i], x as int),
            forall|i: int| high <= i < rows@.len() ==> before(x as int, #[trigger] all[i]),
        decreases high - low,
    {
        let mid: usize = low + (high - low) / 2;
        let m: usize = rows[mid];
        assert(all[mid as int] == m);
        assert(0 <= all[mid as int] < x) by {
            assert(shown_below(*app, x as int)(all[mid as int]));
        }
        if check_before(app, m, x) {
            assert(before(m as int, x as int));
            assert forall|i: int| 0 <= i <= mid implies before(#[trigger] all[i], x as int) by {
                if i < mid {
                    assert(before(all[i], all[mid as int]));
                    assert(before(all[mid as int], x as int));
                }
            }
            low = mid + 1;
        } else {
            assert(before(m as int, x as int) != before(x as int, m as int));
            assert(before(x as int, m as int));
            assert forall|i: int| mid <= i < rows@.len() implies before(
                x as int,
                #[trigger] all[i],
            ) by {
                if i > mid {
                    assert(before(all[mid as int], all[i]));
                    assert(before(x as int, all[mid as int]));
                }
            }
            high = mid;
        }
    }
    low
}

impl SlintApp {
    /// The rows of the list, as numbers of the folder's entries.
    pub fn visible_files(&self) -> (r: Vec<usize>)
        requires
            all_plausible(self.scan_results@),
        ensures
            arrange::indices(r@) == visible(*self),
            is_list(*self, visible(*self)),
            forall|i: int| 0 <= i < r@.len() ==> (#[trigger] r@[i]) < self.files@.len(),
    {
        let n: usize = self.files.len();
        let keys: Vec<Option<String>> = if self.show_only_duplicate_media_date {
            duplicate_keys(self)
        } else {
            Vec::new()
        };
        let mut rows: Vec<usize> = Vec::new();
        let mut k: usize = 0;
        proof {
            assert(arrange::indices(rows@) =~= Seq::<int>::empty());
            assert forall|i: int| #[trigger] shown_below(*self, 0)(i) implies arrange::indices(
                rows@,
            ).contains(i) by {}
        }
        while k < n
            invariant
                k <= n,
                n == self.files@.len(),
                all_plausible(self.scan_results@),
                self.show_only_duplicate_media_date ==> keys@.len() == self.files@.len() && forall|
                    i: int,
                |
                    0 <= i < keys@.len() ==> match #[trigger] keys@[i] {
                        Some(t) => duplicate_key(*self, self.files@[i]) == Some(t@),
                        None => duplicate_key(*self, self.files@[i]) is None,
                    },
                arrange::arranged(
                    arrange::indices(rows@),
                    shown_below(*self, k as int),
                    before_in(*self),
                ),
            decreases n - k,
        {
            if check_shown(self, &keys, k) {
                let slot: usize = find_row_slot(self, &rows, k);
                proof {
                    arrange::lemma_indices_insert(rows@, slot as int, k);
                    arrange::lemma_inserted(
                        arrange::indices(rows@),
                        k as int,
                        slot as int,
                        shown_below(*self, k as int),
                        shown_below(*self, k + 1),
                        before_in(*self),
                    );
                }
                rows.insert(slot, k);
            } else {
                assert(shown_below(*self, k as int) =~= shown_below(*self, k + 1));
            }
            k += 1;
        }
        proof {
            let all = arrange::indices(rows@);
            let shown = |k: int| is_shown(*self, k);
            assert(shown =~= shown_below(*self, n as int));
            assert(before_in(*self) =~= (|a: int, b: int| stands_before(*self, a, b)));
            assert(is_list(*self, all));
            list_is_unique(*self, all);
            assert forall|i: int| 0 <= i < rows@.len() implies (#[trigger] rows@[i])
                < self.files@.len() by {
                assert(all[i] == rows@[i]);
                assert(shown(all[i]));
            }
        }
        rows
    }
}

} // verus!
