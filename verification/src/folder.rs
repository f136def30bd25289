//! The folder behind the file list: loading it, keeping what scans gave, and
//! handing out the files that are to be scanned.
use crate::arrange;
use crate::entries::{self, clone_time, same_time, FileSystemEntry};
use crate::file_list::{self, find_scan, CachedMediaScan, ScanRecord, SlintApp, TIME_DISPLAY_KST};
use crate::file_selection::{self, epoch_after};
use crate::media::{self, matches_file_filter, MediaScanJob};
use crate::paths::{self, same_path};
use vstd::prelude::*;

verus! {

/// Whether a path is among some paths.
pub open spec fn among(paths: Seq<String>, path: Seq<char>, windows: bool) -> bool {
    exists|i: int| 0 <= i < paths.len() && paths::same((#[trigger] paths[i])@, path, windows)
}

pub(crate) fn is_among(paths: &[String], path: &str, windows: bool) -> (r: bool)
    ensures
        r == among(paths@, path@, windows),
{
    let n: usize = paths.len();
    let mut i: usize = 0;
    while i < n
        invariant
            i <= n,
            n == paths@.len(),
            forall|k: int|
                0 <= k < i ==> !paths::same((#[trigger] paths@[k])@, path@, windows),
        decreases n - i,
    {
        if same_path(paths[i].as_str(), path, windows) {
            return true;
        }
        i += 1;
    }
    false
}

/// The last file of a path among the first entries.
pub open spec fn last_file(
    files: Seq<FileSystemEntry>,
    path: Seq<char>,
    windows: bool,
    n: int,
) -> Option<FileSystemEntry>
    decreases n,
{
    if n <= 0 {
        None
    } else if !files[n - 1].is_dir && paths::same(files[n - 1].path@, path, windows) {
        Some(files[n - 1])
    } else {
        last_file(files, path, windows, n - 1)
    }
}

fn find_last_file<'a>(files: &'a Vec<FileSystemEntry>, path: &str, windows: bool) -> (r: Option<
    &'a FileSystemEntry,
>)
    ensures
        match r {
            Some(e) => last_file(files@, path@, windows, files@.len() as int) == Some(*e),
            None => last_file(files@, path@, windows, files@.len() as int) is None,
        },
{
    let mut n: usize = files.len();
    while n > 0
        invariant
            n <= files@.len(),
            last_file(files@, path@, windows, files@.len() as int) == last_file(
                files@,
                path@,
                windows,
                n as int,
            ),
        decreases n,
    {
        if !files[n - 1].is_dir && same_path(files[n - 1].path.as_str(), path, windows) {
            return Some(&files[n - 1]);
        }
        n -= 1;
    }
    None
}

/// What a scan gave is kept while the file was not changed, and is still there
/// with the size and the time that it had.
pub open spec fn still_valid(
    record: ScanRecord,
    changed: Seq<String>,
    files: Seq<FileSystemEntry>,
    windows: bool,
) -> bool {
    !among(changed, record.path@, windows) && match last_file(
        files,
        record.path@,
        windows,
        files.len() as int,
    ) {
        Some(e) => record.scan.size == e.size && entries::instant(record.scan.modified)
            == entries::instant(e.modified),
        None => false,
    }
}

/// The valid ones among the first records, in their order.
pub open spec fn valid_records(
    records: Seq<ScanRecord>,
    changed: Seq<String>,
    files: Seq<FileSystemEntry>,
    windows: bool,
    n: int,
) -> Seq<ScanRecord>
    decreases n,
{
    if n <= 0 {
        Seq::empty()
    } else {
        let before = valid_records(records, changed, files, windows, n - 1);
        if still_valid(records[n - 1], changed, files, windows) {
            before.push(records[n - 1])
        } else {
            before
        }
    }
}

/// The first records without those of some paths.
pub open spec fn records_without(
    records: Seq<ScanRecord>,
    paths: Seq<String>,
    windows: bool,
    n: int,
) -> Seq<ScanRecord>
    decreases n,
{
    if n <= 0 {
        Seq::empty()
    } else {
        let before = records_without(records, paths, windows, n - 1);
        if among(paths, records[n - 1].path@, windows) {
            before
        } else {
            before.push(records[n - 1])
        }
    }
}

/// The first entries without those of some paths.
pub open spec fn files_without(
    files: Seq<FileSystemEntry>,
    paths: Seq<String>,
    windows: bool,
    n: int,
) -> Seq<FileSystemEntry>
    decreases n,
{
    if n <= 0 {
        Seq::empty()
    } else {
        let before = files_without(files, paths, windows, n - 1);
        if among(paths, files[n - 1].path@, windows) {
            before
        } else {
            before.push(files[n - 1])
        }
    }
}

proof fn lemma_take_out<T>(current: Seq<T>, all: Seq<T>, i: int, j: int)
    requires
        0 <= i < current.len(),
        0 <= j < all.len(),
        current.skip(i) == all.skip(j),
    ensures
        current[i] == all[j],
        current.remove(i).take(i) == current.take(i),
        current.remove(i).skip(i) == all.skip(j + 1),
        current.take(i + 1) == current.take(i).push(all[j]),
        current.skip(i + 1) == all.skip(j + 1),
{
    let rest = current.skip(i);
    assert(rest[0] == current[i]);
    assert(all.skip(j)[0] == all[j]);
    assert(current.remove(i).take(i) =~= current.take(i));
    assert(all.skip(j).skip(1) =~= all.skip(j + 1));
    assert(rest.skip(1) =~= current.skip(i + 1));
    assert(current.remove(i).skip(i) =~= current.skip(i + 1));
    assert(current.take(i + 1) =~= current.take(i).push(all[j]));
}

fn keep_valid_records(
    records: &mut Vec<ScanRecord>,
    changed: &[String],
    files: &Vec<FileSystemEntry>,
    windows: bool,
)
    ensures
        final(records)@ == valid_records(
            old(records)@,
            changed@,
            files@,
            windows,
            old(records)@.len() as int,
        ),
{
    let ghost all = records@;
    let ghost mut j: int = 0;
    let mut i: usize = 0;
    proof {
        assert(records@.take(0) =~= Seq::<ScanRecord>::empty());
        assert(records@.skip(0) =~= all.skip(0));
    }
    while i < records.len()
        invariant
            i <= records@.len(),
            0 <= j <= all.len(),
            records@.take(i as int) == valid_records(all, changed@, files@, windows, j),
            records@.skip(i as int) == all.skip(j),
        decreases records@.len() - i,
    {
        proof {
            assert(records@.skip(i as int).len() == all.skip(j).len());
            lemma_take_out(records@, all, i as int, j);
        }
        let keep = {
            let record = &records[i];
            !is_among(changed, record.path.as_str(), windows) && match find_last_file(
                files,
                record.path.as_str(),
                windows,
            ) {
                Some(e) => record.scan.size == e.size && same_time(
                    &record.scan.modified,
                    &e.modified,
                ),
                None => false,
            }
        };
        if keep {
            i += 1;
        } else {
            records.remove(i);
        }
        proof {
            j = j + 1;
        }
    }
    proof {
        assert(records@.skip(i as int).len() == 0);
        assert(all.skip(j).len() == 0);
        assert(records@.take(i as int) =~= records@);
    }
}

fn drop_records(records: &mut Vec<ScanRecord>, paths: &[String], windows: bool)
    ensures
        final(records)@ == records_without(
            old(records)@,
            paths@,
            windows,
            old(records)@.len() as int,
        ),
{
    let ghost all = records@;
    let ghost mut j: int = 0;
    let mut i: usize = 0;
    proof {
        assert(records@.take(0) =~= Seq::<ScanRecord>::empty());
        assert(records@.skip(0) =~= all.skip(0));
    }
    while i < records.len()
        invariant
            i <= records@.len(),
            0 <= j <= all.len(),
            records@.take(i as int) == records_without(all, paths@, windows, j),
            records@.skip(i as int) == all.skip(j),
        decreases records@.len() - i,
    {
        proof {
            assert(records@.skip(i as int).len() == all.skip(j).len());
            lemma_take_out(records@, all, i as int, j);
        }
        if is_among(paths, records[i].path.as_str(), windows) {
            records.remove(i);
        } else {
            i += 1;
        }
        proof {
            j = j + 1;
        }
    }
    proof {
        assert(records@.skip(i as int).len() == 0);
        assert(all.skip(j).len() == 0);
        assert(records@.take(i as int) =~= records@);
    }
}

fn drop_files(files: &mut Vec<FileSystemEntry>, paths: &[String], windows: bool)
    ensures
        final(files)@ == files_without(
            old(files)@,
            paths@,
            windows,
            old(files)@.len() as int,
        ),
{
    let ghost all = files@;
    let ghost mut j: int = 0;
    let mut i: usize = 0;
    proof {
        assert(files@.take(0) =~= Seq::<FileSystemEntry>::empty());
        assert(files@.skip(0) =~= all.skip(0));
    }
    while i < files.len()
        invariant
            i <= files@.len(),
            0 <= j <= all.len(),
            files@.take(i as int) == files_without(all, paths@, windows, j),
            files@.skip(i as int) == all.skip(j),
        decreases files@.len() - i,
    {
        proof {
            assert(files@.skip(i as int).len() == all.skip(j).len());
            lemma_take_out(files@, all, i as int, j);
        }
        if is_among(paths, files[i].path.as_str(), windows) {
            files.remove(i);
        } else {
            i += 1;
        }
        proof {
            j = j + 1;
        }
    }
    proof {
        assert(files@.skip(i as int).len() == 0);
        assert(all.skip(j).len() == 0);
        assert(files@.take(i as int) =~= files@);
    }
}

/// The records with the scan of a path put in the place of an earlier one.
pub open spec fn recorded(before: Seq<ScanRecord>, after: Seq<ScanRecord>, path: Seq<char>,
    scan: CachedMediaScan, windows: bool) -> bool {
    &&& file_list::known_scan(after, path, windows) == Some(scan)
    &&& forall|other: Seq<char>|
        !paths::same(other, path, windows) ==> #[trigger] file_list::known_scan(
            after,
            other,
            windows,
        ) == file_list::known_scan(before, other, windows)
}

proof fn lemma_record_replaced(
    before: Seq<ScanRecord>,
    after: Seq<ScanRecord>,
    at: int,
    path: Seq<char>,
    windows: bool,
    i: int,
)
    requires
        0 <= at < before.len(),
        after.len() == before.len(),
        paths::same(before[at].path@, path, windows),
        after[at].path@ == path,
        forall|k: int| 0 <= k < at ==> !paths::same(
            (#[trigger] before[k]).path@,
            path,
            windows,
        ),
        forall|k: int| 0 <= k < before.len() && k != at ==> #[trigger] after[k] == before[k],
        0 <= i,
    ensures
        i <= at ==> file_list::record_from(after, path, windows, i) == Some(after[at].scan),
        forall|other: Seq<char>|
            !paths::same(other, path, windows) ==> #[trigger] file_list::record_from(after, other, windows, i)
                == file_list::record_from(before, other, windows, i),
    decreases before.len() - i,
{
    if i < before.len() {
        lemma_record_replaced(before, after, at, path, windows, i + 1);
        assert forall|other: Seq<char>| !paths::same(other, path, windows) implies #[trigger] file_list::record_from(after, other, windows, i) == file_list::record_from(before, other, windows, i) by {
            assert(file_list::record_from(after, other, windows, i + 1) == file_list::record_from(before, other, windows, i + 1));
            if i != at {
                assert(after[i] == before[i]);
            }
        }
    }
}

proof fn lemma_record_added(before: Seq<ScanRecord>, record: ScanRecord, windows: bool, i: int)
    requires
        0 <= i <= before.len(),
        forall|k: int| 0 <= k < before.len() ==> !paths::same(
            (#[trigger] before[k]).path@,
            record.path@,
            windows,
        ),
    ensures
        file_list::record_from(before.push(record), record.path@, windows, i) == Some(record.scan),
        forall|other: Seq<char>|
            !paths::same(other, record.path@, windows) ==> #[trigger] file_list::record_from(before.push(record), other, windows, i) == file_list::record_from(before, other, windows, i),
    decreases before.len() - i,
{
    let after = before.push(record);
    if i < before.len() {
        assert(after[i] == before[i]);
        lemma_record_added(before, record, windows, i + 1);
        assert forall|other: Seq<char>| !paths::same(other, record.path@, windows) implies
            #[trigger] file_list::record_from(after, other, windows, i) == file_list::record_from(before, other, windows, i) by {
            assert(file_list::record_from(after, other, windows, i + 1) == file_list::record_from(before, other, windows, i + 1));
        }
    } else {
        assert(after[i] == record);
        assert forall|other: Seq<char>| !paths::same(other, record.path@, windows) implies
            #[trigger] file_list::record_from(after, other, windows, i) == file_list::record_from(before, other, windows, i) by {
            assert(file_list::record_from(after, other, windows, i + 1) is None);
        }
    }
}

/// The records that some records leave when those that are not to be kept go.
pub open spec fn picked(
    out: Seq<ScanRecord>,
    records: Seq<ScanRecord>,
    n: int,
    windows: bool,
    keep: spec_fn(ScanRecord) -> bool,
) -> bool {
    &&& forall|a: int|
        #![trigger out[a]]
        0 <= a < out.len() ==> keep(out[a]) && exists|b: int| 0 <= b < n && records[b] == out[a]
    &&& forall|b: int|
        #![trigger records[b]]
        0 <= b < n && keep(records[b]) ==> out.contains(records[b])
    &&& file_list::one_record_each(records, windows) ==> file_list::one_record_each(out, windows)
}

proof fn lemma_picked_one(
    out: Seq<ScanRecord>,
    records: Seq<ScanRecord>,
    n: int,
    windows: bool,
    keep: spec_fn(ScanRecord) -> bool,
)
    requires
        0 <= n < records.len(),
        picked(out, records, n, windows, keep),
    ensures
        picked(
            if keep(records[n]) {
                out.push(records[n])
            } else {
                out
            },
            records,
            n + 1,
            windows,
            keep,
        ),
{
    if keep(records[n]) {
        let more = out.push(records[n]);
        assert forall|a: int| #![trigger more[a]] 0 <= a < more.len() implies keep(more[a])
            && exists|b: int| 0 <= b < n + 1 && records[b] == more[a] by {
            if a < out.len() {
                assert(more[a] == out[a]);
                let b = choose|b: int| 0 <= b < n && records[b] == out[a];
                assert(records[b] == more[a]);
            }
        }
        assert forall|b: int| #![trigger records[b]] 0 <= b < n + 1 && keep(
            records[b],
        ) implies more.contains(records[b]) by {
            if b < n {
                let a = choose|a: int| 0 <= a < out.len() && out[a] == records[b];
                assert(more[a] == records[b]);
            } else {
                assert(more[out.len() as int] == records[n]);
            }
        }
        if file_list::one_record_each(records, windows) {
            assert forall|i: int, j: int| 0 <= i < j < more.len() implies !paths::same(
                (#[trigger] more[i]).path@,
                (#[trigger] more[j]).path@,
                windows,
            ) by {
                if j == out.len() {
                    assert(more[i] == out[i]);
                    let b = choose|b: int| 0 <= b < n && records[b] == out[i];
                    assert(!paths::same(records[b].path@, records[n].path@, windows));
                } else {
                    assert(more[i] == out[i] && more[j] == out[j]);
                }
            }
        }
    }
}

proof fn lemma_valid_picked(
    records: Seq<ScanRecord>,
    changed: Seq<String>,
    files: Seq<FileSystemEntry>,
    windows: bool,
    n: int,
)
    requires
        0 <= n <= records.len(),
    ensures
        picked(
            valid_records(records, changed, files, windows, n),
            records,
            n,
            windows,
            |r: ScanRecord| still_valid(r, changed, files, windows),
        ),
    decreases n,
{
    if n > 0 {
        lemma_valid_picked(records, changed, files, windows, n - 1);
        lemma_picked_one(
            valid_records(records, changed, files, windows, n - 1),
            records,
            n - 1,
            windows,
            |r: ScanRecord| still_valid(r, changed, files, windows),
        );
    }
}

proof fn lemma_without_picked(records: Seq<ScanRecord>, paths: Seq<String>, windows: bool, n: int)
    requires
        0 <= n <= records.len(),
    ensures
        picked(
            records_without(records, paths, windows, n),
            records,
            n,
            windows,
            |r: ScanRecord| !among(paths, r.path@, windows),
        ),
    decreases n,
{
    if n > 0 {
        lemma_without_picked(records, paths, windows, n - 1);
        lemma_picked_one(
            records_without(records, paths, windows, n - 1),
            records,
            n - 1,
            windows,
            |r: ScanRecord| !among(paths, r.path@, windows),
        );
    }
}

/// Where no path has two records, what is known of a path is what its record
/// holds, wherever it stands.
proof fn lemma_record_known(records: Seq<ScanRecord>, windows: bool, at: int, i: int)
    requires
        file_list::one_record_each(records, windows),
        0 <= i <= at < records.len(),
    ensures
        file_list::record_from(records, records[at].path@, windows, i) == Some(records[at].scan),
    decreases at - i,
{
    if i < at {
        assert(!paths::same(records[i].path@, records[at].path@, windows));
        lemma_record_known(records, windows, at, i + 1);
    }
}

/// The same is known of texts that stand for the same path.
proof fn lemma_same_known(
    records: Seq<ScanRecord>,
    a: Seq<char>,
    b: Seq<char>,
    windows: bool,
    i: int,
)
    requires
        0 <= i,
        paths::same(a, b, windows),
    ensures
        file_list::record_from(records, a, windows, i) == file_list::record_from(
            records,
            b,
            windows,
            i,
        ),
    decreases records.len() - i,
{
    if i < records.len() {
        lemma_same_known(records, a, b, windows, i + 1);
    }
}

proof fn lemma_record_unknown(records: Seq<ScanRecord>, path: Seq<char>, windows: bool, i: int)
    requires
        0 <= i,
        forall|k: int| i <= k < records.len() ==> !paths::same(
            (#[trigger] records[k]).path@,
            path,
            windows,
        ),
    ensures
        file_list::record_from(records, path, windows, i) is None,
    decreases records.len() - i,
{
    if i < records.len() {
        lemma_record_unknown(records, path, windows, i + 1);
    }
}

proof fn lemma_picked_known(
    out: Seq<ScanRecord>,
    records: Seq<ScanRecord>,
    windows: bool,
    keep: spec_fn(ScanRecord) -> bool,
    path: Seq<char>,
)
    requires
        file_list::one_record_each(records, windows),
        picked(out, records, records.len() as int, windows, keep),
    ensures
        forall|b: int|
            0 <= b < records.len() && paths::same((#[trigger] records[b]).path@, path, windows)
                ==> file_list::known_scan(out, path, windows) == if keep(records[b]) {
                Some(records[b].scan)
            } else {
                None
            } && file_list::known_scan(records, path, windows) == Some(records[b].scan),
        (forall|b: int| 0 <= b < records.len() ==> !paths::same((#[trigger] records[b]).path@, path, windows))
            ==> file_list::known_scan(out, path, windows) is None && file_list::known_scan(
            records,
            path,
            windows,
        ) is None,
{
    assert forall|b: int|
        0 <= b < records.len() && paths::same((#[trigger] records[b]).path@, path, windows) implies file_list::known_scan(out, path, windows) == (if keep(records[b]) {
        Some(records[b].scan)
    } else {
        None
    }) && file_list::known_scan(records, path, windows) == Some(records[b].scan) by {
        lemma_record_known(records, windows, b, 0);
        lemma_same_known(records, records[b].path@, path, windows, 0);
        lemma_same_known(out, records[b].path@, path, windows, 0);
        if keep(records[b]) {
            let a = choose|a: int| 0 <= a < out.len() && out[a] == records[b];
            lemma_record_known(out, windows, a, 0);
        } else {
            assert forall|k: int| 0 <= k < out.len() implies !paths::same((#[trigger] out[k]).path@, path, windows) by {
                let c = choose|c: int| 0 <= c < records.len() && records[c] == out[k];
                if c != b {
                    assert(!paths::same(records[c].path@, records[b].path@, windows));
                }
            }
            lemma_record_unknown(out, path, windows, 0);
        }
    }
    if forall|b: int| 0 <= b < records.len() ==> !paths::same((#[trigger] records[b]).path@, path, windows) {
        lemma_record_unknown(records, path, windows, 0);
        assert forall|k: int| 0 <= k < out.len() implies !paths::same((#[trigger] out[k]).path@, path, windows) by {
            let c = choose|c: int| 0 <= c < records.len() && records[c] == out[k];
            assert(!paths::same(records[c].path@, path, windows));
        }
        lemma_record_unknown(out, path, windows, 0);
    }
}

/// After files were deleted nothing is known of their paths, and of every other
/// path what was known before.
pub proof fn deleted_scans_are_forgotten(
    records: Seq<ScanRecord>,
    paths: Seq<String>,
    path: Seq<char>,
    windows: bool,
)
    requires
        file_list::one_record_each(records, windows),
    ensures
        file_list::known_scan(records_without(records, paths, windows, records.len() as int), path, windows) == (
        if among(paths, path, windows) {
            None
        } else {
            file_list::known_scan(records, path, windows)
        }),
{
    let n = records.len() as int;
    lemma_without_picked(records, paths, windows, n);
    lemma_picked_known(
        records_without(records, paths, windows, n),
        records,
        windows,
        |r: ScanRecord| !among(paths, r.path@, windows),
        path,
    );
}

/// After a folder was read again, what was known of a path is still known if and
/// only if its file is still there, unchanged.
pub proof fn unchanged_scans_are_kept(
    records: Seq<ScanRecord>,
    changed: Seq<String>,
    files: Seq<FileSystemEntry>,
    record: ScanRecord,
    windows: bool,
)
    requires
        file_list::one_record_each(records, windows),
        records.contains(record),
    ensures
        file_list::known_scan(
            valid_records(records, changed, files, windows, records.len() as int),
            record.path@,
            windows,
        ) == (if still_valid(record, changed, files, windows) {
            Some(record.scan)
        } else {
            None
        }),
{
    let n = records.len() as int;
    lemma_valid_picked(records, changed, files, windows, n);
    lemma_picked_known(
        valid_records(records, changed, files, windows, n),
        records,
        windows,
        |r: ScanRecord| still_valid(r, changed, files, windows),
        record.path@,
    );
    let b = choose|b: int| 0 <= b < records.len() && records[b] == record;
    assert(paths::same(records[b].path@, record.path@, windows));
}

// Files that are to be scanned.

/// What is known of a file does not tell what it holds now.
pub open spec fn needs_scan(app: SlintApp, entry: FileSystemEntry) -> bool {
    !entry.is_dir && file_list::scan_of(app, entry) is None
}

/// The entries that may be scanned: those of the list, or all that the filter
/// takes where only duplicates are shown.
pub open spec fn scannable(app: SlintApp, n: int) -> Seq<int>
    decreases n,
{
    if !app.show_only_duplicate_media_date {
        file_list::visible(app)
    } else if n <= 0 {
        Seq::empty()
    } else {
        let before = scannable(app, n - 1);
        if !app.files@[n - 1].is_dir && media::filter_takes(
            app.file_filter,
            app.files@[n - 1].kind_name(),
        ) {
            before.push(n - 1)
        } else {
            before
        }
    }
}

/// Whether a selected row leads to a path.
pub open spec fn is_selected_path(app: SlintApp, path: Seq<char>) -> bool {
    exists|k: int|
        0 <= k < app.selected_indices@.len() && shows_path(
            app,
            (#[trigger] app.selected_indices@[k]) as int,
            path,
        )
}

/// Whether a row leads to a path.
pub open spec fn shows_path(app: SlintApp, index: int, path: Seq<char>) -> bool {
    match file_selection::row_path(app, index) {
        Some(p) => paths::same(p, path, app.windows),
        None => false,
    }
}

/// Those of the first rows that need a scan, and are selected or not.
pub open spec fn waiting(app: SlintApp, rows: Seq<int>, selected: bool, n: int) -> Seq<int>
    decreases n,
{
    if n <= 0 {
        Seq::empty()
    } else {
        let before = waiting(app, rows, selected, n - 1);
        let entry = app.files@[rows[n - 1]];
        if needs_scan(app, entry) && is_selected_path(app, entry.path@) == selected {
            before.push(rows[n - 1])
        } else {
            before
        }
    }
}

/// The entries that are to be scanned: the selected ones first, both groups in
/// the order in which they are listed.
pub open spec fn scan_order(app: SlintApp) -> Seq<int> {
    let rows = scannable(app, app.files@.len() as int);
    waiting(app, rows, true, rows.len() as int) + waiting(app, rows, false, rows.len() as int)
}

/// A job is to scan an entry.
pub open spec fn job_for(job: MediaScanJob, entry: FileSystemEntry) -> bool {
    job.path@ == entry.path@ && job.size == entry.size && job.modified == entry.modified
}

pub open spec fn jobs_for(jobs: Seq<MediaScanJob>, app: SlintApp, rows: Seq<int>) -> bool {
    &&& jobs.len() == rows.len()
    &&& forall|i: int| 0 <= i < jobs.len() ==> job_for(#[trigger] jobs[i], app.files@[rows[i]])
}

// Which files are scanned first.

/// The rows of a range that exist, counted from one.
pub open spec fn rows_between(first: int, last: int, count: int) -> Seq<int> {
    let from = if first > 1 {
        first
    } else {
        1
    };
    let to = if last < count {
        last
    } else {
        count
    };
    Seq::new(
        if first <= last && from <= to {
            (to - from + 1) as nat
        } else {
            0
        },
        |i: int| from + i,
    )
}

/// The selected rows that exist, where only a few are selected.
pub open spec fn few_selected(app: SlintApp, n: int) -> Seq<int>
    decreases n,
{
    if n <= 0 || app.selected_indices@.len() > 5 {
        Seq::empty()
    } else {
        let before = few_selected(app, n - 1);
        let index = app.selected_indices@[n - 1];
        if 1 <= index <= file_list::visible(app).len() {
            before.push(index as int)
        } else {
            before
        }
    }
}

/// Whether a path is among some texts.
pub open spec fn named(texts: Seq<Seq<char>>, path: Seq<char>, windows: bool) -> bool {
    exists|i: int| 0 <= i < texts.len() && paths::same(#[trigger] texts[i], path, windows)
}

/// The paths of the files in the first rows, each once.
pub open spec fn paths_once(app: SlintApp, rows: Seq<int>, n: int) -> Seq<Seq<char>>
    decreases n,
{
    if n <= 0 {
        Seq::empty()
    } else {
        let before = paths_once(app, rows, n - 1);
        let entry = app.files@[file_list::visible(app)[rows[n - 1] - 1]];
        if entry.is_dir || named(before, entry.path@, app.windows) {
            before
        } else {
            before.push(entry.path@)
        }
    }
}

/// The files that are scanned first: a few that are selected, then those in
/// the rows that are in view.
pub open spec fn first_to_scan(app: SlintApp, first: i32, last: i32) -> Seq<Seq<char>> {
    let rows = few_selected(app, app.selected_indices@.len() as int) + rows_between(
        first as int,
        last as int,
        file_list::visible(app).len() as int,
    );
    paths_once(app, rows, rows.len() as int)
}

/// No file is named twice among those that are scanned first.
pub proof fn first_to_scan_has_no_repeats(app: SlintApp, rows: Seq<int>, n: int)
    ensures
        forall|i: int, j: int|
            0 <= i < j < paths_once(app, rows, n).len() ==> !paths::same(
                #[trigger] paths_once(app, rows, n)[i],
                #[trigger] paths_once(app, rows, n)[j],
                app.windows,
            ),
    decreases n,
{
    if n > 0 {
        first_to_scan_has_no_repeats(app, rows, n - 1);
        let before = paths_once(app, rows, n - 1);
        let all = paths_once(app, rows, n);
        assert forall|i: int, j: int| 0 <= i < j < all.len() implies !paths::same(
            #[trigger] all[i],
            #[trigger] all[j],
            app.windows,
        ) by {
            assert(all[i] == before[i]);
            if j < before.len() {
                assert(all[j] == before[j]);
            }
        }
    }
}

fn push_path(app: &SlintApp, rows: &Vec<usize>, index: usize, paths: &mut Vec<String>)
    requires
        arrange::indices(rows@) == file_list::visible(*app),
        forall|i: int| 0 <= i < rows@.len() ==> (#[trigger] rows@[i]) < app.files@.len(),
        1 <= index <= rows@.len(),
    ensures
        ({
            let entry = app.files@[file_list::visible(*app)[index - 1]];
            let before = file_selection::text_views(old(paths)@);
            file_selection::text_views(final(paths)@) == if entry.is_dir || named(
                before,
                entry.path@,
                app.windows,
            ) {
                before
            } else {
                before.push(entry.path@)
            }
        }),
{
    let ghost before = file_selection::text_views(paths@);
    let row: usize = rows[index - 1];
    assert(arrange::indices(rows@)[index - 1] == row);
    let entry = &app.files[row];
    if entry.is_dir {
        return;
    }
    if is_among(paths.as_slice(), entry.path.as_str(), app.windows) {
        proof {
            let k = choose|k: int|
                0 <= k < paths@.len() && paths::same(
                    (#[trigger] paths@[k])@,
                    entry.path@,
                    app.windows,
                );
            assert(before[k] == paths@[k]@);
        }
        return;
    }
    proof {
        if named(before, entry.path@, app.windows) {
            let k = choose|k: int|
                0 <= k < before.len() && paths::same(
                    #[trigger] before[k],
                    entry.path@,
                    app.windows,
                );
            assert(before[k] == paths@[k]@);
        }
    }
    paths.push(entry.path.clone());
    assert(file_selection::text_views(paths@) =~= before.push(entry.path@));
}

/// A folder was loaded anew: nothing is selected and no scan is known.
pub open spec fn folder_loaded(
    before: SlintApp,
    after: SlintApp,
    files: Option<Vec<FileSystemEntry>>,
) -> bool {
    &&& after.files@ == match files {
        Some(f) => f@,
        None => Seq::empty(),
    }
    &&& after.scan_results@.len() == 0
    &&& after.selected_indices@.len() == 0
    &&& after.selection_anchor is None
    &&& after.scan_epoch == file_selection::next_epoch(before.scan_epoch)
    &&& after == (SlintApp {
        files: after.files,
        scan_results: after.scan_results,
        selected_indices: after.selected_indices,
        selection_anchor: after.selection_anchor,
        scan_epoch: after.scan_epoch,
        ..before
    })
}

impl SlintApp {
    /// The list of a folder, whose entries are given where it could be read.
    pub fn new(
        current_path: String,
        parent_path: Option<String>,
        entries: Option<Vec<FileSystemEntry>>,
        windows: bool,
    ) -> (r: Self)
        ensures
            r.current_path == current_path,
            r.parent_path == parent_path,
            r.files@ == match entries {
                Some(f) => f@,
                None => Seq::empty(),
            },
            r.selected_indices@.len() == 0,
            r.file_filter == 0,
            !r.show_only_missing_media_date,
            !r.show_only_missing_time_zone_offset,
            !r.show_only_duplicate_media_date,
            r.time_display_mode == TIME_DISPLAY_KST,
            r.sort_column == 0,
            r.sort_direction == 0,
            r.scan_results@.len() == 0,
            file_list::one_record_each(r.scan_results@, windows),
            r.scan_epoch == 1,
            r.selection_anchor is None,
            r.dynamic_sort_ready,
            r.windows == windows,
    {
        let mut app = SlintApp {
            current_path,
            parent_path,
            windows,
            files: Vec::new(),
            selected_indices: Vec::new(),
            file_filter: 0,
            show_only_missing_media_date: false,
            show_only_missing_time_zone_offset: false,
            show_only_duplicate_media_date: false,
            time_display_mode: TIME_DISPLAY_KST,
            sort_column: 0,
            sort_direction: 0,
            scan_results: Vec::new(),
            scan_epoch: 0,
            selection_anchor: None,
            dynamic_sort_ready: true,
        };
        app.load_folder(entries);
        app
    }

    pub fn load_folder(&mut self, entries: Option<Vec<FileSystemEntry>>)
        ensures
            folder_loaded(*old(self), *final(self), entries),
    {
        self.scan_epoch = epoch_after(self.scan_epoch);
        self.scan_results = Vec::new();
        self.files = match entries {
            Some(f) => f,
            None => Vec::new(),
        };
        self.selected_indices = Vec::new();
        self.selection_anchor = None;
    }

    /// Takes the entries that the folder has now. What scans gave is kept for
    /// the files that did not change.
    pub fn reload_folder_after_changes(
        &mut self,
        changed_paths: &[String],
        entries: Option<Vec<FileSystemEntry>>,
    )
        ensures
            final(self).scan_epoch == file_selection::next_epoch(old(self).scan_epoch),
            final(self).selected_indices@.len() == 0,
            final(self).selection_anchor is None,
            file_list::one_record_each(
                old(self).scan_results@,
                old(self).windows,
            ) ==> file_list::one_record_each(final(self).scan_results@, old(self).windows),
            *final(self) == (SlintApp {
                files: final(self).files,
                scan_results: final(self).scan_results,
                selected_indices: final(self).selected_indices,
                selection_anchor: final(self).selection_anchor,
                scan_epoch: final(self).scan_epoch,
                dynamic_sort_ready: final(self).dynamic_sort_ready,
                ..*old(self)
            }),
            match entries {
                Some(f) => {
                    &&& final(self).files@ == f@
                    &&& final(self).scan_results@ == valid_records(
                        old(self).scan_results@,
                        changed_paths@,
                        f@,
                        old(self).windows,
                        old(self).scan_results@.len() as int,
                    )
                    &&& !final(self).dynamic_sort_ready
                },
                None => {
                    &&& final(self).files@.len() == 0
                    &&& final(self).scan_results == old(self).scan_results
                    &&& final(self).dynamic_sort_ready == old(self).dynamic_sort_ready
                },
            },
    {
        self.scan_epoch = epoch_after(self.scan_epoch);
        self.selected_indices = Vec::new();
        self.selection_anchor = None;
        match entries {
            Some(f) => {
                keep_valid_records(&mut self.scan_results, changed_paths, &f, self.windows);
                proof {
                    let records = old(self).scan_results@;
                    lemma_valid_picked(
                        records,
                        changed_paths@,
                        f@,
                        self.windows,
                        records.len() as int,
                    );
                }
                self.files = f;
                self.dynamic_sort_ready = false;
            },
            None => {
                self.files = Vec::new();
            },
        }
    }

    /// Takes deleted files out of the list. What scans gave of the other files
    /// is kept.
    pub fn remove_deleted_paths(&mut self, paths: &[String])
        ensures
            file_list::one_record_each(
                old(self).scan_results@,
                old(self).windows,
            ) ==> file_list::one_record_each(final(self).scan_results@, old(self).windows),
            paths@.len() == 0 ==> *final(self) == *old(self),
            paths@.len() > 0 ==> {
                &&& final(self).files@ == files_without(
                    old(self).files@,
                    paths@,
                    old(self).windows,
                    old(self).files@.len() as int,
                )
                &&& final(self).scan_results@ == records_without(
                    old(self).scan_results@,
                    paths@,
                    old(self).windows,
                    old(self).scan_results@.len() as int,
                )
                &&& final(self).scan_epoch == file_selection::next_epoch(old(self).scan_epoch)
                &&& final(self).selected_indices@.len() == 0
                &&& final(self).selection_anchor is None
                &&& *final(self) == (SlintApp {
                    files: final(self).files,
                    scan_results: final(self).scan_results,
                    selected_indices: final(self).selected_indices,
                    selection_anchor: final(self).selection_anchor,
                    scan_epoch: final(self).scan_epoch,
                    ..*old(self)
                })
            },
    {
        if paths.len() == 0 {
            return;
        }
        self.scan_epoch = epoch_after(self.scan_epoch);
        drop_files(&mut self.files, paths, self.windows);
        drop_records(&mut self.scan_results, paths, self.windows);
        proof {
            let records = old(self).scan_results@;
            lemma_without_picked(records, paths@, self.windows, records.len() as int);
        }
        self.selected_indices = Vec::new();
        self.selection_anchor = None;
    }

    /// Keeps what a scan of a file gave.
    pub fn record_scan(&mut self, path: String, scan: CachedMediaScan)
        ensures
            recorded(
                old(self).scan_results@,
                final(self).scan_results@,
                path@,
                scan,
                old(self).windows,
            ),
            file_list::one_record_each(
                old(self).scan_results@,
                old(self).windows,
            ) ==> file_list::one_record_each(final(self).scan_results@, old(self).windows),
            *final(self) == (SlintApp {
                scan_results: final(self).scan_results,
                ..*old(self)
            }),
    {
        let ghost before = self.scan_results@;
        let n: usize = self.scan_results.len();
        let mut i: usize = 0;
        while i < n
            invariant
                i <= n,
                n == self.scan_results@.len(),
                self.scan_results@ == before,
                *self == *old(self),
                forall|k: int|
                    0 <= k < i ==> !paths::same(
                        (#[trigger] before[k]).path@,
                        path@,
                        self.windows,
                    ),
            decreases n - i,
        {
            if same_path(self.scan_results[i].path.as_str(), path.as_str(), self.windows) {
                self.scan_results.set(i, ScanRecord { path, scan });
                proof {
                    lemma_record_replaced(
                        before,
                        self.scan_results@,
                        i as int,
                        path@,
                        self.windows,
                        0,
                    );
                }
                return;
            }
            i += 1;
        }
        let record = ScanRecord { path, scan };
        proof {
            lemma_record_added(before, record, self.windows, 0);
        }
        self.scan_results.push(record);
    }

    fn selects_path(&self, path: &str) -> (r: bool)
        requires
            file_list::all_plausible(self.scan_results@),
        ensures
            r == is_selected_path(*self, path@),
    {
        let n: usize = self.selected_indices.len();
        let mut i: usize = 0;
        while i < n
            invariant
                i <= n,
                n == self.selected_indices@.len(),
                file_list::all_plausible(self.scan_results@),
                forall|k: int|
                    0 <= k < i ==> !shows_path(
                        *self,
                        (#[trigger] self.selected_indices@[k]) as int,
                        path@,
                    ),
            decreases n - i,
        {
            match self.path_for_ui_index(self.selected_indices[i]) {
                Some(p) => {
                    if same_path(p.as_str(), path, self.windows) {
                        return true;
                    }
                },
                None => {},
            }
            i += 1;
        }
        false
    }

    fn scannable_files(&self) -> (r: Vec<usize>)
        requires
            file_list::all_plausible(self.scan_results@),
        ensures
            arrange::indices(r@) == scannable(*self, self.files@.len() as int),
            forall|i: int| 0 <= i < r@.len() ==> (#[trigger] r@[i]) < self.files@.len(),
    {
        if !self.show_only_duplicate_media_date {
            return self.visible_files();
        }
        let n: usize = self.files.len();
        let mut out: Vec<usize> = Vec::new();
        let mut i: usize = 0;
        assert(arrange::indices(out@) =~= Seq::<int>::empty());
        while i < n
            invariant
                i <= n,
                n == self.files@.len(),
                self.show_only_duplicate_media_date,
                arrange::indices(out@) == scannable(*self, i as int),
                forall|k: int| 0 <= k < out@.len() ==> (#[trigger] out@[k]) < self.files@.len(),
            decreases n - i,
        {
            if !self.files[i].is_dir && matches_file_filter(
                self.file_filter,
                self.files[i].file_name(),
            ) {
                let ghost before = out@;
                out.push(i);
                assert(arrange::indices(out@) =~= arrange::indices(before).push(i as int));
            }
            i += 1;
        }
        out
    }

    /// The number of the scan, and the files that are to be scanned.
    pub fn prepare_scan_jobs(&self) -> (r: (u64, Vec<MediaScanJob>))
        requires
            file_list::all_plausible(self.scan_results@),
        ensures
            r.0 == self.scan_epoch,
            jobs_for(r.1@, *self, scan_order(*self)),
    {
        let rows = self.scannable_files();
        let ghost all = arrange::indices(rows@);
        let n: usize = rows.len();
        let mut first: Vec<MediaScanJob> = Vec::new();
        let mut others: Vec<MediaScanJob> = Vec::new();
        let mut i: usize = 0;
        while i < n
            invariant
                i <= n,
                n == rows@.len(),
                all == arrange::indices(rows@),
                file_list::all_plausible(self.scan_results@),
                forall|k: int| 0 <= k < rows@.len() ==> (#[trigger] rows@[k]) < self.files@.len(),
                jobs_for(first@, *self, waiting(*self, all, true, i as int)),
                jobs_for(others@, *self, waiting(*self, all, false, i as int)),
            decreases n - i,
        {
            let row: usize = rows[i];
            assert(all[i as int] == row);
            let entry = &self.files[row];
            if !entry.is_dir && find_scan(self, entry).is_none() {
                let job = MediaScanJob {
                    path: entry.path.clone(),
                    size: entry.size,
                    modified: clone_time(&entry.modified),
                };
                if self.selects_path(entry.path.as_str()) {
                    first.push(job);
                } else {
                    others.push(job);
                }
            }
            i += 1;
        }
        let ghost a = first@;
        let ghost b = others@;
        first.append(&mut others);
        proof {
            assert(first@ =~= a + b);
            assert(all.len() == n);
        }
        (self.scan_epoch, first)
    }

    /// The files that are scanned first while some rows are in view.
    pub fn scan_priority_paths_for_ui_range(&self, first: i32, last: i32) -> (r: Vec<String>)
        requires
            file_list::all_plausible(self.scan_results@),
        ensures
            file_selection::text_views(r@) == first_to_scan(*self, first, last),
    {
        let rows = self.visible_files();
        let ghost shown = file_list::visible(*self);
        assert(shown.len() == rows@.len());
        let count: usize = rows.len();
        let mut paths: Vec<String> = Vec::new();
        let ghost mut taken: Seq<int> = Seq::empty();
        assert(file_selection::text_views(paths@) =~= paths_once(*self, taken, 0));
        let n: usize = self.selected_indices.len();
        if n <= 5 {
            let mut i: usize = 0;
            while i < n
                invariant
                    i <= n,
                    n <= 5,
                    n == self.selected_indices@.len(),
                    count == rows@.len(),
                    shown == file_list::visible(*self),
                    shown == arrange::indices(rows@),
                    shown.len() == count,
                    forall|k: int|
                        0 <= k < rows@.len() ==> (#[trigger] rows@[k]) < self.files@.len(),
                    taken == few_selected(*self, i as int),
                    file_selection::text_views(paths@) == paths_once(
                        *self,
                        taken,
                        taken.len() as int,
                    ),
                decreases n - i,
            {
                let index: i32 = self.selected_indices[i];
                if index >= 1 && index as usize <= count {
                    push_path(self, &rows, index as usize, &mut paths);
                    proof {
                        lemma_once_push(*self, taken, index as int);
                        taken = taken.push(index as int);
                    }
                }
                i += 1;
            }
        }
        let ghost chosen = few_selected(*self, n as int);
        proof {
            assert(taken == chosen);
        }
        let ghost range = rows_between(first as int, last as int, count as int);
        let ghost from_row: int = if first > 1 {
            first as int
        } else {
            1
        };
        proof {
            assert(chosen + range.take(0) =~= chosen);
        }
        if last >= first && last >= 1 {
            let mut index: usize = if first > 1 {
                first as usize
            } else {
                1
            };
            let end: usize = if (last as usize) < count {
                last as usize
            } else {
                count
            };
            while index <= end && index < usize::MAX
                invariant
                    from_row <= index,
                    from_row >= 1,
                    index <= end + 1 || index == from_row,
                    end <= count,
                    count == rows@.len(),
                    shown == file_list::visible(*self),
                    shown == arrange::indices(rows@),
                    shown.len() == count,
                    forall|k: int|
                        0 <= k < rows@.len() ==> (#[trigger] rows@[k]) < self.files@.len(),
                    range == rows_between(first as int, last as int, count as int),
                    from_row <= end ==> range.len() == end - from_row + 1,
                    from_row > end ==> range.len() == 0,
                    forall|k: int| 0 <= k < range.len() ==> #[trigger] range[k] == from_row + k,
                    index - from_row <= range.len(),
                    taken == chosen + range.take(index - from_row),
                    file_selection::text_views(paths@) == paths_once(
                        *self,
                        taken,
                        taken.len() as int,
                    ),
                decreases end + 1 - index,
            {
                push_path(self, &rows, index, &mut paths);
                proof {
                    let k = index - from_row;
                    assert(range[k] == index);
                    lemma_once_push(*self, taken, index as int);
                    assert(range.take(k + 1) =~= range.take(k).push(index as int));
                    assert(chosen + range.take(k + 1) =~= (chosen + range.take(k)).push(
                        index as int,
                    ));
                    taken = taken.push(index as int);
                }
                index += 1;
            }
            proof {
                assert(range.take(range.len() as int) =~= range);
            }
        } else {
            assert(range =~= range.take(0));
        }
        assert(taken =~= chosen + range);
        paths
    }
}

proof fn lemma_once_push(app: SlintApp, rows: Seq<int>, x: int)
    ensures
        paths_once(app, rows.push(x), rows.len() as int) == paths_once(
            app,
            rows,
            rows.len() as int,
        ),
{
    lemma_once_prefix(app, rows.push(x), rows, rows.len() as int);
}

proof fn lemma_once_prefix(app: SlintApp, a: Seq<int>, b: Seq<int>, n: int)
    requires
        n <= a.len(),
        n <= b.len(),
        forall|i: int| 0 <= i < n ==> a[i] == b[i],
    ensures
        paths_once(app, a, n) == paths_once(app, b, n),
    decreases n,
{
    if n > 0 {
        lemma_once_prefix(app, a, b, n - 1);
    }
}

} // verus!
