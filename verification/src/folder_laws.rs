//! The files of a folder: which of them are scanned and in what order, and what is kept
//! of earlier scans.
use crate::browser::{self, AppConfig};
use crate::entries::{self, FileSystemEntry};
use crate::file_list::{self, ScanRecord, SlintApp};
use crate::folder;
use crate::gestures;
use crate::media::MediaScanJob;
use crate::paths;
use crate::scan_queue;
use crate::text;
use vstd::prelude::*;

verus! {

// Scans.

/// What a scan gave is kept for a file that was not changed and that is still there with
/// its size and time; for other files it is forgotten.
pub proof fn scans_of_unchanged_files_are_kept(
    record: ScanRecord,
    changed: Seq<String>,
    files: Seq<FileSystemEntry>,
    windows: bool,
    i: int,
)
    requires
        0 <= i < files.len(),
        !files[i].is_dir,
        paths::same(files[i].path@, record.path@, windows),
        forall|k: int|
            0 <= k < files.len() && k != i ==> !paths::same(
                (#[trigger] files[k]).path@,
                record.path@,
                windows,
            ),
    ensures
        folder::still_valid(record, changed, files, windows) <==> {
            &&& record.scan.size == files[i].size
            &&& entries::instant(record.scan.modified) == entries::instant(files[i].modified)
            &&& forall|k: int|
                0 <= k < changed.len() ==> !paths::same(
                    (#[trigger] changed[k])@,
                    record.path@,
                    windows,
                )
        },
{
    lemma_last_file(files, record.path@, windows, files.len() as int, i);
}

proof fn lemma_last_file(
    files: Seq<FileSystemEntry>,
    path: Seq<char>,
    windows: bool,
    n: int,
    i: int,
)
    requires
        0 <= i < n <= files.len(),
        !files[i].is_dir,
        paths::same(files[i].path@, path, windows),
        forall|k: int|
            i < k < n ==> !paths::same((#[trigger] files[k]).path@, path, windows),
    ensures
        folder::last_file(files, path, windows, n) == Some(files[i]),
    decreases n,
{
    if n > i + 1 {
        assert(!paths::same(files[n - 1].path@, path, windows));
        lemma_last_file(files, path, windows, n - 1, i);
    }
}

/// What a scan gave is forgotten for a file that is gone.
pub proof fn scans_of_missing_files_are_forgotten(
    record: ScanRecord,
    changed: Seq<String>,
    files: Seq<FileSystemEntry>,
    windows: bool,
)
    requires
        forall|k: int|
            0 <= k < files.len() ==> files[k].is_dir || !paths::same(
                (#[trigger] files[k]).path@,
                record.path@,
                windows,
            ),
    ensures
        !folder::still_valid(record, changed, files, windows),
{
    lemma_no_file(files, record.path@, windows, files.len() as int);
}

proof fn lemma_no_file(files: Seq<FileSystemEntry>, path: Seq<char>, windows: bool, n: int)
    requires
        0 <= n <= files.len(),
        forall|k: int|
            0 <= k < n ==> files[k].is_dir || !paths::same(
                (#[trigger] files[k]).path@,
                path,
                windows,
            ),
    ensures
        folder::last_file(files, path, windows, n) is None,
    decreases n,
{
    if n > 0 {
        lemma_no_file(files, path, windows, n - 1);
    }
}

/// The valid ones of the records are kept in their order, and no others.
pub proof fn valid_records_stay(
    records: Seq<ScanRecord>,
    changed: Seq<String>,
    files: Seq<FileSystemEntry>,
    windows: bool,
    n: int,
)
    requires
        0 <= n <= records.len(),
    ensures
        ({
            let kept = folder::valid_records(records, changed, files, windows, n);
            &&& forall|i: int|
                0 <= i < n && folder::still_valid(
                    #[trigger] records[i],
                    changed,
                    files,
                    windows,
                ) ==> kept.contains(records[i])
            &&& forall|k: int|
                0 <= k < kept.len() ==> folder::still_valid(
                    #[trigger] kept[k],
                    changed,
                    files,
                    windows,
                )
            &&& kept.len() <= n
        }),
    decreases n,
{
    if n > 0 {
        valid_records_stay(records, changed, files, windows, n - 1);
        let before = folder::valid_records(records, changed, files, windows, n - 1);
        let kept = folder::valid_records(records, changed, files, windows, n);
        assert forall|i: int|
            0 <= i < n && folder::still_valid(
                #[trigger] records[i],
                changed,
                files,
                windows,
            ) implies kept.contains(records[i]) by {
            if i < n - 1 {
                assert(before.contains(records[i]));
                let k = choose|k: int| 0 <= k < before.len() && before[k] == records[i];
                assert(kept[k] == records[i]);
            } else {
                assert(kept[kept.len() - 1] == records[i]);
            }
        }
        assert forall|k: int| 0 <= k < kept.len() implies folder::still_valid(
            #[trigger] kept[k],
            changed,
            files,
            windows,
        ) by {
            if k < before.len() {
                assert(kept[k] == before[k]);
            } else {
                assert(kept[k] == records[n - 1]);
            }
        }
    }
}

/// The files and the records of deleted paths go, and the others stay.
pub proof fn deleted_files_go(
    files: Seq<FileSystemEntry>,
    records: Seq<ScanRecord>,
    deleted: Seq<String>,
    windows: bool,
    n: int,
    i: int,
)
    requires
        0 <= i < n,
        n <= files.len(),
        n <= records.len(),
    ensures
        ({
            let gone = exists|k: int|
                0 <= k < deleted.len() && paths::same(
                    (#[trigger] deleted[k])@,
                    files[i].path@,
                    windows,
                );
            !gone ==> folder::files_without(files, deleted, windows, n).contains(files[i])
        }),
        ({
            let gone = exists|k: int|
                0 <= k < deleted.len() && paths::same(
                    (#[trigger] deleted[k])@,
                    records[i].path@,
                    windows,
                );
            !gone ==> folder::records_without(records, deleted, windows, n).contains(records[i])
        }),
        forall|j: int, k: int|
            0 <= j < folder::files_without(files, deleted, windows, n).len() && 0 <= k
                < deleted.len() ==> !paths::same(
                (#[trigger] deleted[k])@,
                (#[trigger] folder::files_without(files, deleted, windows, n)[j]).path@,
                windows,
            ),
        forall|j: int, k: int|
            0 <= j < folder::records_without(records, deleted, windows, n).len() && 0 <= k
                < deleted.len() ==> !paths::same(
                (#[trigger] deleted[k])@,
                (#[trigger] folder::records_without(records, deleted, windows, n)[j]).path@,
                windows,
            ),
{
    lemma_files(files, deleted, windows, n);
    lemma_records(records, deleted, windows, n);
    assert(folder::among(deleted, files[i].path@, windows) || folder::files_without(
        files,
        deleted,
        windows,
        n,
    ).contains(files[i]));
    assert(folder::among(deleted, records[i].path@, windows) || folder::records_without(
        records,
        deleted,
        windows,
        n,
    ).contains(records[i]));
    assert forall|j: int, k: int|
        0 <= j < folder::files_without(files, deleted, windows, n).len() && 0 <= k
            < deleted.len() implies !paths::same(
        (#[trigger] deleted[k])@,
        (#[trigger] folder::files_without(files, deleted, windows, n)[j]).path@,
        windows,
    ) by {
        assert(!folder::among(
            deleted,
            folder::files_without(files, deleted, windows, n)[j].path@,
            windows,
        ));
    }
    assert forall|j: int, k: int|
        0 <= j < folder::records_without(records, deleted, windows, n).len() && 0 <= k
            < deleted.len() implies !paths::same(
        (#[trigger] deleted[k])@,
        (#[trigger] folder::records_without(records, deleted, windows, n)[j]).path@,
        windows,
    ) by {
        assert(!folder::among(
            deleted,
            folder::records_without(records, deleted, windows, n)[j].path@,
            windows,
        ));
    }
}

proof fn lemma_files(files: Seq<FileSystemEntry>, deleted: Seq<String>, windows: bool, n: int)
    requires
        0 <= n <= files.len(),
    ensures
        ({
            let kept = folder::files_without(files, deleted, windows, n);
            &&& forall|i: int|
                0 <= i < n && !folder::among(deleted, (#[trigger] files[i]).path@, windows)
                    ==> kept.contains(files[i])
            &&& forall|k: int|
                0 <= k < kept.len() ==> !folder::among(deleted, (#[trigger] kept[k]).path@, windows)
        }),
    decreases n,
{
    if n > 0 {
        lemma_files(files, deleted, windows, n - 1);
        let before = folder::files_without(files, deleted, windows, n - 1);
        let kept = folder::files_without(files, deleted, windows, n);
        assert forall|i: int|
            0 <= i < n && !folder::among(deleted, (#[trigger] files[i]).path@, windows) implies
            kept.contains(files[i]) by {
            if i < n - 1 {
                assert(before.contains(files[i]));
                let k = choose|k: int| 0 <= k < before.len() && before[k] == files[i];
                assert(kept[k] == files[i]);
            } else {
                assert(kept[kept.len() - 1] == files[i]);
            }
        }
        assert forall|k: int| 0 <= k < kept.len() implies !folder::among(
            deleted,
            (#[trigger] kept[k]).path@,
            windows,
        ) by {
            if k < before.len() {
                assert(kept[k] == before[k]);
            }
        }
    }
}

proof fn lemma_records(records: Seq<ScanRecord>, deleted: Seq<String>, windows: bool, n: int)
    requires
        0 <= n <= records.len(),
    ensures
        ({
            let kept = folder::records_without(records, deleted, windows, n);
            &&& forall|i: int|
                0 <= i < n && !folder::among(deleted, (#[trigger] records[i]).path@, windows)
                    ==> kept.contains(records[i])
            &&& forall|k: int|
                0 <= k < kept.len() ==> !folder::among(deleted, (#[trigger] kept[k]).path@, windows)
        }),
    decreases n,
{
    if n > 0 {
        lemma_records(records, deleted, windows, n - 1);
        let before = folder::records_without(records, deleted, windows, n - 1);
        let kept = folder::records_without(records, deleted, windows, n);
        assert forall|i: int|
            0 <= i < n && !folder::among(deleted, (#[trigger] records[i]).path@, windows) implies
            kept.contains(records[i]) by {
            if i < n - 1 {
                assert(before.contains(records[i]));
                let k = choose|k: int| 0 <= k < before.len() && before[k] == records[i];
                assert(kept[k] == records[i]);
            } else {
                assert(kept[kept.len() - 1] == records[i]);
            }
        }
        assert forall|k: int| 0 <= k < kept.len() implies !folder::among(
            deleted,
            (#[trigger] kept[k]).path@,
            windows,
        ) by {
            if k < before.len() {
                assert(kept[k] == before[k]);
            }
        }
    }
}

// The order of scans.

proof fn lemma_waiting(app: SlintApp, rows: Seq<int>, selected: bool, n: int)
    requires
        0 <= n <= rows.len(),
    ensures
        ({
            let w = folder::waiting(app, rows, selected, n);
            &&& forall|k: int|
                0 <= k < w.len() ==> folder::needs_scan(app, app.files@[#[trigger] w[k]])
                    && folder::is_selected_path(app, app.files@[w[k]].path@) == selected
            &&& forall|i: int|
                0 <= i < n && folder::needs_scan(app, app.files@[#[trigger] rows[i]])
                    && folder::is_selected_path(app, app.files@[rows[i]].path@) == selected
                    ==> w.contains(rows[i])
        }),
    decreases n,
{
    if n > 0 {
        lemma_waiting(app, rows, selected, n - 1);
        let before = folder::waiting(app, rows, selected, n - 1);
        let w = folder::waiting(app, rows, selected, n);
        assert forall|k: int| 0 <= k < w.len() implies folder::needs_scan(
            app,
            app.files@[#[trigger] w[k]],
        ) && folder::is_selected_path(app, app.files@[w[k]].path@) == selected by {
            if k < before.len() {
                assert(w[k] == before[k]);
            }
        }
        assert forall|i: int|
            0 <= i < n && folder::needs_scan(app, app.files@[#[trigger] rows[i]])
                && folder::is_selected_path(app, app.files@[rows[i]].path@) == selected implies
            w.contains(rows[i]) by {
            if i < n - 1 {
                assert(before.contains(rows[i]));
                let k = choose|k: int| 0 <= k < before.len() && before[k] == rows[i];
                assert(w[k] == rows[i]);
            } else {
                assert(w[w.len() - 1] == rows[i]);
            }
        }
    }
}

/// Each listed file of which no scan is known is scanned, and no other; the selected
/// files are scanned before all others.
pub proof fn selected_files_are_scanned_first(app: SlintApp, i: int, j: int)
    requires
        !app.show_only_duplicate_media_date,
        0 <= i < file_list::visible(app).len(),
        0 <= j < folder::scan_order(app).len(),
    ensures
        ({
            let row = file_list::visible(app)[i];
            let e = app.files@[row];
            let order = folder::scan_order(app);
            &&& !e.is_dir && file_list::scan_of(app, e) is None ==> order.contains(row)
            &&& !app.files@[order[j]].is_dir
            &&& file_list::scan_of(app, app.files@[order[j]]) is None
            &&& forall|k: int|
                0 <= k < j && folder::is_selected_path(app, app.files@[order[j]].path@)
                    ==> folder::is_selected_path(app, app.files@[#[trigger] order[k]].path@)
        }),
{
    let rows = file_list::visible(app);
    let n = rows.len() as int;
    assert(folder::scannable(app, app.files@.len() as int) == rows);
    lemma_waiting(app, rows, true, n);
    lemma_waiting(app, rows, false, n);
    let a = folder::waiting(app, rows, true, n);
    let b = folder::waiting(app, rows, false, n);
    let order = folder::scan_order(app);
    assert forall|k: int| 0 <= k < order.len() implies folder::needs_scan(
        app,
        app.files@[#[trigger] order[k]],
    ) && (k < a.len() <==> folder::is_selected_path(app, app.files@[order[k]].path@)) by {
        if k < a.len() {
            assert(order[k] == a[k]);
        } else {
            assert(order[k] == b[k - a.len()]);
        }
    }
    assert(folder::needs_scan(app, app.files@[order[j]]));
    let row = rows[i];
    let e = app.files@[row];
    if !e.is_dir && file_list::scan_of(app, e) is None {
        assert(folder::needs_scan(app, app.files@[rows[i]]));
        if folder::is_selected_path(app, e.path@) {
            assert(a.contains(row));
            let k = choose|k: int| 0 <= k < a.len() && a[k] == row;
            assert(order[k] == row);
        } else {
            assert(b.contains(row));
            let k = choose|k: int| 0 <= k < b.len() && b[k] == row;
            assert(order[k + a.len()] == row);
        }
    }
}

/// The rows in view are those from the first to the last that exist, from the top down.
pub proof fn rows_in_view(first: int, last: int, count: int, x: int)
    ensures
        folder::rows_between(first, last, count).contains(x) <==> first <= x <= last && 1 <= x
            <= count,
        forall|i: int, j: int|
            0 <= i < j < folder::rows_between(first, last, count).len() ==> (
            #[trigger] folder::rows_between(first, last, count)[i]) < (
            #[trigger] folder::rows_between(first, last, count)[j]),
{
    let rows = folder::rows_between(first, last, count);
    if first <= x <= last && 1 <= x <= count {
        let from = if first > 1 {
            first
        } else {
            1
        };
        assert(rows[x - from] == x);
    }
}

/// Selected rows go before the rows in view only where there are at most five.
pub proof fn few_selected_rows_go_first(app: SlintApp, n: int, i: int)
    requires
        0 <= i < n <= app.selected_indices@.len(),
    ensures
        app.selected_indices@.len() > 5 ==> folder::few_selected(app, n).len() == 0,
        app.selected_indices@.len() <= 5 && 1 <= app.selected_indices@[i]
            <= file_list::visible(app).len() ==> folder::few_selected(app, n).contains(
            app.selected_indices@[i] as int,
        ),
        forall|k: int|
            0 <= k < folder::few_selected(app, n).len() ==> 1 <= #[trigger] folder::few_selected(
                app,
                n,
            )[k] <= file_list::visible(app).len(),
    decreases n,
{
    if app.selected_indices@.len() <= 5 {
        let before = folder::few_selected(app, n - 1);
        let all = folder::few_selected(app, n);
        if n - 1 > 0 {
            few_selected_rows_go_first(
                app,
                n - 1,
                if i < n - 1 {
                    i
                } else {
                    0
                },
            );
        }
        let x = app.selected_indices@[i];
        if 1 <= x <= file_list::visible(app).len() {
            if i < n - 1 {
                let k = choose|k: int| 0 <= k < before.len() && before[k] == x as int;
                assert(all[k] == x as int);
            } else {
                assert(all[all.len() - 1] == x as int);
            }
        }
        assert forall|k: int| 0 <= k < all.len() implies 1 <= #[trigger] all[k]
            <= file_list::visible(app).len() by {
            if k < before.len() {
                assert(all[k] == before[k]);
            }
        }
    }
}

/// Jobs are handed out from the first to the last.
pub proof fn jobs_are_handed_out_in_order(jobs: Seq<MediaScanJob>, n: int)
    requires
        0 <= n <= jobs.len(),
    ensures
        scan_queue::handed_out(jobs, n) == jobs.take(n),
    decreases n,
{
    if n > 0 {
        jobs_are_handed_out_in_order(jobs.skip(1), n - 1);
        assert(seq![jobs[0]] + jobs.skip(1).take(n - 1) =~= jobs.take(n));
    } else {
        assert(jobs.take(0) =~= Seq::empty());
    }
}

// Keys and sizes.

/// Keys within a second make one text to search for, and a later key begins a new one;
/// the same single key again stays one key.
pub proof fn keys_within_a_second_make_one_text(typed: Seq<char>, t: u64, key: Seq<char>, now: u64)
    requires
        key.len() > 0,
    ensures
        now - t <= 1000 && !(typed == key && key.len() == 1) ==> gestures::search_text(
            typed,
            Some(t),
            key,
            now,
        ) == typed + key,
        now - t <= 1000 && typed == key && key.len() == 1 ==> gestures::search_text(
            typed,
            Some(t),
            key,
            now,
        ) == key,
        now - t > 1000 ==> gestures::search_text(typed, Some(t), key, now) == key,
        gestures::search_text(typed, None, key, now) == key,
{
    assert(Seq::<char>::empty() + key =~= key);
}

/// Sizes are shown in kilobytes, of which the last may be incomplete.
pub proof fn sizes_are_rounded_up(size: int, k: nat)
    requires
        0 < k,
        (k - 1) * 1024 < size <= k * 1024,
    ensures
        browser::kilobytes_text(size) == text::decimal(k) + seq![' ', 'K', 'B'],
        browser::kilobytes_text(0) == seq!['0', ' ', 'K', 'B'],
{
    reveal_strlit(" KB");
    reveal_strlit("0 KB");
    assert(" KB"@ =~= seq![' ', 'K', 'B']);
    assert("0 KB"@ =~= seq!['0', ' ', 'K', 'B']);
    assert((size + 1023) / 1024 == k);
}

/// Folders are shown with slashes in place of backslashes; nothing else changes.
pub proof fn folders_are_shown_with_slashes(path: Seq<char>, i: int)
    requires
        0 <= i < path.len(),
    ensures
        browser::with_slashes(path).len() == path.len(),
        path[i] == '\\' ==> browser::with_slashes(path)[i] == '/',
        path[i] != '\\' ==> browser::with_slashes(path)[i] == path[i],
{
}

/// The files that are shown are those of the configured extensions, in their order.
pub proof fn configured_files_are_shown(config: AppConfig, names: Seq<Seq<char>>, n: int)
    requires
        0 <= n <= names.len(),
    ensures
        forall|i: int|
            0 <= i < n && config.shows(#[trigger] names[i]) ==> config.shown(names, n).contains(
                names[i],
            ),
        forall|k: int|
            0 <= k < config.shown(names, n).len() ==> config.shows(
                #[trigger] config.shown(names, n)[k],
            ) && names.contains(config.shown(names, n)[k]),
    decreases n,
{
    if n > 0 {
        configured_files_are_shown(config, names, n - 1);
        let before = config.shown(names, n - 1);
        let all = config.shown(names, n);
        assert forall|i: int| 0 <= i < n && config.shows(#[trigger] names[i]) implies all.contains(
            names[i],
        ) by {
            if i < n - 1 {
                assert(before.contains(names[i]));
                let k = choose|k: int| 0 <= k < before.len() && before[k] == names[i];
                assert(all[k] == names[i]);
            } else {
                assert(all[all.len() - 1] == names[i]);
            }
        }
        assert forall|k: int| 0 <= k < all.len() implies config.shows(#[trigger] all[k])
            && names.contains(all[k]) by {
            if k < before.len() {
                assert(all[k] == before[k]);
            } else {
                assert(all[k] == names[n - 1]);
            }
        }
    }
}

} // verus!
