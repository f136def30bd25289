//! Finding rows of the file list, and selecting them.
use crate::arrange;
use crate::entries::FileSystemEntry;
use crate::file_list::{self, SlintApp, TIME_DISPLAY_KST};
use crate::media::{self, is_jpeg_path, matches_file_filter};
use crate::paths::{self, same_path};
use crate::selection_laws;
use crate::text::{self, text_starts_with, to_lowercase};
use vstd::prelude::*;

verus! {

// Counting.

/// How many of the first rows are files.
pub open spec fn files_among(app: SlintApp, rows: Seq<int>, n: int) -> int
    decreases n,
{
    if n <= 0 {
        0
    } else {
        files_among(app, rows, n - 1) + if app.files@[rows[n - 1]].is_dir {
            0int
        } else {
            1
        }
    }
}

/// How many of the first entries are files that a filter takes.
pub open spec fn taken_among(files: Seq<FileSystemEntry>, filter: i32, n: int) -> int
    decreases n,
{
    if n <= 0 {
        0
    } else {
        taken_among(files, filter, n - 1) + if !files[n - 1].is_dir && media::filter_takes(
            filter,
            files[n - 1].kind_name(),
        ) {
            1int
        } else {
            0
        }
    }
}

/// No more files are taken by a filter than there are.
pub proof fn taken_files_are_files(files: Seq<FileSystemEntry>, filter: i32, n: int)
    ensures
        0 <= taken_among(files, filter, n) <= taken_among(files, 3, n),
        0 <= n ==> taken_among(files, 3, n) <= n,
    decreases n,
{
    if n > 0 {
        taken_files_are_files(files, filter, n - 1);
    }
}

fn count_taken(files: &Vec<FileSystemEntry>, filter: i32) -> (r: usize)
    ensures
        r == taken_among(files@, filter, files@.len() as int),
{
    let n: usize = files.len();
    let mut count: usize = 0;
    let mut i: usize = 0;
    while i < n
        invariant
            i <= n,
            n == files@.len(),
            count <= i,
            count == taken_among(files@, filter, i as int),
        decreases n - i,
    {
        if !files[i].is_dir && matches_file_filter(filter, files[i].file_name()) {
            count += 1;
        }
        i += 1;
    }
    count
}

// Rows and paths.

/// The path of a row: row zero leads to the folder above.
pub open spec fn row_path(app: SlintApp, index: int) -> Option<Seq<char>> {
    if index < 0 || index > file_list::visible(app).len() {
        None
    } else if index == 0 {
        match app.parent_path {
            Some(p) => Some(p@),
            None => None,
        }
    } else {
        Some(app.files@[file_list::visible(app)[index - 1]].path@)
    }
}

/// The first row from a place on that shows a path.
pub open spec fn place_of(app: SlintApp, rows: Seq<int>, path: Seq<char>, i: int) -> Option<int>
    decreases rows.len() - i,
{
    if i < 0 || i >= rows.len() {
        None
    } else if paths::same(app.files@[rows[i]].path@, path, app.windows) {
        Some(i)
    } else {
        place_of(app, rows, path, i + 1)
    }
}

/// The row that shows a path, counted from one.
pub open spec fn row_of_path(app: SlintApp, path: Seq<char>) -> Option<int> {
    match place_of(app, file_list::visible(app), path, 0) {
        Some(i) => if i + 1 <= i32::MAX {
            Some(i + 1)
        } else {
            None
        },
        None => None,
    }
}

fn find_place(app: &SlintApp, rows: &Vec<usize>, path: &str) -> (r: Option<usize>)
    requires
        arrange::indices(rows@) == file_list::visible(*app),
        forall|i: int| 0 <= i < rows@.len() ==> (#[trigger] rows@[i]) < app.files@.len(),
    ensures
        match r {
            Some(i) => place_of(*app, file_list::visible(*app), path@, 0) == Some(i as int) && i
                < rows@.len(),
            None => place_of(*app, file_list::visible(*app), path@, 0) is None,
        },
{
    let ghost all = arrange::indices(rows@);
    let n: usize = rows.len();
    let mut i: usize = 0;
    while i < n
        invariant
            i <= n,
            n == rows@.len(),
            all == arrange::indices(rows@),
            all == file_list::visible(*app),
            forall|k: int| 0 <= k < rows@.len() ==> (#[trigger] rows@[k]) < app.files@.len(),
            place_of(*app, all, path@, 0) == place_of(*app, all, path@, i as int),
        decreases n - i,
    {
        let row: usize = rows[i];
        assert(all[i as int] == row);
        if same_path(app.files[row].path.as_str(), path, app.windows) {
            return Some(i);
        }
        i += 1;
    }
    None
}

// Searching by the first letters of a name.

/// The row at which a search begins. A longer query may stay at the current
/// row, a single letter goes on to the next one.
pub open spec fn search_start(query: Seq<char>, current: i32, n: int) -> int {
    let place = if current >= 1 {
        current - 1
    } else {
        0
    };
    if query.len() > 1 {
        if place < n - 1 {
            place
        } else {
            n - 1
        }
    } else if current > 0 {
        (place + 1) % n
    } else {
        0
    }
}

/// Whether the name in a row begins with a query.
pub open spec fn row_matches(app: SlintApp, row: int, query: Seq<char>) -> bool {
    app.files@[row].name matches Some(name) && text::starts_with(text::lowercased(name@), query)
}

/// The first row that matches, from an offset behind the start on, all round
/// the list.
pub open spec fn search_from(
    app: SlintApp,
    rows: Seq<int>,
    query: Seq<char>,
    start: int,
    offset: int,
) -> Option<int>
    decreases rows.len() - offset,
{
    if offset < 0 || offset >= rows.len() {
        None
    } else {
        let place = (start + offset) % (rows.len() as int);
        if row_matches(app, rows[place], query) && place + 1 <= i32::MAX {
            Some(place + 1)
        } else {
            search_from(app, rows, query, start, offset + 1)
        }
    }
}

/// The row that a search for the first letters of a name leads to.
pub open spec fn searched_row(app: SlintApp, query: Seq<char>, current: i32) -> Option<int> {
    let rows = file_list::visible(app);
    if query.len() == 0 || rows.len() == 0 {
        None
    } else {
        search_from(app, rows, query, search_start(query, current, rows.len() as int), 0)
    }
}

// Selecting.

/// An entry is a JPEG file without EXIF data.
pub open spec fn lacks_exif(app: SlintApp, row: int, has_exif: Seq<bool>) -> bool {
    !app.files@[row].is_dir && media::jpeg_name(app.files@[row].kind_name()) && !has_exif[row]
}

/// The numbers stand in rising order, each once.
pub open spec fn rising(s: Seq<i32>) -> bool {
    forall|i: int, j: int| 0 <= i < j < s.len() ==> #[trigger] s[i] < #[trigger] s[j]
}

/// The numbers from one to another.
pub open spec fn span(from: int, to: int) -> Seq<i32> {
    Seq::new(
        if to >= from {
            (to - from + 1) as nat
        } else {
            0
        },
        |i: int| (from + i) as i32,
    )
}

fn collect_span(from: i32, to: i32) -> (r: Vec<i32>)
    ensures
        r@ == span(from as int, to as int),
        rising(r@),
{
    let mut out: Vec<i32> = Vec::new();
    if to < from {
        assert(out@ =~= span(from as int, to as int));
        return out;
    }
    let mut i: i32 = from;
    while i < to
        invariant
            from <= i <= to,
            out@ == span(from as int, i - 1),
        decreases to - i,
    {
        out.push(i);
        assert(out@ =~= span(from as int, i as int));
        i += 1;
    }
    out.push(to);
    assert(out@ =~= span(from as int, to as int));
    out
}

/// The numbers with one more, at its place, or with one less.
pub open spec fn toggled(s: Seq<i32>, x: i32) -> Set<i32> {
    if s.to_set().contains(x) {
        s.to_set().remove(x)
    } else {
        s.to_set().insert(x)
    }
}

fn find_in_rising(s: &Vec<i32>, x: i32) -> (r: Result<usize, usize>)
    requires
        rising(s@),
    ensures
        match r {
            Ok(i) => i < s@.len() && s@[i as int] == x,
            Err(i) => i <= s@.len() && (forall|k: int| 0 <= k < i ==> #[trigger] s@[k] < x) && (
            forall|k: int| i <= k < s@.len() ==> x < #[trigger] s@[k]),
        },
{
    let mut low: usize = 0;
    let mut high: usize = s.len();
    while low < high
        invariant
            low <= high <= s@.len(),
            rising(s@),
            forall|k: int| 0 <= k < low ==> #[trigger] s@[k] < x,
            forall|k: int| high <= k < s@.len() ==> x < #[trigger] s@[k],
        decreases high - low,
    {
        let mid: usize = low + (high - low) / 2;
        let m: i32 = s[mid];
        if m == x {
            return Ok(mid);
        }
        if m < x {
            low = mid + 1;
        } else {
            high = mid;
        }
    }
    Err(low)
}

fn toggle(s: &mut Vec<i32>, x: i32)
    requires
        rising(old(s)@),
    ensures
        rising(final(s)@),
        final(s)@.to_set() == toggled(old(s)@, x),
{
    let ghost before = s@;
    match find_in_rising(s, x) {
        Ok(i) => {
            s.remove(i);
            proof {
                let after = s@;
                assert(after == before.remove(i as int));
                assert(before.contains(x)) by {
                    assert(before[i as int] == x);
                }
                assert forall|a: int, b: int| 0 <= a < b < after.len() implies #[trigger] after[a]
                    < #[trigger] after[b] by {
                    let p = if a < i {
                        a
                    } else {
                        a + 1
                    };
                    let q = if b < i {
                        b
                    } else {
                        b + 1
                    };
                    assert(after[a] == before[p] && after[b] == before[q]);
                }
                assert forall|y: i32| after.to_set().contains(y) <==> toggled(before, x).contains(
                    y,
                ) by {
                    if after.contains(y) {
                        let k = choose|k: int| 0 <= k < after.len() && after[k] == y;
                        let p = if k < i {
                            k
                        } else {
                            k + 1
                        };
                        assert(before[p] == y);
                        assert(y != x);
                    }
                    if before.contains(y) && y != x {
                        let k = choose|k: int| 0 <= k < before.len() && before[k] == y;
                        let p = if k < i {
                            k
                        } else {
                            k - 1
                        };
                        assert(after[p] == y);
                    }
                }
                assert(after.to_set() =~= toggled(before, x));
            }
        },
        Err(i) => {
            s.insert(i, x);
            proof {
                let after = s@;
                assert(after == before.insert(i as int, x));
                assert(!before.contains(x));
                assert forall|a: int, b: int| 0 <= a < b < after.len() implies #[trigger] after[a]
                    < #[trigger] after[b] by {
                    let p = if a < i {
                        a
                    } else {
                        a - 1
                    };
                    let q = if b < i {
                        b
                    } else {
                        b - 1
                    };
                    if a != i {
                        assert(after[a] == before[p]);
                    }
                    if b != i {
                        assert(after[b] == before[q]);
                    }
                }
                assert forall|y: i32| after.to_set().contains(y) <==> toggled(before, x).contains(
                    y,
                ) by {
                    if after.contains(y) {
                        let k = choose|k: int| 0 <= k < after.len() && after[k] == y;
                        let p = if k < i {
                            k
                        } else {
                            k - 1
                        };
                        if k != i {
                            assert(before[p] == y);
                        }
                    }
                    if before.contains(y) {
                        let k = choose|k: int| 0 <= k < before.len() && before[k] == y;
                        let p = if k < i {
                            k
                        } else {
                            k + 1
                        };
                        assert(after[p] == y);
                    }
                    if y == x {
                        assert(after[i as int] == x);
                    }
                }
                assert(after.to_set() =~= toggled(before, x));
            }
        },
    }
}

/// Two rising sequences of the same numbers are the same.
pub proof fn rising_is_unique(a: Seq<i32>, b: Seq<i32>)
    requires
        rising(a),
        rising(b),
        a.to_set() == b.to_set(),
    ensures
        a == b,
    decreases a.len(),
{
    if a.len() == 0 {
        if b.len() > 0 {
            assert(b.to_set().contains(b[0]));
            assert(a.contains(b[0]));
        }
        assert(a =~= b);
    } else {
        assert(a.to_set().contains(a[0]));
        assert(b.contains(a[0]));
        assert(b.to_set().contains(b[0]));
        assert(a.contains(b[0]));
        let i = choose|i: int| 0 <= i < a.len() && a[i] == b[0];
        let j = choose|j: int| 0 <= j < b.len() && b[j] == a[0];
        assert(a[0] == b[0]);
        let x = a.drop_first();
        let y = b.drop_first();
        assert(rising(x)) by {
            assert forall|p: int, q: int| 0 <= p < q < x.len() implies #[trigger] x[p]
                < #[trigger] x[q] by {
                assert(x[p] == a[p + 1] && x[q] == a[q + 1]);
            }
        }
        assert(rising(y)) by {
            assert forall|p: int, q: int| 0 <= p < q < y.len() implies #[trigger] y[p]
                < #[trigger] y[q] by {
                assert(y[p] == b[p + 1] && y[q] == b[q + 1]);
            }
        }
        assert forall|v: i32| x.to_set().contains(v) <==> y.to_set().contains(v) by {
            if x.contains(v) {
                let p = choose|p: int| 0 <= p < x.len() && x[p] == v;
                assert(a[p + 1] == v && a[0] < a[p + 1]);
                assert(a.to_set().contains(v));
                assert(b.contains(v));
                let q = choose|q: int| 0 <= q < b.len() && b[q] == v;
                assert(y[q - 1] == v);
            }
            if y.contains(v) {
                let p = choose|p: int| 0 <= p < y.len() && y[p] == v;
                assert(b[p + 1] == v && b[0] < b[p + 1]);
                assert(b.to_set().contains(v));
                assert(a.contains(v));
                let q = choose|q: int| 0 <= q < a.len() && a[q] == v;
                assert(x[q - 1] == v);
            }
        }
        assert(x.to_set() =~= y.to_set());
        rising_is_unique(x, y);
        assert(a =~= seq![a[0]] + x);
        assert(b =~= seq![b[0]] + y);
    }
}

/// The rows that show one of some paths.
pub open spec fn rows_of_paths(app: SlintApp, paths: Seq<Seq<char>>) -> Set<i32> {
    Set::new(
        |x: i32|
            exists|j: int|
                0 <= j < paths.len() && row_of_path(app, #[trigger] paths[j]) == Some(x as int),
    )
}

/// The paths of the selected rows.
pub open spec fn selected_paths_of(app: SlintApp, n: int) -> Seq<Seq<char>>
    decreases n,
{
    if n <= 0 {
        Seq::empty()
    } else {
        let before = selected_paths_of(app, n - 1);
        let index = app.selected_indices@[n - 1];
        if index > 0 && row_path(app, index as int) is Some {
            before.push(row_path(app, index as int)->0)
        } else {
            before
        }
    }
}

pub open spec fn text_views(texts: Seq<String>) -> Seq<Seq<char>> {
    Seq::new(texts.len(), |i: int| texts[i]@)
}

/// The anchor of a selection is its first row.
pub open spec fn first_selected(s: Seq<i32>) -> Option<i32> {
    if s.len() > 0 {
        Some(s[0])
    } else {
        None
    }
}

fn first_of(s: &Vec<i32>) -> (r: Option<i32>)
    ensures
        r == first_selected(s@),
{
    if s.len() > 0 {
        Some(s[0])
    } else {
        None
    }
}

/// Nothing but the selection differs.
pub open spec fn selection_changed(a: SlintApp, b: SlintApp) -> bool {
    b == (SlintApp {
        selected_indices: b.selected_indices,
        selection_anchor: b.selection_anchor,
        ..a
    })
}

/// The selection does not bear on what the list shows.
pub proof fn selection_leaves_the_list(a: SlintApp, b: SlintApp)
    requires
        selection_changed(a, b),
        file_list::is_list(a, file_list::visible(a)),
    ensures
        file_list::visible(a) == file_list::visible(b),
        forall|path: Seq<char>| #[trigger] row_of_path(a, path) == row_of_path(b, path),
{
    lemma_same_list(a, b);
    assert forall|path: Seq<char>| #[trigger] row_of_path(a, path) == row_of_path(b, path) by {
        lemma_same_place(a, b, file_list::visible(a), path, 0);
    }
}

proof fn lemma_same_place(a: SlintApp, b: SlintApp, rows: Seq<int>, path: Seq<char>, i: int)
    requires
        a.files == b.files,
        a.windows == b.windows,
        0 <= i,
    ensures
        place_of(a, rows, path, i) == place_of(b, rows, path, i),
    decreases rows.len() - i,
{
    if i < rows.len() {
        lemma_same_place(a, b, rows, path, i + 1);
    }
}

proof fn lemma_same_list(a: SlintApp, b: SlintApp)
    requires
        selection_changed(a, b),
        file_list::is_list(a, file_list::visible(a)),
    ensures
        file_list::visible(a) == file_list::visible(b),
{
    assert forall|k: int| file_list::is_shown(a, k) == file_list::is_shown(b, k) by {
        lemma_same_shown(a, b, k);
    }
    assert((|k: int| file_list::is_shown(a, k)) =~= (|k: int| file_list::is_shown(b, k)));
    assert forall|x: int, y: int| file_list::stands_before(a, x, y) == file_list::stands_before(
        b,
        x,
        y,
    ) by {
        assert(file_list::scan_of(a, a.files@[x]) == file_list::scan_of(b, b.files@[x]));
        assert(file_list::scan_of(a, a.files@[y]) == file_list::scan_of(b, b.files@[y]));
    }
    assert((|x: int, y: int| file_list::stands_before(a, x, y)) =~= (|x: int, y: int|
        file_list::stands_before(b, x, y)));
    file_list::list_is_unique(b, file_list::visible(a));
}

proof fn lemma_same_shown(a: SlintApp, b: SlintApp, k: int)
    requires
        selection_changed(a, b),
    ensures
        file_list::is_shown(a, k) == file_list::is_shown(b, k),
{
    assert forall|e: FileSystemEntry| #[trigger]
        file_list::duplicate_key(a, e) == file_list::duplicate_key(b, e) by {
        assert(file_list::scan_of(a, e) == file_list::scan_of(b, e));
    }
    assert(file_list::has_duplicate(a, k) == file_list::has_duplicate(b, k)) by {
        if file_list::has_duplicate(a, k) {
            let j = choose|j: int|
                0 <= j < a.files@.len() && j != k && #[trigger] file_list::duplicate_key(
                    a,
                    a.files@[j],
                ) == file_list::duplicate_key(a, a.files@[k]);
            assert(file_list::duplicate_key(b, b.files@[j]) == file_list::duplicate_key(
                b,
                b.files@[k],
            ));
        }
        if file_list::has_duplicate(b, k) {
            let j = choose|j: int|
                0 <= j < b.files@.len() && j != k && #[trigger] file_list::duplicate_key(
                    b,
                    b.files@[j],
                ) == file_list::duplicate_key(b, b.files@[k]);
            assert(file_list::duplicate_key(a, a.files@[j]) == file_list::duplicate_key(
                a,
                a.files@[k],
            ));
        }
    }
    assert(file_list::scan_of(a, a.files@[k]) == file_list::scan_of(b, b.files@[k]));
}

impl SlintApp {
    pub fn file_count(&self) -> (r: usize)
        requires
            file_list::all_plausible(self.scan_results@),
        ensures
            r == files_among(
                *self,
                file_list::visible(*self),
                file_list::visible(*self).len() as int,
            ),
    {
        let rows = self.visible_files();
        let ghost all = arrange::indices(rows@);
        let n: usize = rows.len();
        let mut count: usize = 0;
        let mut i: usize = 0;
        while i < n
            invariant
                i <= n,
                n == rows@.len(),
                all == arrange::indices(rows@),
                forall|k: int| 0 <= k < rows@.len() ==> (#[trigger] rows@[k]) < self.files@.len(),
                count <= i,
                count == files_among(*self, all, i as int),
            decreases n - i,
        {
            let row: usize = rows[i];
            assert(all[i as int] == row);
            if !self.files[row].is_dir {
                count += 1;
            }
            i += 1;
        }
        count
    }

    /// The number of files, of those that are supported media, and of the others.
    pub fn folder_file_counts(&self) -> (r: (usize, usize, usize))
        ensures
            r.0 == taken_among(self.files@, 3, self.files@.len() as int),
            r.1 == taken_among(self.files@, 0, self.files@.len() as int),
            r.0 == r.1 + r.2,
    {
        let total: usize = count_taken(&self.files, 3);
        let supported: usize = count_taken(&self.files, 0);
        proof {
            taken_files_are_files(self.files@, 0, self.files@.len() as int);
        }
        (total, supported, total - supported)
    }

    pub fn visible_entry_count(&self) -> (r: usize)
        requires
            file_list::all_plausible(self.scan_results@),
        ensures
            r == file_list::visible(*self).len(),
    {
        let rows = self.visible_files();
        assert(arrange::indices(rows@).len() == rows@.len());
        rows.len()
    }

    pub fn path_for_ui_index(&self, index: i32) -> (r: Option<String>)
        requires
            file_list::all_plausible(self.scan_results@),
        ensures
            match r {
                Some(p) => row_path(*self, index as int) == Some(p@),
                None => row_path(*self, index as int) is None,
            },
    {
        if index < 0 {
            return None;
        }
        if index == 0 {
            return match &self.parent_path {
                Some(p) => Some(p.clone()),
                None => None,
            };
        }
        let rows = self.visible_files();
        assert(arrange::indices(rows@).len() == rows@.len());
        let place: usize = (index - 1) as usize;
        if place >= rows.len() {
            return None;
        }
        assert(arrange::indices(rows@)[place as int] == rows@[place as int]);
        Some(self.files[rows[place]].path.clone())
    }

    pub fn ui_index_for_path(&self, path: &str) -> (r: Option<i32>)
        requires
            file_list::all_plausible(self.scan_results@),
        ensures
            match r {
                Some(i) => row_of_path(*self, path@) == Some(i as int),
                None => row_of_path(*self, path@) is None,
            },
    {
        let rows = self.visible_files();
        match find_place(self, &rows, path) {
            Some(i) => if i < i32::MAX as usize {
                Some((i + 1) as i32)
            } else {
                None
            },
            None => None,
        }
    }

    pub fn ui_index_for_filename_prefix(&self, query: &str, current_index: i32) -> (r: Option<i32>)
        requires
            file_list::all_plausible(self.scan_results@),
        ensures
            match r {
                Some(i) => searched_row(*self, text::lowercased(query@), current_index) == Some(
                    i as int,
                ),
                None => searched_row(*self, text::lowercased(query@), current_index) is None,
            },
    {
        let lower_query = to_lowercase(query);
        let ghost wanted = text::lowercased(query@);
        let length: usize = lower_query.as_str().unicode_len();
        if length == 0 {
            return None;
        }
        let rows = self.visible_files();
        let n: usize = rows.len();
        let ghost all = arrange::indices(rows@);
        if n == 0 {
            return None;
        }
        let place: usize = if current_index >= 1 {
            (current_index - 1) as usize
        } else {
            0
        };
        let start: usize = if length > 1 {
            if place < n - 1 {
                place
            } else {
                n - 1
            }
        } else if current_index > 0 {
            (place + 1) % n
        } else {
            0
        };
        assert(start < n);
        let mut offset: usize = 0;
        while offset < n
            invariant
                offset <= n,
                start < n,
                n == rows@.len(),
                all == arrange::indices(rows@),
                lower_query@ == wanted,
                wanted == text::lowercased(query@),
                search_from(*self, all, wanted, start as int, 0) == searched_row(
                    *self,
                    wanted,
                    current_index,
                ),
                forall|k: int| 0 <= k < rows@.len() ==> (#[trigger] rows@[k]) < self.files@.len(),
                search_from(*self, all, wanted, start as int, 0) == search_from(
                    *self,
                    all,
                    wanted,
                    start as int,
                    offset as int,
                ),
            decreases n - offset,
        {
            let position: usize = if start >= n - offset {
                start - (n - offset)
            } else {
                start + offset
            };
            proof {
                let m = n as int;
                let s = start + offset;
                if start >= n - offset {
                    assert(s % m == s - m) by (nonlinear_arith)
                        requires
                            m <= s < 2 * m,
                    ;
                } else {
                    assert(s % m == s) by (nonlinear_arith)
                        requires
                            0 <= s < m,
                    ;
                }
                assert(position == s % m);
            }
            let row: usize = rows[position];
            assert(all[position as int] == row);
            match &self.files[row].name {
                Some(name) => {
                    let lower = to_lowercase(name.as_str());
                    if text_starts_with(lower.as_str(), lower_query.as_str()) && position
                        < i32::MAX as usize {
                        return Some((position + 1) as i32);
                    }
                },
                None => {},
            }
            offset += 1;
        }
        None
    }

    /// Selects a row alone, adds or takes it away, or selects all from the
    /// anchor to it. A number that no entry can have clears the selection.
    pub fn select_ui_index(&mut self, index: i32, ctrl: bool, shift: bool)
        requires
            rising(old(self).selected_indices@),
        ensures
            selection_changed(*old(self), *final(self)),
            rising(final(self).selected_indices@),
            if index < 0 || index > old(self).files@.len() {
                final(self).selected_indices@.len() == 0 && final(self).selection_anchor is None
            } else if shift {
                let anchor = match old(self).selection_anchor {
                    Some(a) => a,
                    None => index,
                };
                final(self).selected_indices@ == (if anchor <= index {
                    span(anchor as int, index as int)
                } else {
                    span(index as int, anchor as int)
                }) && final(self).selection_anchor == old(self).selection_anchor
            } else if ctrl {
                final(self).selected_indices@.to_set() == toggled(
                    old(self).selected_indices@,
                    index,
                ) && final(self).selection_anchor == Some(index)
            } else {
                final(self).selected_indices@ == seq![index] && final(self).selection_anchor
                    == Some(index)
            },
            0 <= index <= old(self).files@.len() ==> selection_laws::selected_by_a_click(
                old(self).selected_indices@,
                old(self).selection_anchor,
                final(self).selected_indices@,
                index,
                ctrl,
                shift,
            ),
    {
        if index < 0 || index as usize > self.files.len() {
            self.selected_indices = Vec::new();
            self.selection_anchor = None;
            return;
        }
        if shift {
            let anchor: i32 = match self.selection_anchor {
                Some(a) => a,
                None => index,
            };
            self.selected_indices = if anchor <= index {
                collect_span(anchor, index)
            } else {
                collect_span(index, anchor)
            };
            proof {
                let rows = self.selected_indices@;
                assert forall|x: i32| #[trigger] rows.contains(x) <==> anchor <= x <= index || index
                    <= x <= anchor by {
                    if anchor <= index {
                        selection_laws::spans_hold_their_ends(anchor, index, x);
                    } else {
                        selection_laws::spans_hold_their_ends(index, anchor, x);
                    }
                }
            }
        } else if ctrl {
            toggle(&mut self.selected_indices, index);
            self.selection_anchor = Some(index);
            proof {
                let rows = self.selected_indices@;
                let before = old(self).selected_indices@;
                assert forall|x: i32| #[trigger] rows.contains(x) <==> (x == index)
                    != before.contains(x) by {
                    assert(rows.to_set().contains(x) <==> rows.contains(x));
                    assert(before.to_set().contains(x) <==> before.contains(x));
                }
            }
        } else {
            let mut one: Vec<i32> = Vec::new();
            one.push(index);
            assert(one@ =~= seq![index]);
            assert(forall|x: i32| #[trigger] one@.contains(x) <==> x == index) by {
                assert(one@[0] == index);
            }
            self.selected_indices = one;
            self.selection_anchor = Some(index);
        }
    }

    /// The row to which the selection returns when the selected files were deleted:
    /// the first of theirs.
    pub fn row_before_deletion(&self) -> (r: i32)
        ensures
            if exists|i: int|
                0 <= i < self.selected_indices@.len() && #[trigger] self.selected_indices@[i] > 0 {
                &&& r > 0
                &&& self.selected_indices@.contains(r)
                &&& forall|i: int|
                    0 <= i < self.selected_indices@.len() && #[trigger] self.selected_indices@[i]
                        > 0 ==> r <= self.selected_indices@[i]
            } else {
                r == 1
            },
    {
        let n: usize = self.selected_indices.len();
        let mut lowest: Option<i32> = None;
        let mut i: usize = 0;
        while i < n
            invariant
                i <= n,
                n == self.selected_indices@.len(),
                match lowest {
                    Some(r) => r > 0 && self.selected_indices@.contains(r) && forall|k: int|
                        0 <= k < i && #[trigger] self.selected_indices@[k] > 0 ==> r
                            <= self.selected_indices@[k],
                    None => forall|k: int| 0 <= k < i ==> #[trigger] self.selected_indices@[k] <= 0,
                },
            decreases n - i,
        {
            let row: i32 = self.selected_indices[i];
            if row > 0 {
                match lowest {
                    Some(r) => {
                        if row < r {
                            lowest = Some(row);
                        }
                    },
                    None => {
                        lowest = Some(row);
                    },
                }
            }
            i += 1;
        }
        match lowest {
            Some(r) => r,
            None => 1,
        }
    }

    pub fn selected_indices(&self) -> (r: &[i32])
        ensures
            r@ == self.selected_indices@,
    {
        self.selected_indices.as_slice()
    }

    pub fn select_all_visible_entries(&mut self)
        requires
            file_list::all_plausible(old(self).scan_results@),
        ensures
            selection_changed(*old(self), *final(self)),
            final(self).selected_indices@ == span(
                1,
                if file_list::visible(*old(self)).len() <= i32::MAX {
                    file_list::visible(*old(self)).len() as int
                } else {
                    i32::MAX as int
                },
            ),
            final(self).selection_anchor == first_selected(final(self).selected_indices@),
            rising(final(self).selected_indices@),
    {
        let rows = self.visible_files();
        assert(arrange::indices(rows@).len() == rows@.len());
        let n: usize = rows.len();
        let last: i32 = if n <= i32::MAX as usize {
            n as i32
        } else {
            i32::MAX
        };
        self.selected_indices = collect_span(1, last);
        self.selection_anchor = first_of(&self.selected_indices);
    }

    /// Selects the JPEG files in the list that have no EXIF data, given which
    /// of the folder's entries have any.
    pub fn select_files_without_exif(&mut self, has_exif: &[bool])
        requires
            file_list::all_plausible(old(self).scan_results@),
            has_exif@.len() == old(self).files@.len(),
        ensures
            selection_changed(*old(self), *final(self)),
            rising(final(self).selected_indices@),
            forall|x: i32|
                #[trigger] final(self).selected_indices@.contains(x) == (1 <= x
                    <= file_list::visible(*old(self)).len() && lacks_exif(
                    *old(self),
                    file_list::visible(*old(self))[x - 1],
                    has_exif@,
                )),
            final(self).selection_anchor == first_selected(final(self).selected_indices@),
    {
        let rows = self.visible_files();
        let ghost all = arrange::indices(rows@);
        let n: usize = rows.len();
        let mut out: Vec<i32> = Vec::new();
        let mut i: usize = 0;
        while i < n && i < i32::MAX as usize
            invariant
                i <= n,
                i <= i32::MAX as usize,
                n == rows@.len(),
                all == arrange::indices(rows@),
                *self == *old(self),
                has_exif@.len() == self.files@.len(),
                forall|k: int| 0 <= k < rows@.len() ==> (#[trigger] rows@[k]) < self.files@.len(),
                rising(out@),
                forall|k: int| 0 <= k < out@.len() ==> #[trigger] out@[k] <= i,
                forall|x: i32|
                    #[trigger] out@.contains(x) == (1 <= x <= i && lacks_exif(
                        *self,
                        all[x - 1],
                        has_exif@,
                    )),
            decreases n - i,
        {
            let row: usize = rows[i];
            let ghost before = out@;
            assert(all[i as int] == row);
            let next: i32 = (i + 1) as i32;
            assert(all[next - 1] == row);
            let missing = !self.files[row].is_dir && is_jpeg_path(self.files[row].file_name())
                && !has_exif[row];
            assert(missing == lacks_exif(*self, row as int, has_exif@));
            if missing {
                out.push(next);
                proof {
                    assert forall|x: i32| #[trigger]
                        out@.contains(x) == (before.contains(x) || x == next) by {
                        if before.contains(x) {
                            let k = choose|k: int| 0 <= k < before.len() && before[k] == x;
                            assert(out@[k] == x);
                        }
                        if x == next {
                            assert(out@[before.len() as int] == next);
                        }
                        if out@.contains(x) {
                            let k = choose|k: int| 0 <= k < out@.len() && out@[k] == x;
                            if k < before.len() {
                                assert(before[k] == x);
                            }
                        }
                    }
                }
            }
            proof {
                assert forall|x: i32| #[trigger]
                    out@.contains(x) == (1 <= x <= i + 1 && lacks_exif(
                        *self,
                        all[x - 1],
                        has_exif@,
                    )) by {
                    assert(out@.contains(x) == (before.contains(x) || (missing && x == next)));
                    assert(before.contains(x) == (1 <= x <= i && lacks_exif(
                        *self,
                        all[x - 1],
                        has_exif@,
                    )));
                    if x == next {
                        assert(all[x - 1] == row);
                    }
                }
            }
            i += 1;
        }
        self.selected_indices = out;
        self.selection_anchor = first_of(&self.selected_indices);
    }

    /// The paths of the selected rows but for that of the parent folder.
    pub fn selected_paths(&self) -> (r: Vec<String>)
        requires
            file_list::all_plausible(self.scan_results@),
        ensures
            text_views(r@) == selected_paths_of(*self, self.selected_indices@.len() as int),
    {
        let mut out: Vec<String> = Vec::new();
        let n: usize = self.selected_indices.len();
        let mut i: usize = 0;
        assert(text_views(out@) =~= Seq::<Seq<char>>::empty());
        while i < n
            invariant
                i <= n,
                n == self.selected_indices@.len(),
                file_list::all_plausible(self.scan_results@),
                text_views(out@) == selected_paths_of(*self, i as int),
            decreases n - i,
        {
            let index: i32 = self.selected_indices[i];
            if index > 0 {
                match self.path_for_ui_index(index) {
                    Some(p) => {
                        let ghost before = out@;
                        out.push(p);
                        assert(text_views(out@) =~= text_views(before).push(p@));
                    },
                    None => {},
                }
            }
            i += 1;
        }
        out
    }

    fn restore_selected_paths(&mut self, paths: &Vec<String>)
        requires
            file_list::all_plausible(old(self).scan_results@),
        ensures
            selection_changed(*old(self), *final(self)),
            rising(final(self).selected_indices@),
            final(self).selected_indices@.to_set() == rows_of_paths(
                *old(self),
                text_views(paths@),
            ),
            final(self).selection_anchor == first_selected(final(self).selected_indices@),
    {
        let mut out: Vec<i32> = Vec::new();
        let n: usize = paths.len();
        let mut i: usize = 0;
        let ghost views = text_views(paths@);
        proof {
            assert(views.take(0) =~= Seq::<Seq<char>>::empty());
            assert(out@.to_set() =~= rows_of_paths(*self, views.take(0)));
        }
        while i < n
            invariant
                i <= n,
                n == paths@.len(),
                views == text_views(paths@),
                *self == *old(self),
                file_list::all_plausible(self.scan_results@),
                rising(out@),
                out@.to_set() == rows_of_paths(*self, views.take(i as int)),
            decreases n - i,
        {
            let ghost before = out@;
            let found = self.ui_index_for_path(paths[i].as_str());
            match found {
                Some(x) => {
                    match find_in_rising(&out, x) {
                        Ok(_) => {},
                        Err(_) => {
                            toggle(&mut out, x);
                        },
                    }
                },
                None => {},
            }
            i += 1;
            proof {
                let earlier = views.take(i - 1);
                let now = views.take(i as int);
                assert(now =~= earlier.push(views[i - 1]));
                assert(views[i - 1] == paths@[i - 1]@);
                assert forall|x: i32| out@.to_set().contains(x) == rows_of_paths(
                    *self,
                    now,
                ).contains(x) by {
                    if rows_of_paths(*self, earlier).contains(x) {
                        let j = choose|j: int|
                            0 <= j < earlier.len() && row_of_path(*self, #[trigger] earlier[j])
                                == Some(x as int);
                        assert(now[j] == earlier[j]);
                    }
                    if rows_of_paths(*self, now).contains(x) {
                        let j = choose|j: int|
                            0 <= j < now.len() && row_of_path(*self, #[trigger] now[j]) == Some(
                                x as int,
                            );
                        if j < earlier.len() {
                            assert(earlier[j] == now[j]);
                        }
                    }
                    if found == Some(x) {
                        assert(now[i - 1] == views[i - 1]);
                        assert(row_of_path(*self, now[i - 1]) == Some(x as int));
                    }
                    assert(out@.to_set().contains(x) == (before.to_set().contains(x) || found
                        == Some(x)));
                }
                assert(out@.to_set() =~= rows_of_paths(*self, now));
            }
        }
        assert(views.take(n as int) =~= views);
        self.selected_indices = out;
        self.selection_anchor = first_of(&self.selected_indices);
    }

    pub fn restart_scan(&mut self)
        ensures
            *final(self) == (SlintApp {
                scan_epoch: final(self).scan_epoch,
                ..*old(self)
            }),
            final(self).scan_epoch == next_epoch(old(self).scan_epoch),
    {
        self.scan_epoch = epoch_after(self.scan_epoch);
    }

    /// Lets the list be sorted by what scans give, or not yet. The selected
    /// files stay selected.
    pub fn set_dynamic_sort_ready(&mut self, ready: bool)
        requires
            file_list::all_plausible(old(self).scan_results@),
        ensures
            old(self).dynamic_sort_ready == ready ==> *final(self) == *old(self),
            old(self).dynamic_sort_ready != ready ==> reselected(
                *old(self),
                (SlintApp { dynamic_sort_ready: ready, ..*old(self) }),
                *final(self),
            ),
    {
        if self.dynamic_sort_ready == ready {
            return;
        }
        let paths = self.selected_paths();
        self.dynamic_sort_ready = ready;
        self.restore_selected_paths(&paths);
    }

    pub fn complete_dynamic_sort(&mut self)
        requires
            file_list::all_plausible(old(self).scan_results@),
        ensures
            old(self).dynamic_sort_ready ==> *final(self) == *old(self),
            !old(self).dynamic_sort_ready ==> reselected(
                *old(self),
                (SlintApp { dynamic_sort_ready: true, ..*old(self) }),
                *final(self),
            ),
    {
        self.set_dynamic_sort_ready(true);
    }

    /// Sorts by a column, rising, then falling, then not at all. The selected
    /// files stay selected.
    pub fn cycle_sort(&mut self, column: i32)
        requires
            file_list::all_plausible(old(self).scan_results@),
        ensures
            reselected(*old(self), sorted_by(*old(self), column), *final(self)),
            rising(final(self).selected_indices@),
            distinct_paths(old(self).files@, old(self).windows) && file_list::visible(*old(self)).len() <= i32::MAX
                ==> selected_path_set(*final(self)) == selected_path_set(*old(self)),
    {
        let paths = self.selected_paths();
        if self.sort_column != column || self.sort_direction == 0 {
            self.sort_column = column;
            self.sort_direction = 1;
        } else if self.sort_direction == 1 {
            self.sort_direction = 2;
        } else {
            self.sort_column = 0;
            self.sort_direction = 0;
        }
        self.restore_selected_paths(&paths);
        proof {
            if distinct_paths(old(self).files@, old(self).windows) && file_list::visible(*old(self)).len()
                <= i32::MAX {
                sorting_keeps_the_selection(*old(self), column, *self);
            }
        }
    }

    /// Shows dates in UTC, or else in Korean time. The selected files stay selected.
    pub fn set_time_display_mode(&mut self, mode: i32)
        requires
            file_list::all_plausible(old(self).scan_results@),
        ensures
            ({
                let m = if mode == 1 {
                    1i32
                } else {
                    TIME_DISPLAY_KST
                };
                &&& old(self).time_display_mode == m ==> *final(self) == *old(self)
                &&& old(self).time_display_mode != m ==> reselected(
                    *old(self),
                    (SlintApp { time_display_mode: m, ..*old(self) }),
                    *final(self),
                )
            }),
    {
        let m: i32 = if mode == 1 {
            1
        } else {
            TIME_DISPLAY_KST
        };
        if self.time_display_mode == m {
            return;
        }
        let paths = self.selected_paths();
        self.time_display_mode = m;
        self.restore_selected_paths(&paths);
    }
}

/// The number of the scan that follows a scan.
pub open spec fn next_epoch(epoch: u64) -> u64 {
    if epoch == u64::MAX {
        0
    } else {
        (epoch + 1) as u64
    }
}

pub(crate) fn epoch_after(epoch: u64) -> (r: u64)
    ensures
        r == next_epoch(epoch),
{
    if epoch == u64::MAX {
        0
    } else {
        epoch + 1
    }
}

/// The column and the direction that a click on a column's head leads to.
pub open spec fn next_sort(column: i32, direction: i32, clicked: i32) -> (i32, i32) {
    if column != clicked || direction == 0 {
        (clicked, 1)
    } else if direction == 1 {
        (column, 2)
    } else {
        (0, 0)
    }
}

/// After a change of the list the rows are selected that show the files that
/// were selected before it.
pub open spec fn reselected(before: SlintApp, changed: SlintApp, after: SlintApp) -> bool {
    &&& selection_changed(changed, after)
    &&& rising(after.selected_indices@)
    &&& after.selected_indices@.to_set() == rows_of_paths(
        changed,
        selected_paths_of(before, before.selected_indices@.len() as int),
    )
    &&& after.selection_anchor == first_selected(after.selected_indices@)
}

/// Three clicks on the head of a column leave the list as it was: unsorted.
pub proof fn three_clicks_leave_the_list_unsorted(column: i32, clicked: i32)
    ensures
        ({
            let (c1, d1) = next_sort(column, 0, clicked);
            let (c2, d2) = next_sort(c1, d1, clicked);
            let (c3, d3) = next_sort(c2, d2, clicked);
            &&& (c1, d1) == (clicked, 1i32)
            &&& (c2, d2) == (clicked, 2i32)
            &&& (c3, d3) == (0i32, 0i32)
        }),
{
}

/// No two entries of the folder have the same path.
pub open spec fn distinct_paths(files: Seq<FileSystemEntry>, windows: bool) -> bool {
    forall|i: int, j: int|
        0 <= i < j < files.len() ==> !paths::same(
            (#[trigger] files[i]).path@,
            (#[trigger] files[j]).path@,
            windows,
        )
}

/// The paths of the files whose rows are selected.
pub open spec fn selected_path_set(app: SlintApp) -> Set<Seq<char>> {
    Set::new(|p: Seq<char>| selects_path(app, p))
}

pub open spec fn selects_path(app: SlintApp, path: Seq<char>) -> bool {
    exists|i: int|
        0 <= i < app.selected_indices@.len() && #[trigger] app.selected_indices@[i] > 0 && (row_path(
            app,
            app.selected_indices@[i] as int,
        ) matches Some(p) && paths::same(p, path, app.windows))
}

/// The browser after a click on a column's head, with the selection still to
/// be made anew.
pub open spec fn sorted_by(app: SlintApp, column: i32) -> SlintApp {
    SlintApp {
        sort_column: next_sort(app.sort_column, app.sort_direction, column).0,
        sort_direction: next_sort(app.sort_column, app.sort_direction, column).1,
        ..app
    }
}

/// A click on a column's head changes the order alone: the files that are
/// selected afterwards are those that were selected, no more and no fewer, and
/// their rows stand in rising order. A row has a number only up to the largest
/// `i32`, so the list has to have no more rows than that.
pub proof fn sorting_keeps_the_selection(before: SlintApp, column: i32, after: SlintApp)
    requires
        reselected(before, sorted_by(before, column), after),
        distinct_paths(before.files@, before.windows),
        file_list::visible(before).len() <= i32::MAX,
    ensures
        selected_path_set(after) == selected_path_set(before),
        rising(after.selected_indices@),
        (after.sort_column, after.sort_direction) == next_sort(
            before.sort_column,
            before.sort_direction,
            column,
        ),
{
    let changed = sorted_by(before, column);
    file_list::list_exists(before);
    file_list::list_exists(changed);
    lemma_sorted_shown(before, changed);
    selection_leaves_the_list(changed, after);
    lemma_same_length(before, changed);
    assert forall|p: Seq<char>| selects_path(before, p) implies selects_path(after, p) by {
        let i = choose|i: int|
            0 <= i < before.selected_indices@.len() && #[trigger] before.selected_indices@[i] > 0
                && (row_path(before, before.selected_indices@[i] as int) matches Some(q)
                && paths::same(q, p, before.windows));
        lemma_still_selected(before, changed, after, before.selected_indices@[i] - 1);
    }
    assert forall|p: Seq<char>| selects_path(after, p) implies selects_path(before, p) by {
        let i = choose|i: int|
            0 <= i < after.selected_indices@.len() && #[trigger] after.selected_indices@[i] > 0
                && (row_path(after, after.selected_indices@[i] as int) matches Some(q)
                && paths::same(q, p, after.windows));
        lemma_was_selected(before, changed, after, i);
    }
    assert(selected_path_set(after) =~= selected_path_set(before));
}

/// The order does not bear on which files are shown.
proof fn lemma_sorted_shown(a: SlintApp, b: SlintApp)
    requires
        b == (SlintApp { sort_column: b.sort_column, sort_direction: b.sort_direction, ..a }),
    ensures
        forall|k: int| file_list::is_shown(a, k) == file_list::is_shown(b, k),
{
    assert forall|k: int| file_list::is_shown(a, k) == file_list::is_shown(b, k) by {
        assert forall|e: FileSystemEntry| #[trigger]
            file_list::duplicate_key(a, e) == file_list::duplicate_key(b, e) by {
            assert(file_list::scan_of(a, e) == file_list::scan_of(b, e));
        }
        if file_list::has_duplicate(a, k) {
            let j = choose|j: int|
                0 <= j < a.files@.len() && j != k && #[trigger] file_list::duplicate_key(
                    a,
                    a.files@[j],
                ) == file_list::duplicate_key(a, a.files@[k]);
            assert(file_list::duplicate_key(b, b.files@[j]) == file_list::duplicate_key(
                b,
                b.files@[k],
            ));
        }
        if file_list::has_duplicate(b, k) {
            let j = choose|j: int|
                0 <= j < b.files@.len() && j != k && #[trigger] file_list::duplicate_key(
                    b,
                    b.files@[j],
                ) == file_list::duplicate_key(b, b.files@[k]);
            assert(file_list::duplicate_key(a, a.files@[j]) == file_list::duplicate_key(
                a,
                a.files@[k],
            ));
        }
        assert(file_list::scan_of(a, a.files@[k]) == file_list::scan_of(b, b.files@[k]));
    }
}

/// Two lists of the same files are of the same length.
proof fn lemma_same_length(a: SlintApp, b: SlintApp)
    requires
        file_list::is_list(a, file_list::visible(a)),
        file_list::is_list(b, file_list::visible(b)),
        forall|k: int| file_list::is_shown(a, k) == file_list::is_shown(b, k),
    ensures
        file_list::visible(a).len() == file_list::visible(b).len(),
{
    let x = file_list::visible(a);
    let y = file_list::visible(b);
    lemma_rows_differ(a);
    lemma_rows_differ(b);
    let shown_a = |k: int| file_list::is_shown(a, k);
    let shown_b = |k: int| file_list::is_shown(b, k);
    assert forall|k: int| x.to_set().contains(k) <==> y.to_set().contains(k) by {
        if x.contains(k) {
            let i = choose|i: int| 0 <= i < x.len() && x[i] == k;
            assert(shown_a(x[i]));
            assert(shown_b(k));
        }
        if y.contains(k) {
            let i = choose|i: int| 0 <= i < y.len() && y[i] == k;
            assert(shown_b(y[i]));
            assert(shown_a(k));
        }
    }
    assert(x.to_set() =~= y.to_set());
    x.unique_seq_to_set();
    y.unique_seq_to_set();
}

proof fn lemma_rows_differ(app: SlintApp)
    requires
        file_list::is_list(app, file_list::visible(app)),
    ensures
        file_list::visible(app).no_duplicates(),
{
    let rows = file_list::visible(app);
    file_list::lemma_list_strict(app);
    let before = |a: int, b: int| file_list::stands_before(app, a, b);
    assert forall|i: int, j: int| 0 <= i < j < rows.len() implies rows[i] != rows[j] by {
        assert(before(rows[i], rows[j]));
        assert(!before(rows[j], rows[j]));
    }
}

/// A file that was selected and is shown is selected again.
proof fn lemma_still_selected(before: SlintApp, changed: SlintApp, after: SlintApp, row: int)
    requires
        reselected(before, changed, after),
        file_list::is_list(before, file_list::visible(before)),
        file_list::is_list(changed, file_list::visible(changed)),
        file_list::visible(after) == file_list::visible(changed),
        changed.files == before.files,
        changed.windows == before.windows,
        distinct_paths(before.files@, before.windows),
        forall|k: int| file_list::is_shown(before, k) == file_list::is_shown(changed, k),
        0 <= row < file_list::visible(before).len(),
        file_list::visible(changed).len() <= i32::MAX,
        row < i32::MAX,
        before.selected_indices@.contains((row + 1) as i32),
    ensures
        selects_path(after, before.files@[file_list::visible(before)[row]].path@),
{
    let rows = file_list::visible(before);
    let new_rows = file_list::visible(changed);
    let k = rows[row];
    let shown_a = |k: int| file_list::is_shown(before, k);
    let shown_b = |k: int| file_list::is_shown(changed, k);
    assert(shown_a(rows[row]));
    assert(shown_b(k));
    assert(new_rows.contains(k));
    let x = choose|x: int| 0 <= x < new_rows.len() && new_rows[x] == k;
    let path = before.files@[k].path@;
    lemma_rows_differ(changed);
    assert forall|y: int| 0 <= y < x implies !paths::same(
        changed.files@[new_rows[y]].path@,
        path,
        changed.windows,
    ) by {
        assert(shown_b(new_rows[y]));
        assert(new_rows[y] != new_rows[x]);
        if new_rows[y] < k {
            assert(!paths::same(
                before.files@[new_rows[y]].path@,
                before.files@[k].path@,
                before.windows,
            ));
        } else {
            assert(!paths::same(
                before.files@[k].path@,
                before.files@[new_rows[y]].path@,
                before.windows,
            ));
        }
    }
    lemma_place_found(changed, new_rows, path, 0, x);
    let paths = selected_paths_of(before, before.selected_indices@.len() as int);
    let n = choose|n: int|
        0 <= n < before.selected_indices@.len() && before.selected_indices@[n] == (row + 1) as i32;
    lemma_path_selected(before, n, before.selected_indices@.len() as int);
    let j = choose|j: int| 0 <= j < paths.len() && #[trigger] paths[j] == path;
    assert(row_of_path(changed, paths[j]) == Some(x + 1));
    assert(rows_of_paths(changed, paths).contains((x + 1) as i32));
    assert(after.selected_indices@.to_set().contains((x + 1) as i32));
    let m = choose|m: int|
        0 <= m < after.selected_indices@.len() && after.selected_indices@[m] == (x + 1) as i32;
    assert(after.selected_indices@[m] > 0);
    assert(row_path(after, after.selected_indices@[m] as int) == Some(path));
}

/// A file that is selected afterwards was selected before.
proof fn lemma_was_selected(before: SlintApp, changed: SlintApp, after: SlintApp, i: int)
    requires
        reselected(before, changed, after),
        changed.windows == before.windows,
        file_list::visible(after) == file_list::visible(changed),
        0 <= i < after.selected_indices@.len(),
        after.selected_indices@[i] > 0,
        row_path(after, after.selected_indices@[i] as int) is Some,
    ensures
        selects_path(before, row_path(after, after.selected_indices@[i] as int)->0),
{
    let v = after.selected_indices@[i];
    let paths = selected_paths_of(before, before.selected_indices@.len() as int);
    assert(after.selected_indices@.to_set().contains(v));
    let j = choose|j: int|
        0 <= j < paths.len() && row_of_path(changed, #[trigger] paths[j]) == Some(v as int);
    lemma_place_shows(changed, file_list::visible(changed), paths[j], 0);
    lemma_selected_path(before, before.selected_indices@.len() as int, j);
}

proof fn lemma_place_shows(app: SlintApp, rows: Seq<int>, path: Seq<char>, i: int)
    requires
        0 <= i,
        place_of(app, rows, path, i) is Some,
    ensures
        0 <= place_of(app, rows, path, i)->0 < rows.len(),
        paths::same(app.files@[rows[place_of(app, rows, path, i)->0]].path@, path, app.windows),
    decreases rows.len() - i,
{
    if i < rows.len() && !paths::same(app.files@[rows[i]].path@, path, app.windows) {
        lemma_place_shows(app, rows, path, i + 1);
    }
}

proof fn lemma_selected_path(app: SlintApp, n: int, j: int)
    requires
        n <= app.selected_indices@.len(),
        0 <= j < selected_paths_of(app, n).len(),
    ensures
        selects_path(app, selected_paths_of(app, n)[j]),
    decreases n,
{
    if n > 0 {
        let before = selected_paths_of(app, n - 1);
        if j < before.len() {
            lemma_selected_path(app, n - 1, j);
        } else {
            assert(app.selected_indices@[n - 1] > 0);
        }
    }
}

proof fn lemma_place_found(app: SlintApp, rows: Seq<int>, path: Seq<char>, i: int, x: int)
    requires
        0 <= i <= x < rows.len(),
        paths::same(app.files@[rows[x]].path@, path, app.windows),
        forall|k: int| i <= k < x ==> !paths::same(app.files@[rows[k]].path@, path, app.windows),
    ensures
        place_of(app, rows, path, i) == Some(x),
    decreases x - i,
{
    if i < x {
        lemma_place_found(app, rows, path, i + 1, x);
    }
}

proof fn lemma_path_selected(app: SlintApp, k: int, n: int)
    requires
        0 <= k < n <= app.selected_indices@.len(),
        app.selected_indices@[k] > 0,
        row_path(app, app.selected_indices@[k] as int) is Some,
    ensures
        exists|j: int|
            0 <= j < selected_paths_of(app, n).len() && #[trigger] selected_paths_of(app, n)[j]
                == row_path(app, app.selected_indices@[k] as int)->0,
    decreases n,
{
    let before = selected_paths_of(app, n - 1);
    let all = selected_paths_of(app, n);
    if k == n - 1 {
        assert(all[before.len() as int] == row_path(app, app.selected_indices@[k] as int)->0);
    } else {
        lemma_path_selected(app, k, n - 1);
        let j = choose|j: int|
            0 <= j < before.len() && #[trigger] before[j] == row_path(
                app,
                app.selected_indices@[k] as int,
            )->0;
        assert(all[j] == before[j]);
    }
}

} // verus!
