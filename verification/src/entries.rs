//! The entries of a folder.
use crate::arrange;
use crate::order::{self, compare_texts, Order};
use crate::text::{self, to_lowercase};
use vstd::prelude::*;

verus! {

/// A time of the file system: the nanoseconds from the start of 1970, and the
/// text that is shown for it.
#[derive(Debug)]
pub struct FileTime {
    pub nanos: i128,
    pub shown: String,
}

impl Clone for FileTime {
    fn clone(&self) -> (r: Self)
        ensures
            r == *self,
    {
        FileTime { nanos: self.nanos, shown: self.shown.clone() }
    }
}

pub fn clone_time(t: &Option<FileTime>) -> (r: Option<FileTime>)
    ensures
        r == *t,
{
    match t {
        Some(t) => Some(t.clone()),
        None => None,
    }
}

/// The nanoseconds of a time, if it is known.
pub open spec fn instant(t: Option<FileTime>) -> Option<i128> {
    match t {
        Some(t) => Some(t.nanos),
        None => None,
    }
}

pub fn same_time(a: &Option<FileTime>, b: &Option<FileTime>) -> (r: bool)
    ensures
        r == (instant(*a) == instant(*b)),
{
    match (a, b) {
        (Some(a), Some(b)) => a.nanos == b.nanos,
        (None, None) => true,
        _ => false,
    }
}

/// What is shown for a time; a dash where it is not known.
pub open spec fn shown_time(t: Option<FileTime>) -> Seq<char> {
    match t {
        Some(t) => t.shown@,
        None => "-"@,
    }
}

pub fn time_text(t: &Option<FileTime>) -> (r: String)
    ensures
        r@ == shown_time(*t),
{
    match t {
        Some(t) => t.shown.clone(),
        None => "-".to_owned(),
    }
}

/// A file or a folder in a folder: its path, the last part of its path, and
/// what the file system knows of it.
#[derive(Debug)]
pub struct FileSystemEntry {
    pub path: String,
    pub name: Option<String>,
    pub size: u64,
    pub modified: Option<FileTime>,
    pub created: Option<FileTime>,
    pub is_dir: bool,
}

impl Clone for FileSystemEntry {
    fn clone(&self) -> (r: Self)
        ensures
            r == *self,
    {
        let name = match &self.name {
            Some(n) => Some(n.clone()),
            None => None,
        };
        FileSystemEntry {
            path: self.path.clone(),
            name,
            size: self.size,
            modified: clone_time(&self.modified),
            created: clone_time(&self.created),
            is_dir: self.is_dir,
        }
    }
}

impl FileSystemEntry {
    /// The name that is shown.
    pub open spec fn label(self) -> Seq<char> {
        match self.name {
            Some(n) => n@,
            None => "Unknown"@,
        }
    }

    /// The name by which entries are ordered.
    pub open spec fn sort_name(self) -> Seq<char> {
        match self.name {
            Some(n) => n@,
            None => self.path@,
        }
    }

    /// The name that tells the kind of file; empty where there is none.
    pub open spec fn kind_name(self) -> Seq<char> {
        match self.name {
            Some(n) => n@,
            None => ""@,
        }
    }

    pub fn display_name(&self) -> (r: String)
        ensures
            r@ == self.label(),
    {
        match &self.name {
            Some(n) => n.clone(),
            None => "Unknown".to_owned(),
        }
    }

    pub fn file_name_for_sort(&self) -> (r: &str)
        ensures
            r@ == self.sort_name(),
    {
        match &self.name {
            Some(n) => n.as_str(),
            None => self.path.as_str(),
        }
    }

    pub fn file_name(&self) -> (r: &str)
        ensures
            r@ == self.kind_name(),
    {
        match &self.name {
            Some(n) => n.as_str(),
            None => "",
        }
    }
}

// The order of a folder's entries.

/// Folders stand before files.
pub open spec fn folder_order(a: bool, b: bool) -> Order {
    if a == b {
        Order::Equal
    } else if a {
        Order::Less
    } else {
        Order::Greater
    }
}

/// Folders first, then by name without regard to the letters' case.
pub open spec fn entry_order(a: FileSystemEntry, b: FileSystemEntry) -> Order {
    order::chained(
        folder_order(a.is_dir, b.is_dir),
        order::chained(
            order::text_order(text::lowercased(a.sort_name()), text::lowercased(b.sort_name())),
            order::text_order(a.sort_name(), b.sort_name()),
        ),
    )
}

fn compare_entries(a: &FileSystemEntry, b: &FileSystemEntry) -> (r: Order)
    ensures
        r == entry_order(*a, *b),
{
    if a.is_dir != b.is_dir {
        return if a.is_dir {
            Order::Less
        } else {
            Order::Greater
        };
    }
    let x = a.file_name_for_sort();
    let y = b.file_name_for_sort();
    let lower_x = to_lowercase(x);
    let lower_y = to_lowercase(y);
    match compare_texts(lower_x.as_str(), lower_y.as_str()) {
        Order::Equal => compare_texts(x, y),
        o => o,
    }
}

/// One entry stands before another; entries that are alike stay as they are.
pub open spec fn entry_before(entries: Seq<FileSystemEntry>, a: int, b: int) -> bool {
    match entry_order(entries[a], entries[b]) {
        Order::Less => true,
        Order::Equal => a < b,
        Order::Greater => false,
    }
}

/// The entries of a folder in their order, as numbers of the entries given.
pub open spec fn is_folder_order(rows: Seq<int>, entries: Seq<FileSystemEntry>, n: int) -> bool {
    arrange::arranged(
        rows,
        |k: int| 0 <= k < n,
        |a: int, b: int| entry_before(entries, a, b),
    )
}

proof fn lemma_entry_strict(entries: Seq<FileSystemEntry>)
    ensures
        arrange::strict(|a: int, b: int| entry_before(entries, a, b)),
{
    let before = |a: int, b: int| entry_before(entries, a, b);
    assert forall|a: int, b: int| #![trigger before(a, b)] a != b implies before(a, b) != before(
        b,
        a,
    ) by {
        lemma_entry_order(entries[a], entries[b], entries[a]);
    }
    assert forall|a: int| #![trigger before(a, a)] !before(a, a) by {
        lemma_entry_order(entries[a], entries[a], entries[a]);
    }
    assert forall|a: int, b: int, c: int|
        #![trigger before(a, b), before(b, c)]
        before(a, b) && before(b, c) implies before(a, c) by {
        lemma_entry_order(entries[a], entries[b], entries[c]);
    }
}

proof fn lemma_entry_order(a: FileSystemEntry, b: FileSystemEntry, c: FileSystemEntry)
    ensures
        entry_order(b, a) == order::reversed(entry_order(a, b)),
        entry_order(a, a) == Order::Equal,
        entry_order(a, b) == Order::Less && entry_order(b, c) != Order::Greater ==> entry_order(
            a,
            c,
        ) == Order::Less,
        entry_order(a, b) != Order::Greater && entry_order(b, c) == Order::Less ==> entry_order(
            a,
            c,
        ) == Order::Less,
        entry_order(a, b) == Order::Equal && entry_order(b, c) == Order::Equal ==> entry_order(a, c)
            == Order::Equal,
{
    let x = text::lowercased(a.sort_name());
    let y = text::lowercased(b.sort_name());
    let z = text::lowercased(c.sort_name());
    order::texts_are_ordered(x, y, z);
    order::texts_are_ordered(x, x, x);
    order::texts_are_ordered(a.sort_name(), b.sort_name(), c.sort_name());
    order::texts_are_ordered(a.sort_name(), a.sort_name(), a.sort_name());
    order::texts_are_ordered(y, z, x);
    order::texts_are_ordered(b.sort_name(), c.sort_name(), a.sort_name());
}

fn find_slot(entries: &Vec<FileSystemEntry>, rows: &Vec<usize>, x: usize) -> (r: usize)
    requires
        x < entries@.len(),
        is_folder_order(arrange::indices(rows@), entries@, x as int),
    ensures
        r <= rows@.len(),
        forall|i: int|
            0 <= i < r ==> entry_before(
                entries@,
                #[trigger] arrange::indices(rows@)[i],
                x as int,
            ),
        forall|i: int|
            r <= i < rows@.len() ==> entry_before(
                entries@,
                x as int,
                #[trigger] arrange::indices(rows@)[i],
            ),
{
    let ghost all = arrange::indices(rows@);
    let ghost before = |a: int, b: int| entry_before(entries@, a, b);
    proof {
        lemma_entry_strict(entries@);
    }
    let mut low: usize = 0;
    let mut high: usize = rows.len();
    while low < high
        invariant
            low <= high <= rows@.len(),
            all == arrange::indices(rows@),
            before == (|a: int, b: int| entry_before(entries@, a, b)),
            arrange::strict(before),
            x < entries@.len(),
            is_folder_order(all, entries@, x as int),
            forall|i: int| 0 <= i < low ==> entry_before(entries@, #[trigger] all[i], x as int),
            forall|i: int|
                high <= i < rows@.len() ==> entry_before(entries@, x as int, #[trigger] all[i]),
        decreases high - low,
    {
        let mid: usize = low + (high - low) / 2;
        let m: usize = rows[mid];
        assert(all[mid as int] == m);
        assert(0 <= all[mid as int] < x) by {
            let shown = |k: int| 0 <= k < x;
            assert(shown(all[mid as int]));
        }
        let o = compare_entries(&entries[m], &entries[x]);
        if o != Order::Greater {
            assert(before(m as int, x as int));
            assert forall|i: int| 0 <= i <= mid implies entry_before(
                entries@,
                #[trigger] all[i],
                x as int,
            ) by {
                if i < mid {
                    assert(before(all[i], all[mid as int]));
                    assert(before(all[mid as int], x as int));
                    assert(before(all[i], x as int));
                }
            }
            low = mid + 1;
        } else {
            proof {
                lemma_entry_order(entries@[m as int], entries@[x as int], entries@[m as int]);
            }
            assert(before(x as int, m as int));
            assert forall|i: int| mid <= i < rows@.len() implies entry_before(
                entries@,
                x as int,
                #[trigger] all[i],
            ) by {
                if i > mid {
                    assert(before(all[mid as int], all[i]));
                    assert(before(x as int, all[mid as int]));
                    assert(before(x as int, all[i]));
                }
            }
            high = mid;
        }
    }
    low
}

/// The entries of a folder in the order in which they are listed.
pub open spec fn listed_in_order(r: Seq<FileSystemEntry>, entries: Seq<FileSystemEntry>) -> bool {
    exists|rows: Seq<int>|
        {
            &&& #[trigger] is_folder_order(rows, entries, entries.len() as int)
            &&& r.len() == rows.len()
            &&& forall|i: int| 0 <= i < r.len() ==> #[trigger] r[i] == entries[rows[i]]
        }
}

/// Puts the entries of a folder in order: folders first, then by name without
/// regard to the letters' case.
pub fn order_directory(entries: &Vec<FileSystemEntry>) -> (r: Vec<FileSystemEntry>)
    ensures
        listed_in_order(r@, entries@),
{
    let n: usize = entries.len();
    let mut rows: Vec<usize> = Vec::new();
    let mut k: usize = 0;
    assert(arrange::indices(rows@) =~= Seq::<int>::empty());
    while k < n
        invariant
            k <= n,
            n == entries@.len(),
            is_folder_order(arrange::indices(rows@), entries@, k as int),
        decreases n - k,
    {
        let slot: usize = find_slot(entries, &rows, k);
        proof {
            arrange::lemma_indices_insert(rows@, slot as int, k);
            arrange::lemma_inserted(
                arrange::indices(rows@),
                k as int,
                slot as int,
                |i: int| 0 <= i < k,
                |i: int| 0 <= i < k + 1,
                |a: int, b: int| entry_before(entries@, a, b),
            );
        }
        rows.insert(slot, k);
        k += 1;
    }
    let m: usize = rows.len();
    let mut out: Vec<FileSystemEntry> = Vec::new();
    let ghost all = arrange::indices(rows@);
    let mut i: usize = 0;
    while i < m
        invariant
            i <= m,
            m == rows@.len(),
            all == arrange::indices(rows@),
            is_folder_order(all, entries@, entries@.len() as int),
            out@.len() == i,
            forall|j: int| 0 <= j < i ==> #[trigger] out@[j] == entries@[all[j]],
        decreases m - i,
    {
        let row: usize = rows[i];
        assert(0 <= all[i as int] < entries@.len()) by {
            let shown = |k: int| 0 <= k < entries@.len();
            assert(shown(all[i as int]));
        }
        out.push(entries[row].clone());
        i += 1;
    }
    assert(is_folder_order(all, entries@, entries@.len() as int));
    out
}

/// There is one order of a folder's entries only.
pub proof fn folder_order_is_unique(a: Seq<int>, b: Seq<int>, entries: Seq<FileSystemEntry>)
    requires
        is_folder_order(a, entries, entries.len() as int),
        is_folder_order(b, entries, entries.len() as int),
    ensures
        a == b,
{
    lemma_entry_strict(entries);
    arrange::arrangement_is_unique(
        a,
        b,
        |k: int| 0 <= k < entries.len(),
        |x: int, y: int| entry_before(entries, x, y),
    );
}

} // verus!
