//! Values that are kept for paths, such as changes that are not saved yet.
use crate::paths::{self, comparable_path, same_path};
use crate::rename_plan::PlannedRename;
use crate::text::same_text;
use vstd::prelude::*;

verus! {

/// What a path is compared by, with the path's value.
pub struct PathValue<V> {
    pub key: String,
    pub value: V,
}

/// Values for paths, at most one for each. Two texts that stand for the same path
/// have one value.
pub struct PathValues<V> {
    pub windows: bool,
    pub entries: Vec<PathValue<V>>,
}

impl<V> View for PathValues<V> {
    type V = Map<Seq<char>, V>;

    open spec fn view(&self) -> Map<Seq<char>, V> {
        Map::new(
            |p: Seq<char>|
                exists|i: int| 0 <= i < self.entries@.len() && (#[trigger] self.entries@[i]).key@
                    == p,
            |p: Seq<char>|
                self.entries@[choose|i: int|
                    0 <= i < self.entries@.len() && (#[trigger] self.entries@[i]).key@ == p].value,
        )
    }
}

impl<V> PathValues<V> {
    /// No key occurs twice.
    pub open spec fn well_formed(self) -> bool {
        forall|i: int, j: int|
            0 <= i < j < self.entries@.len() ==> (#[trigger] self.entries@[i]).key@ != (
            #[trigger] self.entries@[j]).key@
    }

    proof fn lemma_at(self, i: int)
        requires
            self.well_formed(),
            0 <= i < self.entries@.len(),
        ensures
            self@.dom().contains(self.entries@[i].key@),
            self@[self.entries@[i].key@] == self.entries@[i].value,
    {
        let p = self.entries@[i].key@;
        let k = choose|k: int|
            0 <= k < self.entries@.len() && (#[trigger] self.entries@[k]).key@ == p;
        assert(self.entries@[i].key@ == p);
        if k < i {
            assert(self.entries@[k].key@ != self.entries@[i].key@);
        } else if i < k {
            assert(self.entries@[i].key@ != self.entries@[k].key@);
        }
    }

    pub fn new(windows: bool) -> (r: Self)
        ensures
            r.well_formed(),
            r.windows == windows,
            r@ == Map::<Seq<char>, V>::empty(),
    {
        let r = PathValues { windows, entries: Vec::new() };
        assert(r@ =~= Map::<Seq<char>, V>::empty());
        r
    }

    fn find(&self, key: &str) -> (r: Option<usize>)
        ensures
            match r {
                Some(i) => i < self.entries@.len() && self.entries@[i as int].key@ == key@,
                None => forall|k: int|
                    0 <= k < self.entries@.len() ==> (#[trigger] self.entries@[k]).key@ != key@,
            },
    {
        let n: usize = self.entries.len();
        let mut i: usize = 0;
        while i < n
            invariant
                i <= n,
                n == self.entries@.len(),
                forall|k: int| 0 <= k < i ==> (#[trigger] self.entries@[k]).key@ != key@,
            decreases n - i,
        {
            if same_text(self.entries[i].key.as_str(), key) {
                return Some(i);
            }
            i += 1;
        }
        None
    }

    pub fn get(&self, path: &str) -> (r: Option<&V>)
        requires
            self.well_formed(),
        ensures
            match r {
                Some(v) => self@.dom().contains(paths::path_id(path@, self.windows))
                    && self@[paths::path_id(path@, self.windows)] == *v,
                None => !self@.dom().contains(paths::path_id(path@, self.windows)),
            },
    {
        let key = comparable_path(path, self.windows);
        match self.find(key.as_str()) {
            Some(i) => {
                proof {
                    self.lemma_at(i as int);
                }
                Some(&self.entries[i].value)
            },
            None => None,
        }
    }

    fn remove_key(&mut self, key: &str) -> (r: Option<V>)
        requires
            old(self).well_formed(),
        ensures
            final(self).well_formed(),
            final(self).windows == old(self).windows,
            final(self)@ == old(self)@.remove(key@),
            match r {
                Some(v) => old(self)@.dom().contains(key@) && old(self)@[key@] == v,
                None => !old(self)@.dom().contains(key@),
            },
    {
        let ghost before = *self;
        match self.find(key) {
            None => {
                assert(self@ =~= before@.remove(key@));
                None
            },
            Some(i) => {
                let entry = self.entries.remove(i);
                proof {
                    let old_entries = before.entries@;
                    let now = self.entries@;
                    assert(now == old_entries.remove(i as int));
                    before.lemma_at(i as int);
                    assert forall|a: int, b: int| 0 <= a < b < now.len() implies (
                    #[trigger] now[a]).key@ != (#[trigger] now[b]).key@ by {
                        let p = if a < i {
                            a
                        } else {
                            a + 1
                        };
                        let q = if b < i {
                            b
                        } else {
                            b + 1
                        };
                        assert(now[a] == old_entries[p] && now[b] == old_entries[q]);
                    }
                    assert forall|p: Seq<char>| #[trigger] self@.dom().contains(p)
                        == before@.remove(key@).dom().contains(p) by {
                        if self@.dom().contains(p) {
                            let a = choose|a: int|
                                0 <= a < now.len() && (#[trigger] now[a]).key@ == p;
                            let b = if a < i {
                                a
                            } else {
                                a + 1
                            };
                            assert(old_entries[b].key@ == p);
                            if b < i {
                                assert(old_entries[b].key@ != old_entries[i as int].key@);
                            } else {
                                assert(old_entries[i as int].key@ != old_entries[b].key@);
                            }
                        }
                        if before@.dom().contains(p) && p != key@ {
                            let b = choose|b: int|
                                0 <= b < old_entries.len() && (#[trigger] old_entries[b]).key@
                                    == p;
                            let a = if b < i {
                                b
                            } else {
                                b - 1
                            };
                            assert(now[a].key@ == p);
                        }
                    }
                    assert forall|p: Seq<char>| #[trigger] self@.dom().contains(p) implies self@[p]
                        == before@.remove(key@)[p] by {
                        let a = choose|a: int| 0 <= a < now.len() && (#[trigger] now[a]).key@ == p;
                        let b = if a < i {
                            a
                        } else {
                            a + 1
                        };
                        assert(now[a] == old_entries[b]);
                        self.lemma_at(a);
                        before.lemma_at(b);
                    }
                    assert(self@ =~= before@.remove(key@));
                }
                Some(entry.value)
            },
        }
    }

    pub fn remove(&mut self, path: &str) -> (r: Option<V>)
        requires
            old(self).well_formed(),
        ensures
            final(self).well_formed(),
            final(self).windows == old(self).windows,
            ({
                let key = paths::path_id(path@, old(self).windows);
                &&& final(self)@ == old(self)@.remove(key)
                &&& match r {
                    Some(v) => old(self)@.dom().contains(key) && old(self)@[key] == v,
                    None => !old(self)@.dom().contains(key),
                }
            }),
    {
        let key = comparable_path(path, self.windows);
        self.remove_key(key.as_str())
    }

    fn insert_key(&mut self, key: String, value: V)
        requires
            old(self).well_formed(),
        ensures
            final(self).well_formed(),
            final(self).windows == old(self).windows,
            final(self)@ == old(self)@.insert(key@, value),
    {
        let ghost first = *self;
        let _ = self.remove_key(key.as_str());
        let ghost before = *self;
        let ghost p0 = key@;
        self.entries.push(PathValue { key, value });
        proof {
            let was = before.entries@;
            let now = self.entries@;
            assert forall|a: int, b: int| 0 <= a < b < now.len() implies (#[trigger] now[a]).key@
                != (#[trigger] now[b]).key@ by {
                assert(now[a] == was[a]);
                if b < was.len() {
                    assert(now[b] == was[b]);
                } else {
                    if was[a].key@ == p0 {
                        assert(before@.dom().contains(p0));
                    }
                }
            }
            assert forall|p: Seq<char>| #[trigger] self@.dom().contains(p) == first@.insert(
                p0,
                value,
            ).dom().contains(p) by {
                if self@.dom().contains(p) {
                    let a = choose|a: int| 0 <= a < now.len() && (#[trigger] now[a]).key@ == p;
                    if a < was.len() {
                        assert(was[a].key@ == p);
                        assert(before@.dom().contains(p));
                    }
                }
                if p == p0 {
                    assert(now[was.len() as int].key@ == p);
                } else if before@.dom().contains(p) {
                    let a = choose|a: int| 0 <= a < was.len() && (#[trigger] was[a]).key@ == p;
                    assert(now[a].key@ == p);
                }
            }
            assert forall|p: Seq<char>| #[trigger] self@.dom().contains(p) implies self@[p]
                == first@.insert(p0, value)[p] by {
                let a = choose|a: int| 0 <= a < now.len() && (#[trigger] now[a]).key@ == p;
                self.lemma_at(a);
                if a < was.len() {
                    assert(now[a] == was[a]);
                    before.lemma_at(a);
                    assert(before@.dom().contains(p));
                }
            }
            assert(self@ =~= first@.insert(p0, value));
        }
    }

    pub fn insert(&mut self, path: &str, value: V)
        requires
            old(self).well_formed(),
        ensures
            final(self).well_formed(),
            final(self).windows == old(self).windows,
            final(self)@ == old(self)@.insert(paths::path_id(path@, old(self).windows), value),
    {
        let key = comparable_path(path, self.windows);
        self.insert_key(key, value);
    }

    /// Gives the values of renamed files to their new paths.
    pub fn remap(&mut self, renames: &[PlannedRename])
        requires
            old(self).well_formed(),
        ensures
            final(self).well_formed(),
            final(self).windows == old(self).windows,
            final(self)@ == remapped(
                old(self)@,
                renames@,
                old(self).windows,
                renames@.len() as int,
            ),
    {
        let ghost first = self@;
        let n: usize = renames.len();
        let mut i: usize = 0;
        while i < n
            invariant
                i <= n,
                n == renames@.len(),
                self.well_formed(),
                self.windows == old(self).windows,
                self@ == remapped(first, renames@, self.windows, i as int),
            decreases n - i,
        {
            let source = renames[i].source.to_text();
            let ghost before = self@;
            match self.remove(source.as_str()) {
                Some(v) => {
                    self.insert(renames[i].target.to_text().as_str(), v);
                },
                None => {
                    assert(before.remove(paths::path_id(source@, self.windows)) =~= before);
                },
            }
            i += 1;
        }
    }
}

/// The values after the first renames: a value goes with its file.
pub open spec fn remapped<V>(
    values: Map<Seq<char>, V>,
    renames: Seq<PlannedRename>,
    windows: bool,
    n: int,
) -> Map<Seq<char>, V>
    decreases n,
{
    if n <= 0 {
        values
    } else {
        let before = remapped(values, renames, windows, n - 1);
        let source = paths::path_id(renames[n - 1].source@.text(), windows);
        if before.dom().contains(source) {
            before.remove(source).insert(
                paths::path_id(renames[n - 1].target@.text(), windows),
                before[source],
            )
        } else {
            before
        }
    }
}

/// The path that a file has after some renames.
pub open spec fn path_after(
    path: Seq<char>,
    renames: Seq<PlannedRename>,
    windows: bool,
    i: int,
) -> Seq<char>
    decreases renames.len() - i,
{
    if i < 0 || i >= renames.len() {
        path
    } else if paths::same(renames[i].source@.text(), path, windows) {
        renames[i].target@.text()
    } else {
        path_after(path, renames, windows, i + 1)
    }
}

fn find_path_after(path: String, renames: &[PlannedRename], windows: bool) -> (r: String)
    ensures
        r@ == path_after(path@, renames@, windows, 0),
{
    let n: usize = renames.len();
    let mut i: usize = 0;
    while i < n
        invariant
            i <= n,
            n == renames@.len(),
            path_after(path@, renames@, windows, 0) == path_after(
                path@,
                renames@,
                windows,
                i as int,
            ),
        decreases n - i,
    {
        let source = renames[i].source.to_text();
        if same_path(source.as_str(), path.as_str(), windows) {
            return renames[i].target.to_text();
        }
        i += 1;
    }
    path
}

/// The selected paths after some renames.
pub fn remap_selected_paths(
    selected_path: Option<String>,
    selected_paths: Vec<String>,
    renames: &[PlannedRename],
    windows: bool,
) -> (r: (Option<String>, Vec<String>))
    ensures
        match (selected_path, r.0) {
            (Some(p), Some(q)) => q@ == path_after(p@, renames@, windows, 0),
            (None, None) => true,
            _ => false,
        },
        r.1@.len() == selected_paths@.len(),
        forall|i: int|
            0 <= i < r.1@.len() ==> (#[trigger] r.1@[i])@ == path_after(
                selected_paths@[i]@,
                renames@,
                windows,
                0,
            ),
{
    let first = match selected_path {
        Some(p) => Some(find_path_after(p, renames, windows)),
        None => None,
    };
    let n: usize = selected_paths.len();
    let mut out: Vec<String> = Vec::new();
    let mut i: usize = 0;
    while i < n
        invariant
            i <= n,
            n == selected_paths@.len(),
            out@.len() == i,
            forall|k: int|
                0 <= k < i ==> (#[trigger] out@[k])@ == path_after(
                    selected_paths@[k]@,
                    renames@,
                    windows,
                    0,
                ),
        decreases n - i,
    {
        out.push(find_path_after(selected_paths[i].clone(), renames, windows));
        i += 1;
    }
    (first, out)
}

} // verus!
