//! Giving files new names one after the other; when one of them cannot be
//! renamed, those before it get their old names back.
use crate::file_path::{FilePath, PathModel};
use crate::order::{self, compare_texts, Order};
use crate::paths::{self, comparable_path};
use crate::rename_batch;
use crate::rename_plan::PlannedRename;
use vstd::prelude::*;

verus! {

/// A file and the name that it is to get.
#[derive(Debug)]
pub struct NamedFile {
    pub source: FilePath,
    pub new_name: String,
}

/// What is done next: a file is renamed, or renames are undone, of which so
/// many are left.
#[derive(Clone, Copy, Debug, PartialEq, Eq, Structural)]
pub enum NameStep {
    Rename(usize),
    Undo(usize),
    Done,
}

/// Renames in progress: the files, and the paths of those that were renamed.
#[derive(Debug)]
pub struct NameBatch {
    pub files: Vec<NamedFile>,
    pub renamed: Vec<PlannedRename>,
    pub step: NameStep,
    pub error: Option<String>,
}

/// The rename that is made next.
#[derive(Debug)]
pub enum NameAction {
    Rename { source: FilePath, new_name: String },
    Undo { from: FilePath, to: FilePath },
}

/// One file stands before another or at the same place in the order of paths.
pub open spec fn not_behind(a: PathModel, b: PathModel, windows: bool) -> bool {
    order::text_order(
        paths::path_id(a.text(), windows),
        paths::path_id(b.text(), windows),
    ) != Order::Greater
}

/// The files stand in the order of their paths.
pub open spec fn in_order(files: Seq<NamedFile>, windows: bool) -> bool {
    forall|i: int, j: int|
        0 <= i < j < files.len() ==> not_behind(
            (#[trigger] files[i]).source@,
            (#[trigger] files[j]).source@,
            windows,
        )
}

impl NameBatch {
    /// The lists belong together.
    pub open spec fn well_formed(self) -> bool {
        let n = self.files@.len();
        &&& match self.step {
            NameStep::Rename(k) => k < n && self.renamed@.len() == k && self.error is None,
            NameStep::Undo(k) => 0 < k <= self.renamed@.len() && self.error is Some,
            NameStep::Done => self.error is None ==> self.renamed@.len() == n,
        }
        &&& forall|i: int|
            0 <= i < self.renamed@.len() ==> i < n && (#[trigger] self.renamed@[i]).source@
                == self.files@[i].source@
    }

    /// Begins to rename files, in the order of their paths.
    pub fn new(files: Vec<NamedFile>, windows: bool) -> (r: Self)
        ensures
            r.well_formed(),
            r.renamed@.len() == 0,
            r.error is None,
            r.files@.to_multiset() == files@.to_multiset(),
            in_order(r.files@, windows),
            r.step == if files@.len() == 0 {
                NameStep::Done
            } else {
                NameStep::Rename(0)
            },
    {
        let mut rest = files;
        let mut sorted: Vec<NamedFile> = Vec::new();
        let ghost all = files@;
        let n: usize = rest.len();
        proof {
            assert(sorted@ + rest@ =~= all);
        }
        while rest.len() > 0
            invariant
                (sorted@ + rest@).to_multiset() == all.to_multiset(),
                sorted@.len() + rest@.len() == n,
                n == all.len(),
                in_order(sorted@, windows),
            decreases rest@.len(),
        {
            let ghost waiting = rest@;
            let file = rest.remove(0);
            assert(waiting =~= seq![file] + rest@);
            let slot: usize = find_slot(&sorted, &file, windows);
            proof {
                lemma_moved_over(sorted@, rest@, file, slot as int);
                lemma_in_order(sorted@, file, slot as int, windows);
            }
            sorted.insert(slot, file);
        }
        proof {
            assert(rest@ =~= Seq::<NamedFile>::empty());
            assert(sorted@ + rest@ =~= sorted@);
        }
        NameBatch {
            files: sorted,
            renamed: Vec::new(),
            step: if n == 0 {
                NameStep::Done
            } else {
                NameStep::Rename(0)
            },
            error: None,
        }
    }

    /// The rename that is to be made next.
    pub fn next_action(&self) -> (r: Option<NameAction>)
        requires
            self.well_formed(),
        ensures
            match self.step {
                NameStep::Rename(k) => r matches Some(NameAction::Rename { source, new_name })
                    && source@ == self.files@[k as int].source@ && new_name@
                    == self.files@[k as int].new_name@,
                NameStep::Undo(k) => r matches Some(NameAction::Undo { from, to }) && from@
                    == self.renamed@[k - 1].target@ && to@ == self.renamed@[k - 1].source@,
                NameStep::Done => r is None,
            },
    {
        match self.step {
            NameStep::Rename(k) => Some(
                NameAction::Rename {
                    source: self.files[k].source.clone(),
                    new_name: self.files[k].new_name.clone(),
                },
            ),
            NameStep::Undo(k) => Some(
                NameAction::Undo {
                    from: self.renamed[k - 1].target.clone(),
                    to: self.renamed[k - 1].source.clone(),
                },
            ),
            NameStep::Done => None,
        }
    }

    /// Takes note that a file was renamed.
    pub fn report_renamed(&mut self, target: FilePath)
        requires
            old(self).well_formed(),
            old(self).step is Rename,
        ensures
            final(self).well_formed(),
            final(self).files == old(self).files,
            final(self).error is None,
            final(self).renamed@.len() == old(self).renamed@.len() + 1,
            final(self).renamed@.drop_last() == old(self).renamed@,
            final(self).renamed@.last().source@ == old(self).files@[old(
                self,
            ).step->Rename_0 as int].source@,
            final(self).renamed@.last().target@ == target@,
            final(self).step == if old(self).step->Rename_0 + 1 < old(self).files@.len() {
                NameStep::Rename((old(self).step->Rename_0 + 1) as usize)
            } else {
                NameStep::Done
            },
    {
        let ghost before = self.renamed@;
        match self.step {
            NameStep::Rename(k) => {
                let n: usize = self.files.len();
                let source = self.files[k].source.clone();
                self.renamed.push(PlannedRename { source, target });
                assert(self.renamed@.drop_last() =~= before);
                self.step = if k + 1 < n {
                    NameStep::Rename(k + 1)
                } else {
                    NameStep::Done
                };
            },
            _ => {},
        }
    }

    /// Takes note that a file could not be renamed.
    pub fn report_failed(&mut self, reason: &str)
        requires
            old(self).well_formed(),
            old(self).step is Rename,
        ensures
            final(self).well_formed(),
            final(self).files == old(self).files,
            final(self).renamed == old(self).renamed,
            final(self).error matches Some(e) && e@ == "Failed to rename "@ + old(
                self,
            ).files@[old(self).step->Rename_0 as int].source@.text() + ": "@ + reason@,
            final(self).step == if old(self).renamed@.len() == 0 {
                NameStep::Done
            } else {
                NameStep::Undo(old(self).renamed@.len() as usize)
            },
    {
        match self.step {
            NameStep::Rename(k) => {
                let mut message = "Failed to rename ".to_owned();
                message.append(self.files[k].source.to_text().as_str());
                message.append(": ");
                message.append(reason);
                self.error = Some(message);
                self.step = if k == 0 {
                    NameStep::Done
                } else {
                    NameStep::Undo(k)
                };
            },
            _ => {},
        }
    }

    /// Takes note that a rename was undone, or could not be.
    pub fn report_undone(&mut self)
        requires
            old(self).well_formed(),
            old(self).step is Undo,
        ensures
            final(self).well_formed(),
            final(self).files == old(self).files,
            final(self).renamed == old(self).renamed,
            final(self).error == old(self).error,
            final(self).step == if old(self).step->Undo_0 == 1 {
                NameStep::Done
            } else {
                NameStep::Undo((old(self).step->Undo_0 - 1) as usize)
            },
    {
        match self.step {
            NameStep::Undo(k) => {
                self.step = if k == 1 {
                    NameStep::Done
                } else {
                    NameStep::Undo(k - 1)
                };
            },
            _ => {},
        }
    }
}

proof fn lemma_moved_over(sorted: Seq<NamedFile>, rest: Seq<NamedFile>, file: NamedFile, slot: int)
    requires
        0 <= slot <= sorted.len(),
    ensures
        (sorted.insert(slot, file) + rest).to_multiset() == (sorted + (seq![file]
            + rest)).to_multiset(),
{
    broadcast use vstd::seq_lib::group_to_multiset_ensures;

    let front = sorted.take(slot);
    let back = sorted.skip(slot);
    assert(sorted =~= front + back);
    assert(sorted.insert(slot, file) =~= front + seq![file] + back);
    vstd::seq_lib::lemma_multiset_commutative(front + seq![file] + back, rest);
    vstd::seq_lib::lemma_multiset_commutative(front + seq![file], back);
    vstd::seq_lib::lemma_multiset_commutative(front, seq![file]);
    vstd::seq_lib::lemma_multiset_commutative(front, back);
    vstd::seq_lib::lemma_multiset_commutative(sorted, seq![file] + rest);
    vstd::seq_lib::lemma_multiset_commutative(seq![file], rest);
    assert((sorted.insert(slot, file) + rest).to_multiset() =~= (sorted + (seq![file]
        + rest)).to_multiset());
}

proof fn lemma_in_order(sorted: Seq<NamedFile>, file: NamedFile, slot: int, windows: bool)
    requires
        in_order(sorted, windows),
        0 <= slot <= sorted.len(),
        forall|i: int|
            0 <= i < slot ==> not_behind((#[trigger] sorted[i]).source@, file.source@, windows),
        forall|i: int|
            slot <= i < sorted.len() ==> not_behind(
                file.source@,
                (#[trigger] sorted[i]).source@,
                windows,
            ),
    ensures
        in_order(sorted.insert(slot, file), windows),
{
    let r = sorted.insert(slot, file);
    assert forall|i: int, j: int| 0 <= i < j < r.len() implies not_behind(
        (#[trigger] r[i]).source@,
        (#[trigger] r[j]).source@,
        windows,
    ) by {
        let a = if i < slot {
            i
        } else {
            i - 1
        };
        let b = if j < slot {
            j
        } else {
            j - 1
        };
        if i == slot {
            assert(r[j] == sorted[b]);
        } else if j == slot {
            assert(r[i] == sorted[a]);
        } else {
            assert(r[i] == sorted[a] && r[j] == sorted[b]);
        }
    }
}

fn find_slot(sorted: &Vec<NamedFile>, file: &NamedFile, windows: bool) -> (r: usize)
    requires
        in_order(sorted@, windows),
    ensures
        r <= sorted@.len(),
        forall|i: int|
            0 <= i < r ==> not_behind((#[trigger] sorted@[i]).source@, file.source@, windows),
        forall|i: int|
            r <= i < sorted@.len() ==> not_behind(
                file.source@,
                (#[trigger] sorted@[i]).source@,
                windows,
            ),
{
    let key = comparable_path(file.source.to_text().as_str(), windows);
    let n: usize = sorted.len();
    let mut slot: usize = 0;
    while slot < n
        invariant
            slot <= n,
            n == sorted@.len(),
            in_order(sorted@, windows),
            key@ == paths::path_id(file.source@.text(), windows),
            forall|i: int|
                0 <= i < slot ==> not_behind(
                    (#[trigger] sorted@[i]).source@,
                    file.source@,
                    windows,
                ),
        decreases n - slot,
    {
        let other = comparable_path(sorted[slot].source.to_text().as_str(), windows);
        if compare_texts(other.as_str(), key.as_str()) == Order::Greater {
            proof {
                let k = |p: PathModel| paths::path_id(p.text(), windows);
                let at = sorted@[slot as int].source@;
                order::texts_are_consistent(k(at), k(file.source@), k(at));
                assert forall|i: int| slot <= i < sorted@.len() implies not_behind(
                    file.source@,
                    (#[trigger] sorted@[i]).source@,
                    windows,
                ) by {
                    order::texts_are_consistent(k(file.source@), k(at), k(sorted@[i].source@));
                    if i > slot {
                        assert(not_behind(
                            sorted@[slot as int].source@,
                            sorted@[i].source@,
                            windows,
                        ));
                    }
                }
            }
            return slot;
        }
        slot += 1;
    }
    slot
}

// What becomes of the files.

/// The files after the first renames.
pub open spec fn disk_after(
    disk: Map<Seq<char>, int>,
    renamed: Seq<PlannedRename>,
    k: int,
) -> Map<Seq<char>, int>
    decreases k,
{
    if k <= 0 {
        disk
    } else {
        rename_batch::moved(
            disk_after(disk, renamed, k - 1),
            renamed[k - 1].source@.text(),
            renamed[k - 1].target@.text(),
        )
    }
}

/// Each file was there when it was renamed, and its new name was free or its own.
pub open spec fn each_was_free(disk: Map<Seq<char>, int>, renamed: Seq<PlannedRename>, k: int) -> bool
    decreases k,
{
    k <= 0 || {
        let before = disk_after(disk, renamed, k - 1);
        let source = renamed[k - 1].source@.text();
        let target = renamed[k - 1].target@.text();
        &&& each_was_free(disk, renamed, k - 1)
        &&& before.dom().contains(source)
        &&& target == source || !before.dom().contains(target)
    }
}

/// The files after the first renames were undone, the last of them first.
pub open spec fn disk_undone(
    disk: Map<Seq<char>, int>,
    renamed: Seq<PlannedRename>,
    k: int,
) -> Map<Seq<char>, int>
    decreases k,
{
    if k <= 0 {
        disk
    } else {
        disk_undone(
            rename_batch::moved(
                disk,
                renamed[k - 1].target@.text(),
                renamed[k - 1].source@.text(),
            ),
            renamed,
            k - 1,
        )
    }
}

/// When all renames are undone, the files are as they were before the first.
pub proof fn undone_renames_change_nothing(
    disk: Map<Seq<char>, int>,
    renamed: Seq<PlannedRename>,
    k: int,
)
    requires
        0 <= k <= renamed.len(),
        each_was_free(disk, renamed, k),
    ensures
        disk_undone(disk_after(disk, renamed, k), renamed, k) == disk,
    decreases k,
{
    if k > 0 {
        let before = disk_after(disk, renamed, k - 1);
        let source = renamed[k - 1].source@.text();
        let target = renamed[k - 1].target@.text();
        assert(rename_batch::moved(rename_batch::moved(before, source, target), target, source)
            =~= before);
        undone_renames_change_nothing(disk, renamed, k - 1);
    }
}

} // verus!
