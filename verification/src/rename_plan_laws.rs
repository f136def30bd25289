//! What the plans for new names hold, and what stands against them.
use crate::file_path::{self, PathModel};
use crate::order::{self, Order};
use crate::paths;
use crate::rename_laws;
use crate::rename_names;
use crate::rename_plan::{self, KnownPath, RenameModel, RenameRule};
use vstd::prelude::*;

verus! {

/// Each rule gives the names that it is called after.
pub proof fn rules_give_their_names(name: Seq<char>)
    ensures
        rename_plan::new_name(RenameRule::TrailingNumberToFront, name)
            == rename_names::number_in_front(name),
        rename_plan::new_name(RenameRule::WithoutNumbers, name) == rename_names::number_removed(
            name,
        ),
        rename_plan::new_name(RenameRule::WithoutPrefix, name) == rename_names::prefix_removed(
            name,
        ),
{
}

/// Each file with a number at the end of its name is planned, in its own folder and with
/// the number in front.
pub proof fn moved_numbers_are_planned(
    known: Seq<KnownPath>,
    windows: bool,
    k: int,
    folder: Seq<char>,
    name: Seq<char>,
    new: Seq<char>,
)
    requires
        0 <= k < known.len(),
        known[k].is_file,
        known[k].path@ == (PathModel { folder: Some(folder), name }),
        rename_names::number_in_front(name) == Some(new),
    ensures
        rename_plan::plain_renames(known, RenameRule::TrailingNumberToFront, windows).contains(
            RenameModel {
                source: PathModel { folder: Some(folder), name },
                target: PathModel { folder: Some(folder), name: new },
            },
        ),
{
    let rule = RenameRule::TrailingNumberToFront;
    rename_laws::lemma_candidates(known, rule, windows);
    let rows = rename_plan::candidates(known, rule, windows);
    assert(rename_plan::is_candidate(known, rule, k));
    let i = choose|i: int| 0 <= i < rows.len() && rows[i] == k;
    let plan = rename_plan::plain_renames(known, rule, windows);
    assert(plan[i].source == known[k].path@);
    assert(plan[i].target == (PathModel { folder: Some(folder), name: new }));
}

/// Only files with a number at the end are planned, and they stand in the order of their
/// paths.
pub proof fn plans_stand_in_the_order_of_paths(
    known: Seq<KnownPath>,
    windows: bool,
    i: int,
    j: int,
)
    requires
        0 <= i < j < rename_plan::plain_renames(
            known,
            RenameRule::TrailingNumberToFront,
            windows,
        ).len(),
    ensures
        ({
            let plan = rename_plan::plain_renames(
                known,
                RenameRule::TrailingNumberToFront,
                windows,
            );
            &&& rename_names::number_in_front(plan[i].source.name) == Some(plan[i].target.name)
            &&& plan[i].target.folder == plan[i].source.folder
            &&& order::text_order(
                paths::path_id(plan[i].source.text(), windows),
                paths::path_id(plan[j].source.text(), windows),
            ) != Order::Greater
            &&& exists|k: int|
                0 <= k < known.len() && (#[trigger] known[k]).is_file && known[k].path@
                    == plan[i].source
        }),
{
    let rule = RenameRule::TrailingNumberToFront;
    rename_laws::lemma_candidates(known, rule, windows);
    let rows = rename_plan::candidates(known, rule, windows);
    rename_laws::lemma_candidates_in_order(known, rule, windows, i, j);
    assert(rename_plan::is_candidate(known, rule, rows[i]));
    assert(known[rows[i]].is_file);
}

/// A plan can be carried out where no two files get the same path, and where each path
/// that exists is freed by the plan itself.
pub proof fn plans_without_faults(plan: Seq<RenameModel>, existing: Seq<String>, windows: bool)
    ensures
        rename_plan::plan_fault(plan, existing, windows, 0) is None <==> {
            &&& forall|j: int, k: int|
                0 <= j < k < plan.len() ==> file_path::path_key(
                    (#[trigger] plan[j]).target.text(),
                    windows,
                ) != file_path::path_key((#[trigger] plan[k]).target.text(), windows)
            &&& forall|k: int|
                0 <= k < plan.len() && file_path::exists_path(
                    existing,
                    (#[trigger] plan[k]).target.text(),
                    windows,
                ) ==> exists|j: int|
                    0 <= j < plan.len() && file_path::path_key(
                        (#[trigger] plan[j]).source.text(),
                        windows,
                    ) == file_path::path_key(plan[k].target.text(), windows)
        },
{
    lemma_faults(plan, existing, windows, 0);
    if rename_plan::plan_fault(plan, existing, windows, 0) is None {
        assert forall|j: int, k: int| 0 <= j < k < plan.len() implies file_path::path_key(
            (#[trigger] plan[j]).target.text(),
            windows,
        ) != file_path::path_key((#[trigger] plan[k]).target.text(), windows) by {
            assert(!is_fault(plan, existing, windows, k));
        }
        assert forall|k: int|
            0 <= k < plan.len() && file_path::exists_path(
                existing,
                (#[trigger] plan[k]).target.text(),
                windows,
            ) implies exists|j: int|
            0 <= j < plan.len() && file_path::path_key(
                (#[trigger] plan[j]).source.text(),
                windows,
            ) == file_path::path_key(plan[k].target.text(), windows) by {
            assert(!is_fault(plan, existing, windows, k));
        }
    } else {
        let k = choose|k: int| 0 <= k < plan.len() && is_fault(plan, existing, windows, k);
        assert(is_fault(plan, existing, windows, k));
    }
}

spec fn is_fault(plan: Seq<RenameModel>, existing: Seq<String>, windows: bool, k: int) -> bool {
    rename_plan::target_repeated(plan, windows, k) || (file_path::exists_path(
        existing,
        plan[k].target.text(),
        windows,
    ) && !rename_plan::target_is_source(plan, windows, k))
}

proof fn lemma_faults(plan: Seq<RenameModel>, existing: Seq<String>, windows: bool, from: int)
    requires
        0 <= from <= plan.len(),
    ensures
        rename_plan::plan_fault(plan, existing, windows, from) is None <==> forall|k: int|
            from <= k < plan.len() ==> !#[trigger] is_fault(plan, existing, windows, k),
    decreases plan.len() - from,
{
    if from < plan.len() {
        lemma_faults(plan, existing, windows, from + 1);
        let here = is_fault(plan, existing, windows, from);
        if here {
            assert(is_fault(plan, existing, windows, from));
            assert(rename_plan::plan_fault(plan, existing, windows, from) is Some);
        } else {
            assert(rename_plan::plan_fault(plan, existing, windows, from)
                == rename_plan::plan_fault(plan, existing, windows, from + 1));
            if rename_plan::plan_fault(plan, existing, windows, from) is None {
                assert forall|k: int| from <= k < plan.len() implies !#[trigger] is_fault(
                    plan,
                    existing,
                    windows,
                    k,
                ) by {
                    if k > from {
                        assert(from + 1 <= k);
                    }
                }
            } else {
                let k = choose|k: int|
                    from + 1 <= k < plan.len() && #[trigger] is_fault(plan, existing, windows, k);
                assert(is_fault(plan, existing, windows, k));
            }
        }
    }
}

/// The message about a plan names the first path that two files would get, or that
/// exists and is not freed.
pub proof fn the_first_fault_is_named(
    plan: Seq<RenameModel>,
    existing: Seq<String>,
    windows: bool,
    k: int,
)
    requires
        0 <= k < plan.len(),
        rename_plan::plan_fault(plan.take(k), existing, windows, 0) is None,
        forall|i: int|
            0 <= i < k ==> !file_path::exists_path(
                existing,
                (#[trigger] plan[i]).target.text(),
                windows,
            ),
    ensures
        (exists|j: int|
            0 <= j < k && file_path::path_key((#[trigger] plan[j]).target.text(), windows)
                == file_path::path_key(plan[k].target.text(), windows)) ==> rename_plan::plan_fault(
            plan,
            existing,
            windows,
            0,
        ) == Some("Multiple files would become "@ + plan[k].target.text() + "."@),
        (forall|j: int|
            0 <= j < k ==> file_path::path_key((#[trigger] plan[j]).target.text(), windows)
                != file_path::path_key(plan[k].target.text(), windows)) && (forall|j: int|
            0 <= j < plan.len() ==> file_path::path_key((#[trigger] plan[j]).source.text(), windows)
                != file_path::path_key(plan[k].target.text(), windows)) && file_path::exists_path(
            existing,
            plan[k].target.text(),
            windows,
        ) ==> rename_plan::plan_fault(plan, existing, windows, 0) == Some(
            "A target file already exists: "@ + plan[k].target.text(),
        ),
{
    let front = plan.take(k);
    plans_without_faults(front, existing, windows);
    assert forall|i: int| 0 <= i < k implies !#[trigger] is_fault(plan, existing, windows, i) by {
        if rename_plan::target_repeated(plan, windows, i) {
            let j = choose|j: int|
                0 <= j < i && file_path::path_key((#[trigger] plan[j]).target.text(), windows)
                    == file_path::path_key(plan[i].target.text(), windows);
            assert(front[j] == plan[j] && front[i] == plan[i]);
        }
    }
    lemma_passes(plan, existing, windows, 0, k);
}

proof fn lemma_passes(
    plan: Seq<RenameModel>,
    existing: Seq<String>,
    windows: bool,
    from: int,
    to: int,
)
    requires
        0 <= from <= to < plan.len(),
        forall|i: int| from <= i < to ==> !#[trigger] is_fault(plan, existing, windows, i),
    ensures
        rename_plan::plan_fault(plan, existing, windows, from) == rename_plan::plan_fault(
            plan,
            existing,
            windows,
            to,
        ),
    decreases to - from,
{
    if from < to {
        assert(!is_fault(plan, existing, windows, from));
        lemma_passes(plan, existing, windows, from + 1, to);
    }
}

/// A plan is refused where a file that gets a new name has no folder; the first such file
/// is named.
pub proof fn files_without_a_folder_are_refused(
    known: Seq<KnownPath>,
    rule: RenameRule,
    existing: Seq<String>,
    windows: bool,
    k: int,
)
    requires
        0 <= k < known.len(),
        known[k].is_file,
        known[k].path.folder is None,
        rename_plan::new_name(rule, known[k].path.name@) is Some,
        forall|i: int|
            0 <= i < k && (#[trigger] known[i]).is_file && known[i].path.folder is None
                ==> rename_plan::new_name(rule, known[i].path.name@) is None,
    ensures
        rename_plan::removal_plan(known, rule, existing, windows) is Err,
        rename_plan::removal_plan(known, rule, existing, windows)->Err_0
            == "Could not resolve the folder for "@ + known[k].path@.text() + "."@,
        rule == RenameRule::TrailingNumberToFront ==> rename_plan::trailing_plan(
            known,
            existing,
            windows,
        ) is Err,
{
    lemma_first_without(known, rule, 0, k);
}

proof fn lemma_first_without(known: Seq<KnownPath>, rule: RenameRule, from: int, k: int)
    requires
        0 <= from <= k < known.len(),
        known[k].is_file,
        known[k].path.folder is None,
        rename_plan::new_name(rule, known[k].path.name@) is Some,
        forall|i: int|
            from <= i < k && (#[trigger] known[i]).is_file && known[i].path.folder is None
                ==> rename_plan::new_name(rule, known[i].path.name@) is None,
    ensures
        rename_plan::first_without_folder(known, rule, from) == Some(k),
    decreases k - from,
{
    if from < k {
        assert(!(rename_plan::is_candidate(known, rule, from) && known[from].path.folder is None));
        lemma_first_without(known, rule, from + 1, k);
    }
}

/// The files that a rule leaves alone are counted, and folders are not.
pub proof fn unmatched_files_are_counted(known: Seq<KnownPath>, rule: RenameRule, n: int)
    requires
        0 <= n < known.len(),
    ensures
        rename_plan::unmatched_among(known, rule, 0) == 0,
        known[n].is_file && rename_plan::new_name(rule, known[n].path.name@) is None
            ==> rename_plan::unmatched_among(known, rule, n + 1) == rename_plan::unmatched_among(
            known,
            rule,
            n,
        ) + 1,
        !known[n].is_file || rename_plan::new_name(rule, known[n].path.name@) is Some
            ==> rename_plan::unmatched_among(known, rule, n + 1) == rename_plan::unmatched_among(
            known,
            rule,
            n,
        ),
{
}

/// A plan has one rename for each of its files, in their folders; as duplicates count
/// those that do not get the name of the rule, and no two files get one path.
pub proof fn duplicates_are_counted(
    known: Seq<KnownPath>,
    rule: RenameRule,
    existing: Seq<String>,
    windows: bool,
    n: int,
)
    requires
        0 <= n <= rename_plan::candidates(known, rule, windows).len(),
        rename_plan::plan_of(known, rule, existing, windows, n) is Ok,
    ensures
        ({
            let plan = rename_plan::plan_of(known, rule, existing, windows, n)->Ok_0;
            &&& plan.renames.len() == n
            &&& 0 <= plan.deduplicated <= n
            &&& plan.deduplicated == 0 <==> forall|i: int|
                0 <= i < n ==> Some((#[trigger] plan.renames[i]).target.name)
                    == rename_plan::new_name(rule, plan.renames[i].source.name)
            &&& forall|i: int|
                0 <= i < n ==> (#[trigger] plan.renames[i]).target.folder
                    == plan.renames[i].source.folder
        }),
    decreases n,
{
    if n > 0 {
        rename_laws::lemma_candidates(known, rule, windows);
        let rows = rename_plan::candidates(known, rule, windows);
        assert(rename_plan::is_candidate(known, rule, rows[n - 1]));
        duplicates_are_counted(known, rule, existing, windows, n - 1);
        let before = rename_plan::plan_of(known, rule, existing, windows, n - 1)->Ok_0;
        let plan = rename_plan::plan_of(known, rule, existing, windows, n)->Ok_0;
        assert forall|i: int| 0 <= i < n - 1 implies plan.renames[i] == #[trigger] before.renames[i] by {}
        assert(plan.renames[n - 1].source == known[rows[n - 1]].path@);
        if plan.deduplicated == 0 {
            assert forall|i: int| 0 <= i < n implies Some((#[trigger] plan.renames[i]).target.name)
                == rename_plan::new_name(rule, plan.renames[i].source.name) by {
                if i < n - 1 {
                    assert(plan.renames[i] == before.renames[i]);
                }
            }
        } else if before.deduplicated == 0 {
            let last = plan.renames[n - 1];
            assert(last.target.folder == last.source.folder);
            assert(Some(last.target.name) != rename_plan::new_name(rule, last.source.name));
        } else {
            let i = choose|i: int|
                0 <= i < n - 1 && Some((#[trigger] before.renames[i]).target.name)
                    != rename_plan::new_name(rule, before.renames[i].source.name);
            assert(plan.renames[i] == before.renames[i]);
        }
    }
}

} // verus!
