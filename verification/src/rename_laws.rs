//! What becomes of the files when a plan of renames is carried out as one.
use crate::arrange;
use crate::file_path::{self, Names, PathModel};
use crate::rename_batch::{self, BatchModel, BatchStep};
use crate::rename_plan::{self, FrontRearNumberRemovalStats, KnownPath, PlannedRename, RenameModel,
    RenameRule};
use vstd::prelude::*;

verus! {

// A renaming in which every move succeeds.

/// The renaming and the files after a number of moves, all of which succeed.
pub open spec fn run(b: BatchModel, disk: Map<Seq<char>, int>, steps: int) -> (
    BatchModel,
    Map<Seq<char>, int>,
)
    decreases steps,
{
    match b.action() {
        None => (b, disk),
        Some(a) => if steps <= 0 {
            (b, disk)
        } else {
            run(b.after(None), rename_batch::carried_out(disk, a, false), steps - 1)
        },
    }
}

/// The renaming and the files when every move has succeeded.
pub open spec fn run_to_the_end(b: BatchModel, disk: Map<Seq<char>, int>) -> (
    BatchModel,
    Map<Seq<char>, int>,
) {
    run(b, disk, rename_batch::steps_left(b))
}

proof fn lemma_run(b: BatchModel, before: Map<Seq<char>, int>, disk: Map<Seq<char>, int>, steps: int)
    requires
        b.well_formed(),
        b.sources.len() <= usize::MAX,
        b.error is None,
        rename_batch::fits(before, b),
        rename_batch::tracks(b, before, disk),
        rename_batch::steps_left(b) <= steps,
    ensures
        ({
            let (end, after) = run(b, disk, steps);
            &&& end.step == BatchStep::Done
            &&& end.error is None
            &&& end.well_formed()
            &&& end.sources == b.sources
            &&& end.targets == b.targets
            &&& rename_batch::fits(before, end)
            &&& rename_batch::tracks(end, before, after)
        }),
    decreases steps,
{
    if b.action() is Some {
        rename_batch::each_step_keeps_track(b, before, disk, None);
        rename_batch::each_step_makes_progress(b, None);
        lemma_run(
            b.after(None),
            before,
            rename_batch::carried_out(disk, b.action()->0, false),
            steps - 1,
        );
    }
}

// Plans as texts.

/// The paths before or after the renames of a plan.
pub open spec fn model_texts(m: Seq<RenameModel>, sources: bool) -> Seq<Seq<char>> {
    Seq::new(
        m.len(),
        |i: int|
            if sources {
                m[i].source.text()
            } else {
                m[i].target.text()
            },
    )
}

/// A plan that follows a model has its paths.
pub proof fn plan_has_the_paths_of_its_model(plan: Seq<PlannedRename>, m: Seq<RenameModel>)
    requires
        rename_plan::are_renames(plan, m),
    ensures
        rename_batch::plan_texts(plan, true) == model_texts(m, true),
        rename_batch::plan_texts(plan, false) == model_texts(m, false),
        rename_batch::plan_sources(plan) == model_sources(m),
{
    assert forall|i: int| 0 <= i < plan.len() implies rename_plan::is_rename(
        #[trigger] plan[i],
        m[i],
    ) by {}
    assert(rename_batch::plan_texts(plan, true) =~= model_texts(m, true));
    assert(rename_batch::plan_texts(plan, false) =~= model_texts(m, false));
    assert(rename_batch::plan_sources(plan) =~= model_sources(m));
}

/// The beginning of the renaming of a plan.
pub open spec fn begun(m: Seq<RenameModel>, temporaries: Seq<Seq<char>>) -> BatchModel {
    rename_batch::started(model_texts(m, true), model_texts(m, false), temporaries)
}

/// The selected paths, the paths that are known to exist and the files are of one
/// state of the disk: no path is selected twice, the selected files are there,
/// every file is known to exist, and no two files have paths that count as the
/// same.
pub open spec fn describes(
    paths: Seq<KnownPath>,
    existing: Seq<String>,
    windows: bool,
    disk: Map<Seq<char>, int>,
) -> bool {
    &&& forall|i: int, j: int|
        0 <= i < j < paths.len() ==> (#[trigger] paths[i]).path@.text() != (
        #[trigger] paths[j]).path@.text()
    &&& forall|i: int|
        0 <= i < paths.len() && (#[trigger] paths[i]).is_file ==> disk.dom().contains(
            paths[i].path@.text(),
        )
    &&& forall|p: Seq<char>|
        #[trigger] disk.dom().contains(p) ==> file_path::exists_path(existing, p, windows)
    &&& forall|p: Seq<char>, q: Seq<char>|
        #[trigger] disk.dom().contains(p) && #[trigger] disk.dom().contains(q)
            && file_path::path_key(p, windows) == file_path::path_key(q, windows) ==> p == q
}

/// The names under which the files of a plan are out of the way are those that are
/// chosen for it, and no file is to get that of a file that comes after it.
pub open spec fn chosen_for(
    temporaries: Seq<Seq<char>>,
    m: Seq<RenameModel>,
    process: nat,
    existing: Seq<String>,
    windows: bool,
) -> bool {
    &&& rename_batch::chosen_temporaries(
        model_sources(m),
        process,
        existing,
        windows,
        m.len() as int,
    ) == Ok::<Seq<Seq<char>>, Seq<char>>(temporaries)
    &&& forall|i: int, j: int|
        0 <= i < j < m.len() ==> (#[trigger] m[i]).target.text() != #[trigger] temporaries[j]
}

/// The files of a plan.
pub open spec fn model_sources(m: Seq<RenameModel>) -> Seq<PathModel> {
    Seq::new(m.len(), |i: int| m[i].source)
}

proof fn lemma_out_of_the_way(
    temporaries: Seq<Seq<char>>,
    m: Seq<RenameModel>,
    process: nat,
    paths: Seq<KnownPath>,
    existing: Seq<String>,
    windows: bool,
    disk: Map<Seq<char>, int>,
)
    requires
        chosen_for(temporaries, m, process, existing, windows),
        describes(paths, existing, windows, disk),
    ensures
        out_of_the_way(temporaries, m, disk),
{
    rename_batch::chosen_temporaries_are_new(
        model_sources(m),
        process,
        existing,
        windows,
        m.len() as int,
    );
}

/// The names under which files are out of the way are new, and none is used twice.
spec fn out_of_the_way(
    temporaries: Seq<Seq<char>>,
    m: Seq<RenameModel>,
    disk: Map<Seq<char>, int>,
) -> bool {
    &&& temporaries.len() == m.len()
    &&& temporaries.no_duplicates()
    &&& forall|i: int| 0 <= i < temporaries.len() ==> !disk.dom().contains(#[trigger] temporaries[i])
    &&& forall|i: int, j: int|
        0 <= i < j < m.len() ==> (#[trigger] m[i]).target.text() != #[trigger] temporaries[j]
}

/// All files of a plan, and no others, have moved; each has its contents and has
/// stayed in its folder, and no file is lost or added.
pub open spec fn moved_as_planned(
    m: Seq<RenameModel>,
    before: Map<Seq<char>, int>,
    after: Map<Seq<char>, int>,
) -> bool {
    let sources = model_texts(m, true);
    let targets = model_texts(m, false);
    &&& forall|i: int|
        0 <= i < m.len() ==> {
            &&& before.dom().contains((#[trigger] m[i]).source.text())
            &&& after.dom().contains(m[i].target.text())
            &&& after[m[i].target.text()] == before[m[i].source.text()]
            &&& m[i].target.folder == m[i].source.folder
        }
    &&& targets.no_duplicates()
    &&& forall|p: Seq<char>|
        #[trigger] before.dom().contains(p) && !sources.contains(p) ==> after.dom().contains(p)
            && after[p] == before[p]
    &&& forall|p: Seq<char>|
        #[trigger] after.dom().contains(p) ==> targets.contains(p) || (before.dom().contains(p)
            && !sources.contains(p))
}

/// A file is one of a plan.
pub open spec fn is_planned(m: Seq<RenameModel>, path: PathModel) -> bool {
    exists|i: int| 0 <= i < m.len() && (#[trigger] m[i]).source == path
}

/// A path is that of a file that the rule renames.
pub open spec fn is_renamed(paths: Seq<KnownPath>, rule: RenameRule, path: PathModel) -> bool {
    exists|k: int| #[trigger]
        rename_plan::is_candidate(paths, rule, k) && paths[k].path@ == path
}

/// The files of a plan are those that the rule renames.
pub open spec fn has_the_candidates(
    m: Seq<RenameModel>,
    paths: Seq<KnownPath>,
    rule: RenameRule,
) -> bool {
    &&& forall|k: int|
        #[trigger] rename_plan::is_candidate(paths, rule, k) ==> is_planned(m, paths[k].path@)
    &&& forall|i: int| 0 <= i < m.len() ==> is_renamed(paths, rule, (#[trigger] m[i]).source)
}

/// The files that a rule leaves alone keep their names and their contents.
pub open spec fn others_kept(
    paths: Seq<KnownPath>,
    rule: RenameRule,
    before: Map<Seq<char>, int>,
    after: Map<Seq<char>, int>,
) -> bool {
    forall|k: int|
        0 <= k < paths.len() && (#[trigger] paths[k]).is_file && !rename_plan::is_candidate(
            paths,
            rule,
            k,
        ) ==> after.dom().contains(paths[k].path@.text()) && after[paths[k].path@.text()]
            == before[paths[k].path@.text()]
}

pub proof fn lemma_candidates(paths: Seq<KnownPath>, rule: RenameRule, windows: bool)
    ensures
        ({
            let rows = rename_plan::candidates(paths, rule, windows);
            &&& rows.no_duplicates()
            &&& forall|i: int|
                0 <= i < rows.len() ==> rename_plan::is_candidate(paths, rule, #[trigger] rows[i])
            &&& forall|k: int| #[trigger]
                rename_plan::is_candidate(paths, rule, k) ==> rows.contains(k)
        }),
{
    rename_plan::lemma_paths_strict(paths, windows);
    let shown = |k: int| rename_plan::is_candidate(paths, rule, k);
    let before = |a: int, b: int| rename_plan::path_before(paths, windows, a, b);
    let some = arrange::arrangement_exists(shown, before, paths.len() as int);
    assert(rename_plan::is_candidate_order(some, paths, rule, windows));
    rename_plan::candidate_order_is_unique(paths, rule, windows, some);
    let rows = rename_plan::candidates(paths, rule, windows);
    assert forall|i: int, j: int| 0 <= i < j < rows.len() implies rows[i] != rows[j] by {
        assert(before(rows[i], rows[j]));
        assert(!before(rows[j], rows[j]));
    }
    assert forall|i: int| 0 <= i < rows.len() implies rename_plan::is_candidate(
        paths,
        rule,
        #[trigger] rows[i],
    ) by {
        assert(shown(rows[i]));
    }
    assert forall|k: int| #[trigger] rename_plan::is_candidate(paths, rule, k) implies rows.contains(
        k,
    ) by {
        assert(shown(k));
    }
}

/// Candidates stand in the order of their paths.
pub proof fn lemma_candidates_in_order(
    paths: Seq<KnownPath>,
    rule: RenameRule,
    windows: bool,
    i: int,
    j: int,
)
    requires
        0 <= i < j < rename_plan::candidates(paths, rule, windows).len(),
    ensures
        rename_plan::path_before(
            paths,
            windows,
            rename_plan::candidates(paths, rule, windows)[i],
            rename_plan::candidates(paths, rule, windows)[j],
        ),
{
    rename_plan::lemma_paths_strict(paths, windows);
    let shown = |k: int| rename_plan::is_candidate(paths, rule, k);
    let before = |a: int, b: int| rename_plan::path_before(paths, windows, a, b);
    let some = arrange::arrangement_exists(shown, before, paths.len() as int);
    assert(rename_plan::is_candidate_order(some, paths, rule, windows));
    rename_plan::candidate_order_is_unique(paths, rule, windows, some);
    let rows = rename_plan::candidates(paths, rule, windows);
    assert(before(rows[i], rows[j]));
}

/// The plan follows the candidates, each file in its folder.
spec fn follows(
    m: Seq<RenameModel>,
    paths: Seq<KnownPath>,
    rule: RenameRule,
    windows: bool,
    n: int,
) -> bool {
    let rows = rename_plan::candidates(paths, rule, windows);
    &&& m.len() == n
    &&& forall|i: int|
        0 <= i < n ==> (#[trigger] m[i]).source == paths[rows[i]].path@ && m[i].target.folder
            == m[i].source.folder
}

proof fn lemma_plan_follows(
    paths: Seq<KnownPath>,
    rule: RenameRule,
    existing: Seq<String>,
    windows: bool,
    n: int,
)
    requires
        0 <= n,
        rename_plan::plan_of(paths, rule, existing, windows, n) is Ok,
    ensures
        follows(
            rename_plan::plan_of(paths, rule, existing, windows, n)->Ok_0.renames,
            paths,
            rule,
            windows,
            n,
        ),
    decreases n,
{
    if n > 0 {
        lemma_plan_follows(paths, rule, existing, windows, n - 1);
        let plan = rename_plan::plan_of(paths, rule, existing, windows, n - 1)->Ok_0;
        let source = paths[rename_plan::candidates(paths, rule, windows)[n - 1]].path@;
        let names = Names { reserved: plan.reserved, existing, allowed: None, windows };
        file_path::resolved_name_is_free(names, rename_plan::desired_path(source, rule));
    }
}

proof fn lemma_sources(
    m: Seq<RenameModel>,
    paths: Seq<KnownPath>,
    rule: RenameRule,
    existing: Seq<String>,
    windows: bool,
    disk: Map<Seq<char>, int>,
)
    requires
        describes(paths, existing, windows, disk),
        follows(
            m,
            paths,
            rule,
            windows,
            rename_plan::candidates(paths, rule, windows).len() as int,
        ),
    ensures
        model_texts(m, true).no_duplicates(),
        forall|i: int| 0 <= i < m.len() ==> disk.dom().contains((#[trigger] m[i]).source.text()),
{
    lemma_candidates(paths, rule, windows);
    let rows = rename_plan::candidates(paths, rule, windows);
    let sources = model_texts(m, true);
    assert forall|i: int| 0 <= i < m.len() implies disk.dom().contains(
        (#[trigger] m[i]).source.text(),
    ) by {
        assert(rename_plan::is_candidate(paths, rule, rows[i]));
        assert(paths[rows[i]].is_file);
    }
    assert forall|i: int, j: int| 0 <= i < j < sources.len() implies sources[i] != sources[j] by {
        assert(m[i].source == paths[rows[i]].path@);
        assert(m[j].source == paths[rows[j]].path@);
        assert(rename_plan::is_candidate(paths, rule, rows[i]));
        assert(rename_plan::is_candidate(paths, rule, rows[j]));
        assert(rows[i] != rows[j]);
        lemma_paths_differ(paths, existing, windows, disk, rows[i], rows[j]);
    }
}

proof fn lemma_paths_differ(
    paths: Seq<KnownPath>,
    existing: Seq<String>,
    windows: bool,
    disk: Map<Seq<char>, int>,
    a: int,
    b: int,
)
    requires
        describes(paths, existing, windows, disk),
        0 <= a < paths.len(),
        0 <= b < paths.len(),
        a != b,
    ensures
        paths[a].path@.text() != paths[b].path@.text(),
{
    if a < b {
        assert(paths[a].path@.text() != paths[b].path@.text());
    } else {
        assert(paths[b].path@.text() != paths[a].path@.text());
    }
}

proof fn lemma_has_candidates(
    m: Seq<RenameModel>,
    paths: Seq<KnownPath>,
    rule: RenameRule,
    windows: bool,
)
    requires
        follows(
            m,
            paths,
            rule,
            windows,
            rename_plan::candidates(paths, rule, windows).len() as int,
        ),
    ensures
        has_the_candidates(m, paths, rule),
{
    lemma_candidates(paths, rule, windows);
    let rows = rename_plan::candidates(paths, rule, windows);
    assert forall|k: int| #[trigger] rename_plan::is_candidate(paths, rule, k) implies is_planned(
        m,
        paths[k].path@,
    ) by {
        assert(rows.contains(k));
        let i = choose|i: int| 0 <= i < rows.len() && rows[i] == k;
        assert(m[i].source == paths[rows[i]].path@);
    }
    assert forall|i: int| 0 <= i < m.len() implies is_renamed(
        paths,
        rule,
        (#[trigger] m[i]).source,
    ) by {
        assert(rename_plan::is_candidate(paths, rule, rows[i]));
        assert(m[i].source == paths[rows[i]].path@);
    }
}

proof fn lemma_not_a_source(
    m: Seq<RenameModel>,
    paths: Seq<KnownPath>,
    rule: RenameRule,
    existing: Seq<String>,
    windows: bool,
    disk: Map<Seq<char>, int>,
    k: int,
)
    requires
        describes(paths, existing, windows, disk),
        follows(
            m,
            paths,
            rule,
            windows,
            rename_plan::candidates(paths, rule, windows).len() as int,
        ),
        0 <= k < paths.len(),
        !rename_plan::is_candidate(paths, rule, k),
    ensures
        !model_texts(m, true).contains(paths[k].path@.text()),
{
    lemma_candidates(paths, rule, windows);
    let rows = rename_plan::candidates(paths, rule, windows);
    let sources = model_texts(m, true);
    if sources.contains(paths[k].path@.text()) {
        let i = choose|i: int| 0 <= i < sources.len() && sources[i] == paths[k].path@.text();
        assert(m[i].source == paths[rows[i]].path@);
        assert(rename_plan::is_candidate(paths, rule, rows[i]));
        lemma_paths_differ(paths, existing, windows, disk, rows[i], k);
    }
}

/// A plan whose targets are free, or are freed by the plan, is carried out.
proof fn lemma_carried_out(
    m: Seq<RenameModel>,
    paths: Seq<KnownPath>,
    rule: RenameRule,
    existing: Seq<String>,
    windows: bool,
    temporaries: Seq<Seq<char>>,
    disk: Map<Seq<char>, int>,
)
    requires
        describes(paths, existing, windows, disk),
        out_of_the_way(temporaries, m, disk),
        m.len() <= usize::MAX,
        follows(
            m,
            paths,
            rule,
            windows,
            rename_plan::candidates(paths, rule, windows).len() as int,
        ),
        model_texts(m, false).no_duplicates(),
        forall|i: int|
            0 <= i < m.len() ==> model_texts(m, true).contains((#[trigger] m[i]).target.text())
                || !disk.dom().contains(m[i].target.text()),
    ensures
        ({
            let (end, after) = run_to_the_end(begun(m, temporaries), disk);
            &&& end.step == BatchStep::Done
            &&& end.error is None
            &&& end.sources.len() == m.len()
            &&& moved_as_planned(m, disk, after)
            &&& has_the_candidates(m, paths, rule)
            &&& others_kept(paths, rule, disk, after)
        }),
{
    let b = begun(m, temporaries);
    let sources = model_texts(m, true);
    let targets = model_texts(m, false);
    lemma_sources(m, paths, rule, existing, windows, disk);
    lemma_has_candidates(m, paths, rule, windows);
    assert(rename_batch::fits(disk, b)) by {
        assert forall|i: int| 0 <= i < sources.len() implies disk.dom().contains(
            #[trigger] sources[i],
        ) by {
            assert(sources[i] == m[i].source.text());
        }
        assert forall|i: int| 0 <= i < targets.len() implies sources.contains(#[trigger] targets[i])
            || !disk.dom().contains(targets[i]) by {
            assert(targets[i] == m[i].target.text());
        }
        assert forall|i: int, j: int|
            0 <= i < j < targets.len() implies #[trigger] targets[i] != #[trigger] temporaries[j] by {
            assert(targets[i] == m[i].target.text());
        }
    }
    rename_batch::renaming_begins_with_the_files_as_they_are(sources, targets, temporaries, disk);
    lemma_run(b, disk, disk, rename_batch::steps_left(b));
    let (end, after) = run_to_the_end(b, disk);
    rename_batch::finished_renaming_moved_every_file(end, disk, after);
    assert forall|i: int| 0 <= i < m.len() implies {
        &&& disk.dom().contains((#[trigger] m[i]).source.text())
        &&& after.dom().contains(m[i].target.text())
        &&& after[m[i].target.text()] == disk[m[i].source.text()]
        &&& m[i].target.folder == m[i].source.folder
    } by {
        assert(end.targets[i] == m[i].target.text());
        assert(end.sources[i] == m[i].source.text());
    }
    assert forall|k: int|
        0 <= k < paths.len() && (#[trigger] paths[k]).is_file && !rename_plan::is_candidate(
            paths,
            rule,
            k,
        ) implies after.dom().contains(paths[k].path@.text()) && after[paths[k].path@.text()]
        == disk[paths[k].path@.text()] by {
        lemma_not_a_source(m, paths, rule, existing, windows, disk, k);
        let p = paths[k].path@.text();
        assert(disk.dom().contains(p));
        assert(!sources.contains(p));
        assert(after[p] == disk[p]);
    }
    assert(end.sources == sources && end.targets == targets);
    assert(targets.no_duplicates());
    assert forall|p: Seq<char>| #[trigger] disk.dom().contains(p) && !sources.contains(
        p,
    ) implies after.dom().contains(p) && after[p] == disk[p] by {
        assert(after[p] == disk[p]);
    }
    assert forall|p: Seq<char>| #[trigger] after.dom().contains(p) implies targets.contains(p) || (
    disk.dom().contains(p) && !sources.contains(p)) by {}
    assert(moved_as_planned(m, disk, after));
    assert(others_kept(paths, rule, disk, after));
}

/// Taking numbers or prefixes away renames exactly the files that were counted:
/// if every move succeeds, the renaming ends with their number, each of them is
/// under a new name in its folder with its contents, no file that existed is
/// overwritten or lost, and the files that the rule does not fit keep their names.
/// On their way the files have the names that are chosen for the plan.
pub proof fn counted_files_are_renamed_and_none_is_lost(
    paths: Seq<KnownPath>,
    rule: RenameRule,
    existing: Seq<String>,
    windows: bool,
    stats: FrontRearNumberRemovalStats,
    process: nat,
    temporaries: Seq<Seq<char>>,
    disk: Map<Seq<char>, int>,
)
    requires
        rename_plan::stats_result(Ok(stats), paths, rule, existing, windows),
        describes(paths, existing, windows, disk),
        chosen_for(
            temporaries,
            rename_plan::removal_plan(paths, rule, existing, windows)->Ok_0.renames,
            process,
            existing,
            windows,
        ),
    ensures
        ({
            let m = rename_plan::removal_plan(paths, rule, existing, windows)->Ok_0.renames;
            let (end, after) = run_to_the_end(begun(m, temporaries), disk);
            &&& m.len() == stats.renameable
            &&& end.step == BatchStep::Done
            &&& end.error is None
            &&& end.sources.len() == stats.renameable
            &&& moved_as_planned(m, disk, after)
            &&& has_the_candidates(m, paths, rule)
            &&& others_kept(paths, rule, disk, after)
            &&& forall|i: int|
                0 <= i < m.len() ==> !disk.dom().contains((#[trigger] m[i]).target.text())
                    && !after.dom().contains(m[i].source.text())
        }),
{
    let n = rename_plan::candidates(paths, rule, windows).len() as int;
    let m = rename_plan::removal_plan(paths, rule, existing, windows)->Ok_0.renames;
    let targets = model_texts(m, false);
    let sources = model_texts(m, true);
    lemma_out_of_the_way(temporaries, m, process, paths, existing, windows, disk);
    lemma_plan_follows(paths, rule, existing, windows, n);
    rename_plan::planned_targets_are_free(paths, rule, existing, windows, n);
    assert forall|i: int| 0 <= i < m.len() implies !disk.dom().contains(
        (#[trigger] m[i]).target.text(),
    ) by {
        assert(!file_path::exists_path(existing, m[i].target.text(), windows));
    }
    assert forall|i: int, j: int| 0 <= i < j < targets.len() implies targets[i] != targets[j] by {
        assert(targets[i] == m[i].target.text() && targets[j] == m[j].target.text());
        assert(file_path::path_key(m[i].target.text(), windows) != file_path::path_key(
            m[j].target.text(),
            windows,
        ));
    }
    lemma_carried_out(m, paths, rule, existing, windows, temporaries, disk);
    let (end, after) = run_to_the_end(begun(m, temporaries), disk);
    assert forall|i: int| 0 <= i < m.len() implies !after.dom().contains(
        (#[trigger] m[i]).source.text(),
    ) by {
        let p = m[i].source.text();
        assert(sources[i] == p);
        assert(sources.contains(p));
        if after.dom().contains(p) {
            assert(targets.contains(p));
            let j = choose|j: int| 0 <= j < targets.len() && targets[j] == p;
            assert(m[j].target.text() == p);
            assert(disk.dom().contains(p));
        }
    }
}

/// Moving numbers to the front renames exactly the files that were counted, which
/// may take each other's names: if every move succeeds, the renaming ends with
/// their number, each of them has its new name in its folder and its contents, and
/// no other file is overwritten, lost or renamed. On their way the files have the
/// names that are chosen for the plan.
pub proof fn files_with_moved_numbers_are_renamed_and_none_is_lost(
    paths: Seq<KnownPath>,
    existing: Seq<String>,
    windows: bool,
    process: nat,
    temporaries: Seq<Seq<char>>,
    disk: Map<Seq<char>, int>,
)
    requires
        rename_plan::trailing_plan(paths, existing, windows) is Ok,
        rename_plan::trailing_plan(paths, existing, windows)->Ok_0.len() <= usize::MAX,
        describes(paths, existing, windows, disk),
        chosen_for(
            temporaries,
            rename_plan::trailing_plan(paths, existing, windows)->Ok_0,
            process,
            existing,
            windows,
        ),
    ensures
        ({
            let m = rename_plan::trailing_plan(paths, existing, windows)->Ok_0;
            let rule = RenameRule::TrailingNumberToFront;
            let (end, after) = run_to_the_end(begun(m, temporaries), disk);
            &&& end.step == BatchStep::Done
            &&& end.error is None
            &&& end.sources.len() == m.len()
            &&& moved_as_planned(m, disk, after)
            &&& has_the_candidates(m, paths, rule)
            &&& others_kept(paths, rule, disk, after)
        }),
{
    let rule = RenameRule::TrailingNumberToFront;
    let m = rename_plan::trailing_plan(paths, existing, windows)->Ok_0;
    let sources = model_texts(m, true);
    let targets = model_texts(m, false);
    let n = rename_plan::candidates(paths, rule, windows).len() as int;
    lemma_out_of_the_way(temporaries, m, process, paths, existing, windows, disk);
    assert(follows(m, paths, rule, windows, n));
    lemma_sources(m, paths, rule, existing, windows, disk);
    rename_plan::sound_plan_overwrites_nothing(m, existing, windows, 0);
    assert forall|i: int, j: int| 0 <= i < j < targets.len() implies targets[i] != targets[j] by {
        assert(targets[i] == m[i].target.text() && targets[j] == m[j].target.text());
        assert(!rename_plan::target_repeated(m, windows, j));
        if targets[i] == targets[j] {
            assert(file_path::path_key(m[i].target.text(), windows) == file_path::path_key(
                m[j].target.text(),
                windows,
            ));
        }
    }
    assert forall|i: int| 0 <= i < m.len() implies sources.contains((#[trigger] m[i]).target.text())
        || !disk.dom().contains(m[i].target.text()) by {
        let p = m[i].target.text();
        if disk.dom().contains(p) {
            assert(file_path::exists_path(existing, p, windows));
            assert(rename_plan::target_is_source(m, windows, i));
            let j = choose|j: int|
                0 <= j < m.len() && file_path::path_key(
                    (#[trigger] m[j]).source.text(),
                    windows,
                ) == file_path::path_key(p, windows);
            assert(disk.dom().contains(m[j].source.text()));
            assert(m[j].source.text() == p);
            assert(sources[j] == p);
        }
    }
    lemma_carried_out(m, paths, rule, existing, windows, temporaries, disk);
}

} // verus!
