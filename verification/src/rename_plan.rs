//! Plans to rename many files at once.
use crate::arrange;
use crate::file_path::{self, comparable_path_key, path_exists, same_path, FilePath,
    FilenameCollisionResolver, Names, PathModel};
use crate::order::{self, compare_texts, Order};
use crate::paths::{self, comparable_path};
use crate::rename_names::{self, move_trailing_number_to_front_name,
    remove_front_or_rear_number_name, remove_img_vid_prefix_name};
use crate::text::same_text;
use vstd::prelude::*;

verus! {

/// A path that is selected, and whether it is that of a file.
#[derive(Debug)]
pub struct KnownPath {
    pub path: FilePath,
    pub is_file: bool,
}

/// A file that is to be renamed.
#[derive(Debug)]
pub struct PlannedRename {
    pub source: FilePath,
    pub target: FilePath,
}

/// How many files can be renamed, how many do not have what is to be taken
/// away, and how many get a number because their name is taken.
#[derive(Clone, Copy, Debug, PartialEq, Eq, Structural)]
pub struct FrontRearNumberRemovalStats {
    pub renameable: usize,
    pub unmatched: usize,
    pub deduplicated: usize,
}

/// The counts for prefixes are the same.
pub type MediaPrefixRemovalStats = FrontRearNumberRemovalStats;

/// The renames that take numbers or prefixes away.
#[derive(Debug)]
pub struct RemovalPlan {
    pub renames: Vec<PlannedRename>,
    pub unmatched: usize,
    pub deduplicated: usize,
}

/// A rule that gives new names.
#[derive(Clone, Copy, Debug, PartialEq, Eq, Structural)]
pub enum RenameRule {
    TrailingNumberToFront,
    WithoutNumbers,
    WithoutPrefix,
}

/// The name that a rule gives.
pub open spec fn new_name(rule: RenameRule, name: Seq<char>) -> Option<Seq<char>> {
    match rule {
        RenameRule::TrailingNumberToFront => rename_names::number_in_front(name),
        RenameRule::WithoutNumbers => rename_names::number_removed(name),
        RenameRule::WithoutPrefix => rename_names::prefix_removed(name),
    }
}

fn find_new_name(rule: RenameRule, name: &str) -> (r: Option<String>)
    ensures
        match r {
            Some(n) => new_name(rule, name@) == Some(n@),
            None => new_name(rule, name@) is None,
        },
{
    match rule {
        RenameRule::TrailingNumberToFront => move_trailing_number_to_front_name(name),
        RenameRule::WithoutNumbers => remove_front_or_rear_number_name(name),
        RenameRule::WithoutPrefix => remove_img_vid_prefix_name(name),
    }
}

// Which files are renamed, and in which order.

/// A file that the rule renames.
pub open spec fn is_candidate(paths: Seq<KnownPath>, rule: RenameRule, k: int) -> bool {
    0 <= k < paths.len() && paths[k].is_file && new_name(rule, paths[k].path.name@) is Some
}

/// How many of the first paths are files that the rule leaves alone.
pub open spec fn unmatched_among(paths: Seq<KnownPath>, rule: RenameRule, n: int) -> int
    decreases n,
{
    if n <= 0 {
        0
    } else {
        unmatched_among(paths, rule, n - 1) + if paths[n - 1].is_file && new_name(
            rule,
            paths[n - 1].path.name@,
        ) is None {
            1int
        } else {
            0
        }
    }
}

/// One path stands before another; paths that are the same stay as they are.
pub open spec fn path_before(paths: Seq<KnownPath>, windows: bool, a: int, b: int) -> bool {
    match order::text_order(
        paths::path_id(paths[a].path@.text(), windows),
        paths::path_id(paths[b].path@.text(), windows),
    ) {
        Order::Less => true,
        Order::Equal => a < b,
        Order::Greater => false,
    }
}

/// The candidates in the order of their paths.
pub open spec fn is_candidate_order(
    rows: Seq<int>,
    paths: Seq<KnownPath>,
    rule: RenameRule,
    windows: bool,
) -> bool {
    arrange::arranged(
        rows,
        |k: int| is_candidate(paths, rule, k),
        |a: int, b: int| path_before(paths, windows, a, b),
    )
}

pub open spec fn candidates(paths: Seq<KnownPath>, rule: RenameRule, windows: bool) -> Seq<int> {
    choose|rows: Seq<int>| is_candidate_order(rows, paths, rule, windows)
}

pub proof fn lemma_paths_strict(paths: Seq<KnownPath>, windows: bool)
    ensures
        arrange::strict(|a: int, b: int| path_before(paths, windows, a, b)),
{
    let before = |a: int, b: int| path_before(paths, windows, a, b);
    let key = |k: int| paths::path_id(paths[k].path@.text(), windows);
    assert forall|a: int, b: int| #![trigger before(a, b)] a != b implies before(a, b) != before(
        b,
        a,
    ) by {
        order::texts_are_consistent(key(a), key(b), key(a));
    }
    assert forall|a: int| #![trigger before(a, a)] !before(a, a) by {
        order::texts_are_consistent(key(a), key(a), key(a));
    }
    assert forall|a: int, b: int, c: int|
        #![trigger before(a, b), before(b, c)]
        before(a, b) && before(b, c) implies before(a, c) by {
        order::texts_are_consistent(key(a), key(b), key(c));
    }
}

/// There is only one order of the candidates.
pub proof fn candidate_order_is_unique(
    paths: Seq<KnownPath>,
    rule: RenameRule,
    windows: bool,
    rows: Seq<int>,
)
    requires
        is_candidate_order(rows, paths, rule, windows),
    ensures
        rows == candidates(paths, rule, windows),
        is_candidate_order(candidates(paths, rule, windows), paths, rule, windows),
{
    lemma_paths_strict(paths, windows);
    assert(is_candidate_order(candidates(paths, rule, windows), paths, rule, windows));
    arrange::arrangement_is_unique(
        rows,
        candidates(paths, rule, windows),
        |k: int| is_candidate(paths, rule, k),
        |a: int, b: int| path_before(paths, windows, a, b),
    );
}

spec fn candidate_below(paths: Seq<KnownPath>, rule: RenameRule, n: int) -> spec_fn(int) -> bool {
    |k: int| k < n && is_candidate(paths, rule, k)
}

spec fn before_in(paths: Seq<KnownPath>, windows: bool) -> spec_fn(int, int) -> bool {
    |a: int, b: int| path_before(paths, windows, a, b)
}

fn find_slot(
    paths: &[KnownPath],
    keys: &Vec<String>,
    rows: &Vec<usize>,
    x: usize,
    rule: RenameRule,
    windows: bool,
) -> (r: usize)
    requires
        x < paths@.len(),
        keys@.len() == paths@.len(),
        forall|k: int|
            0 <= k < keys@.len() ==> (#[trigger] keys@[k])@ == paths::path_id(
                paths@[k].path@.text(),
                windows,
            ),
        arrange::arranged(
            arrange::indices(rows@),
            candidate_below(paths@, rule, x as int),
            before_in(paths@, windows),
        ),
    ensures
        r <= rows@.len(),
        forall|i: int|
            0 <= i < r ==> before_in(paths@, windows)(
                #[trigger] arrange::indices(rows@)[i],
                x as int,
            ),
        forall|i: int|
            r <= i < rows@.len() ==> before_in(paths@, windows)(
                x as int,
                #[trigger] arrange::indices(rows@)[i],
            ),
{
    let ghost all = arrange::indices(rows@);
    let ghost before = before_in(paths@, windows);
    let ghost shown = candidate_below(paths@, rule, x as int);
    proof {
        lemma_paths_strict(paths@, windows);
        assert(before =~= (|a: int, b: int| path_before(paths@, windows, a, b)));
    }
    let mut low: usize = 0;
    let mut high: usize = rows.len();
    while low < high
        invariant
            low <= high <= rows@.len(),
            all == arrange::indices(rows@),
            before == before_in(paths@, windows),
            shown == candidate_below(paths@, rule, x as int),
            arrange::strict(before),
            arrange::arranged(all, shown, before),
            x < paths@.len(),
            keys@.len() == paths@.len(),
            forall|k: int|
                0 <= k < keys@.len() ==> (#[trigger] keys@[k])@ == paths::path_id(
                    paths@[k].path@.text(),
                    windows,
                ),
            forall|i: int| 0 <= i < low ==> before(#[trigger] all[i], x as int),
            forall|i: int| high <= i < rows@.len() ==> before(x as int, #[trigger] all[i]),
        decreases high - low,
    {
        let mid: usize = low + (high - low) / 2;
        let m: usize = rows[mid];
        assert(all[mid as int] == m);
        assert(shown(all[mid as int]));
        let o = compare_texts(keys[m].as_str(), keys[x].as_str());
        if o != Order::Greater {
            assert(before(m as int, x as int));
            assert forall|i: int| 0 <= i <= mid implies before(#[trigger] all[i], x as int) by {
                if i < mid {
                    assert(before(all[i], all[mid as int]));
                    assert(before(all[mid as int], x as int));
                    assert(before(all[i], x as int));
                }
            }
            low = mid + 1;
        } else {
            assert(!before(m as int, x as int));
            assert(before(x as int, m as int));
            assert forall|i: int| mid <= i < rows@.len() implies before(
                x as int,
                #[trigger] all[i],
            ) by {
                if i > mid {
                    assert(before(all[mid as int], all[i]));
                    assert(before(x as int, all[mid as int]));
                    assert(before(x as int, all[i]));
                }
            }
            high = mid;
        }
    }
    low
}

fn ordered_candidates(paths: &[KnownPath], rule: RenameRule, windows: bool) -> (r: Vec<usize>)
    ensures
        arrange::indices(r@) == candidates(paths@, rule, windows),
        forall|i: int|
            0 <= i < r@.len() ==> is_candidate(paths@, rule, (#[trigger] r@[i]) as int),
{
    let n: usize = paths.len();
    let mut keys: Vec<String> = Vec::new();
    let mut j: usize = 0;
    while j < n
        invariant
            j <= n,
            n == paths@.len(),
            keys@.len() == j,
            forall|k: int|
                0 <= k < j ==> (#[trigger] keys@[k])@ == paths::path_id(paths@[k].path@.text(), windows),
        decreases n - j,
    {
        let text = paths[j].path.to_text();
        keys.push(comparable_path(text.as_str(), windows));
        j += 1;
    }
    let mut rows: Vec<usize> = Vec::new();
    let mut k: usize = 0;
    proof {
        assert(arrange::indices(rows@) =~= Seq::<int>::empty());
        assert forall|i: int| #[trigger] candidate_below(paths@, rule, 0)(i) implies
            arrange::indices(rows@).contains(i) by {}
    }
    while k < n
        invariant
            k <= n,
            n == paths@.len(),
            keys@.len() == n,
            forall|k: int|
                0 <= k < keys@.len() ==> (#[trigger] keys@[k])@ == paths::path_id(
                    paths@[k].path@.text(),
                    windows,
                ),
            arrange::arranged(
                arrange::indices(rows@),
                candidate_below(paths@, rule, k as int),
                before_in(paths@, windows),
            ),
        decreases n - k,
    {
        let candidate = paths[k].is_file && find_new_name(
            rule,
            paths[k].path.name.as_str(),
        ).is_some();
        if candidate {
            let slot: usize = find_slot(paths, &keys, &rows, k, rule, windows);
            proof {
                arrange::lemma_indices_insert(rows@, slot as int, k);
                arrange::lemma_inserted(
                    arrange::indices(rows@),
                    k as int,
                    slot as int,
                    candidate_below(paths@, rule, k as int),
                    candidate_below(paths@, rule, k + 1),
                    before_in(paths@, windows),
                );
            }
            rows.insert(slot, k);
        } else {
            assert(candidate_below(paths@, rule, k as int) =~= candidate_below(
                paths@,
                rule,
                k + 1,
            ));
        }
        k += 1;
    }
    proof {
        let all = arrange::indices(rows@);
        let shown = |k: int| is_candidate(paths@, rule, k);
        assert(shown =~= candidate_below(paths@, rule, n as int));
        assert(before_in(paths@, windows) =~= (|a: int, b: int|
            path_before(paths@, windows, a, b)));
        assert(is_candidate_order(all, paths@, rule, windows));
        candidate_order_is_unique(paths@, rule, windows, all);
        assert forall|i: int| 0 <= i < rows@.len() implies is_candidate(
            paths@,
            rule,
            (#[trigger] rows@[i]) as int,
        ) by {
            assert(all[i] == rows@[i]);
            assert(shown(all[i]));
        }
    }
    rows
}

// Renames with numbers where names are taken.

/// The path that a candidate is to have.
pub open spec fn desired_path(path: PathModel, rule: RenameRule) -> PathModel {
    PathModel { folder: path.folder, name: new_name(rule, path.name)->0 }
}

/// A rename: the path of the file, and the path that it gets.
pub struct RenameModel {
    pub source: PathModel,
    pub target: PathModel,
}

pub open spec fn is_rename(r: PlannedRename, m: RenameModel) -> bool {
    r.source@ == m.source && r.target@ == m.target
}

pub open spec fn are_renames(r: Seq<PlannedRename>, m: Seq<RenameModel>) -> bool {
    &&& r.len() == m.len()
    &&& forall|i: int| 0 <= i < r.len() ==> is_rename(#[trigger] r[i], m[i])
}

/// The renames so far, what is reserved for them, and how many names are not
/// those that were wanted.
pub struct PlanModel {
    pub renames: Seq<RenameModel>,
    pub reserved: Set<Seq<char>>,
    pub deduplicated: int,
}

/// The first path among the first ones that is a candidate without a folder.
pub open spec fn first_without_folder(paths: Seq<KnownPath>, rule: RenameRule, k: int) -> Option<
    int,
>
    decreases paths.len() - k,
{
    if k < 0 || k >= paths.len() {
        None
    } else if is_candidate(paths, rule, k) && paths[k].path.folder is None {
        Some(k)
    } else {
        first_without_folder(paths, rule, k + 1)
    }
}

/// The renames of the first candidates.
pub open spec fn plan_of(
    paths: Seq<KnownPath>,
    rule: RenameRule,
    existing: Seq<String>,
    windows: bool,
    n: int,
) -> Result<PlanModel, Seq<char>>
    decreases n,
{
    if n <= 0 {
        Ok(PlanModel { renames: Seq::empty(), reserved: Set::empty(), deduplicated: 0 })
    } else {
        match plan_of(paths, rule, existing, windows, n - 1) {
            Err(e) => Err(e),
            Ok(plan) => {
                let source = paths[candidates(paths, rule, windows)[n - 1]].path@;
                let desired = desired_path(source, rule);
                let names = Names { reserved: plan.reserved, existing, allowed: None, windows };
                match file_path::resolved(names, desired) {
                    Err(e) => Err(e),
                    Ok(target) => Ok(
                        PlanModel {
                            renames: plan.renames.push(RenameModel { source, target }),
                            reserved: file_path::reserved_after(
                                names,
                                file_path::resolved(names, desired),
                            ),
                            deduplicated: plan.deduplicated + if target != desired {
                                1int
                            } else {
                                0
                            },
                        },
                    ),
                }
            },
        }
    }
}

/// The plan for all candidates.
pub open spec fn removal_plan(
    paths: Seq<KnownPath>,
    rule: RenameRule,
    existing: Seq<String>,
    windows: bool,
) -> Result<PlanModel, Seq<char>> {
    match first_without_folder(paths, rule, 0) {
        Some(k) => Err("Could not resolve the folder for "@ + paths[k].path@.text() + "."@),
        None => plan_of(
            paths,
            rule,
            existing,
            windows,
            candidates(paths, rule, windows).len() as int,
        ),
    }
}

/// What a plan comes to.
pub open spec fn plan_result(
    r: Result<RemovalPlan, String>,
    paths: Seq<KnownPath>,
    rule: RenameRule,
    existing: Seq<String>,
    windows: bool,
) -> bool {
    match r {
        Ok(p) => removal_plan(paths, rule, existing, windows) matches Ok(m) && are_renames(
            p.renames@,
            m.renames,
        ) && p.deduplicated == m.deduplicated && p.unmatched == unmatched_among(
            paths,
            rule,
            paths.len() as int,
        ),
        Err(e) => removal_plan(paths, rule, existing, windows) == Err::<PlanModel, Seq<char>>(e@),
    }
}

/// The counts of a plan.
pub open spec fn stats_result(
    r: Result<FrontRearNumberRemovalStats, String>,
    paths: Seq<KnownPath>,
    rule: RenameRule,
    existing: Seq<String>,
    windows: bool,
) -> bool {
    match r {
        Ok(s) => removal_plan(paths, rule, existing, windows) matches Ok(m) && s.renameable
            == m.renames.len() && s.deduplicated == m.deduplicated && s.unmatched
            == unmatched_among(paths, rule, paths.len() as int),
        Err(e) => removal_plan(paths, rule, existing, windows) == Err::<PlanModel, Seq<char>>(e@),
    }
}

proof fn lemma_without_folder(paths: Seq<KnownPath>, rule: RenameRule, k: int)
    requires
        0 <= k,
        first_without_folder(paths, rule, k) is None,
    ensures
        forall|j: int|
            k <= j < paths.len() && is_candidate(paths, rule, j) ==> (#[trigger] paths[
                j
            ]).path.folder is Some,
    decreases paths.len() - k,
{
    if k < paths.len() {
        lemma_without_folder(paths, rule, k + 1);
    }
}

fn check_folders(paths: &[KnownPath], rule: RenameRule) -> (r: Result<(), String>)
    ensures
        match r {
            Ok(_) => first_without_folder(paths@, rule, 0) is None,
            Err(e) => first_without_folder(paths@, rule, 0) matches Some(k) && e@
                == "Could not resolve the folder for "@ + paths@[k].path@.text() + "."@,
        },
{
    let n: usize = paths.len();
    let mut k: usize = 0;
    while k < n
        invariant
            k <= n,
            n == paths@.len(),
            first_without_folder(paths@, rule, 0) == first_without_folder(paths@, rule, k as int),
        decreases n - k,
    {
        if paths[k].path.folder.is_none() && paths[k].is_file && find_new_name(
            rule,
            paths[k].path.name.as_str(),
        ).is_some() {
            let mut message = "Could not resolve the folder for ".to_owned();
            message.append(paths[k].path.to_text().as_str());
            message.append(".");
            return Err(message);
        }
        k += 1;
    }
    Ok(())
}

fn count_unmatched(paths: &[KnownPath], rule: RenameRule) -> (r: usize)
    ensures
        r == unmatched_among(paths@, rule, paths@.len() as int),
{
    let n: usize = paths.len();
    let mut count: usize = 0;
    let mut k: usize = 0;
    while k < n
        invariant
            k <= n,
            n == paths@.len(),
            count <= k,
            count == unmatched_among(paths@, rule, k as int),
        decreases n - k,
    {
        if paths[k].is_file && find_new_name(rule, paths[k].path.name.as_str()).is_none() {
            count += 1;
        }
        k += 1;
    }
    count
}

proof fn lemma_plan_error(
    paths: Seq<KnownPath>,
    rule: RenameRule,
    existing: Seq<String>,
    windows: bool,
    k: int,
    n: int,
)
    requires
        0 <= k <= n,
        plan_of(paths, rule, existing, windows, k) is Err,
    ensures
        plan_of(paths, rule, existing, windows, n) == plan_of(paths, rule, existing, windows, k),
    decreases n - k,
{
    if k < n {
        lemma_plan_error(paths, rule, existing, windows, k, n - 1);
    }
}

fn candidate_target(path: &FilePath, rule: RenameRule) -> (r: FilePath)
    requires
        new_name(rule, path.name@) is Some,
    ensures
        r@ == desired_path(path@, rule),
{
    let name = match find_new_name(rule, path.name.as_str()) {
        Some(n) => n,
        None => String::new(),
    };
    FilePath {
        folder: match &path.folder {
            Some(f) => Some(f.clone()),
            None => None,
        },
        name,
    }
}

fn build_removal_plan(
    paths: &[KnownPath],
    rule: RenameRule,
    existing: &[String],
    windows: bool,
) -> (r: Result<RemovalPlan, String>)
    ensures
        plan_result(r, paths@, rule, existing@, windows),
{
    match check_folders(paths, rule) {
        Err(e) => {
            return Err(e);
        },
        Ok(_) => {},
    }
    let unmatched: usize = count_unmatched(paths, rule);
    let rows = ordered_candidates(paths, rule, windows);
    let ghost all = candidates(paths@, rule, windows);
    let n: usize = rows.len();
    assert(all.len() == n);
    let mut resolver = FilenameCollisionResolver::new(windows);
    let mut renames: Vec<PlannedRename> = Vec::new();
    let mut deduplicated: usize = 0;
    let mut i: usize = 0;
    while i < n
        invariant
            i <= n,
            n == rows@.len(),
            all == candidates(paths@, rule, windows),
            all == arrange::indices(rows@),
            n == all.len(),
            first_without_folder(paths@, rule, 0) is None,
            forall|k: int|
                0 <= k < rows@.len() ==> is_candidate(paths@, rule, (#[trigger] rows@[k]) as int),
            deduplicated <= i,
            resolver.windows == windows,
            plan_of(paths@, rule, existing@, windows, i as int) matches Ok(m) && are_renames(
                renames@,
                m.renames,
            ) && m.reserved == resolver.reserved_keys() && m.deduplicated == deduplicated,
        decreases n - i,
    {
        let row: usize = rows[i];
        assert(all[i as int] == row);
        assert(is_candidate(paths@, rule, row as int));
        let source = paths[row].path.clone();
        let desired = candidate_target(&source, rule);
        let target = match resolver.resolve_for_create(&desired, existing) {
            Ok(t) => t,
            Err(e) => {
                proof {
                    lemma_plan_error(paths@, rule, existing@, windows, i + 1, n as int);
                }
                return Err(e);
            },
        };
        if !same_path(&target, &desired) {
            deduplicated += 1;
        }
        renames.push(PlannedRename { source, target });
        i += 1;
    }
    Ok(RemovalPlan { renames, unmatched, deduplicated })
}

impl RemovalPlan {
    pub fn stats(&self) -> (r: FrontRearNumberRemovalStats)
        ensures
            r.renameable == self.renames@.len(),
            r.unmatched == self.unmatched,
            r.deduplicated == self.deduplicated,
    {
        FrontRearNumberRemovalStats {
            renameable: self.renames.len(),
            unmatched: self.unmatched,
            deduplicated: self.deduplicated,
        }
    }
}

fn plan_stats(
    paths: &[KnownPath],
    rule: RenameRule,
    existing: &[String],
    windows: bool,
) -> (r: Result<FrontRearNumberRemovalStats, String>)
    ensures
        stats_result(r, paths@, rule, existing@, windows),
{
    match build_removal_plan(paths, rule, existing, windows) {
        Ok(p) => Ok(p.stats()),
        Err(e) => Err(e),
    }
}

/// What would come of taking numbers away, given the paths that exist.
pub fn analyze_front_or_rear_number_removal(
    paths: &[KnownPath],
    existing: &[String],
    windows: bool,
) -> (r: Result<FrontRearNumberRemovalStats, String>)
    ensures
        stats_result(r, paths@, RenameRule::WithoutNumbers, existing@, windows),
{
    plan_stats(paths, RenameRule::WithoutNumbers, existing, windows)
}

/// The renames that take numbers away.
pub fn remove_front_or_rear_numbers(
    paths: &[KnownPath],
    existing: &[String],
    windows: bool,
) -> (r: Result<RemovalPlan, String>)
    ensures
        plan_result(r, paths@, RenameRule::WithoutNumbers, existing@, windows),
{
    build_removal_plan(paths, RenameRule::WithoutNumbers, existing, windows)
}

/// What would come of taking the prefixes of cameras away.
pub fn analyze_img_vid_prefix_removal(
    paths: &[KnownPath],
    existing: &[String],
    windows: bool,
) -> (r: Result<MediaPrefixRemovalStats, String>)
    ensures
        stats_result(r, paths@, RenameRule::WithoutPrefix, existing@, windows),
{
    plan_stats(paths, RenameRule::WithoutPrefix, existing, windows)
}

/// The renames that take the prefixes of cameras away.
pub fn remove_img_vid_prefixes(
    paths: &[KnownPath],
    existing: &[String],
    windows: bool,
) -> (r: Result<RemovalPlan, String>)
    ensures
        plan_result(r, paths@, RenameRule::WithoutPrefix, existing@, windows),
{
    build_removal_plan(paths, RenameRule::WithoutPrefix, existing, windows)
}

/// No two files of a plan get the same name, and none gets that of a file that
/// exists.
pub proof fn planned_targets_are_free(
    paths: Seq<KnownPath>,
    rule: RenameRule,
    existing: Seq<String>,
    windows: bool,
    n: int,
)
    requires
        plan_of(paths, rule, existing, windows, n) is Ok,
    ensures
        ({
            let plan = plan_of(paths, rule, existing, windows, n)->Ok_0;
            &&& forall|i: int|
                0 <= i < plan.renames.len() ==> plan.reserved.contains(
                    file_path::path_key((#[trigger] plan.renames[i]).target.text(), windows),
                )
            &&& forall|i: int|
                0 <= i < plan.renames.len() ==> !file_path::exists_path(
                    existing,
                    (#[trigger] plan.renames[i]).target.text(),
                    windows,
                )
            &&& forall|i: int, j: int|
                0 <= i < j < plan.renames.len() ==> file_path::path_key(
                    (#[trigger] plan.renames[i]).target.text(),
                    windows,
                ) != file_path::path_key((#[trigger] plan.renames[j]).target.text(), windows)
        }),
    decreases n,
{
    if n > 0 {
        planned_targets_are_free(paths, rule, existing, windows, n - 1);
        let plan = plan_of(paths, rule, existing, windows, n - 1)->Ok_0;
        let source = paths[candidates(paths, rule, windows)[n - 1]].path@;
        let names = Names { reserved: plan.reserved, existing, allowed: None, windows };
        file_path::resolved_name_is_free(names, desired_path(source, rule));
    }
}

// Renames that may not meet a name that is taken.

/// The renames of all candidates.
pub open spec fn plain_renames(paths: Seq<KnownPath>, rule: RenameRule, windows: bool) -> Seq<
    RenameModel,
> {
    let rows = candidates(paths, rule, windows);
    Seq::new(
        rows.len(),
        |i: int|
            RenameModel {
                source: paths[rows[i]].path@,
                target: desired_path(paths[rows[i]].path@, rule),
            },
    )
}

/// An earlier rename leads to the same path.
pub open spec fn target_repeated(plan: Seq<RenameModel>, windows: bool, k: int) -> bool {
    exists|j: int|
        0 <= j < k && file_path::path_key((#[trigger] plan[j]).target.text(), windows)
            == file_path::path_key(plan[k].target.text(), windows)
}

/// A path that a rename leads to is one that a rename frees.
pub open spec fn target_is_source(plan: Seq<RenameModel>, windows: bool, k: int) -> bool {
    exists|j: int|
        0 <= j < plan.len() && file_path::path_key((#[trigger] plan[j]).source.text(), windows)
            == file_path::path_key(plan[k].target.text(), windows)
}

/// What is wrong with a plan, from a rename on.
pub open spec fn plan_fault(
    plan: Seq<RenameModel>,
    existing: Seq<String>,
    windows: bool,
    k: int,
) -> Option<Seq<char>>
    decreases plan.len() - k,
{
    if k < 0 || k >= plan.len() {
        None
    } else if target_repeated(plan, windows, k) {
        Some("Multiple files would become "@ + plan[k].target.text() + "."@)
    } else if file_path::exists_path(existing, plan[k].target.text(), windows)
        && !target_is_source(plan, windows, k) {
        Some("A target file already exists: "@ + plan[k].target.text())
    } else {
        plan_fault(plan, existing, windows, k + 1)
    }
}

/// The renames that move numbers to the front, or what stands against them.
pub open spec fn trailing_plan(
    paths: Seq<KnownPath>,
    existing: Seq<String>,
    windows: bool,
) -> Result<Seq<RenameModel>, Seq<char>> {
    let rule = RenameRule::TrailingNumberToFront;
    let plan = plain_renames(paths, rule, windows);
    match first_without_folder(paths, rule, 0) {
        Some(k) => Err("Could not resolve the folder for "@ + paths[k].path@.text() + "."@),
        None => match plan_fault(plan, existing, windows, 0) {
            Some(e) => Err(e),
            None => Ok(plan),
        },
    }
}

fn check_repeated(keys: &Vec<String>, k: usize) -> (r: bool)
    requires
        k < keys@.len(),
    ensures
        r == exists|j: int| 0 <= j < k && (#[trigger] keys@[j])@ == keys@[k as int]@,
{
    let mut j: usize = 0;
    while j < k
        invariant
            j <= k,
            k < keys@.len(),
            forall|i: int| 0 <= i < j ==> (#[trigger] keys@[i])@ != keys@[k as int]@,
        decreases k - j,
    {
        if same_text(keys[j].as_str(), keys[k].as_str()) {
            return true;
        }
        j += 1;
    }
    false
}

fn check_source(keys: &Vec<String>, key: &str) -> (r: bool)
    ensures
        r == exists|j: int| 0 <= j < keys@.len() && (#[trigger] keys@[j])@ == key@,
{
    let n: usize = keys.len();
    let mut j: usize = 0;
    while j < n
        invariant
            j <= n,
            n == keys@.len(),
            forall|i: int| 0 <= i < j ==> (#[trigger] keys@[i])@ != key@,
        decreases n - j,
    {
        if same_text(keys[j].as_str(), key) {
            return true;
        }
        j += 1;
    }
    false
}

fn validate_rename_plan(plan: &Vec<PlannedRename>, existing: &[String], windows: bool, Ghost(m): Ghost<Seq<RenameModel>>) -> (r:
    Result<(), String>)
    requires
        are_renames(plan@, m),
    ensures
        match r {
            Ok(_) => plan_fault(m, existing@, windows, 0) is None,
            Err(e) => plan_fault(m, existing@, windows, 0) == Some(e@),
        },
{
    let n: usize = plan.len();
    let mut sources: Vec<String> = Vec::new();
    let mut targets: Vec<String> = Vec::new();
    let mut i: usize = 0;
    while i < n
        invariant
            i <= n,
            n == plan@.len(),
            are_renames(plan@, m),
            sources@.len() == i,
            targets@.len() == i,
            forall|k: int|
                0 <= k < i ==> (#[trigger] sources@[k])@ == file_path::path_key(
                    m[k].source.text(),
                    windows,
                ),
            forall|k: int|
                0 <= k < i ==> (#[trigger] targets@[k])@ == file_path::path_key(
                    m[k].target.text(),
                    windows,
                ),
        decreases n - i,
    {
        assert(is_rename(plan@[i as int], m[i as int]));
        sources.push(comparable_path_key(plan[i].source.to_text().as_str(), windows));
        targets.push(comparable_path_key(plan[i].target.to_text().as_str(), windows));
        i += 1;
    }
    let mut k: usize = 0;
    while k < n
        invariant
            k <= n,
            n == plan@.len(),
            are_renames(plan@, m),
            sources@.len() == n,
            targets@.len() == n,
            forall|k: int|
                0 <= k < n ==> (#[trigger] sources@[k])@ == file_path::path_key(
                    m[k].source.text(),
                    windows,
                ),
            forall|k: int|
                0 <= k < n ==> (#[trigger] targets@[k])@ == file_path::path_key(
                    m[k].target.text(),
                    windows,
                ),
            plan_fault(m, existing@, windows, 0) == plan_fault(
                m,
                existing@,
                windows,
                k as int,
            ),
        decreases n - k,
    {
        assert(is_rename(plan@[k as int], m[k as int]));
        let repeated = check_repeated(&targets, k);
        proof {
            assert(repeated == target_repeated(m, windows, k as int)) by {
                if repeated {
                    let j = choose|j: int|
                        0 <= j < k && (#[trigger] targets@[j])@ == targets@[k as int]@;
                    assert(file_path::path_key(m[j].target.text(), windows)
                        == file_path::path_key(m[k as int].target.text(), windows));
                }
                if target_repeated(m, windows, k as int) {
                    let j = choose|j: int|
                        0 <= j < k && file_path::path_key(
                            (#[trigger] m[j]).target.text(),
                            windows,
                        ) == file_path::path_key(m[k as int].target.text(), windows);
                    assert(targets@[j]@ == targets@[k as int]@);
                }
            }
        }
        let target = plan[k].target.to_text();
        if repeated {
            let mut message = "Multiple files would become ".to_owned();
            message.append(target.as_str());
            message.append(".");
            return Err(message);
        }
        let freed = check_source(&sources, targets[k].as_str());
        proof {
            assert(freed == target_is_source(m, windows, k as int)) by {
                if freed {
                    let j = choose|j: int|
                        0 <= j < sources@.len() && (#[trigger] sources@[j])@
                            == targets@[k as int]@;
                    assert(file_path::path_key(m[j].source.text(), windows)
                        == file_path::path_key(m[k as int].target.text(), windows));
                }
                if target_is_source(m, windows, k as int) {
                    let j = choose|j: int|
                        0 <= j < m.len() && file_path::path_key(
                            (#[trigger] m[j]).source.text(),
                            windows,
                        ) == file_path::path_key(m[k as int].target.text(), windows);
                    assert(sources@[j]@ == targets@[k as int]@);
                }
            }
        }
        if path_exists(existing, target.as_str(), windows) && !freed {
            let mut message = "A target file already exists: ".to_owned();
            message.append(target.as_str());
            return Err(message);
        }
        k += 1;
    }
    Ok(())
}

/// The renames that move the number at the end of a name to its front.
pub fn move_trailing_numbers_to_front(
    paths: &[KnownPath],
    existing: &[String],
    windows: bool,
) -> (r: Result<Vec<PlannedRename>, String>)
    ensures
        match r {
            Ok(p) => trailing_plan(paths@, existing@, windows) matches Ok(m) && are_renames(p@, m),
            Err(e) => trailing_plan(paths@, existing@, windows) == Err::<
                Seq<RenameModel>,
                Seq<char>,
            >(e@),
        },
{
    let rule = RenameRule::TrailingNumberToFront;
    match check_folders(paths, rule) {
        Err(e) => {
            return Err(e);
        },
        Ok(_) => {},
    }
    let rows = ordered_candidates(paths, rule, windows);
    let ghost all = candidates(paths@, rule, windows);
    let ghost m = plain_renames(paths@, rule, windows);
    let n: usize = rows.len();
    assert(all.len() == n);
    let mut plan: Vec<PlannedRename> = Vec::new();
    let mut i: usize = 0;
    while i < n
        invariant
            i <= n,
            n == rows@.len(),
            n == all.len(),
            rule == RenameRule::TrailingNumberToFront,
            all == candidates(paths@, rule, windows),
            all == arrange::indices(rows@),
            m == plain_renames(paths@, rule, windows),
            forall|k: int|
                0 <= k < rows@.len() ==> is_candidate(paths@, rule, (#[trigger] rows@[k]) as int),
            plan@.len() == i,
            forall|k: int| 0 <= k < i ==> is_rename(#[trigger] plan@[k], m[k]),
        decreases n - i,
    {
        let row: usize = rows[i];
        assert(all[i as int] == row);
        assert(is_candidate(paths@, rule, row as int));
        let source = paths[row].path.clone();
        let target = candidate_target(&source, rule);
        plan.push(PlannedRename { source, target });
        i += 1;
    }
    match validate_rename_plan(&plan, existing, windows, Ghost(m)) {
        Ok(_) => Ok(plan),
        Err(e) => Err(e),
    }
}

/// How many files have a number that can be moved to the front.
pub fn trailing_number_rename_candidate_count(
    paths: &[KnownPath],
    existing: &[String],
    windows: bool,
) -> (r: Result<usize, String>)
    ensures
        match r {
            Ok(n) => trailing_plan(paths@, existing@, windows) matches Ok(m) && n == m.len(),
            Err(e) => trailing_plan(paths@, existing@, windows) == Err::<
                Seq<RenameModel>,
                Seq<char>,
            >(e@),
        },
{
    match move_trailing_numbers_to_front(paths, existing, windows) {
        Ok(p) => Ok(p.len()),
        Err(e) => Err(e),
    }
}

/// In a plan that nothing stands against no two files get the same name, and
/// a name that exists is that of a file of the plan.
pub proof fn sound_plan_overwrites_nothing(
    plan: Seq<RenameModel>,
    existing: Seq<String>,
    windows: bool,
    k: int,
)
    requires
        0 <= k,
        plan_fault(plan, existing, windows, k) is None,
    ensures
        forall|i: int|
            k <= i < plan.len() ==> {
                &&& !target_repeated(plan, windows, i)
                &&& file_path::exists_path(
                    existing,
                    (#[trigger] plan[i]).target.text(),
                    windows,
                ) ==> target_is_source(plan, windows, i)
            },
    decreases plan.len() - k,
{
    if k < plan.len() {
        sound_plan_overwrites_nothing(plan, existing, windows, k + 1);
    }
}

} // verus!
