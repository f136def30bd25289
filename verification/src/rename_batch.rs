//! Renaming many files as one: each file is first moved out of the way, then
//! to its new name, and when a step fails all that was done is undone.
use crate::file_path::{self, path_exists, PathModel};
use crate::file_selection;
use crate::rename_plan::PlannedRename;
use crate::text::{self, decimal_text, joined_text};
use vstd::prelude::*;

verus! {

/// What is done next: a file is moved out of the way, or to its new name, or
/// one of these moves is undone. The number counts the files, and for a move
/// that is undone the files for which it is still to be undone.
#[derive(Clone, Copy, Debug, PartialEq, Eq, Structural)]
pub enum BatchStep {
    Stage(usize),
    Commit(usize),
    Uncommit(usize),
    Unstage(usize),
    Done,
}

/// A rename in progress.
#[derive(Debug)]
pub struct RenameBatch {
    pub sources: Vec<String>,
    pub targets: Vec<String>,
    pub temporaries: Vec<String>,
    pub step: BatchStep,
    pub failed_commit: bool,
    pub error: Option<String>,
}

/// A file that is to be moved next. It may be left alone if it is not there.
#[derive(Debug)]
pub struct RenameAction {
    pub from: String,
    pub to: String,
    pub only_if_present: bool,
}

/// A rename in progress, as texts.
pub struct BatchModel {
    pub sources: Seq<Seq<char>>,
    pub targets: Seq<Seq<char>>,
    pub temporaries: Seq<Seq<char>>,
    pub step: BatchStep,
    pub failed_commit: bool,
    pub error: Option<Seq<char>>,
}

/// A move of a file.
pub struct ActionModel {
    pub from: Seq<char>,
    pub to: Seq<char>,
    pub only_if_present: bool,
}

impl View for RenameBatch {
    type V = BatchModel;

    open spec fn view(&self) -> BatchModel {
        BatchModel {
            sources: file_selection::text_views(self.sources@),
            targets: file_selection::text_views(self.targets@),
            temporaries: file_selection::text_views(self.temporaries@),
            step: self.step,
            failed_commit: self.failed_commit,
            error: match self.error {
                Some(e) => Some(e@),
                None => None,
            },
        }
    }
}

impl BatchModel {
    /// The lists belong together, and the step is one of theirs.
    pub open spec fn well_formed(self) -> bool {
        let n = self.sources.len();
        &&& self.targets.len() == n
        &&& self.temporaries.len() == n
        &&& match self.step {
            BatchStep::Stage(k) => k < n && self.error is None,
            BatchStep::Commit(k) => k < n && self.error is None,
            BatchStep::Uncommit(k) => 0 < k < n && self.error is Some,
            BatchStep::Unstage(k) => 0 < k <= n && self.error is Some,
            BatchStep::Done => true,
        }
    }

    /// The move that is to be made next.
    pub open spec fn action(self) -> Option<ActionModel> {
        match self.step {
            BatchStep::Stage(k) => Some(
                ActionModel {
                    from: self.sources[k as int],
                    to: self.temporaries[k as int],
                    only_if_present: false,
                },
            ),
            BatchStep::Commit(k) => Some(
                ActionModel {
                    from: self.temporaries[k as int],
                    to: self.targets[k as int],
                    only_if_present: false,
                },
            ),
            BatchStep::Uncommit(k) => Some(
                ActionModel {
                    from: self.targets[k - 1],
                    to: self.temporaries[k - 1],
                    only_if_present: false,
                },
            ),
            BatchStep::Unstage(k) => Some(
                ActionModel {
                    from: self.temporaries[k - 1],
                    to: self.sources[k - 1],
                    only_if_present: self.failed_commit,
                },
            ),
            BatchStep::Done => None,
        }
    }

    /// What comes after a move, which may have failed.
    pub open spec fn after(self, failure: Option<Seq<char>>) -> BatchModel {
        let n = self.sources.len();
        match self.step {
            BatchStep::Stage(k) => match failure {
                None => BatchModel {
                    step: if k + 1 < n {
                        BatchStep::Stage((k + 1) as usize)
                    } else {
                        BatchStep::Commit(0)
                    },
                    ..self
                },
                Some(e) => BatchModel {
                    step: unstage_from(k),
                    error: Some("Failed to stage "@ + self.sources[k as int] + ": "@ + e),
                    ..self
                },
            },
            BatchStep::Commit(k) => match failure {
                None => BatchModel {
                    step: if k + 1 < n {
                        BatchStep::Commit((k + 1) as usize)
                    } else {
                        BatchStep::Done
                    },
                    ..self
                },
                Some(e) => BatchModel {
                    step: uncommit_from(k, n as usize),
                    failed_commit: true,
                    error: Some("Failed to rename to "@ + self.targets[k as int] + ": "@ + e),
                    ..self
                },
            },
            BatchStep::Uncommit(k) => BatchModel {
                step: uncommit_from((k - 1) as usize, n as usize),
                ..self
            },
            BatchStep::Unstage(k) => BatchModel { step: unstage_from((k - 1) as usize), ..self },
            BatchStep::Done => self,
        }
    }
}

/// The step that undoes the moves out of the way of the first files.
pub open spec fn unstage_from(k: usize) -> BatchStep {
    if k == 0 {
        BatchStep::Done
    } else {
        BatchStep::Unstage(k)
    }
}

/// The step that undoes the moves of the first of all files to their new names.
pub open spec fn uncommit_from(k: usize, n: usize) -> BatchStep {
    if k == 0 {
        unstage_from(n)
    } else {
        BatchStep::Uncommit(k)
    }
}

fn unstage_step(k: usize) -> (r: BatchStep)
    ensures
        r == unstage_from(k),
{
    if k == 0 {
        BatchStep::Done
    } else {
        BatchStep::Unstage(k)
    }
}

fn uncommit_step(k: usize, n: usize) -> (r: BatchStep)
    ensures
        r == uncommit_from(k, n),
{
    if k == 0 {
        unstage_step(n)
    } else {
        BatchStep::Uncommit(k)
    }
}

/// The name under which a file is out of the way.
pub open spec fn temporary_name(process: nat, index: nat, attempt: nat) -> Seq<char> {
    ".sh148_exif_file_tool_rename_"@ + text::decimal(process) + "_"@ + text::decimal(index)
        + "_"@ + text::decimal(attempt) + ".tmp"@
}

pub fn temporary_rename_name(process: u32, index: usize, attempt: usize) -> (r: String)
    ensures
        r@ == temporary_name(process as nat, index as nat, attempt as nat),
{
    let mut out = ".sh148_exif_file_tool_rename_".to_owned();
    out.append(decimal_text(process as u64).as_str());
    out.append("_");
    out.append(decimal_text(index as u64).as_str());
    out.append("_");
    out.append(decimal_text(attempt as u64).as_str());
    out.append(".tmp");
    out
}

/// A name under which a file is out of the way has two dots, and the digits of its
/// number stand between underscores.
proof fn lemma_temporary_name(process: nat, index: nat, attempt: nat)
    ensures
        ({
            let name = temporary_name(process, index, attempt);
            let head = ".sh148_exif_file_tool_rename_"@ + text::decimal(process) + "_"@;
            let digits = text::decimal(index);
            let n = name.len() as int;
            &&& name[0] == '.'
            &&& n > 8
            &&& forall|k: int| 0 < k < n && #[trigger] name[k] == '.' ==> k == n - 4
            &&& forall|k: int| 0 <= k < head.len() ==> #[trigger] name[k] == head[k]
            &&& forall|k: int| 0 <= k < digits.len() ==> name[head.len() + k] == #[trigger] digits[k]
            &&& name[(head.len() + digits.len()) as int] == '_'
            &&& head.len() + digits.len() < n
        }),
{
    reveal_strlit(".sh148_exif_file_tool_rename_");
    reveal_strlit("_");
    reveal_strlit(".tmp");
    text::decimal_reads_back(process);
    text::decimal_reads_back(index);
    text::decimal_reads_back(attempt);
    let start = ".sh148_exif_file_tool_rename_"@;
    let a = text::decimal(process);
    let b = text::decimal(index);
    let c = text::decimal(attempt);
    let name = temporary_name(process, index, attempt);
    let n = name.len() as int;
    let p1 = start.len() as int;
    let p2 = p1 + a.len() as int;
    let p3 = p2 + 1 + b.len() as int;
    let p4 = p3 + 1 + c.len() as int;
    assert(n == p4 + 4);
    assert forall|k: int| 0 < k < n && #[trigger] name[k] == '.' implies k == n - 4 by {
        if k < p1 {
            assert(name[k] == start[k]);
        } else if k < p2 {
            assert(name[k] == a[k - p1]);
            assert(text::is_digit(a[k - p1]));
        } else if k == p2 {
            assert(name[k] == '_');
        } else if k < p3 {
            assert(name[k] == b[k - p2 - 1]);
            assert(text::is_digit(b[k - p2 - 1]));
        } else if k == p3 {
            assert(name[k] == '_');
        } else if k < p4 {
            assert(name[k] == c[k - p3 - 1]);
            assert(text::is_digit(c[k - p3 - 1]));
        } else {
            assert(name[k] == ".tmp"@[k - p4]);
        }
    }
}

/// The names under which different files are out of the way differ.
pub proof fn temporary_names_differ(process: nat, i: nat, a: nat, j: nat, b: nat)
    requires
        i != j,
    ensures
        temporary_name(process, i, a) != temporary_name(process, j, b),
{
    let x = temporary_name(process, i, a);
    let y = temporary_name(process, j, b);
    if x == y {
        lemma_temporary_name(process, i, a);
        lemma_temporary_name(process, j, b);
        text::decimal_reads_back(i);
        text::decimal_reads_back(j);
        let h = (".sh148_exif_file_tool_rename_"@ + text::decimal(process) + "_"@).len() as int;
        let d = text::decimal(i);
        let e = text::decimal(j);
        if d.len() < e.len() {
            assert(x[h + d.len()] == '_');
            assert(y[h + d.len()] == e[d.len() as int]);
            assert(text::is_digit(e[d.len() as int]));
        } else if e.len() < d.len() {
            assert(y[h + e.len()] == '_');
            assert(x[h + e.len()] == d[e.len() as int]);
            assert(text::is_digit(d[e.len() as int]));
        } else {
            assert forall|k: int| 0 <= k < d.len() implies d[k] == e[k] by {
                assert(x[h + k] == d[k]);
                assert(y[h + k] == e[k]);
            }
            assert(d =~= e);
        }
    }
}

/// The paths under which different files are out of the way differ, whatever
/// their folders are.
pub proof fn temporary_paths_differ(
    f: Seq<char>,
    g: Seq<char>,
    process: nat,
    i: nat,
    a: nat,
    j: nat,
    b: nat,
)
    requires
        i != j,
    ensures
        f + temporary_name(process, i, a) != g + temporary_name(process, j, b),
{
    let x = temporary_name(process, i, a);
    let y = temporary_name(process, j, b);
    lemma_temporary_name(process, i, a);
    lemma_temporary_name(process, j, b);
    if f + x == g + y {
        let s = f + x;
        let t = g + y;
        assert(s.len() == t.len());
        if f.len() == g.len() {
            assert forall|k: int| 0 <= k < x.len() implies x[k] == y[k] by {
                assert(s[f.len() + k] == x[k]);
                assert(t[g.len() + k] == y[k]);
            }
            assert(x =~= y);
            temporary_names_differ(process, i, a, j, b);
        } else if f.len() < g.len() {
            let k = g.len() - f.len();
            assert(s[g.len() as int] == x[k]);
            assert(t[g.len() as int] == y[0]);
        } else {
            let k = f.len() - g.len();
            assert(t[f.len() as int] == y[k]);
            assert(s[f.len() as int] == x[0]);
        }
    }
}

/// The first number, from one on, with which the name is free under which a file
/// of a folder is out of the way.
pub open spec fn free_attempt(
    folder: Seq<char>,
    process: nat,
    index: nat,
    existing: Seq<String>,
    windows: bool,
    attempt: int,
) -> Option<int>
    decreases usize::MAX - attempt,
{
    if attempt < 0 || attempt >= usize::MAX {
        None
    } else if file_path::exists_path(
        existing,
        folder + temporary_name(process, index, attempt as nat),
        windows,
    ) {
        free_attempt(folder, process, index, existing, windows, attempt + 1)
    } else {
        Some(attempt)
    }
}

/// The paths under which the first of some files are out of the way: each in its
/// folder, with the first number that is free.
pub open spec fn chosen_temporaries(
    sources: Seq<PathModel>,
    process: nat,
    existing: Seq<String>,
    windows: bool,
    n: int,
) -> Result<Seq<Seq<char>>, Seq<char>>
    decreases n,
{
    if n <= 0 {
        Ok(Seq::empty())
    } else {
        match chosen_temporaries(sources, process, existing, windows, n - 1) {
            Err(e) => Err(e),
            Ok(before) => match sources[n - 1].folder {
                None => Err(
                    "Could not resolve the folder for "@ + sources[n - 1].text() + "."@,
                ),
                Some(f) => match free_attempt(
                    f,
                    process,
                    (n - 1) as nat,
                    existing,
                    windows,
                    0,
                ) {
                    None => Err("No temporary name is free."@),
                    Some(a) => Ok(
                        before.push(f + temporary_name(process, (n - 1) as nat, a as nat)),
                    ),
                },
            },
        }
    }
}

fn find_free_path(
    folder: &str,
    process: u32,
    index: usize,
    existing: &[String],
    windows: bool,
) -> (r: Option<String>)
    ensures
        match r {
            Some(p) => free_attempt(
                folder@,
                process as nat,
                index as nat,
                existing@,
                windows,
                0,
            ) matches Some(a) && p@ == folder@ + temporary_name(
                process as nat,
                index as nat,
                a as nat,
            ),
            None => free_attempt(
                folder@,
                process as nat,
                index as nat,
                existing@,
                windows,
                0,
            ) is None,
        },
{
    let mut attempt: usize = 0;
    while attempt < usize::MAX
        invariant
            free_attempt(folder@, process as nat, index as nat, existing@, windows, 0)
                == free_attempt(
                folder@,
                process as nat,
                index as nat,
                existing@,
                windows,
                attempt as int,
            ),
        decreases usize::MAX - attempt,
    {
        let name = temporary_rename_name(process, index, attempt);
        let path = joined_text(folder, name.as_str());
        if !path_exists(existing, path.as_str(), windows) {
            return Some(path);
        }
        attempt += 1;
    }
    None
}

pub open spec fn plan_sources(plan: Seq<PlannedRename>) -> Seq<PathModel> {
    Seq::new(plan.len(), |i: int| plan[i].source@)
}

/// The paths under which the files of a plan are out of the way, given the paths
/// that exist.
pub fn temporary_paths(
    plan: &Vec<PlannedRename>,
    process: u32,
    existing: &[String],
    windows: bool,
) -> (r: Result<Vec<String>, String>)
    ensures
        ({
            let chosen = chosen_temporaries(
                plan_sources(plan@),
                process as nat,
                existing@,
                windows,
                plan@.len() as int,
            );
            match r {
                Ok(t) => chosen == Ok::<Seq<Seq<char>>, Seq<char>>(
                    file_selection::text_views(t@),
                ) && t@.len() == plan@.len(),
                Err(e) => chosen == Err::<Seq<Seq<char>>, Seq<char>>(e@),
            }
        }),
{
    let ghost sources = plan_sources(plan@);
    let n: usize = plan.len();
    let mut out: Vec<String> = Vec::new();
    let mut i: usize = 0;
    assert(file_selection::text_views(out@) =~= Seq::<Seq<char>>::empty());
    while i < n
        invariant
            i <= n,
            n == plan@.len(),
            sources == plan_sources(plan@),
            out@.len() == i,
            chosen_temporaries(sources, process as nat, existing@, windows, i as int) == Ok::<
                Seq<Seq<char>>,
                Seq<char>,
            >(file_selection::text_views(out@)),
        decreases n - i,
    {
        let ghost before = file_selection::text_views(out@);
        assert(sources[i as int] == plan@[i as int].source@);
        let ghost next = chosen_temporaries(
            sources,
            process as nat,
            existing@,
            windows,
            i + 1,
        );
        match &plan[i].source.folder {
            None => {
                let mut message = "Could not resolve the folder for ".to_owned();
                message.append(plan[i].source.to_text().as_str());
                message.append(".");
                proof {
                    assert(next == Err::<Seq<Seq<char>>, Seq<char>>(message@));
                    lemma_first_error(
                        sources,
                        process as nat,
                        existing@,
                        windows,
                        i + 1,
                        n as int,
                    );
                }
                return Err(message);
            },
            Some(f) => match find_free_path(f.as_str(), process, i, existing, windows) {
                None => {
                    proof {
                        assert(next is Err);
                        lemma_first_error(
                            sources,
                            process as nat,
                            existing@,
                            windows,
                            i + 1,
                            n as int,
                        );
                    }
                    return Err("No temporary name is free.".to_owned());
                },
                Some(p) => {
                    let ghost view = p@;
                    out.push(p);
                    assert(file_selection::text_views(out@) =~= before.push(view));
                },
            },
        }
        i += 1;
    }
    Ok(out)
}

proof fn lemma_first_error(
    sources: Seq<PathModel>,
    process: nat,
    existing: Seq<String>,
    windows: bool,
    k: int,
    n: int,
)
    requires
        0 < k <= n,
        chosen_temporaries(sources, process, existing, windows, k) is Err,
    ensures
        chosen_temporaries(sources, process, existing, windows, n) == chosen_temporaries(
            sources,
            process,
            existing,
            windows,
            k,
        ),
    decreases n - k,
{
    if k < n {
        lemma_first_error(sources, process, existing, windows, k, n - 1);
    }
}

proof fn lemma_free_attempt(
    folder: Seq<char>,
    process: nat,
    index: nat,
    existing: Seq<String>,
    windows: bool,
    attempt: int,
)
    ensures
        free_attempt(folder, process, index, existing, windows, attempt) matches Some(a) ==> 0 <= a
            && !file_path::exists_path(
            existing,
            folder + temporary_name(process, index, a as nat),
            windows,
        ),
    decreases usize::MAX - attempt,
{
    if 0 <= attempt < usize::MAX {
        lemma_free_attempt(folder, process, index, existing, windows, attempt + 1);
    }
}

proof fn lemma_attempts_differ(process: nat, index: nat, a: nat, b: nat)
    requires
        a != b,
    ensures
        temporary_name(process, index, a) != temporary_name(process, index, b),
{
    let x = temporary_name(process, index, a);
    let y = temporary_name(process, index, b);
    if x == y {
        let head = ".sh148_exif_file_tool_rename_"@ + text::decimal(process) + "_"@
            + text::decimal(index) + "_"@;
        let h = head.len() as int;
        let d = text::decimal(a);
        let e = text::decimal(b);
        assert(x == head + d + ".tmp"@);
        assert(y == head + e + ".tmp"@);
        assert(d.len() == e.len());
        assert forall|k: int| 0 <= k < d.len() implies d[k] == e[k] by {
            assert(x[h + k] == d[k]);
            assert(y[h + k] == e[k]);
        }
        assert(d =~= e);
        text::decimal_reads_back(a);
        text::decimal_reads_back(b);
    }
}

proof fn lemma_all_taken(
    folder: Seq<char>,
    process: nat,
    index: nat,
    existing: Seq<String>,
    windows: bool,
    attempt: int,
    a: int,
)
    requires
        free_attempt(folder, process, index, existing, windows, attempt) is None,
        0 <= attempt <= a < usize::MAX,
    ensures
        file_path::exists_path(
            existing,
            folder + temporary_name(process, index, a as nat),
            windows,
        ),
    decreases a - attempt,
{
    if attempt < a {
        lemma_all_taken(folder, process, index, existing, windows, attempt + 1, a);
    }
}

/// Names under which a file can be out of the way do not run out, where capital
/// letters matter.
pub proof fn temporary_names_do_not_run_out(
    folder: Seq<char>,
    process: nat,
    index: nat,
    existing: Seq<String>,
)
    requires
        existing.len() < usize::MAX,
    ensures
        free_attempt(folder, process, index, existing, false, 0) is Some,
{
    if free_attempt(folder, process, index, existing, false, 0) is None {
        let path = |a: int| folder + temporary_name(process, index, a as nat);
        let place = |a: int| choose|i: int| 0 <= i < existing.len() && existing[i]@ == path(a);
        let count = existing.len() + 1;
        let places = Seq::new(count, |a: int| place(a));
        assert forall|a: int| 0 <= a < count implies 0 <= #[trigger] places[a] < existing.len()
            && existing[places[a]]@ == path(a) by {
            lemma_all_taken(folder, process, index, existing, false, 0, a);
            let i = choose|i: int|
                0 <= i < existing.len() && file_path::path_key(
                    (#[trigger] existing[i])@,
                    false,
                ) == file_path::path_key(path(a), false);
            assert(existing[i]@ == path(a));
        }
        assert forall|a: int, b: int| 0 <= a < b < count implies places[a] != places[b] by {
            if places[a] == places[b] {
                let x = temporary_name(process, index, a as nat);
                let y = temporary_name(process, index, b as nat);
                assert(path(a) == path(b));
                assert((folder + x).skip(folder.len() as int) =~= x);
                assert((folder + y).skip(folder.len() as int) =~= y);
                lemma_attempts_differ(process, index, a as nat, b as nat);
            }
        }
        places.unique_seq_to_set();
        vstd::set_lib::lemma_int_range(0, existing.len() as int);
        let all = vstd::set_lib::set_int_range(0, existing.len() as int);
        assert forall|i: int| places.to_set().contains(i) implies all.contains(i) by {
            let a = choose|a: int| 0 <= a < places.len() && places[a] == i;
            assert(0 <= places[a] < existing.len());
        }
        vstd::set_lib::lemma_len_subset(places.to_set(), all);
    }
}

/// Every plan finds names under which its files can be out of the way, where
/// capital letters matter and each file has a folder.
pub proof fn temporaries_are_chosen(
    sources: Seq<PathModel>,
    process: nat,
    existing: Seq<String>,
    n: int,
)
    requires
        existing.len() < usize::MAX,
        0 <= n <= sources.len(),
        forall|i: int| 0 <= i < n ==> (#[trigger] sources[i]).folder is Some,
    ensures
        chosen_temporaries(sources, process, existing, false, n) is Ok,
    decreases n,
{
    if n > 0 {
        temporaries_are_chosen(sources, process, existing, n - 1);
        assert(sources[n - 1].folder is Some);
        temporary_names_do_not_run_out(
            sources[n - 1].folder->0,
            process,
            (n - 1) as nat,
            existing,
        );
    }
}

/// The paths under which files are out of the way do not exist, and none is that
/// of two files.
pub proof fn chosen_temporaries_are_new(
    sources: Seq<PathModel>,
    process: nat,
    existing: Seq<String>,
    windows: bool,
    n: int,
)
    requires
        0 <= n <= sources.len(),
        chosen_temporaries(sources, process, existing, windows, n) is Ok,
    ensures
        ({
            let chosen = chosen_temporaries(sources, process, existing, windows, n)->Ok_0;
            &&& chosen.len() == n
            &&& chosen.no_duplicates()
            &&& forall|i: int|
                0 <= i < n ==> !file_path::exists_path(existing, #[trigger] chosen[i], windows)
        }),
    decreases n,
{
    lemma_chosen(sources, process, existing, windows, n);
    let chosen = chosen_temporaries(sources, process, existing, windows, n)->Ok_0;
    assert forall|i: int, j: int| 0 <= i < j < n implies chosen[i] != chosen[j] by {
        assert(is_chosen(chosen[i], process, i));
        assert(is_chosen(chosen[j], process, j));
        let (f, a) = choose|f: Seq<char>, a: nat|
            chosen[i] == #[trigger] (f + temporary_name(process, i as nat, a));
        let (g, b) = choose|g: Seq<char>, b: nat|
            chosen[j] == #[trigger] (g + temporary_name(process, j as nat, b));
        temporary_paths_differ(f, g, process, i as nat, a, j as nat, b);
    }
}

/// A path is one under which the file with a number may be out of the way.
pub open spec fn is_chosen(path: Seq<char>, process: nat, index: int) -> bool {
    exists|f: Seq<char>, a: nat| path == #[trigger] (f + temporary_name(process, index as nat, a))
}

proof fn lemma_chosen(
    sources: Seq<PathModel>,
    process: nat,
    existing: Seq<String>,
    windows: bool,
    n: int,
)
    requires
        0 <= n <= sources.len(),
        chosen_temporaries(sources, process, existing, windows, n) is Ok,
    ensures
        ({
            let chosen = chosen_temporaries(sources, process, existing, windows, n)->Ok_0;
            &&& chosen.len() == n
            &&& forall|i: int|
                0 <= i < n ==> !file_path::exists_path(existing, #[trigger] chosen[i], windows)
                    && is_chosen(chosen[i], process, i)
        }),
    decreases n,
{
    if n > 0 {
        lemma_chosen(sources, process, existing, windows, n - 1);
        let f = sources[n - 1].folder->0;
        lemma_free_attempt(f, process, (n - 1) as nat, existing, windows, 0);
        let a = free_attempt(f, process, (n - 1) as nat, existing, windows, 0)->0;
        let before = chosen_temporaries(sources, process, existing, windows, n - 1)->Ok_0;
        let all = chosen_temporaries(sources, process, existing, windows, n)->Ok_0;
        assert(all == before.push(f + temporary_name(process, (n - 1) as nat, a as nat)));
        assert forall|i: int| 0 <= i < n implies !file_path::exists_path(
            existing,
            #[trigger] all[i],
            windows,
        ) && is_chosen(all[i], process, i) by {
            if i < n - 1 {
                assert(all[i] == before[i]);
            } else {
                assert(all[i] == f + temporary_name(process, (n - 1) as nat, a as nat));
            }
        }
    }
}

/// The paths before or after the renames of a plan.
pub open spec fn plan_texts(plan: Seq<PlannedRename>, sources: bool) -> Seq<Seq<char>> {
    Seq::new(
        plan.len(),
        |i: int|
            if sources {
                plan[i].source@.text()
            } else {
                plan[i].target@.text()
            },
    )
}

impl RenameBatch {
    /// Begins to rename the files of a plan, given the names under which they
    /// are out of the way.
    pub fn new(plan: &Vec<PlannedRename>, temporaries: Vec<String>) -> (r: Self)
        requires
            temporaries@.len() == plan@.len(),
        ensures
            r@.well_formed(),
            r@ == started(
                plan_texts(plan@, true),
                plan_texts(plan@, false),
                file_selection::text_views(temporaries@),
            ),
    {
        let n: usize = plan.len();
        let mut sources: Vec<String> = Vec::new();
        let mut targets: Vec<String> = Vec::new();
        let mut i: usize = 0;
        while i < n
            invariant
                i <= n,
                n == plan@.len(),
                sources@.len() == i,
                targets@.len() == i,
                forall|k: int|
                    0 <= k < i ==> (#[trigger] sources@[k])@ == plan@[k].source@.text(),
                forall|k: int|
                    0 <= k < i ==> (#[trigger] targets@[k])@ == plan@[k].target@.text(),
            decreases n - i,
        {
            sources.push(plan[i].source.to_text());
            targets.push(plan[i].target.to_text());
            i += 1;
        }
        proof {
            assert(file_selection::text_views(sources@) =~= plan_texts(plan@, true));
            assert(file_selection::text_views(targets@) =~= plan_texts(plan@, false));
        }
        RenameBatch {
            sources,
            targets,
            temporaries,
            step: if n == 0 {
                BatchStep::Done
            } else {
                BatchStep::Stage(0)
            },
            failed_commit: false,
            error: None,
        }
    }

    /// The move that is to be made next, if the renaming is not at its end.
    pub fn next_action(&self) -> (r: Option<RenameAction>)
        requires
            self@.well_formed(),
        ensures
            match r {
                Some(a) => self@.action() == Some(
                    ActionModel { from: a.from@, to: a.to@, only_if_present: a.only_if_present },
                ),
                None => self@.action() is None,
            },
    {
        assert(self@.sources.len() == self.sources@.len());
        assert(self@.targets.len() == self.targets@.len());
        assert(self@.temporaries.len() == self.temporaries@.len());
        match self.step {
            BatchStep::Stage(k) => Some(
                RenameAction {
                    from: self.sources[k].clone(),
                    to: self.temporaries[k].clone(),
                    only_if_present: false,
                },
            ),
            BatchStep::Commit(k) => Some(
                RenameAction {
                    from: self.temporaries[k].clone(),
                    to: self.targets[k].clone(),
                    only_if_present: false,
                },
            ),
            BatchStep::Uncommit(k) => Some(
                RenameAction {
                    from: self.targets[k - 1].clone(),
                    to: self.temporaries[k - 1].clone(),
                    only_if_present: false,
                },
            ),
            BatchStep::Unstage(k) => Some(
                RenameAction {
                    from: self.temporaries[k - 1].clone(),
                    to: self.sources[k - 1].clone(),
                    only_if_present: self.failed_commit,
                },
            ),
            BatchStep::Done => None,
        }
    }

    /// Takes note of how the move went; a failure is given with its reason.
    pub fn report(&mut self, failure: Option<&str>)
        requires
            old(self)@.well_formed(),
        ensures
            final(self)@ == old(self)@.after(
                match failure {
                    Some(e) => Some(e@),
                    None => None,
                },
            ),
            final(self)@.well_formed(),
    {
        let n: usize = self.sources.len();
        assert(self@.sources.len() == n);
        assert(self@.targets.len() == self.targets@.len());
        match self.step {
            BatchStep::Stage(k) => match failure {
                None => {
                    self.step = if k + 1 < n {
                        BatchStep::Stage(k + 1)
                    } else {
                        BatchStep::Commit(0)
                    };
                },
                Some(e) => {
                    let mut message = "Failed to stage ".to_owned();
                    message.append(self.sources[k].as_str());
                    message.append(": ");
                    message.append(e);
                    self.error = Some(message);
                    self.step = unstage_step(k);
                },
            },
            BatchStep::Commit(k) => match failure {
                None => {
                    self.step = if k + 1 < n {
                        BatchStep::Commit(k + 1)
                    } else {
                        BatchStep::Done
                    };
                },
                Some(e) => {
                    let mut message = "Failed to rename to ".to_owned();
                    message.append(self.targets[k].as_str());
                    message.append(": ");
                    message.append(e);
                    self.error = Some(message);
                    self.failed_commit = true;
                    self.step = uncommit_step(k, n);
                },
            },
            BatchStep::Uncommit(k) => {
                self.step = uncommit_step(k - 1, n);
            },
            BatchStep::Unstage(k) => {
                self.step = unstage_step(k - 1);
            },
            BatchStep::Done => {},
        }
    }

    /// How the renaming ended: the number of files, or the reason of the failure.
    pub fn outcome(&self) -> (r: Option<Result<usize, String>>)
        ensures
            match r {
                None => self.step != BatchStep::Done,
                Some(Ok(n)) => self.step == BatchStep::Done && self@.error is None && n
                    == self@.sources.len(),
                Some(Err(e)) => self.step == BatchStep::Done && self@.error == Some(e@),
            },
    {
        match self.step {
            BatchStep::Done => match &self.error {
                Some(e) => Some(Err(e.clone())),
                None => Some(Ok(self.sources.len())),
            },
            _ => None,
        }
    }
}

/// The beginning of a renaming.
pub open spec fn started(
    sources: Seq<Seq<char>>,
    targets: Seq<Seq<char>>,
    temporaries: Seq<Seq<char>>,
) -> BatchModel {
    BatchModel {
        sources,
        targets,
        temporaries,
        step: if sources.len() == 0 {
            BatchStep::Done
        } else {
            BatchStep::Stage(0)
        },
        failed_commit: false,
        error: None,
    }
}

// What becomes of the files.

/// A file moved from one path to another.
pub open spec fn moved(disk: Map<Seq<char>, int>, from: Seq<char>, to: Seq<char>) -> Map<
    Seq<char>,
    int,
> {
    disk.remove(from).insert(to, disk[from])
}

/// The files after a move that may have failed.
pub open spec fn carried_out(disk: Map<Seq<char>, int>, action: ActionModel, failed: bool) -> Map<
    Seq<char>,
    int,
> {
    if failed || (action.only_if_present && !disk.dom().contains(action.from)) {
        disk
    } else {
        moved(disk, action.from, action.to)
    }
}

/// The files when the first ones are out of the way.
pub open spec fn staged(disk: Map<Seq<char>, int>, b: BatchModel, k: int) -> Map<Seq<char>, int>
    decreases k,
{
    if k <= 0 {
        disk
    } else {
        moved(staged(disk, b, k - 1), b.sources[k - 1], b.temporaries[k - 1])
    }
}

/// The files when all were moved out of the way, and the first ones have their
/// new names.
pub open spec fn committed(disk: Map<Seq<char>, int>, b: BatchModel, k: int) -> Map<
    Seq<char>,
    int,
>
    decreases k,
{
    if k <= 0 {
        staged(disk, b, b.sources.len() as int)
    } else {
        moved(committed(disk, b, k - 1), b.temporaries[k - 1], b.targets[k - 1])
    }
}

/// The plan fits the files: the sources are there, the names out of the way
/// are new, and a name that a file gets is free or that of another source.
pub open spec fn fits(disk: Map<Seq<char>, int>, b: BatchModel) -> bool {
    &&& b.sources.no_duplicates()
    &&& b.targets.no_duplicates()
    &&& b.temporaries.no_duplicates()
    &&& forall|i: int| 0 <= i < b.sources.len() ==> disk.dom().contains(#[trigger] b.sources[i])
    &&& forall|i: int|
        0 <= i < b.temporaries.len() ==> !disk.dom().contains(#[trigger] b.temporaries[i])
    &&& forall|i: int|
        0 <= i < b.targets.len() ==> b.sources.contains(#[trigger] b.targets[i])
            || !disk.dom().contains(b.targets[i])
    &&& forall|i: int, j: int|
        0 <= i < j < b.targets.len() ==> #[trigger] b.targets[i] != #[trigger] b.temporaries[j]
}

/// The files are as the step of the renaming says.
pub open spec fn tracks(b: BatchModel, before: Map<Seq<char>, int>, disk: Map<Seq<char>, int>) -> bool {
    let n = b.sources.len() as int;
    match b.step {
        BatchStep::Stage(k) => disk == staged(before, b, k as int),
        BatchStep::Commit(k) => disk == committed(before, b, k as int),
        BatchStep::Uncommit(k) => disk == committed(before, b, k as int),
        BatchStep::Unstage(k) => disk == staged(before, b, k as int),
        BatchStep::Done => disk == if b.error is Some {
            before
        } else {
            committed(before, b, n)
        },
    }
}

proof fn lemma_staged(disk: Map<Seq<char>, int>, b: BatchModel, k: int)
    requires
        fits(disk, b),
        b.targets.len() == b.sources.len(),
        b.temporaries.len() == b.sources.len(),
        0 <= k <= b.sources.len(),
    ensures
        forall|p: Seq<char>|
            #[trigger] staged(disk, b, k).dom().contains(p) == ((disk.dom().contains(p)
                && !b.sources.take(k).contains(p)) || b.temporaries.take(k).contains(p)),
        forall|p: Seq<char>|
            disk.dom().contains(p) && !b.sources.take(k).contains(p) ==> #[trigger] staged(
                disk,
                b,
                k,
            )[p] == disk[p],
        forall|i: int|
            0 <= i < k ==> staged(disk, b, k)[#[trigger] b.temporaries[i]] == disk[b.sources[i]],
    decreases k,
{
    let s = b.sources.take(k);
    let t = b.temporaries.take(k);
    if k > 0 {
        lemma_staged(disk, b, k - 1);
        let d = staged(disk, b, k - 1);
        let from = b.sources[k - 1];
        let to = b.temporaries[k - 1];
        let s0 = b.sources.take(k - 1);
        let t0 = b.temporaries.take(k - 1);
        assert(s =~= s0.push(from));
        assert(t =~= t0.push(to));
        assert forall|p: Seq<char>| s.contains(p) == (s0.contains(p) || p == from) by {
            lemma_push_contains(s0, from, p);
        }
        assert forall|p: Seq<char>| t.contains(p) == (t0.contains(p) || p == to) by {
            lemma_push_contains(t0, to, p);
        }
        assert(!s0.contains(from)) by {
            if s0.contains(from) {
                let i = choose|i: int| 0 <= i < s0.len() && s0[i] == from;
                assert(b.sources[i] == b.sources[k - 1]);
            }
        }
        assert(d[from] == disk[from]);
        assert(!t0.contains(from)) by {
            if t0.contains(from) {
                let i = choose|i: int| 0 <= i < t0.len() && t0[i] == from;
                assert(b.temporaries[i] == from);
            }
        }
        assert(from != to);
        let after = staged(disk, b, k);
        assert(after == moved(d, from, to));
        assert forall|p: Seq<char>| #[trigger] after.dom().contains(p) == ((disk.dom().contains(p)
            && !s.contains(p)) || t.contains(p)) by {
            assert(after.dom().contains(p) == (p == to || (d.dom().contains(p) && p != from)));
            assert(d.dom().contains(p) == ((disk.dom().contains(p) && !s0.contains(p))
                || t0.contains(p)));
        }
        assert forall|p: Seq<char>| disk.dom().contains(p) && !s.contains(p) implies
            #[trigger] after[p] == disk[p] by {
            assert(d[p] == disk[p]);
            assert(p != to);
        }
        assert forall|i: int| 0 <= i < k implies after[#[trigger] b.temporaries[i]]
            == disk[b.sources[i]] by {
            if i < k - 1 {
                assert(b.temporaries[i] != to);
                assert(t0[i] == b.temporaries[i]);
                assert(d[b.temporaries[i]] == disk[b.sources[i]]);
                assert(b.temporaries[i] != from);
            }
        }
    } else {
        assert(s =~= Seq::<Seq<char>>::empty());
        assert(t =~= Seq::<Seq<char>>::empty());
    }
}

proof fn lemma_push_contains(s: Seq<Seq<char>>, x: Seq<char>, p: Seq<char>)
    ensures
        s.push(x).contains(p) == (s.contains(p) || p == x),
{
    let t = s.push(x);
    if s.contains(p) {
        let i = choose|i: int| 0 <= i < s.len() && s[i] == p;
        assert(t[i] == p);
    }
    if p == x {
        assert(t[s.len() as int] == p);
    }
    if t.contains(p) {
        let i = choose|i: int| 0 <= i < t.len() && t[i] == p;
        if i < s.len() {
            assert(s[i] == p);
        }
    }
}

proof fn lemma_committed(disk: Map<Seq<char>, int>, b: BatchModel, k: int)
    requires
        fits(disk, b),
        b.targets.len() == b.sources.len(),
        b.temporaries.len() == b.sources.len(),
        0 <= k <= b.sources.len(),
    ensures
        forall|p: Seq<char>|
            #[trigger] committed(disk, b, k).dom().contains(p) == ((disk.dom().contains(p)
                && !b.sources.contains(p)) || b.temporaries.skip(k).contains(p)
                || b.targets.take(k).contains(p)),
        forall|p: Seq<char>|
            disk.dom().contains(p) && !b.sources.contains(p) ==> #[trigger] committed(
                disk,
                b,
                k,
            )[p] == disk[p],
        forall|i: int|
            k <= i < b.sources.len() ==> committed(disk, b, k)[#[trigger] b.temporaries[i]]
                == disk[b.sources[i]],
        forall|i: int|
            0 <= i < k ==> committed(disk, b, k)[#[trigger] b.targets[i]] == disk[b.sources[i]],
    decreases k,
{
    let n = b.sources.len() as int;
    if k == 0 {
        lemma_staged(disk, b, n);
        assert(b.sources.take(n) =~= b.sources);
        assert(b.temporaries.take(n) =~= b.temporaries);
        assert(b.temporaries.skip(0) =~= b.temporaries);
        assert(b.targets.take(0) =~= Seq::<Seq<char>>::empty());
    } else {
        lemma_committed(disk, b, k - 1);
        let d = committed(disk, b, k - 1);
        let from = b.temporaries[k - 1];
        let to = b.targets[k - 1];
        let r0 = b.temporaries.skip(k - 1);
        let r = b.temporaries.skip(k);
        let g0 = b.targets.take(k - 1);
        let g = b.targets.take(k);
        assert(g =~= g0.push(to));
        assert forall|p: Seq<char>| g.contains(p) == (g0.contains(p) || p == to) by {
            lemma_push_contains(g0, to, p);
        }
        assert forall|p: Seq<char>| r.contains(p) == (r0.contains(p) && p != from) by {
            if r.contains(p) {
                let i = choose|i: int| 0 <= i < r.len() && r[i] == p;
                assert(r0[i + 1] == p);
                assert(b.temporaries[k + i] == p);
            }
            if r0.contains(p) && p != from {
                let i = choose|i: int| 0 <= i < r0.len() && r0[i] == p;
                assert(r0[0] == from);
                assert(r[i - 1] == p);
            }
        }
        let after = committed(disk, b, k);
        assert(after == moved(d, from, to));
        assert(!g0.contains(from)) by {
            if g0.contains(from) {
                let i = choose|i: int| 0 <= i < g0.len() && g0[i] == from;
                assert(b.targets[i] == from);
            }
        }
        assert(!disk.dom().contains(from));
        assert forall|p: Seq<char>| #[trigger] after.dom().contains(p) == ((disk.dom().contains(p)
            && !b.sources.contains(p)) || r.contains(p) || g.contains(p)) by {
            assert(after.dom().contains(p) == (p == to || (d.dom().contains(p) && p != from)));
            assert(d.dom().contains(p) == ((disk.dom().contains(p) && !b.sources.contains(p))
                || r0.contains(p) || g0.contains(p)));
        }
        assert forall|p: Seq<char>| disk.dom().contains(p) && !b.sources.contains(p) implies
            #[trigger] after[p] == disk[p] by {
            assert(d[p] == disk[p]);
            assert(p != to);
        }
        assert forall|i: int| k <= i < n implies after[#[trigger] b.temporaries[i]]
            == disk[b.sources[i]] by {
            assert(b.temporaries[i] != b.targets[k - 1]);
            assert(b.temporaries[i] != b.temporaries[k - 1]);
            assert(d[b.temporaries[i]] == disk[b.sources[i]]);
        }
        assert(d[from] == disk[b.sources[k - 1]]);
        assert forall|i: int| 0 <= i < k implies after[#[trigger] b.targets[i]]
            == disk[b.sources[i]] by {
            if i < k - 1 {
                assert(b.targets[i] != b.targets[k - 1]);
                assert(b.targets[i] != b.temporaries[k - 1]);
                assert(d[b.targets[i]] == disk[b.sources[i]]);
            }
        }
    }
}

proof fn lemma_move_back(disk: Map<Seq<char>, int>, from: Seq<char>, to: Seq<char>)
    requires
        disk.dom().contains(from),
        !disk.dom().contains(to) || from == to,
    ensures
        moved(moved(disk, from, to), to, from) == disk,
        moved(disk, from, to).dom().contains(to),
{
    assert(moved(moved(disk, from, to), to, from) =~= disk);
}

proof fn lemma_stage_undone(disk: Map<Seq<char>, int>, b: BatchModel, k: int)
    requires
        fits(disk, b),
        b.targets.len() == b.sources.len(),
        b.temporaries.len() == b.sources.len(),
        0 < k <= b.sources.len(),
    ensures
        moved(staged(disk, b, k), b.temporaries[k - 1], b.sources[k - 1]) == staged(
            disk,
            b,
            k - 1,
        ),
        staged(disk, b, k).dom().contains(b.temporaries[k - 1]),
{
    lemma_staged(disk, b, k - 1);
    let s0 = b.sources.take(k - 1);
    let t0 = b.temporaries.take(k - 1);
    let from = b.sources[k - 1];
    let to = b.temporaries[k - 1];
    if s0.contains(from) {
        let i = choose|i: int| 0 <= i < s0.len() && s0[i] == from;
        assert(b.sources[i] == b.sources[k - 1]);
    }
    if t0.contains(to) {
        let i = choose|i: int| 0 <= i < t0.len() && t0[i] == to;
        assert(b.temporaries[i] == b.temporaries[k - 1]);
    }
    lemma_move_back(staged(disk, b, k - 1), from, to);
}

proof fn lemma_commit_undone(disk: Map<Seq<char>, int>, b: BatchModel, k: int)
    requires
        fits(disk, b),
        b.targets.len() == b.sources.len(),
        b.temporaries.len() == b.sources.len(),
        0 < k <= b.sources.len(),
    ensures
        moved(committed(disk, b, k), b.targets[k - 1], b.temporaries[k - 1]) == committed(
            disk,
            b,
            k - 1,
        ),
{
    lemma_committed(disk, b, k - 1);
    let r0 = b.temporaries.skip(k - 1);
    let g0 = b.targets.take(k - 1);
    let from = b.temporaries[k - 1];
    let to = b.targets[k - 1];
    assert(r0[0] == from);
    if g0.contains(to) {
        let i = choose|i: int| 0 <= i < g0.len() && g0[i] == to;
        assert(b.targets[i] == b.targets[k - 1]);
    }
    if r0.contains(to) {
        let i = choose|i: int| 0 <= i < r0.len() && r0[i] == to;
        assert(b.temporaries[k - 1 + i] == to);
    }
    lemma_move_back(committed(disk, b, k - 1), from, to);
}

/// At the beginning the files are as they were.
pub proof fn renaming_begins_with_the_files_as_they_are(
    sources: Seq<Seq<char>>,
    targets: Seq<Seq<char>>,
    temporaries: Seq<Seq<char>>,
    disk: Map<Seq<char>, int>,
)
    ensures
        tracks(started(sources, targets, temporaries), disk, disk),
{
}

proof fn lemma_same_lists(a: BatchModel, b: BatchModel, disk: Map<Seq<char>, int>, k: int)
    requires
        a.sources == b.sources,
        a.targets == b.targets,
        a.temporaries == b.temporaries,
    ensures
        staged(disk, a, k) == staged(disk, b, k),
    decreases k,
{
    if k > 0 {
        lemma_same_lists(a, b, disk, k - 1);
    }
}

proof fn lemma_same_committed(a: BatchModel, b: BatchModel, disk: Map<Seq<char>, int>, k: int)
    requires
        a.sources == b.sources,
        a.targets == b.targets,
        a.temporaries == b.temporaries,
    ensures
        committed(disk, a, k) == committed(disk, b, k),
    decreases k,
{
    lemma_same_lists(a, b, disk, a.sources.len() as int);
    if k > 0 {
        lemma_same_committed(a, b, disk, k - 1);
    }
}

/// Every step keeps track of the files, whether its move succeeds or not, as
/// long as no move that undoes another one fails.
pub proof fn each_step_keeps_track(
    b: BatchModel,
    before: Map<Seq<char>, int>,
    disk: Map<Seq<char>, int>,
    failure: Option<Seq<char>>,
)
    requires
        b.well_formed(),
        b.sources.len() <= usize::MAX,
        fits(before, b),
        tracks(b, before, disk),
        b.action() is Some,
        b.error is Some ==> failure is None,
    ensures
        tracks(b.after(failure), before, carried_out(disk, b.action()->0, failure is Some)),
        fits(before, b.after(failure)),
{
    let next = b.after(failure);
    let n = b.sources.len() as int;
    match b.step {
        BatchStep::Stage(k) => {
            lemma_same_lists(b, next, before, k as int);
            lemma_same_lists(b, next, before, k + 1);
            lemma_same_committed(b, next, before, 0);
        },
        BatchStep::Commit(k) => {
            lemma_same_committed(b, next, before, k as int);
            lemma_same_committed(b, next, before, k + 1);
            lemma_same_lists(b, next, before, n);
        },
        BatchStep::Uncommit(k) => {
            lemma_commit_undone(before, b, k as int);
            lemma_same_committed(b, next, before, k - 1);
            lemma_same_lists(b, next, before, n);
        },
        BatchStep::Unstage(k) => {
            lemma_stage_undone(before, b, k as int);
            lemma_same_lists(b, next, before, k - 1);
        },
        BatchStep::Done => {},
    }
}

/// A renaming that ended without an error moved every file to its new name and
/// left the others alone.
pub proof fn finished_renaming_moved_every_file(
    b: BatchModel,
    before: Map<Seq<char>, int>,
    disk: Map<Seq<char>, int>,
)
    requires
        b.well_formed(),
        fits(before, b),
        tracks(b, before, disk),
        b.step == BatchStep::Done,
        b.error is None,
    ensures
        forall|i: int|
            0 <= i < b.sources.len() ==> disk.dom().contains(#[trigger] b.targets[i])
                && disk[b.targets[i]] == before[b.sources[i]],
        forall|p: Seq<char>|
            before.dom().contains(p) && !b.sources.contains(p) ==> disk.dom().contains(p)
                && #[trigger] disk[p] == before[p],
        forall|p: Seq<char>|
            #[trigger] disk.dom().contains(p) ==> b.targets.contains(p) || (before.dom().contains(
                p,
            ) && !b.sources.contains(p)),
{
    let n = b.sources.len() as int;
    lemma_committed(before, b, n);
    assert(b.temporaries.skip(n) =~= Seq::<Seq<char>>::empty());
    assert(b.targets.take(n) =~= b.targets);
    assert forall|i: int| 0 <= i < n implies disk.dom().contains(#[trigger] b.targets[i])
        && disk[b.targets[i]] == before[b.sources[i]] by {
        assert(b.targets.contains(b.targets[i]));
    }
}

/// A renaming that failed left every file as it was.
pub proof fn failed_renaming_changed_nothing(
    b: BatchModel,
    before: Map<Seq<char>, int>,
    disk: Map<Seq<char>, int>,
)
    requires
        tracks(b, before, disk),
        b.step == BatchStep::Done,
        b.error is Some,
    ensures
        disk == before,
{
}

/// How many steps a renaming takes at most.
pub open spec fn steps_left(b: BatchModel) -> int {
    let n = b.sources.len() as int;
    match b.step {
        BatchStep::Stage(k) => 4 * n - k,
        BatchStep::Commit(k) => 3 * n - k,
        BatchStep::Uncommit(k) => n + k,
        BatchStep::Unstage(k) => k as int,
        BatchStep::Done => 0,
    }
}

/// Every step brings a renaming nearer to its end.
pub proof fn each_step_makes_progress(b: BatchModel, failure: Option<Seq<char>>)
    requires
        b.well_formed(),
        b.sources.len() <= usize::MAX,
        b.action() is Some,
    ensures
        0 <= steps_left(b.after(failure)) < steps_left(b),
{
}

} // verus!
