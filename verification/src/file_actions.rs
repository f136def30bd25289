//! What is to be done with single files: the names that renamed and copied
//! files get, the times that they get, and how they are shown to the user.
use crate::file_path::{self, is_file_name, name_with_extension, path_exists, same_path, FilePath,
    FilenameCollisionResolver, Names, PathModel};
use crate::names::{self, file_extension, file_stem};
use crate::text::{self, are_digits, chars_of, decimal_text, joined_text, same_text, text_ends_with,
    trimmed};
use vstd::prelude::*;

verus! {

/// A result as texts.
pub open spec fn path_result(r: Result<FilePath, String>) -> Result<PathModel, Seq<char>> {
    match r {
        Ok(p) => Ok(p@),
        Err(e) => Err(e@),
    }
}

// Renaming.

/// The path that an entry gets when it is renamed.
pub open spec fn renamed_path(
    current: PathModel,
    new_name: Seq<char>,
    existing: Seq<String>,
    windows: bool,
) -> Result<PathModel, Seq<char>> {
    let name = text::trim(new_name);
    let target = PathModel { folder: current.folder, name };
    if name.len() == 0 {
        Err("File name cannot be empty."@)
    } else if name.contains('\\') || name.contains('/') {
        Err("File name cannot contain path separators."@)
    } else if current.folder is None {
        Err("Selected file parent could not be resolved."@)
    } else if target != current && file_path::exists_path(existing, target.text(), windows) {
        Err("A file with that name already exists."@)
    } else {
        Ok(target)
    }
}

fn holds_char(s: &str, c: char) -> (r: bool)
    ensures
        r == s@.contains(c),
{
    let chars = chars_of(s);
    let n: usize = chars.len();
    let mut i: usize = 0;
    while i < n
        invariant
            i <= n,
            n == chars@.len(),
            chars@ == s@,
            forall|k: int| 0 <= k < i ==> chars@[k] != c,
        decreases n - i,
    {
        if chars[i] == c {
            assert(s@[i as int] == c);
            return true;
        }
        i += 1;
    }
    false
}

/// The path that an entry gets, given the paths that exist.
pub fn rename_entry(
    current_path: &FilePath,
    new_name: &str,
    existing: &[String],
    windows: bool,
) -> (r: Result<FilePath, String>)
    ensures
        path_result(r) == renamed_path(current_path@, new_name@, existing@, windows),
{
    let name = trimmed(new_name);
    if name.unicode_len() == 0 {
        return Err("File name cannot be empty.".to_owned());
    }
    if holds_char(name, '\\') || holds_char(name, '/') {
        return Err("File name cannot contain path separators.".to_owned());
    }
    match &current_path.folder {
        None => Err("Selected file parent could not be resolved.".to_owned()),
        Some(folder) => {
            let target = FilePath::new(folder.as_str(), name);
            if !same_path(&target, current_path) && path_exists(
                existing,
                target.to_text().as_str(),
                windows,
            ) {
                return Err("A file with that name already exists.".to_owned());
            }
            Ok(target)
        },
    }
}

// Copying.

/// The place of the last of some text among the first characters.
pub open spec fn last_text(s: Seq<char>, part: Seq<char>, n: int) -> Option<int>
    decreases n + 1,
{
    if n < 0 {
        None
    } else if n + part.len() <= s.len() && s.subrange(n, n + part.len()) == part {
        Some(n)
    } else {
        last_text(s, part, n - 1)
    }
}

/// The stem without the number that a name got because another was taken.
pub open spec fn without_duplicate_number(stem: Seq<char>) -> Seq<char> {
    match last_text(stem, "_dup"@, stem.len() - 4) {
        Some(i) => if stem.skip(i + 4).len() == 3 && text::all_digits(stem.skip(i + 4)) {
            stem.take(i)
        } else {
            stem
        },
        None => stem,
    }
}

/// The stem without what marks a copy.
pub open spec fn copy_base(stem: Seq<char>) -> Seq<char> {
    let base = without_duplicate_number(stem);
    if text::ends_with(base, "_copy"@) {
        base.take(base.len() - 5)
    } else {
        base
    }
}

pub fn duplicate_copy_base_stem(stem: &str) -> (r: String)
    ensures
        r@ == copy_base(stem@),
{
    proof {
        reveal_strlit("_dup");
        reveal_strlit("_copy");
    }
    let n: usize = stem.unicode_len();
    let mut end: usize = n;
    if n >= 4 {
        let mut at: usize = n - 4;
        let mut found: Option<usize> = None;
        loop
            invariant_except_break
                found is None,
                last_text(stem@, "_dup"@, n - 4) == last_text(stem@, "_dup"@, at as int),
            invariant
                n == stem@.len(),
                at <= n - 4,
                "_dup"@.len() == 4,
            ensures
                match found {
                    Some(i) => last_text(stem@, "_dup"@, n - 4) == Some(i as int) && i <= n - 4,
                    None => last_text(stem@, "_dup"@, n - 4) is None,
                },
            decreases at,
        {
            if same_text(stem.substring_char(at, at + 4), "_dup") {
                found = Some(at);
                break ;
            }
            if at == 0 {
                assert(last_text(stem@, "_dup"@, -1) is None);
                break ;
            }
            at -= 1;
        }
        match found {
            Some(i) => {
                let chars = chars_of(stem);
                let number = &chars.as_slice()[i + 4..n];
                assert(number@ =~= stem@.skip(i + 4));
                if number.len() == 3 && are_digits(number) {
                    end = i;
                }
            },
            None => {},
        }
    } else {
        assert(last_text(stem@, "_dup"@, n - 4) is None);
    }
    let base = stem.substring_char(0, end);
    assert(base@ =~= without_duplicate_number(stem@));
    if text_ends_with(base, "_copy") {
        assert(base@.subrange(0, end - 5) =~= base@.take(base@.len() - 5));
        base.substring_char(0, end - 5).to_owned()
    } else {
        base.to_owned()
    }
}

proof fn lemma_last_text(s: Seq<char>, part: Seq<char>, n: int)
    ensures
        last_text(s, part, n) matches Some(i) ==> 0 <= i && i + part.len() <= s.len(),
    decreases n + 1,
{
    if n >= 0 {
        lemma_last_text(s, part, n - 1);
    }
}

proof fn lemma_three_digits(i: nat)
    requires
        i < 1000,
    ensures
        text::zero_padded(i, 3).len() == 3,
        text::all_digits(text::zero_padded(i, 3)),
{
    reveal_with_fuel(text::decimal, 4);
    let d = text::decimal(i);
    if i < 10 {
        assert(d.len() == 1);
    } else if i < 100 {
        assert(text::decimal(i / 10).len() == 1);
        assert(d.len() == 2);
    } else {
        assert(text::decimal(i / 10 / 10).len() == 1);
        assert(text::decimal(i / 10).len() == 2);
        assert(d.len() == 3);
    }
    let z = text::zero_padded(i, 3);
    assert(z.len() == 3);
    assert(text::is_digit(z[0]) && text::is_digit(z[1]) && text::is_digit(z[2]));
}

/// A copy of a copy is named like a copy of the file itself, also where the
/// copy got a number because its name was taken.
pub proof fn copies_do_not_pile_up(stem: Seq<char>, i: nat)
    requires
        i < 1000,
    ensures
        copy_base(stem + "_copy"@) == stem,
        copy_base(stem + "_copy"@ + "_dup"@ + text::zero_padded(i, 3)) == stem,
{
    reveal_strlit("_copy");
    reveal_strlit("_dup");
    lemma_three_digits(i);
    let s = stem + "_copy"@;
    assert(s.skip(s.len() - 5) =~= "_copy"@);
    assert(s.subrange(s.len() - 5, s.len() as int) =~= "_copy"@);
    assert(s.take(s.len() - 5) =~= stem);
    lemma_last_text(s, "_dup"@, s.len() - 4);
    match last_text(s, "_dup"@, s.len() - 4) {
        Some(at) => {
            let number = s.skip(at + 4);
            if number.len() == 3 {
                assert(number[2] == s[s.len() - 1]);
                assert(!text::is_digit('y'));
            }
        },
        None => {},
    }
    assert(without_duplicate_number(s) == s);
    let t = s + "_dup"@ + text::zero_padded(i, 3);
    let p = s.len() as int;
    assert(t[p] == '_' && t[p + 1] == 'd' && t[p + 2] == 'u' && t[p + 3] == 'p');
    assert(t.len() - 4 == p + 3);
    assert(t.subrange(p, p + 4) =~= "_dup"@);
    assert(t.subrange(p + 1, p + 5)[0] == 'd');
    assert(t.subrange(p + 2, p + 6)[0] == 'u');
    assert(t.subrange(p + 3, p + 7)[0] == 'p');
    reveal_with_fuel(last_text, 5);
    assert(last_text(t, "_dup"@, p) == Some(p));
    assert(last_text(t, "_dup"@, p + 3) == Some(p));
    assert(t.skip(p + 4) =~= text::zero_padded(i, 3));
    assert(t.take(p) =~= s);
}

/// The stem of a file that is copied.
pub open spec fn copied_stem(name: Seq<char>) -> Seq<char> {
    if file_path::names_a_file(name) {
        names::stem(name)
    } else {
        "copy"@
    }
}

pub open spec fn copied_extension(name: Seq<char>) -> Option<Seq<char>> {
    if file_path::names_a_file(name) {
        names::extension(name)
    } else {
        None
    }
}

/// The names that a new batch can give out.
pub open spec fn fresh_names(existing: Seq<String>, windows: bool) -> Names {
    Names { reserved: Set::empty(), existing, allowed: None, windows }
}

/// The path of a copy beside a file.
pub open spec fn copy_beside(
    source: PathModel,
    is_file: bool,
    existing: Seq<String>,
    windows: bool,
) -> Result<PathModel, Seq<char>> {
    if !is_file {
        Err("Select a file before saving a copy."@)
    } else {
        match source.folder {
            None => Err("Selected file parent could not be resolved."@),
            Some(folder) => file_path::resolved(
                fresh_names(existing, windows),
                file_path::path_in(
                    folder,
                    file_path::with_extension(
                        copy_base(copied_stem(source.name)) + "_copy"@,
                        copied_extension(source.name),
                    ),
                ),
            ),
        }
    }
}

/// The path of a copy in a folder.
pub open spec fn copy_in(
    source: PathModel,
    is_file: bool,
    target: Seq<char>,
    target_is_folder: bool,
    existing: Seq<String>,
    windows: bool,
) -> Result<PathModel, Seq<char>> {
    let stem = copied_stem(source.name);
    if !is_file {
        Err("Select files only."@)
    } else if !target_is_folder {
        Err("Paste target folder could not be resolved."@)
    } else {
        file_path::resolved(
            fresh_names(existing, windows),
            file_path::path_in(
                target,
                file_path::with_extension(
                    if source.folder == Some(target) {
                        copy_base(stem) + "_copy"@
                    } else {
                        stem
                    },
                    copied_extension(source.name),
                ),
            ),
        )
    }
}

fn stem_to_copy(name: &str) -> (r: String)
    ensures
        r@ == copied_stem(name@),
{
    if is_file_name(name) {
        file_stem(name)
    } else {
        "copy".to_owned()
    }
}

fn extension_to_copy(name: &str) -> (r: Option<String>)
    ensures
        match r {
            Some(e) => copied_extension(name@) == Some(e@),
            None => copied_extension(name@) is None,
        },
{
    if is_file_name(name) {
        file_extension(name)
    } else {
        None
    }
}

/// The path for a copy that is saved beside a file.
pub fn save_file_copy(
    source_path: &FilePath,
    is_file: bool,
    existing: &[String],
    windows: bool,
) -> (r: Result<FilePath, String>)
    ensures
        path_result(r) == copy_beside(source_path@, is_file, existing@, windows),
{
    if !is_file {
        return Err("Select a file before saving a copy.".to_owned());
    }
    match &source_path.folder {
        None => Err("Selected file parent could not be resolved.".to_owned()),
        Some(folder) => {
            let name = source_path.name.as_str();
            let mut stem = duplicate_copy_base_stem(stem_to_copy(name).as_str());
            stem.append("_copy");
            let extension = extension_to_copy(name);
            let desired = FilePath::new(
                folder.as_str(),
                name_with_extension(stem.as_str(), &extension).as_str(),
            );
            let mut resolver = FilenameCollisionResolver::new(windows);
            resolver.resolve_for_create(&desired, existing)
        },
    }
}

/// The path for a copy of a file in a folder.
pub fn copy_file_to_folder(
    source_path: &FilePath,
    is_file: bool,
    target_folder: &str,
    target_is_folder: bool,
    existing: &[String],
    windows: bool,
) -> (r: Result<FilePath, String>)
    ensures
        path_result(r) == copy_in(
            source_path@,
            is_file,
            target_folder@,
            target_is_folder,
            existing@,
            windows,
        ),
{
    if !is_file {
        return Err("Select files only.".to_owned());
    }
    if !target_is_folder {
        return Err("Paste target folder could not be resolved.".to_owned());
    }
    let name = source_path.name.as_str();
    let same_folder = match &source_path.folder {
        Some(f) => same_text(f.as_str(), target_folder),
        None => false,
    };
    let own_stem = stem_to_copy(name);
    let stem = if same_folder {
        joined_text(duplicate_copy_base_stem(own_stem.as_str()).as_str(), "_copy")
    } else {
        own_stem
    };
    let extension = extension_to_copy(name);
    let desired = FilePath::new(
        target_folder,
        name_with_extension(stem.as_str(), &extension).as_str(),
    );
    let mut resolver = FilenameCollisionResolver::new(windows);
    resolver.resolve_for_create(&desired, existing)
}

/// The path for a copy of a file in its own folder.
pub fn duplicate_file(
    source_path: &FilePath,
    is_file: bool,
    folder_is_folder: bool,
    existing: &[String],
    windows: bool,
) -> (r: Result<FilePath, String>)
    ensures
        path_result(r) == if !is_file {
            Err::<PathModel, Seq<char>>("Select a file before duplicating."@)
        } else {
            match source_path@.folder {
                None => Err("Selected file parent could not be resolved."@),
                Some(folder) => copy_in(
                    source_path@,
                    is_file,
                    folder,
                    folder_is_folder,
                    existing@,
                    windows,
                ),
            }
        },
{
    if !is_file {
        return Err("Select a file before duplicating.".to_owned());
    }
    match &source_path.folder {
        None => Err("Selected file parent could not be resolved.".to_owned()),
        Some(folder) => copy_file_to_folder(
            source_path,
            is_file,
            folder.as_str(),
            folder_is_folder,
            existing,
            windows,
        ),
    }
}

// Writing beside a file.

/// The path under which a new version of a file is written.
pub fn atomic_write_path(path: &FilePath, process: u32, sequence: u64) -> (r: Result<
    FilePath,
    String,
>)
    ensures
        path_result(r) == match path@.folder {
            None => Err::<PathModel, Seq<char>>("Could not resolve the file's parent folder."@),
            Some(folder) => if path@.name.len() == 0 {
                Err("Could not resolve the filename."@)
            } else {
                Ok(
                    file_path::path_in(
                        folder,
                        "."@ + path@.name + ".sh148-write-"@ + text::decimal(process as nat)
                            + "-"@ + text::decimal(sequence as nat),
                    ),
                )
            },
        },
{
    match &path.folder {
        None => Err("Could not resolve the file's parent folder.".to_owned()),
        Some(folder) => {
            if path.name.as_str().unicode_len() == 0 {
                return Err("Could not resolve the filename.".to_owned());
            }
            let mut name = ".".to_owned();
            name.append(path.name.as_str());
            name.append(".sh148-write-");
            name.append(decimal_text(process as u64).as_str());
            name.append("-");
            name.append(decimal_text(sequence).as_str());
            Ok(FilePath::new(folder.as_str(), name.as_str()))
        },
    }
}

// Times.

/// A time after the start of 1970.
#[derive(Clone, Copy, Debug, PartialEq, Eq, Structural)]
pub struct Elapsed {
    pub seconds: u64,
    pub nanos: u32,
}

/// What is to be done to give a file its times.
#[derive(Clone, Copy, Debug, PartialEq, Eq, Structural)]
pub enum TimeUpdate {
    /// Nothing.
    Keep,
    /// Set the time of the last change, or leave it where none is given.
    Modified(Option<Elapsed>),
    /// Set both times, in steps of 100 nanoseconds from the start of 1601; zero
    /// leaves a time as it is.
    Intervals { created: i64, modified: i64 },
}

/// The seconds from the start of 1601 to the start of 1970.
pub const EPOCH_DIFFERENCE_SECONDS: u64 = 11644473600;

/// A time in steps of 100 nanoseconds from the start of 1601.
pub open spec fn intervals(t: Elapsed) -> int {
    (t.seconds + EPOCH_DIFFERENCE_SECONDS) * 10000000 + t.nanos as int / 100
}

pub fn filetime_intervals(t: Elapsed) -> (r: Result<i64, String>)
    ensures
        match r {
            Ok(v) => v == intervals(t),
            Err(e) => intervals(t) > i64::MAX && e@ == "Time value out of range."@,
        },
{
    let total: u128 = (t.seconds as u128 + EPOCH_DIFFERENCE_SECONDS as u128) * 10000000
        + (t.nanos / 100) as u128;
    if total > i64::MAX as u128 {
        return Err("Time value out of range.".to_owned());
    }
    Ok(total as i64)
}

fn optional_intervals(t: Option<Elapsed>) -> (r: Result<i64, String>)
    ensures
        match (t, r) {
            (Some(t), Ok(v)) => v == intervals(t),
            (Some(t), Err(e)) => intervals(t) > i64::MAX && e@ == "Time value out of range."@,
            (None, r) => r == Ok::<i64, String>(0),
        },
{
    match t {
        Some(t) => filetime_intervals(t),
        None => Ok(0),
    }
}

pub open spec fn fits_intervals(t: Option<Elapsed>) -> bool {
    t matches Some(t) ==> intervals(t) <= i64::MAX
}

pub open spec fn interval_value(t: Option<Elapsed>) -> int {
    match t {
        Some(t) => intervals(t),
        None => 0,
    }
}

/// How a file is given its times.
pub open spec fn time_update(
    r: Result<TimeUpdate, String>,
    created: Option<Elapsed>,
    modified: Option<Elapsed>,
    windows: bool,
) -> bool {
    if created is None && modified is None {
        r matches Ok(u) && u == TimeUpdate::Keep
    } else if windows {
        if fits_intervals(created) && fits_intervals(modified) {
            r matches Ok(TimeUpdate::Intervals { created: c, modified: m }) && c
                == interval_value(created) && m == interval_value(modified)
        } else {
            r matches Err(e) && e@ == "Time value out of range."@
        }
    } else if created is Some {
        r matches Err(e) && e@ == "Setting created time is not supported on this platform."@
    } else {
        r matches Ok(u) && u == TimeUpdate::Modified(modified)
    }
}

pub fn set_file_times(
    created: Option<Elapsed>,
    modified: Option<Elapsed>,
    windows: bool,
) -> (r: Result<TimeUpdate, String>)
    ensures
        time_update(r, created, modified, windows),
{
    if created.is_none() && modified.is_none() {
        return Ok(TimeUpdate::Keep);
    }
    if windows {
        let c: i64 = match optional_intervals(created) {
            Ok(v) => v,
            Err(e) => {
                return Err(e);
            },
        };
        let m: i64 = match optional_intervals(modified) {
            Ok(v) => v,
            Err(e) => {
                return Err(e);
            },
        };
        return Ok(TimeUpdate::Intervals { created: c, modified: m });
    }
    if created.is_some() {
        return Err("Setting created time is not supported on this platform.".to_owned());
    }
    Ok(TimeUpdate::Modified(modified))
}

/// How a copy is given the times of its file; a time may not be known.
pub fn copy_file_times(
    created: Option<Elapsed>,
    modified: Option<Elapsed>,
    windows: bool,
) -> (r: Result<TimeUpdate, String>)
    ensures
        time_update(r, created, modified, windows),
{
    set_file_times(created, modified, windows)
}

/// A file has the times that it was given.
pub open spec fn has_times(
    known: Option<(Option<Elapsed>, Option<Elapsed>)>,
    created: Option<Elapsed>,
    modified: Option<Elapsed>,
) -> bool {
    match known {
        Some((c, m)) => (created is Some ==> c == created) && (modified is Some ==> m == modified),
        None => false,
    }
}

/// Whether a file has the times that it was given: those that are known of it
/// now, if any are.
pub fn file_times_match(
    known: Option<(Option<Elapsed>, Option<Elapsed>)>,
    created: Option<Elapsed>,
    modified: Option<Elapsed>,
) -> (r: bool)
    ensures
        r == has_times(known, created, modified),
{
    match known {
        Some((c, m)) => {
            if created.is_some() && c != created {
                return false;
            }
            if modified.is_some() && m != modified {
                return false;
            }
            true
        },
        None => false,
    }
}

/// The number of a time as it is handed to the shell; nothing where there is none.
pub open spec fn ticks_text(t: Option<Elapsed>) -> Seq<char> {
    match t {
        Some(t) => text::decimal(intervals(t) as nat),
        None => ""@,
    }
}

/// The texts by which the shell is told which times to set: the path, then the
/// two times.
pub fn set_file_times_with_powershell(
    path: &str,
    created: Option<Elapsed>,
    modified: Option<Elapsed>,
) -> (r: Result<(String, String, String), String>)
    ensures
        match r {
            Ok((p, c, m)) => fits_intervals(created) && fits_intervals(modified) && p@ == path@
                && c@ == ticks_text(created) && m@ == ticks_text(modified),
            Err(e) => !(fits_intervals(created) && fits_intervals(modified)) && e@
                == "Time value out of range."@,
        },
{
    let c = match ticks(created) {
        Ok(t) => t,
        Err(e) => {
            return Err(e);
        },
    };
    let m = match ticks(modified) {
        Ok(t) => t,
        Err(e) => {
            return Err(e);
        },
    };
    Ok((path.to_owned(), c, m))
}

fn ticks(t: Option<Elapsed>) -> (r: Result<String, String>)
    ensures
        match r {
            Ok(v) => fits_intervals(t) && v@ == ticks_text(t),
            Err(e) => !fits_intervals(t) && e@ == "Time value out of range."@,
        },
{
    match t {
        Some(t) => match filetime_intervals(t) {
            Ok(v) => Ok(decimal_text(v as u64)),
            Err(e) => Err(e),
        },
        None => Ok("".to_owned()),
    }
}

// Showing files.

/// The system that the program runs on.
#[derive(Clone, Copy, Debug, PartialEq, Eq, Structural)]
pub enum Platform {
    Windows,
    MacOs,
    Other,
}

/// A program that is to be started. On Windows the shell opens the program or
/// the file itself.
#[derive(Debug)]
pub struct LaunchRequest {
    pub program: String,
    pub arguments: Vec<String>,
}

/// A path that is to be shown: what it is, and the folder that holds it.
#[derive(Debug)]
pub struct ShownPath {
    pub path: String,
    pub folder: Option<String>,
    pub exists: bool,
    pub is_file: bool,
    pub is_dir: bool,
}

/// What is started, as texts.
pub struct LaunchModel {
    pub program: Seq<char>,
    pub arguments: Seq<Seq<char>>,
}

pub open spec fn launch_result(r: Result<LaunchRequest, String>) -> Result<LaunchModel, Seq<char>> {
    match r {
        Ok(q) => Ok(
            LaunchModel {
                program: q.program@,
                arguments: Seq::new(q.arguments@.len(), |i: int| q.arguments@[i]@),
            },
        ),
        Err(e) => Err(e@),
    }
}

pub open spec fn launch(program: Seq<char>, arguments: Seq<Seq<char>>) -> Result<
    LaunchModel,
    Seq<char>,
> {
    Ok(LaunchModel { program, arguments })
}

fn request(program: &str, arguments: Vec<String>) -> (r: Result<LaunchRequest, String>)
    ensures
        launch_result(r) == launch(
            program@,
            Seq::new(arguments@.len(), |i: int| arguments@[i]@),
        ),
{
    Ok(LaunchRequest { program: program.to_owned(), arguments })
}

fn request_plain(program: &str) -> (r: Result<LaunchRequest, String>)
    ensures
        launch_result(r) == launch(program@, Seq::empty()),
{
    let arguments: Vec<String> = Vec::new();
    assert(Seq::new(arguments@.len(), |i: int| arguments@[i]@) =~= Seq::<Seq<char>>::empty());
    request(program, arguments)
}

fn request_one(program: &str, argument: &str) -> (r: Result<LaunchRequest, String>)
    ensures
        launch_result(r) == launch(program@, seq![argument@]),
{
    let mut arguments: Vec<String> = Vec::new();
    arguments.push(argument.to_owned());
    assert(Seq::new(arguments@.len(), |i: int| arguments@[i]@) =~= seq![argument@]);
    request(program, arguments)
}

fn request_two(program: &str, first: &str, second: &str) -> (r: Result<LaunchRequest, String>)
    ensures
        launch_result(r) == launch(program@, seq![first@, second@]),
{
    let mut arguments: Vec<String> = Vec::new();
    arguments.push(first.to_owned());
    arguments.push(second.to_owned());
    assert(Seq::new(arguments@.len(), |i: int| arguments@[i]@) =~= seq![first@, second@]);
    request(program, arguments)
}

/// What shows a path in the file manager: a file's folder, or a folder itself.
pub open spec fn shown_in_manager(p: ShownPath, platform: Platform) -> Result<
    LaunchModel,
    Seq<char>,
> {
    match platform {
        Platform::Windows => if p.is_file {
            match p.folder {
                Some(f) => launch(f@, Seq::empty()),
                None => Err("Selected file parent could not be resolved."@),
            }
        } else {
            launch(p.path@, Seq::empty())
        },
        Platform::MacOs => launch(
            "open"@,
            if p.is_file {
                seq!["-R"@, p.path@]
            } else {
                seq![p.path@]
            },
        ),
        Platform::Other => launch(
            "xdg-open"@,
            seq![
                match p.folder {
                    Some(f) => if p.is_file {
                        f@
                    } else {
                        p.path@
                    },
                    None => p.path@,
                },
            ],
        ),
    }
}

fn show_in_manager(p: &ShownPath, platform: Platform) -> (r: Result<LaunchRequest, String>)
    ensures
        launch_result(r) == shown_in_manager(*p, platform),
{
    match platform {
        Platform::Windows => {
            if p.is_file {
                match &p.folder {
                    Some(f) => request_plain(f.as_str()),
                    None => Err("Selected file parent could not be resolved.".to_owned()),
                }
            } else {
                request_plain(p.path.as_str())
            }
        },
        Platform::MacOs => {
            if p.is_file {
                request_two("open", "-R", p.path.as_str())
            } else {
                request_one("open", p.path.as_str())
            }
        },
        Platform::Other => {
            match &p.folder {
                Some(f) => if p.is_file {
                    request_one("xdg-open", f.as_str())
                } else {
                    request_one("xdg-open", p.path.as_str())
                },
                None => request_one("xdg-open", p.path.as_str()),
            }
        },
    }
}

/// A path that does not exist cannot be shown.
pub open spec fn if_it_exists(p: ShownPath, r: Result<LaunchModel, Seq<char>>) -> Result<
    LaunchModel,
    Seq<char>,
> {
    if p.exists {
        r
    } else {
        Err("Selected path does not exist."@)
    }
}

pub fn open_in_file_manager(p: &ShownPath, platform: Platform) -> (r: Result<
    LaunchRequest,
    String,
>)
    ensures
        launch_result(r) == if_it_exists(*p, shown_in_manager(*p, platform)),
{
    if !p.exists {
        return Err("Selected path does not exist.".to_owned());
    }
    show_in_manager(p, platform)
}

/// Shows a path in the file manager, on Windows with the file selected.
pub fn reveal_in_file_manager(p: &ShownPath, platform: Platform) -> (r: Result<
    LaunchRequest,
    String,
>)
    ensures
        launch_result(r) == if_it_exists(
            *p,
            if platform == Platform::Windows && !p.is_dir {
                launch("explorer.exe"@, seq!["/select,\""@ + p.path@ + "\""@])
            } else {
                shown_in_manager(*p, platform)
            },
        ),
{
    if !p.exists {
        return Err("Selected path does not exist.".to_owned());
    }
    if platform == Platform::Windows && !p.is_dir {
        let mut argument = "/select,\"".to_owned();
        argument.append(p.path.as_str());
        argument.append("\"");
        return request_one("explorer.exe", argument.as_str());
    }
    show_in_manager(p, platform)
}

pub fn open_with_default_application(p: &ShownPath, platform: Platform) -> (r: Result<
    LaunchRequest,
    String,
>)
    ensures
        launch_result(r) == if_it_exists(
            *p,
            match platform {
                Platform::Windows => launch(p.path@, Seq::empty()),
                Platform::MacOs => launch("open"@, seq![p.path@]),
                Platform::Other => launch("xdg-open"@, seq![p.path@]),
            },
        ),
{
    if !p.exists {
        return Err("Selected path does not exist.".to_owned());
    }
    match platform {
        Platform::Windows => request_plain(p.path.as_str()),
        Platform::MacOs => request_one("open", p.path.as_str()),
        Platform::Other => request_one("xdg-open", p.path.as_str()),
    }
}

/// Whether a path may be moved to the recycle bin.
pub fn move_file_to_recycle_bin(exists: bool, platform: Platform) -> (r: Result<(), String>)
    ensures
        match r {
            Ok(_) => exists && platform == Platform::Windows,
            Err(e) => if !exists {
                e@ == "Selected path does not exist."@
            } else {
                platform != Platform::Windows && e@
                    == "Moving items to the system Trash is not implemented on this platform; no file was deleted."@
            },
        },
{
    if !exists {
        return Err("Selected path does not exist.".to_owned());
    }
    if platform == Platform::Windows {
        Ok(())
    } else {
        Err(
            "Moving items to the system Trash is not implemented on this platform; no file was deleted.".to_owned(),
        )
    }
}

/// Whether the user can be asked for a folder.
pub fn choose_folder(platform: Platform) -> (r: Result<(), String>)
    ensures
        match r {
            Ok(_) => platform == Platform::Windows,
            Err(e) => platform != Platform::Windows && e@
                == "Folder selection is currently supported on Windows only."@,
        },
{
    if platform == Platform::Windows {
        Ok(())
    } else {
        Err("Folder selection is currently supported on Windows only.".to_owned())
    }
}

} // verus!
