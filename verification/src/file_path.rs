//! Paths of files, and names that no other file has.
use crate::names::{self, file_extension, file_stem};
use crate::text::{self, joined_text, padded_text, same_text, to_lowercase};
use vstd::prelude::*;

verus! {

/// A path: the folder with the separator at its end, and the name. There is no
/// folder for the root of a file system, and no name for a path that does not
/// end in one.
#[derive(Debug)]
pub struct FilePath {
    pub folder: Option<String>,
    pub name: String,
}

/// The folder and the name of a path.
pub struct PathModel {
    pub folder: Option<Seq<char>>,
    pub name: Seq<char>,
}

impl View for FilePath {
    type V = PathModel;

    open spec fn view(&self) -> PathModel {
        PathModel {
            folder: match self.folder {
                Some(f) => Some(f@),
                None => None,
            },
            name: self.name@,
        }
    }
}

impl PathModel {
    /// The path as it is written.
    pub open spec fn text(self) -> Seq<char> {
        match self.folder {
            Some(f) => f + self.name,
            None => self.name,
        }
    }
}

pub open spec fn path_in(folder: Seq<char>, name: Seq<char>) -> PathModel {
    PathModel { folder: Some(folder), name }
}

impl Clone for FilePath {
    fn clone(&self) -> (r: Self)
        ensures
            r == *self,
    {
        FilePath {
            folder: match &self.folder {
                Some(f) => Some(f.clone()),
                None => None,
            },
            name: self.name.clone(),
        }
    }
}

impl FilePath {
    pub fn new(folder: &str, name: &str) -> (r: Self)
        ensures
            r@ == path_in(folder@, name@),
    {
        FilePath { folder: Some(folder.to_owned()), name: name.to_owned() }
    }

    pub fn to_text(&self) -> (r: String)
        ensures
            r@ == self@.text(),
    {
        match &self.folder {
            Some(f) => joined_text(f.as_str(), self.name.as_str()),
            None => self.name.clone(),
        }
    }
}

pub(crate) fn same_path(a: &FilePath, b: &FilePath) -> (r: bool)
    ensures
        r == (a@ == b@),
{
    if !same_text(a.name.as_str(), b.name.as_str()) {
        return false;
    }
    match (&a.folder, &b.folder) {
        (Some(x), Some(y)) => same_text(x.as_str(), y.as_str()),
        (None, None) => true,
        _ => false,
    }
}

/// By what paths are compared: on Windows, capital letters do not matter.
pub open spec fn path_key(path: Seq<char>, windows: bool) -> Seq<char> {
    if windows {
        text::lowercased(path)
    } else {
        path
    }
}

pub(crate) fn comparable_path_key(path: &str, windows: bool) -> (r: String)
    ensures
        r@ == path_key(path@, windows),
{
    if windows {
        to_lowercase(path)
    } else {
        path.to_owned()
    }
}

/// A name with an extension, where there is one.
pub open spec fn with_extension(stem: Seq<char>, extension: Option<Seq<char>>) -> Seq<char> {
    match extension {
        Some(e) => if e.len() > 0 {
            stem + seq!['.'] + e
        } else {
            stem
        },
        None => stem,
    }
}

pub(crate) fn name_with_extension(stem: &str, extension: &Option<String>) -> (r: String)
    ensures
        r@ == with_extension(
            stem@,
            match *extension {
                Some(e) => Some(e@),
                None => None,
            },
        ),
{
    let mut out = stem.to_owned();
    match extension {
        Some(e) => {
            if e.as_str().unicode_len() > 0 {
                out.push('.');
                out.append(e.as_str());
                assert(out@ =~= stem@ + seq!['.'] + e@);
            }
        },
        None => {},
    }
    out
}

// Names that no other file has.

/// The number of names that are tried.
pub const ATTEMPTS: usize = 1000;

/// The names that are tried for a file: its own, then with numbers behind it.
pub open spec fn candidate_name(name: Seq<char>, i: int) -> Seq<char> {
    with_extension(
        if i == 0 {
            names::stem(name)
        } else {
            names::stem(name) + "_dup"@ + text::zero_padded(i as nat, 3)
        },
        names::extension(name),
    )
}

/// Whether a path is among those that exist.
pub open spec fn exists_path(existing: Seq<String>, path: Seq<char>, windows: bool) -> bool {
    exists|i: int|
        0 <= i < existing.len() && path_key((#[trigger] existing[i])@, windows) == path_key(
            path,
            windows,
        )
}

pub(crate) fn path_exists(existing: &[String], path: &str, windows: bool) -> (r: bool)
    ensures
        r == exists_path(existing@, path@, windows),
{
    let key = comparable_path_key(path, windows);
    let n: usize = existing.len();
    let mut i: usize = 0;
    while i < n
        invariant
            i <= n,
            n == existing@.len(),
            key@ == path_key(path@, windows),
            forall|k: int|
                0 <= k < i ==> path_key((#[trigger] existing@[k])@, windows) != path_key(
                    path@,
                    windows,
                ),
        decreases n - i,
    {
        let other = comparable_path_key(existing[i].as_str(), windows);
        if same_text(other.as_str(), key.as_str()) {
            return true;
        }
        i += 1;
    }
    false
}

/// Gives out names that no file has, and none twice.
#[derive(Debug)]
pub struct FilenameCollisionResolver {
    pub windows: bool,
    pub reserved: Vec<String>,
}

/// What names are searched among.
pub struct Names {
    pub reserved: Set<Seq<char>>,
    pub existing: Seq<String>,
    pub allowed: Option<Seq<char>>,
    pub windows: bool,
}

/// A path can be given out: it does not exist, or is the one that is allowed
/// to, and it was not given out before.
pub open spec fn is_free(n: Names, path: Seq<char>) -> bool {
    &&& !exists_path(n.existing, path, n.windows) || (n.allowed matches Some(a) && path_key(
        a,
        n.windows,
    ) == path_key(path, n.windows))
    &&& !n.reserved.contains(path_key(path, n.windows))
}

/// The first of the names that are tried, from a number on, that is free.
pub open spec fn first_free(n: Names, folder: Seq<char>, name: Seq<char>, i: int) -> Option<
    Seq<char>,
>
    decreases ATTEMPTS - i,
{
    if i < 0 || i >= ATTEMPTS {
        None
    } else if is_free(n, folder + candidate_name(name, i)) {
        Some(candidate_name(name, i))
    } else {
        first_free(n, folder, name, i + 1)
    }
}

/// Whether a name is that of a file.
pub open spec fn names_a_file(name: Seq<char>) -> bool {
    name.len() > 0 && name != "."@ && name != ".."@
}

/// The name that is given out for a path.
pub open spec fn resolved(n: Names, desired: PathModel) -> Result<PathModel, Seq<char>> {
    match desired.folder {
        None => Err("Could not resolve the target folder."@),
        Some(folder) => if !names_a_file(desired.name) {
            Err("Could not resolve the target filename."@)
        } else {
            match first_free(n, folder, desired.name, 0) {
                Some(name) => Ok(path_in(folder, name)),
                None => Err(
                    "Could not find an available filename based on "@ + desired.text() + "."@,
                ),
            }
        },
    }
}

/// What is reserved after a name was given out.
pub open spec fn reserved_after(
    n: Names,
    result: Result<PathModel, Seq<char>>,
) -> Set<Seq<char>> {
    match result {
        Ok(p) => n.reserved.insert(path_key(p.text(), n.windows)),
        Err(_) => n.reserved,
    }
}

pub(crate) fn is_file_name(name: &str) -> (r: bool)
    ensures
        r == names_a_file(name@),
{
    name.unicode_len() > 0 && !same_text(name, ".") && !same_text(name, "..")
}

impl FilenameCollisionResolver {
    /// The paths that were given out, as they are compared.
    pub open spec fn reserved_keys(self) -> Set<Seq<char>> {
        Set::new(
            |k: Seq<char>|
                exists|i: int| 0 <= i < self.reserved@.len() && (#[trigger] self.reserved@[i])@
                    == k,
        )
    }

    pub open spec fn names(self, existing: Seq<String>, allowed: Option<Seq<char>>) -> Names {
        Names { reserved: self.reserved_keys(), existing, allowed, windows: self.windows }
    }

    pub fn new(windows: bool) -> (r: Self)
        ensures
            r.windows == windows,
            r.reserved_keys() == Set::<Seq<char>>::empty(),
    {
        let r = FilenameCollisionResolver { windows, reserved: Vec::new() };
        assert(r.reserved_keys() =~= Set::<Seq<char>>::empty());
        r
    }

    /// The name for a new file, given the paths that exist.
    pub fn resolve_for_create(&mut self, desired_path: &FilePath, existing: &[String]) -> (r: Result<
        FilePath,
        String,
    >)
        ensures
            answers(*old(self), *final(self), r, desired_path@, existing@, None),
    {
        self.resolve(desired_path, existing, None)
    }

    /// The name for a file that is to be renamed, which may keep its own.
    pub fn resolve_for_rename(
        &mut self,
        desired_path: &FilePath,
        current_path: &str,
        existing: &[String],
    ) -> (r: Result<FilePath, String>)
        ensures
            answers(
                *old(self),
                *final(self),
                r,
                desired_path@,
                existing@,
                Some(current_path@),
            ),
    {
        self.resolve(desired_path, existing, Some(current_path))
    }

    fn is_reserved(&self, key: &str) -> (r: bool)
        ensures
            r == self.reserved_keys().contains(key@),
    {
        let n: usize = self.reserved.len();
        let mut i: usize = 0;
        while i < n
            invariant
                i <= n,
                n == self.reserved@.len(),
                forall|k: int| 0 <= k < i ==> (#[trigger] self.reserved@[k])@ != key@,
            decreases n - i,
        {
            if same_text(self.reserved[i].as_str(), key) {
                return true;
            }
            i += 1;
        }
        false
    }

    fn reserve(&mut self, key: String)
        ensures
            final(self).windows == old(self).windows,
            final(self).reserved_keys() == old(self).reserved_keys().insert(key@),
    {
        let ghost before = self.reserved@;
        self.reserved.push(key);
        proof {
            let after = self.reserved@;
            assert forall|k: Seq<char>| self.reserved_keys().contains(k) == old(
                self,
            ).reserved_keys().insert(key@).contains(k) by {
                if exists|i: int| 0 <= i < before.len() && (#[trigger] before[i])@ == k {
                    let i = choose|i: int| 0 <= i < before.len() && (#[trigger] before[i])@ == k;
                    assert(after[i]@ == k);
                }
                if k == key@ {
                    assert(after[before.len() as int]@ == k);
                }
                if exists|i: int| 0 <= i < after.len() && (#[trigger] after[i])@ == k {
                    let i = choose|i: int| 0 <= i < after.len() && (#[trigger] after[i])@ == k;
                    if i < before.len() {
                        assert(before[i]@ == k);
                    }
                }
            }
            assert(self.reserved_keys() =~= old(self).reserved_keys().insert(key@));
        }
    }

    fn resolve(
        &mut self,
        desired_path: &FilePath,
        existing: &[String],
        allowed_existing_path: Option<&str>,
    ) -> (r: Result<FilePath, String>)
        ensures
            answers(
                *old(self),
                *final(self),
                r,
                desired_path@,
                existing@,
                match allowed_existing_path {
                    Some(a) => Some(a@),
                    None => None,
                },
            ),
    {
        let folder: &str = match &desired_path.folder {
            Some(f) => f.as_str(),
            None => {
                return Err("Could not resolve the target folder.".to_owned());
            },
        };
        let name = desired_path.name.as_str();
        if !is_file_name(name) {
            return Err("Could not resolve the target filename.".to_owned());
        }
        let stem = file_stem(name);
        let extension = file_extension(name);
        let ghost n = self.names(
            existing@,
            match allowed_existing_path {
                Some(a) => Some(a@),
                None => None,
            },
        );
        let mut index: usize = 0;
        while index < ATTEMPTS
            invariant
                index <= ATTEMPTS,
                *self == *old(self),
                stem@ == names::stem(name@),
                match extension {
                    Some(e) => names::extension(name@) == Some(e@),
                    None => names::extension(name@) is None,
                },
                desired_path@.folder == Some(folder@),
                desired_path@.name == name@,
                names_a_file(name@),
                n == self.names(
                    existing@,
                    match allowed_existing_path {
                        Some(a) => Some(a@),
                        None => None,
                    },
                ),
                first_free(n, folder@, name@, 0) == first_free(
                    n,
                    folder@,
                    name@,
                    index as int,
                ),
            decreases ATTEMPTS - index,
        {
            let mut candidate_stem = stem.clone();
            if index > 0 {
                candidate_stem.append("_dup");
                candidate_stem.append(padded_text(index as u64, 3).as_str());
            }
            let candidate = name_with_extension(candidate_stem.as_str(), &extension);
            assert(candidate@ == candidate_name(name@, index as int));
            let path = joined_text(folder, candidate.as_str());
            let key = comparable_path_key(path.as_str(), self.windows);
            let is_allowed_existing = match allowed_existing_path {
                Some(a) => {
                    let allowed_key = comparable_path_key(a, self.windows);
                    same_text(allowed_key.as_str(), key.as_str())
                },
                None => false,
            };
            if (!path_exists(existing, path.as_str(), self.windows) || is_allowed_existing)
                && !self.is_reserved(key.as_str()) {
                assert(is_free(n, folder@ + candidate_name(name@, index as int)));
                let found = FilePath::new(folder, candidate.as_str());
                self.reserve(key);
                return Ok(found);
            }
            assert(!is_free(n, folder@ + candidate_name(name@, index as int)));
            index += 1;
        }
        let mut message = "Could not find an available filename based on ".to_owned();
        message.append(desired_path.to_text().as_str());
        message.append(".");
        Err(message)
    }
}

/// A resolver gave out the name for a path, or said why there is none.
pub open spec fn answers(
    before: FilenameCollisionResolver,
    after: FilenameCollisionResolver,
    r: Result<FilePath, String>,
    desired: PathModel,
    existing: Seq<String>,
    allowed: Option<Seq<char>>,
) -> bool {
    let n = before.names(existing, allowed);
    let wanted = resolved(n, desired);
    &&& after.windows == before.windows
    &&& after.reserved_keys() == reserved_after(n, wanted)
    &&& match r {
        Ok(p) => wanted == Ok::<PathModel, Seq<char>>(p@),
        Err(e) => wanted == Err::<PathModel, Seq<char>>(e@),
    }
}

/// A name that is given out belongs to no file, but for the one that may keep
/// it, and was not given out before.
pub proof fn resolved_name_is_free(n: Names, desired: PathModel)
    ensures
        resolved(n, desired) matches Ok(p) ==> is_free(n, p.text()) && p.folder
            == desired.folder,
{
    match desired.folder {
        Some(folder) => {
            lemma_first_free(n, folder, desired.name, 0);
        },
        None => {},
    }
}

proof fn lemma_first_free(n: Names, folder: Seq<char>, name: Seq<char>, i: int)
    ensures
        first_free(n, folder, name, i) matches Some(c) ==> is_free(n, folder + c),
    decreases ATTEMPTS - i,
{
    if 0 <= i < ATTEMPTS {
        lemma_first_free(n, folder, name, i + 1);
    }
}

/// No two names of one batch are the same: whatever is given out later differs
/// from what was given out before.
pub proof fn names_of_a_batch_differ(
    first: Names,
    later: Names,
    desired: PathModel,
    desired_later: PathModel,
)
    requires
        first.windows == later.windows,
        reserved_after(first, resolved(first, desired)).subset_of(later.reserved),
        resolved(first, desired) is Ok,
        resolved(later, desired_later) is Ok,
    ensures
        path_key(resolved(first, desired)->Ok_0.text(), first.windows) != path_key(
            resolved(later, desired_later)->Ok_0.text(),
            later.windows,
        ),
        resolved(first, desired)->Ok_0 != resolved(later, desired_later)->Ok_0,
{
    resolved_name_is_free(later, desired_later);
    let key = path_key(resolved(first, desired)->Ok_0.text(), first.windows);
    assert(reserved_after(first, resolved(first, desired)).contains(key));
    assert(later.reserved.contains(key));
}

} // verus!
