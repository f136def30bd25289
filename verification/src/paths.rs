//! The parts of a path: two texts stand for the same path if they have the same
//! parts, and paths are ordered part by part.
use crate::text::{self, chars_of, text_of};
use vstd::prelude::*;

verus! {

/// What stands in front of a path on Windows.
#[derive(Clone, Copy, Debug, PartialEq, Eq, Structural)]
pub enum PrefixKind {
    /// `\\?\name`
    Verbatim,
    /// `\\?\UNC\server\share`
    VerbatimUnc,
    /// `\\?\C:`
    VerbatimDisk,
    /// `\\.\name`
    Device,
    /// `\\server\share`
    Unc,
    /// `C:`
    Disk,
}

/// One part of a path.
#[derive(Debug)]
pub enum PathPart {
    /// The prefix, with its text in one spelling.
    Prefix(PrefixKind, String),
    Root,
    /// A dot.
    Current,
    /// Two dots.
    Parent,
    Name(String),
}

pub enum Part {
    Prefix(PrefixKind, Seq<char>),
    Root,
    Current,
    Parent,
    Name(Seq<char>),
}

impl View for PathPart {
    type V = Part;

    open spec fn view(&self) -> Part {
        match self {
            PathPart::Prefix(k, t) => Part::Prefix(*k, t@),
            PathPart::Root => Part::Root,
            PathPart::Current => Part::Current,
            PathPart::Parent => Part::Parent,
            PathPart::Name(n) => Part::Name(n@),
        }
    }
}

pub open spec fn part_views(parts: Seq<PathPart>) -> Seq<Part> {
    Seq::new(parts.len(), |i: int| parts[i]@)
}

/// Whether a character separates names. Behind a verbatim prefix a slash does not.
pub open spec fn separates(c: char, windows: bool, verbatim: bool) -> bool {
    if windows {
        c == '\\' || (c == '/' && !verbatim)
    } else {
        c == '/'
    }
}

fn is_separator(c: char, windows: bool, verbatim: bool) -> (r: bool)
    ensures
        r == separates(c, windows, verbatim),
{
    if windows {
        c == '\\' || (c == '/' && !verbatim)
    } else {
        c == '/'
    }
}

/// The place of the first separator from a place on, or the end.
pub open spec fn name_end(path: Seq<char>, i: int, windows: bool, verbatim: bool) -> int
    decreases path.len() - i,
{
    if i >= path.len() {
        path.len() as int
    } else if i < 0 || separates(path[i], windows, verbatim) {
        i
    } else {
        name_end(path, i + 1, windows, verbatim)
    }
}

proof fn lemma_name_end(path: Seq<char>, i: int, windows: bool, verbatim: bool)
    requires
        0 <= i <= path.len(),
    ensures
        i <= name_end(path, i, windows, verbatim) <= path.len(),
        i < path.len() && !separates(path[i], windows, verbatim) ==> i < name_end(
            path,
            i,
            windows,
            verbatim,
        ),
    decreases path.len() - i,
{
    if i < path.len() && !separates(path[i], windows, verbatim) {
        lemma_name_end(path, i + 1, windows, verbatim);
    }
}

fn find_name_end(path: &Vec<char>, from: usize, windows: bool, verbatim: bool) -> (r: usize)
    requires
        from <= path@.len(),
    ensures
        r == name_end(path@, from as int, windows, verbatim),
        from <= r <= path@.len(),
        from < path@.len() && !separates(path@[from as int], windows, verbatim) ==> from < r,
{
    proof {
        lemma_name_end(path@, from as int, windows, verbatim);
    }
    let n: usize = path.len();
    let mut i: usize = from;
    while i < n && !is_separator(path[i], windows, verbatim)
        invariant
            from <= i <= n,
            n == path@.len(),
            name_end(path@, from as int, windows, verbatim) == name_end(
                path@,
                i as int,
                windows,
                verbatim,
            ),
        decreases n - i,
    {
        i += 1;
    }
    i
}

// Prefixes.

/// A letter and a colon stand at a place.
pub open spec fn drive_at(path: Seq<char>, i: int) -> bool {
    i + 2 <= path.len() && ('a' <= path[i] <= 'z' || 'A' <= path[i] <= 'Z') && path[i + 1] == ':'
}

/// Where a prefix ends that names a server behind it and a share of the server;
/// the share may be missing.
pub open spec fn share_end(path: Seq<char>, i: int, verbatim: bool) -> int {
    let server = name_end(path, i, true, verbatim);
    let share = name_end(path, server + 1, true, verbatim);
    if server + 1 < share {
        share
    } else {
        server
    }
}

/// The prefix of a path on Windows, with its end.
pub open spec fn prefix_of(path: Seq<char>) -> Option<(PrefixKind, int)> {
    let n = path.len();
    if n >= 2 && separates(path[0], true, false) && separates(path[1], true, false) {
        if n >= 4 && path[0] == '\\' && path[1] == '\\' && path[2] == '?' && path[3] == '\\' {
            if n >= 8 && path.subrange(4, 7) == seq!['U', 'N', 'C'] && separates(
                path[7],
                true,
                false,
            ) {
                Some((PrefixKind::VerbatimUnc, share_end(path, 8, true)))
            } else if drive_at(path, 4) && (n == 6 || separates(path[6], true, false)) {
                Some((PrefixKind::VerbatimDisk, 6))
            } else {
                Some((PrefixKind::Verbatim, name_end(path, 4, true, true)))
            }
        } else if n >= 4 && path[2] == '.' && separates(path[3], true, false) {
            Some((PrefixKind::Device, name_end(path, 4, true, false)))
        } else {
            let server = name_end(path, 2, true, false);
            let share = name_end(path, server + 1, true, false);
            if 2 < server && server + 1 < share {
                Some((PrefixKind::Unc, share))
            } else {
                None
            }
        }
    } else if drive_at(path, 0) {
        Some((PrefixKind::Disk, 2))
    } else {
        None
    }
}

fn has_drive(path: &Vec<char>, i: usize) -> (r: bool)
    requires
        i <= 4,
    ensures
        r == drive_at(path@, i as int),
{
    i + 2 <= path.len() && (('a' <= path[i] && path[i] <= 'z') || ('A' <= path[i] && path[i]
        <= 'Z')) && path[i + 1] == ':'
}

fn find_share_end(path: &Vec<char>, i: usize, verbatim: bool) -> (r: usize)
    requires
        i <= path@.len(),
    ensures
        r == share_end(path@, i as int, verbatim),
        i <= r <= path@.len(),
{
    let n: usize = path.len();
    let server: usize = find_name_end(path, i, true, verbatim);
    if server >= n {
        return server;
    }
    let share: usize = find_name_end(path, server + 1, true, verbatim);
    if server + 1 < share {
        share
    } else {
        server
    }
}

fn find_prefix(path: &Vec<char>) -> (r: Option<(PrefixKind, usize)>)
    ensures
        match r {
            Some((k, e)) => prefix_of(path@) == Some((k, e as int)) && e <= path@.len(),
            None => prefix_of(path@) is None,
        },
{
    let n: usize = path.len();
    if n >= 2 && is_separator(path[0], true, false) && is_separator(path[1], true, false) {
        if n >= 4 && path[0] == '\\' && path[1] == '\\' && path[2] == '?' && path[3] == '\\' {
            let is_unc = n >= 8 && path[4] == 'U' && path[5] == 'N' && path[6] == 'C';
            proof {
                if n >= 8 {
                    let part = path@.subrange(4, 7);
                    assert(part[0] == path@[4] && part[1] == path@[5] && part[2] == path@[6]);
                    if is_unc {
                        assert(part =~= seq!['U', 'N', 'C']);
                    }
                }
            }
            if is_unc && is_separator(path[7], true, false) {
                Some((PrefixKind::VerbatimUnc, find_share_end(path, 8, true)))
            } else if has_drive(path, 4) && (n == 6 || is_separator(path[6], true, false)) {
                Some((PrefixKind::VerbatimDisk, 6))
            } else {
                Some((PrefixKind::Verbatim, find_name_end(path, 4, true, true)))
            }
        } else if n >= 4 && path[2] == '.' && is_separator(path[3], true, false) {
            Some((PrefixKind::Device, find_name_end(path, 4, true, false)))
        } else {
            let server: usize = find_name_end(path, 2, true, false);
            if server >= n {
                return None;
            }
            let share: usize = find_name_end(path, server + 1, true, false);
            if 2 < server && server + 1 < share {
                Some((PrefixKind::Unc, share))
            } else {
                None
            }
        }
    } else if has_drive(path, 0) {
        Some((PrefixKind::Disk, 2))
    } else {
        None
    }
}

pub open spec fn is_verbatim(kind: PrefixKind) -> bool {
    kind == PrefixKind::Verbatim || kind == PrefixKind::VerbatimUnc || kind
        == PrefixKind::VerbatimDisk
}

/// The text of a prefix in one spelling: backslashes for slashes where both
/// separate names, and small letters for drives.
pub open spec fn prefix_text(kind: PrefixKind, text: Seq<char>) -> Seq<char> {
    match kind {
        PrefixKind::Disk => text::lower(text),
        PrefixKind::VerbatimDisk => text::lower(text),
        PrefixKind::Verbatim => text,
        PrefixKind::VerbatimUnc => text,
        _ => text.map_values(
            |c: char|
                if c == '/' {
                    '\\'
                } else {
                    c
                },
        ),
    }
}

// Parts.

/// The parts from a place on. A dot is one only where it begins a path without a
/// root, and behind a verbatim prefix.
pub open spec fn parts_from(path: Seq<char>, i: int, windows: bool, verbatim: bool, leads: bool) -> Seq<
    Part,
>
    decreases path.len() - i,
{
    if i < 0 || i >= path.len() {
        Seq::empty()
    } else if separates(path[i], windows, verbatim) {
        parts_from(path, i + 1, windows, verbatim, false)
    } else {
        let end = name_end(path, i, windows, verbatim);
        let name = path.subrange(i, end);
        let rest = if i < end <= path.len() {
            parts_from(path, end, windows, verbatim, false)
        } else {
            Seq::empty()
        };
        part_of(name, verbatim || leads) + rest
    }
}

/// What a name in a path is.
pub open spec fn part_of(name: Seq<char>, dot_counts: bool) -> Seq<Part> {
    if name == seq!['.'] {
        if dot_counts {
            seq![Part::Current]
        } else {
            Seq::empty()
        }
    } else if name == seq!['.', '.'] {
        seq![Part::Parent]
    } else {
        seq![Part::Name(name)]
    }
}

/// The parts of a path.
pub open spec fn parts(path: Seq<char>, windows: bool) -> Seq<Part> {
    let prefix = if windows {
        prefix_of(path)
    } else {
        None
    };
    let end = match prefix {
        Some((_, e)) => e,
        None => 0,
    };
    let verbatim = prefix matches Some((k, _)) && is_verbatim(k);
    let implied = prefix matches Some((k, _)) && (k == PrefixKind::Unc || k == PrefixKind::Device);
    let rooted = implied || (end < path.len() && separates(path[end], windows, verbatim));
    (match prefix {
        Some((k, e)) => seq![Part::Prefix(k, prefix_text(k, path.take(e)))],
        None => Seq::empty(),
    }) + (if rooted {
        seq![Part::Root]
    } else {
        Seq::empty()
    }) + parts_from(path, end, windows, verbatim, prefix is None && !rooted)
}

fn write_prefix(kind: PrefixKind, path: &Vec<char>, end: usize) -> (r: String)
    requires
        end <= path@.len(),
    ensures
        r@ == prefix_text(kind, path@.take(end as int)),
{
    let ghost text = path@.take(end as int);
    let lowers = kind == PrefixKind::Disk || kind == PrefixKind::VerbatimDisk;
    let turns = kind == PrefixKind::Device || kind == PrefixKind::Unc;
    let mut out: Vec<char> = Vec::new();
    let mut i: usize = 0;
    while i < end
        invariant
            i <= end <= path@.len(),
            text == path@.take(end as int),
            lowers == (kind == PrefixKind::Disk || kind == PrefixKind::VerbatimDisk),
            turns == (kind == PrefixKind::Device || kind == PrefixKind::Unc),
            out@.len() == i,
            forall|k: int| 0 <= k < i ==> #[trigger] out@[k] == prefix_text(kind, text)[k],
        decreases end - i,
    {
        let c: char = path[i];
        if lowers {
            out.push(text::to_lower_char(c));
        } else if turns && c == '/' {
            out.push('\\');
        } else {
            out.push(c);
        }
        i += 1;
    }
    assert(out@ =~= prefix_text(kind, text));
    text_of(out.as_slice())
}

proof fn lemma_pushed(parts: Seq<PathPart>, p: PathPart)
    ensures
        part_views(parts.push(p)) == part_views(parts) + seq![p@],
{
    assert(part_views(parts.push(p)) =~= part_views(parts) + seq![p@]);
}

/// The parts of a path.
pub fn read_parts(path: &str, windows: bool) -> (r: Vec<PathPart>)
    ensures
        part_views(r@) == parts(path@, windows),
{
    let chars = chars_of(path);
    let n: usize = chars.len();
    let prefix = if windows {
        find_prefix(&chars)
    } else {
        None
    };
    let mut out: Vec<PathPart> = Vec::new();
    let ghost mut head: Seq<Part> = Seq::empty();
    assert(part_views(out@) =~= head);
    let mut end: usize = 0;
    let mut verbatim = false;
    let mut rooted = false;
    match prefix {
        Some((k, e)) => {
            end = e;
            verbatim = k == PrefixKind::Verbatim || k == PrefixKind::VerbatimUnc || k
                == PrefixKind::VerbatimDisk;
            rooted = k == PrefixKind::Unc || k == PrefixKind::Device;
            let p = PathPart::Prefix(k, write_prefix(k, &chars, e));
            proof {
                lemma_pushed(out@, p);
                head = seq![p@];
            }
            out.push(p);
            assert(part_views(out@) =~= head);
        },
        None => {},
    }
    rooted = rooted || (end < n && is_separator(chars[end], windows, verbatim));
    if rooted {
        proof {
            lemma_pushed(out@, PathPart::Root);
            head = head + seq![Part::Root];
        }
        out.push(PathPart::Root);
    } else {
        assert(head + Seq::<Part>::empty() =~= head);
    }
    let ghost all = head + parts_from(
        path@,
        end as int,
        windows,
        verbatim,
        prefix is None && !rooted,
    );
    let mut i: usize = end;
    let mut leads = prefix.is_none() && !rooted;
    while i < n
        invariant
            i <= n,
            n == chars@.len(),
            chars@ == path@,
            all == part_views(out@) + parts_from(path@, i as int, windows, verbatim, leads),
        decreases n - i,
    {
        let ghost before = part_views(out@);
        if is_separator(chars[i], windows, verbatim) {
            i += 1;
        } else {
            let e: usize = find_name_end(&chars, i, windows, verbatim);
            let name = &chars.as_slice()[i..e];
            let ghost view = path@.subrange(i as int, e as int);
            assert(name@ =~= view);
            let ghost rest = parts_from(path@, e as int, windows, verbatim, false);
            if name.len() == 1 && name[0] == '.' {
                assert(view =~= seq!['.']);
                if verbatim || leads {
                    proof {
                        lemma_pushed(out@, PathPart::Current);
                    }
                    out.push(PathPart::Current);
                    assert(before + (seq![Part::Current] + rest) =~= before + seq![Part::Current]
                        + rest);
                } else {
                    assert(Seq::<Part>::empty() + rest =~= rest);
                }
            } else if name.len() == 2 && name[0] == '.' && name[1] == '.' {
                assert(view =~= seq!['.', '.']);
                proof {
                    lemma_pushed(out@, PathPart::Parent);
                }
                out.push(PathPart::Parent);
                assert(before + (seq![Part::Parent] + rest) =~= before + seq![Part::Parent] + rest);
            } else {
                let p = PathPart::Name(text_of(name));
                proof {
                    lemma_pushed(out@, p);
                    assert(view.len() == name@.len());
                    assert(view != seq!['.']);
                    assert(view != seq!['.', '.']);
                }
                out.push(p);
                assert(before + (seq![Part::Name(view)] + rest) =~= before + seq![Part::Name(view)]
                    + rest);
            }
            i = e;
        }
        leads = false;
    }
    assert(all =~= part_views(out@));
    out
}

// The name at the end.

/// The name at the end of a path, if its last part is one.
pub open spec fn last_name(path: Seq<char>, windows: bool) -> Option<Seq<char>> {
    let all = parts(path, windows);
    if all.len() > 0 && all.last() is Name {
        Some(all.last()->Name_0)
    } else {
        None
    }
}

/// The name at the end of a path, if its last part is one.
pub fn path_file_name(path: &str, windows: bool) -> (r: Option<String>)
    ensures
        match r {
            Some(n) => last_name(path@, windows) == Some(n@),
            None => last_name(path@, windows) is None,
        },
{
    let mut all = read_parts(path, windows);
    let ghost views = part_views(all@);
    assert(views.len() == all@.len());
    match all.pop() {
        Some(p) => {
            assert(views.last() == p@);
            match p {
                PathPart::Name(n) => Some(n),
                _ => None,
            }
        },
        None => None,
    }
}

// Comparing paths.

/// By which paths of one kind of part stand before those of another.
pub open spec fn rank(part: Part) -> char {
    match part {
        Part::Prefix(PrefixKind::Verbatim, _) => '\u{1}',
        Part::Prefix(PrefixKind::VerbatimUnc, _) => '\u{2}',
        Part::Prefix(PrefixKind::VerbatimDisk, _) => '\u{3}',
        Part::Prefix(PrefixKind::Device, _) => '\u{4}',
        Part::Prefix(PrefixKind::Unc, _) => '\u{5}',
        Part::Prefix(PrefixKind::Disk, _) => '\u{6}',
        Part::Root => '\u{7}',
        Part::Current => '\u{8}',
        Part::Parent => '\u{9}',
        Part::Name(_) => '\u{a}',
    }
}

pub open spec fn part_text(part: Part) -> Seq<char> {
    match part {
        Part::Prefix(_, t) => t,
        Part::Name(n) => n,
        _ => Seq::empty(),
    }
}

/// The first parts of a path, each as its rank and its text with a zero behind it.
pub open spec fn written_parts(all: Seq<Part>, n: int) -> Seq<char>
    decreases n,
{
    if n <= 0 {
        Seq::empty()
    } else {
        written_parts(all, n - 1) + seq![rank(all[n - 1])] + part_text(all[n - 1]) + seq!['\0']
    }
}

/// By what paths are compared and ordered: their parts, one after the other.
pub open spec fn path_id(path: Seq<char>, windows: bool) -> Seq<char> {
    written_parts(parts(path, windows), parts(path, windows).len() as int)
}

/// Whether two texts stand for the same path.
pub open spec fn same(a: Seq<char>, b: Seq<char>, windows: bool) -> bool {
    path_id(a, windows) == path_id(b, windows)
}

fn write_part(out: &mut String, part: &PathPart)
    ensures
        final(out)@ == old(out)@ + seq![rank(part@)] + part_text(part@) + seq!['\0'],
{
    let ghost before = out@;
    let c: char = match part {
        PathPart::Prefix(PrefixKind::Verbatim, _) => '\u{1}',
        PathPart::Prefix(PrefixKind::VerbatimUnc, _) => '\u{2}',
        PathPart::Prefix(PrefixKind::VerbatimDisk, _) => '\u{3}',
        PathPart::Prefix(PrefixKind::Device, _) => '\u{4}',
        PathPart::Prefix(PrefixKind::Unc, _) => '\u{5}',
        PathPart::Prefix(PrefixKind::Disk, _) => '\u{6}',
        PathPart::Root => '\u{7}',
        PathPart::Current => '\u{8}',
        PathPart::Parent => '\u{9}',
        PathPart::Name(_) => '\u{a}',
    };
    out.push(c);
    match part {
        PathPart::Prefix(_, t) => {
            out.append(t.as_str());
        },
        PathPart::Name(t) => {
            out.append(t.as_str());
        },
        _ => {},
    }
    out.push('\0');
    assert(out@ =~= before + seq![rank(part@)] + part_text(part@) + seq!['\0']);
}

/// By what a path is compared.
pub fn comparable_path(path: &str, windows: bool) -> (r: String)
    ensures
        r@ == path_id(path@, windows),
{
    let all = read_parts(path, windows);
    let ghost views = part_views(all@);
    let n: usize = all.len();
    let mut out = String::new();
    let mut i: usize = 0;
    assert(out@ =~= written_parts(views, 0));
    while i < n
        invariant
            i <= n,
            n == all@.len(),
            views == part_views(all@),
            out@ == written_parts(views, i as int),
        decreases n - i,
    {
        assert(views[i as int] == all@[i as int]@);
        write_part(&mut out, &all[i]);
        i += 1;
    }
    out
}

/// Whether two texts stand for the same path.
pub fn same_path(a: &str, b: &str, windows: bool) -> (r: bool)
    ensures
        r == same(a@, b@, windows),
{
    text::same_text(a, b) || text::same_text(
        comparable_path(a, windows).as_str(),
        comparable_path(b, windows).as_str(),
    )
}

} // verus!
