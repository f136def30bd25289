//! The parts of paths, and the names at their ends.
use crate::paths::{self, Part};
use vstd::prelude::*;

verus! {

/// A name that stands for itself: not empty, without separators and colons, and neither
/// one dot nor two.
pub open spec fn plain_name(name: Seq<char>) -> bool {
    &&& name.len() > 0
    &&& name != seq!['.']
    &&& name != seq!['.', '.']
    &&& forall|k: int|
        0 <= k < name.len() ==> #[trigger] name[k] != '/' && name[k] != '\\' && name[k] != ':'
}

proof fn lemma_end(path: Seq<char>, i: int, end: int, windows: bool, verbatim: bool)
    requires
        0 <= i <= end <= path.len(),
        forall|k: int| i <= k < end ==> !paths::separates(#[trigger] path[k], windows, verbatim),
        end < path.len() ==> paths::separates(path[end], windows, verbatim),
    ensures
        paths::name_end(path, i, windows, verbatim) == end,
    decreases end - i,
{
    if i < end {
        lemma_end(path, i + 1, end, windows, verbatim);
    }
}

proof fn lemma_same_end(path: Seq<char>, at: int, i: int, windows: bool, verbatim: bool)
    requires
        0 <= i <= at < path.len(),
        paths::separates(path[at], windows, verbatim),
    ensures
        paths::name_end(path, i, windows, verbatim) == paths::name_end(
            path.take(at),
            i,
            windows,
            verbatim,
        ),
        i <= paths::name_end(path, i, windows, verbatim) <= at,
        i < at && !paths::separates(path[i], windows, verbatim) ==> i < paths::name_end(
            path,
            i,
            windows,
            verbatim,
        ),
    decreases at - i,
{
    if i < at && !paths::separates(path[i], windows, verbatim) {
        lemma_same_end(path, at, i + 1, windows, verbatim);
    }
}

proof fn lemma_front(path: Seq<char>, at: int, i: int, windows: bool, verbatim: bool, leads: bool)
    requires
        0 <= i <= at < path.len(),
        paths::separates(path[at], windows, verbatim),
    ensures
        paths::parts_from(path, i, windows, verbatim, leads) == paths::parts_from(
            path.take(at),
            i,
            windows,
            verbatim,
            leads,
        ) + paths::parts_from(path, at, windows, verbatim, false),
    decreases at - i,
{
    let p = path.take(at);
    let rest = paths::parts_from(path, at, windows, verbatim, false);
    if i == at {
        assert(paths::parts_from(path, i, windows, verbatim, leads) == rest);
        assert(Seq::<Part>::empty() + rest =~= rest);
    } else if paths::separates(path[i], windows, verbatim) {
        assert(p[i] == path[i]);
        lemma_front(path, at, i + 1, windows, verbatim, false);
    } else {
        assert(p[i] == path[i]);
        lemma_same_end(path, at, i, windows, verbatim);
        let end = paths::name_end(path, i, windows, verbatim);
        assert(p.subrange(i, end) =~= path.subrange(i, end));
        lemma_front(path, at, end, windows, verbatim, false);
        let first = paths::part_of(path.subrange(i, end), verbatim || leads);
        let more = paths::parts_from(p, end, windows, verbatim, false);
        assert(first + (more + rest) =~= first + more + rest);
    }
}

proof fn lemma_last(path: Seq<char>, at: int, windows: bool, verbatim: bool, leads: bool)
    requires
        0 <= at < path.len(),
        forall|k: int|
            at <= k < path.len() ==> !paths::separates(#[trigger] path[k], windows, verbatim),
    ensures
        paths::parts_from(path, at, windows, verbatim, leads) == paths::part_of(
            path.skip(at),
            verbatim || leads,
        ),
{
    let n = path.len() as int;
    lemma_end(path, at, n, windows, verbatim);
    assert(path.subrange(at, n) =~= path.skip(at));
    assert(paths::parts_from(path, n, windows, verbatim, false) =~= Seq::<Part>::empty());
    let first = paths::part_of(path.skip(at), verbatim || leads);
    assert(first + Seq::<Part>::empty() =~= first);
}

/// A name behind a slash is one more part of a path, two dots lead to the folder above,
/// and one dot and a slash at the end add nothing.
pub proof fn slashes_part_the_names(folder: Seq<char>, name: Seq<char>)
    requires
        folder.len() > 0,
        plain_name(name),
    ensures
        paths::parts(folder + seq!['/'] + name, false) == paths::parts(folder, false).push(
            Part::Name(name),
        ),
        paths::parts(folder + seq!['/'], false) == paths::parts(folder, false),
        paths::parts(folder + seq!['/', '.'], false) == paths::parts(folder, false),
        paths::parts(folder + seq!['/', '.', '.'], false) == paths::parts(folder, false).push(
            Part::Parent,
        ),
        paths::last_name(folder + seq!['/'] + name, false) == Some(name),
        paths::last_name(folder + seq!['/', '.', '.'], false) is None,
{
    lemma_one_more(folder, name);
    lemma_one_more(folder, Seq::empty());
    lemma_one_more(folder, seq!['.']);
    lemma_one_more(folder, seq!['.', '.']);
    assert(folder + seq!['/'] + Seq::<char>::empty() =~= folder + seq!['/']);
    assert(folder + seq!['/'] + seq!['.'] =~= folder + seq!['/', '.']);
    assert(folder + seq!['/'] + seq!['.', '.'] =~= folder + seq!['/', '.', '.']);
    let p = paths::parts(folder, false);
    assert(p + seq![Part::Name(name)] =~= p.push(Part::Name(name)));
    assert(p + seq![Part::Parent] =~= p.push(Part::Parent));
    assert(p + Seq::<Part>::empty() =~= p);
    assert(seq!['.', '.'].len() == 2 && seq!['.'].len() == 1);
}

proof fn lemma_one_more(folder: Seq<char>, name: Seq<char>)
    requires
        folder.len() > 0,
        forall|k: int| 0 <= k < name.len() ==> #[trigger] name[k] != '/',
    ensures
        paths::parts(folder + seq!['/'] + name, false) == paths::parts(folder, false) + (
        if name.len() == 0 {
            Seq::empty()
        } else {
            paths::part_of(name, false)
        }),
{
    let path = folder + seq!['/'] + name;
    let at = folder.len() as int;
    let rooted = folder[0] == '/';
    assert(path[0] == folder[0]);
    assert(path[at] == '/');
    assert(path.take(at) =~= folder);
    lemma_front(path, at, 0, false, false, !rooted);
    if name.len() == 0 {
        assert(paths::parts_from(path, at, false, false, false) =~= Seq::<Part>::empty()) by {
            assert(paths::parts_from(path, at + 1, false, false, false) =~= Seq::<Part>::empty());
        }
    } else {
        assert forall|k: int| at + 1 <= k < path.len() implies !paths::separates(
            #[trigger] path[k],
            false,
            false,
        ) by {
            assert(path[k] == name[k - at - 1]);
        }
        lemma_last(path, at + 1, false, false, false);
        assert(path.skip(at + 1) =~= name);
    }
    let root = if rooted {
        seq![Part::Root]
    } else {
        Seq::empty()
    };
    let none = Seq::<Part>::empty();
    let front = paths::parts_from(folder, 0, false, false, !rooted);
    let back = paths::parts_from(path, at, false, false, false);
    assert(none + root + (front + back) =~= none + root + front + back);
}

/// A name alone is a path of one part, on Windows too; behind a slash alone it stands
/// under the root.
pub proof fn names_alone_are_paths(name: Seq<char>, windows: bool)
    requires
        plain_name(name),
    ensures
        paths::parts(name, windows) == seq![Part::Name(name)],
        paths::last_name(name, windows) == Some(name),
        paths::parts(seq!['/'] + name, false) == seq![Part::Root, Part::Name(name)],
        paths::parts(seq!['/'], false) == seq![Part::Root],
{
    assert forall|k: int| 0 <= k < name.len() implies !paths::separates(
        #[trigger] name[k],
        windows,
        false,
    ) by {}
    lemma_last(name, 0, windows, false, true);
    assert(name.skip(0) =~= name);
    let none = Seq::<Part>::empty();
    assert(none + none + seq![Part::Name(name)] =~= seq![Part::Name(name)]);
    let root = seq!['/'];
    assert(paths::parts_from(root, 0, false, false, false) =~= none) by {
        assert(paths::parts_from(root, 1, false, false, false) =~= none);
    }
    assert(none + seq![Part::Root] + none =~= seq![Part::Root]);
    let path = root + name;
    assert(path[0] == '/');
    assert forall|k: int| 1 <= k < path.len() implies !paths::separates(
        #[trigger] path[k],
        false,
        false,
    ) by {
        assert(path[k] == name[k - 1]);
    }
    lemma_last(path, 1, false, false, false);
    assert(path.skip(1) =~= name);
    assert(none + seq![Part::Root] + seq![Part::Name(name)] =~= seq![
        Part::Root,
        Part::Name(name),
    ]);
}

/// On Windows a path that begins with a drive goes on behind either slash.
pub proof fn drives_begin_paths(drive: char, slash: char, name: Seq<char>)
    requires
        'a' <= drive <= 'z' || 'A' <= drive <= 'Z',
        slash == '/' || slash == '\\',
        plain_name(name),
    ensures
        ({
            let p = paths::parts(seq![drive, ':', slash] + name, true);
            &&& p.len() == 3
            &&& p[0] is Prefix
            &&& p[1] == Part::Root
            &&& p[2] == Part::Name(name)
        }),
        paths::last_name(seq![drive, ':', slash] + name, true) == Some(name),
        paths::same(seq![drive, ':', '/'] + name, seq![drive, ':', '\\'] + name, true),
{
    lemma_drive(drive, slash, name);
    lemma_drive(drive, '/', name);
    lemma_drive(drive, '\\', name);
}

proof fn lemma_drive(drive: char, slash: char, name: Seq<char>)
    requires
        'a' <= drive <= 'z' || 'A' <= drive <= 'Z',
        slash == '/' || slash == '\\',
        plain_name(name),
    ensures
        paths::parts(seq![drive, ':', slash] + name, true) == seq![
            Part::Prefix(
                paths::PrefixKind::Disk,
                paths::prefix_text(paths::PrefixKind::Disk, seq![drive, ':']),
            ),
            Part::Root,
            Part::Name(name),
        ],
{
    let path = seq![drive, ':', slash] + name;
    assert(path[0] == drive && path[1] == ':' && path[2] == slash);
    assert(path.take(2) =~= seq![drive, ':']);
    assert forall|k: int| 3 <= k < path.len() implies !paths::separates(
        #[trigger] path[k],
        true,
        false,
    ) by {
        assert(path[k] == name[k - 3]);
    }
    lemma_last(path, 3, true, false, false);
    assert(path.skip(3) =~= name);
    let a = seq![
        Part::Prefix(
            paths::PrefixKind::Disk,
            paths::prefix_text(paths::PrefixKind::Disk, seq![drive, ':']),
        ),
    ];
    assert(paths::parts_from(path, 2, true, false, false) == seq![Part::Name(name)]);
    assert(paths::parts(path, true) =~= a + seq![Part::Root] + seq![Part::Name(name)]);
}

/// Paths with the same parts are the same.
pub proof fn paths_with_the_same_parts_are_the_same(a: Seq<char>, b: Seq<char>, windows: bool)
    requires
        paths::parts(a, windows) == paths::parts(b, windows),
    ensures
        paths::same(a, b, windows),
{
}

} // verus!
