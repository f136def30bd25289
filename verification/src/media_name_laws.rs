//! Names as they are shown, and the names that files get.
use crate::datetime::{self, Moment};
use crate::file_name_laws;
use crate::file_path::{self, Names, PathModel};
use crate::media_names;
use crate::moment_laws;
use crate::names;
use crate::path_laws;
use crate::rename_name_laws;
use crate::text;
use vstd::prelude::*;

verus! {

/// The name of a file is shown without its extension where extensions are hidden; a
/// folder, and a file where they are shown, by its whole name.
pub proof fn extensions_are_hidden_on_demand(
    stem: Seq<char>,
    tail: Seq<char>,
    fallback: Seq<char>,
    is_dir: bool,
)
    requires
        stem.len() > 0,
        rename_name_laws::is_tail(stem, tail),
    ensures
        media_names::shown_name(Some(stem + tail), fallback, false, false) == stem,
        media_names::shown_name(Some(stem + tail), fallback, is_dir, true) == fallback,
        media_names::shown_name(Some(stem + tail), fallback, true, false) == fallback,
        media_names::shown_name(None, fallback, is_dir, false) == fallback,
{
    rename_name_laws::name_splits_into_its_parts(stem, tail);
}

proof fn lemma_extension(stem: Seq<char>, e: Seq<char>)
    requires
        stem.len() > 0,
        forall|k: int| 0 <= k < e.len() ==> #[trigger] e[k] != '.',
    ensures
        names::stem(stem + seq!['.'] + e) == stem,
        names::extension(stem + seq!['.'] + e) == Some(e),
{
    let tail = seq!['.'] + e;
    assert forall|k: int| 0 < k < tail.len() implies #[trigger] tail[k] != '.' by {
        assert(tail[k] == e[k - 1]);
    }
    rename_name_laws::name_splits_into_its_parts(stem, tail);
    assert(tail.skip(1) =~= e);
    assert(stem + tail =~= stem + seq!['.'] + e);
}

/// A file keeps its extension when a name is entered: it is put behind a name without
/// one or with another one, and written as the file has it where the name has the same
/// in other letters.
pub proof fn files_keep_their_extension(
    stem: Seq<char>,
    e: Seq<char>,
    requested: Seq<char>,
    x: Seq<char>,
    windows: bool,
)
    requires
        stem.len() > 0,
        e.len() > 0,
        forall|k: int| 0 <= k < e.len() ==> #[trigger] e[k] != '.',
        path_laws::plain_name(requested),
        path_laws::plain_name(requested + seq!['.'] + x),
        forall|k: int| 0 <= k < x.len() ==> #[trigger] x[k] != '.',
    ensures
        (forall|k: int| 0 < k < requested.len() ==> #[trigger] requested[k] != '.')
            ==> media_names::entered_name(stem + seq!['.'] + e, true, requested, windows)
            == requested + seq!['.'] + e,
        text::lower(x) == text::lower(e) ==> media_names::entered_name(
            stem + seq!['.'] + e,
            true,
            requested + seq!['.'] + x,
            windows,
        ) == requested + seq!['.'] + e,
        text::lower(x) != text::lower(e) ==> media_names::entered_name(
            stem + seq!['.'] + e,
            true,
            requested + seq!['.'] + x,
            windows,
        ) == requested + seq!['.'] + x + seq!['.'] + e,
{
    lemma_extension(stem, e);
    lemma_extension(requested, x);
    path_laws::names_alone_are_paths(requested, windows);
    path_laws::names_alone_are_paths(requested + seq!['.'] + x, windows);
    if forall|k: int| 0 < k < requested.len() ==> #[trigger] requested[k] != '.' {
        rename_name_laws::name_splits_into_its_parts(requested, Seq::empty());
        assert(requested + Seq::<char>::empty() =~= requested);
    }
}

/// A folder, and a file without an extension, gets the name as it was entered.
pub proof fn folders_get_the_entered_name(
    current: Seq<char>,
    is_file: bool,
    requested: Seq<char>,
    windows: bool,
)
    requires
        !is_file || (current.len() > 0 && forall|k: int|
            0 < k < current.len() ==> #[trigger] current[k] != '.'),
    ensures
        media_names::entered_name(current, is_file, requested, windows) == requested,
{
    if is_file {
        rename_name_laws::name_splits_into_its_parts(current, Seq::empty());
        assert(current + Seq::<char>::empty() =~= current);
    }
}

/// The name that a file gets from its date are the digits of the date, an underscore and
/// the digits of the time, in its own folder and with its own extension.
pub proof fn files_are_named_by_their_date(
    names_left: Names,
    folder: Seq<char>,
    stem: Seq<char>,
    e: Seq<char>,
    m: Moment,
)
    requires
        stem.len() > 0,
        e.len() > 0,
        forall|k: int| 0 <= k < e.len() ==> #[trigger] e[k] != '.',
        datetime::plain(m),
        file_path::names_a_file(stem + seq!['.'] + e),
    ensures
        ({
            let current = PathModel { folder: Some(folder), name: stem + seq!['.'] + e };
            let wanted = media_names::dated_path(current, m);
            &&& wanted.folder == Some(folder)
            &&& wanted.name == datetime::compact_text(m) + seq!['.'] + e
            &&& wanted.name.len() == 16 + e.len()
            &&& moment_laws::writes_four(wanted.name, 0, m.year as int)
            &&& moment_laws::writes_two(wanted.name, 4, m.month as int)
            &&& moment_laws::writes_two(wanted.name, 6, m.day as int)
            &&& wanted.name[8] == '_'
            &&& moment_laws::writes_two(wanted.name, 9, m.hour as int)
            &&& moment_laws::writes_two(wanted.name, 11, m.minute as int)
            &&& moment_laws::writes_two(wanted.name, 13, m.second as int)
            &&& file_path::is_free(names_left, folder + wanted.name) ==> {
                &&& media_names::dated_name(names_left, current, Some(m), true) == Ok::<
                    Seq<char>,
                    Seq<char>,
                >(wanted.name)
                &&& media_names::dated_name(names_left, current, Some(m), false) == Ok::<
                    Seq<char>,
                    Seq<char>,
                >(datetime::compact_text(m))
            }
        }),
{
    let current = PathModel { folder: Some(folder), name: stem + seq!['.'] + e };
    lemma_extension(stem, e);
    moment_laws::dates_in_filenames_are_digits(m);
    let digits = datetime::compact_text(m);
    let wanted = media_names::dated_path(current, m);
    assert forall|k: int| 0 <= k < 15 implies #[trigger] wanted.name[k] == digits[k] by {}
    lemma_extension(digits, e);
    if file_path::is_free(names_left, folder + wanted.name) {
        let tail = seq!['.'] + e;
        assert forall|k: int| 0 < k < tail.len() implies #[trigger] tail[k] != '.' by {
            assert(tail[k] == e[k - 1]);
        }
        assert(digits + tail =~= wanted.name);
        assert(file_path::names_a_file(wanted.name)) by {
            reveal_strlit(".");
            reveal_strlit("..");
            assert("."@.len() == 1 && ".."@.len() == 2);
        }
        file_name_laws::free_names_are_kept(names_left, folder, digits, tail);
    }
}

/// A file without a date, and one without a folder, gets no name from its date.
pub proof fn undated_files_get_no_name(
    names_left: Names,
    current: PathModel,
    m: Moment,
    show_extension: bool,
)
    ensures
        media_names::dated_name(names_left, current, None, show_extension) == Err::<
            Seq<char>,
            Seq<char>,
        >("The selected file does not have a usable Media Date."@),
        current.folder is None ==> media_names::dated_name(
            names_left,
            current,
            Some(m),
            show_extension,
        ) == Err::<Seq<char>, Seq<char>>("Selected file parent could not be resolved."@),
{
}

/// A name that was given out is not given out again, and nothing else becomes taken.
pub proof fn names_are_given_out_once(
    names_left: Names,
    current: PathModel,
    m: Moment,
    p: PathModel,
    k: Seq<char>,
)
    requires
        current.folder is Some,
        file_path::resolved(names_left, media_names::dated_path(current, m)) == Ok::<
            PathModel,
            Seq<char>,
        >(p),
    ensures
        media_names::reserved_for(names_left, current, Some(m)).contains(k) <==> k
            == file_path::path_key(p.text(), names_left.windows) || names_left.reserved.contains(
            k,
        ),
        media_names::reserved_for(names_left, current, None) == names_left.reserved,
{
}

} // verus!
