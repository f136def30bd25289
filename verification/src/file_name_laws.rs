//! Which names new and copied files get.
use crate::file_actions;
use crate::file_path::{self, Names, PathModel};
use crate::moment_laws;
use crate::names;
use crate::rename_name_laws;
use crate::text;
use vstd::prelude::*;

verus! {

/// Three decimal digits write a number.
pub open spec fn writes_three(s: Seq<char>, n: int) -> bool {
    &&& s.len() == 3
    &&& '0' <= s[0] <= '9' && '0' <= s[1] <= '9' && '0' <= s[2] <= '9'
    &&& n == 100 * moment_laws::digit(s[0]) + 10 * moment_laws::digit(s[1]) + moment_laws::digit(
        s[2],
    )
}

/// Another name for a file: the stem, `_dup`, three digits and the tail.
pub open spec fn numbered(stem: Seq<char>, tail: Seq<char>, digits: Seq<char>) -> Seq<char> {
    stem + "_dup"@ + digits + tail
}

pub proof fn lemma_three(n: nat)
    requires
        n < 1000,
    ensures
        writes_three(text::zero_padded(n, 3), n as int),
{
    reveal_with_fuel(text::decimal, 4);
    let t = text::zero_padded(n, 3);
    let a = text::digit_char(n % 10);
    let b = text::digit_char(n / 10 % 10);
    let c = text::digit_char(n / 100);
    assert(n / 10 / 10 == n / 100);
    if n < 10 {
        assert(t =~= seq!['0', '0', a]);
    } else if n < 100 {
        assert(t =~= seq!['0', b, a]);
    } else {
        assert(t =~= seq![c, b, a]);
    }
    assert(n == 100 * (n / 100) + 10 * (n / 10 % 10) + n % 10);
}

proof fn lemma_with_tail(stem: Seq<char>, tail: Seq<char>, s: Seq<char>)
    requires
        stem.len() > 0,
        rename_name_laws::is_tail(stem, tail),
        tail.len() != 1,
    ensures
        names::stem(stem + tail) == stem,
        file_path::with_extension(s, names::extension(stem + tail)) == s + tail,
{
    rename_name_laws::name_splits_into_its_parts(stem, tail);
    if tail.len() == 0 {
        assert(s + tail =~= s);
    } else {
        assert(s + seq!['.'] + tail.skip(1) =~= s + tail);
    }
}

/// The names that are tried for a file are its own and those with a number from 1 on,
/// which stands between its stem and its extension.
pub proof fn names_are_tried_with_numbers(stem: Seq<char>, tail: Seq<char>, i: int)
    requires
        stem.len() > 0,
        rename_name_laws::is_tail(stem, tail),
        tail.len() != 1,
        0 < i < 1000,
    ensures
        file_path::candidate_name(stem + tail, 0) == stem + tail,
        exists|digits: Seq<char>| #[trigger]
            writes_three(digits, i) && file_path::candidate_name(stem + tail, i) == numbered(
                stem,
                tail,
                digits,
            ),
{
    lemma_with_tail(stem, tail, stem);
    let digits = text::zero_padded(i as nat, 3);
    lemma_three(i as nat);
    lemma_with_tail(stem, tail, stem + "_dup"@ + digits);
    assert(writes_three(digits, i));
}

/// A name that is free is kept.
pub proof fn free_names_are_kept(n: Names, folder: Seq<char>, stem: Seq<char>, tail: Seq<char>)
    requires
        stem.len() > 0,
        rename_name_laws::is_tail(stem, tail),
        tail.len() != 1,
        file_path::names_a_file(stem + tail),
        file_path::is_free(n, folder + (stem + tail)),
    ensures
        file_path::resolved(n, PathModel { folder: Some(folder), name: stem + tail }) == Ok::<
            PathModel,
            Seq<char>,
        >(PathModel { folder: Some(folder), name: stem + tail }),
{
    lemma_with_tail(stem, tail, stem);
}

/// A name that is taken gets the first number with which it is free.
pub proof fn taken_names_get_the_first_free_number(
    n: Names,
    folder: Seq<char>,
    name: Seq<char>,
    i: int,
)
    requires
        file_path::names_a_file(name),
        0 <= i < 1000,
        file_path::is_free(n, folder + file_path::candidate_name(name, i)),
        forall|k: int|
            0 <= k < i ==> !file_path::is_free(n, folder + #[trigger] file_path::candidate_name(name, k)),
    ensures
        file_path::resolved(n, PathModel { folder: Some(folder), name }) == Ok::<
            PathModel,
            Seq<char>,
        >(PathModel { folder: Some(folder), name: file_path::candidate_name(name, i) }),
{
    lemma_first_free(n, folder, name, i, 0);
}

proof fn lemma_first_free(n: Names, folder: Seq<char>, name: Seq<char>, i: int, from: int)
    requires
        0 <= from <= i < 1000,
        file_path::is_free(n, folder + file_path::candidate_name(name, i)),
        forall|k: int|
            0 <= k < i ==> !file_path::is_free(n, folder + #[trigger] file_path::candidate_name(name, k)),
    ensures
        file_path::first_free(n, folder, name, from) == Some(file_path::candidate_name(name, i)),
    decreases i - from,
{
    if from < i {
        assert(!file_path::is_free(n, folder + file_path::candidate_name(name, from)));
        lemma_first_free(n, folder, name, i, from + 1);
    }
}

/// Where a thousand names are taken, none is given out.
pub proof fn names_run_out(n: Names, folder: Seq<char>, name: Seq<char>)
    requires
        forall|k: int|
            0 <= k < 1000 ==> !file_path::is_free(
                n,
                folder + #[trigger] file_path::candidate_name(name, k),
            ),
    ensures
        file_path::resolved(n, PathModel { folder: Some(folder), name }) is Err,
{
    lemma_none_free(n, folder, name, 0);
}

proof fn lemma_none_free(n: Names, folder: Seq<char>, name: Seq<char>, from: int)
    requires
        0 <= from <= 1000,
        forall|k: int|
            0 <= k < 1000 ==> !file_path::is_free(
                n,
                folder + #[trigger] file_path::candidate_name(name, k),
            ),
    ensures
        file_path::first_free(n, folder, name, from) is None,
    decreases 1000 - from,
{
    if from < 1000 {
        assert(!file_path::is_free(n, folder + file_path::candidate_name(name, from)));
        lemma_none_free(n, folder, name, from + 1);
    }
}

/// A path is free if no file has it, but for the one that may keep it, and if it was
/// not given out before; on Windows capitals do not matter.
pub proof fn paths_are_free_where_nothing_stands(n: Names, path: Seq<char>, i: int)
    ensures
        ({
            let key = if n.windows {
                text::lowercased(path)
            } else {
                path
            };
            let own = n.allowed matches Some(a) && (if n.windows {
                text::lowercased(a)
            } else {
                a
            }) == key;
            &&& n.reserved.contains(key) ==> !file_path::is_free(n, path)
            &&& !n.reserved.contains(key) && own ==> file_path::is_free(n, path)
            &&& 0 <= i < n.existing.len() && n.existing[i]@ == path && !own ==> !file_path::is_free(
                n,
                path,
            )
            &&& !n.reserved.contains(key) && n.existing.len() == 0 ==> file_path::is_free(n, path)
        }),
{
    if 0 <= i < n.existing.len() && n.existing[i]@ == path {
        assert(file_path::exists_path(n.existing, path, n.windows));
    }
}

// Copies.

/// A copy in the same folder is called like the file, with `_copy` behind the stem; a
/// copy in another folder keeps the name. Where nothing stands in the way, that is
/// its name.
pub proof fn copies_are_called_like_the_file(
    folder: Seq<char>,
    stem: Seq<char>,
    tail: Seq<char>,
    target: Seq<char>,
    windows: bool,
)
    requires
        stem.len() > 0,
        rename_name_laws::is_tail(stem, tail),
        tail.len() != 1,
        file_path::names_a_file(stem + tail),
        file_actions::copy_base(stem) == stem,
        target != folder,
    ensures
        ({
            let source = PathModel { folder: Some(folder), name: stem + tail };
            let copy = PathModel { folder: Some(folder), name: stem + "_copy"@ + tail };
            let there = PathModel { folder: Some(target), name: stem + tail };
            let none = Seq::<String>::empty();
            &&& file_actions::copy_beside(source, true, none, windows) == Ok::<PathModel, Seq<char>>(
                copy,
            )
            &&& file_actions::copy_in(source, true, folder, true, none, windows) == Ok::<
                PathModel,
                Seq<char>,
            >(copy)
            &&& file_actions::copy_in(source, true, target, true, none, windows) == Ok::<
                PathModel,
                Seq<char>,
            >(there)
        }),
{
    reveal_strlit("_copy");
    reveal_strlit(".");
    reveal_strlit("..");
    let none = Seq::<String>::empty();
    let n = file_actions::fresh_names(none, windows);
    let longer = stem + "_copy"@;
    lemma_with_tail(stem, tail, stem);
    lemma_with_tail(stem, tail, longer);
    lemma_longer_tail(stem, tail);
    let name = longer + tail;
    assert(name.len() > 2);
    assert(file_path::names_a_file(name));
    paths_are_free_where_nothing_stands(n, folder + name, 0);
    paths_are_free_where_nothing_stands(n, target + (stem + tail), 0);
    free_names_are_kept(n, folder, longer, tail);
    free_names_are_kept(n, target, stem, tail);
}

proof fn lemma_longer_tail(stem: Seq<char>, tail: Seq<char>)
    requires
        stem.len() > 0,
        rename_name_laws::is_tail(stem, tail),
    ensures
        rename_name_laws::is_tail(stem + "_copy"@, tail),
{
    reveal_strlit("_copy");
    let longer = stem + "_copy"@;
    if tail.len() == 0 {
        assert forall|k: int| 0 < k < longer.len() implies #[trigger] longer[k] != '.' by {
            if k < stem.len() {
                assert(longer[k] == stem[k]);
            } else {
                assert(longer[k] == "_copy"@[k - stem.len()]);
            }
        }
    }
}

proof fn lemma_no_dup(s: Seq<char>, n: int)
    requires
        n <= s.len(),
        forall|k: int| 0 <= k < s.len() ==> #[trigger] s[k] != '_',
    ensures
        file_actions::last_text(s, "_dup"@, n) is None,
    decreases n + 1,
{
    reveal_strlit("_dup");
    if n >= 0 {
        if n + 4 <= s.len() {
            assert(s.subrange(n, n + 4)[0] == s[n]);
            assert("_dup"@[0] == '_');
        }
        lemma_no_dup(s, n - 1);
    }
}

/// A stem without an underscore is the base of its own copies.
pub proof fn plain_stems_are_their_own_base(stem: Seq<char>)
    requires
        forall|k: int| 0 <= k < stem.len() ==> #[trigger] stem[k] != '_',
    ensures
        file_actions::copy_base(stem) == stem,
{
    reveal_strlit("_copy");
    lemma_no_dup(stem, stem.len() - 4);
    if text::ends_with(stem, "_copy"@) {
        assert(stem.skip(stem.len() - 5)[0] == stem[stem.len() - 5]);
        assert("_copy"@[0] == '_');
    }
}

proof fn lemma_last_dup(s: Seq<char>, at: int, n: int)
    requires
        0 <= at <= n,
        at + 4 <= s.len(),
        s.subrange(at, at + 4) == "_dup"@,
        forall|k: int| at < k <= n && k < s.len() ==> #[trigger] s[k] != '_',
    ensures
        file_actions::last_text(s, "_dup"@, n) == Some(at),
    decreases n - at,
{
    reveal_strlit("_dup");
    if n > at {
        if n + 4 <= s.len() {
            assert(s.subrange(n, n + 4)[0] == s[n]);
            assert("_dup"@[0] == '_');
        }
        lemma_last_dup(s, at, n - 1);
    }
}

proof fn lemma_dup_absent(s: Seq<char>, n: int)
    requires
        forall|k: int| 0 <= k && k + 1 < s.len() && #[trigger] s[k] == '_' ==> s[k + 1] != 'd',
    ensures
        file_actions::last_text(s, "_dup"@, n) is None,
    decreases n + 1,
{
    reveal_strlit("_dup");
    if n >= 0 {
        if n + 4 <= s.len() {
            assert(s.subrange(n, n + 4)[0] == s[n]);
            assert(s.subrange(n, n + 4)[1] == s[n + 1]);
            assert("_dup"@[0] == '_' && "_dup"@[1] == 'd');
        }
        lemma_dup_absent(s, n - 1);
    }
}

/// A copy of a copy is called like the first file: `_copy` and a number of three digits
/// behind `_dup` are left out. Other digits there are part of the name.
pub proof fn copies_of_copies_keep_the_base(base: Seq<char>, digits: Seq<char>)
    requires
        forall|k: int| 0 <= k < base.len() ==> #[trigger] base[k] != '_',
        forall|k: int| 0 <= k < digits.len() ==> '0' <= #[trigger] digits[k] <= '9',
    ensures
        file_actions::copy_base(base + "_copy"@) == base,
        digits.len() == 3 ==> file_actions::copy_base(base + "_dup"@ + digits) == base,
        digits.len() == 3 ==> file_actions::copy_base(base + "_copy"@ + "_dup"@ + digits) == base,
        digits.len() != 3 ==> file_actions::copy_base(base + "_dup"@ + digits) == base + "_dup"@
            + digits,
{
    reveal_strlit("_copy");
    reveal_strlit("_dup");
    let c = base + "_copy"@;
    let b = base.len() as int;
    assert forall|k: int| 0 <= k && k + 1 < c.len() && #[trigger] c[k] == '_' implies c[k + 1]
        != 'd' by {
        if k < b {
            assert(c[k] == base[k]);
        } else {
            assert(c[k] == "_copy"@[k - b]);
            assert(c[k + 1] == "_copy"@[k + 1 - b]);
        }
    }
    lemma_dup_absent(c, c.len() - 4);
    assert(c.skip(c.len() - 5) =~= "_copy"@);
    assert(c.take(c.len() - 5) =~= base);
    let d = base + "_dup"@ + digits;
    lemma_dup_found(base, digits);
    if digits.len() == 3 {
        lemma_dup_found(c, digits);
        if text::ends_with(base, "_copy"@) {
            assert(base.skip(b - 5)[0] == base[b - 5]);
            assert("_copy"@[0] == '_');
        }
    } else if text::ends_with(d, "_copy"@) {
        let n = d.len() as int;
        assert(d.skip(n - 5)[0] == d[n - 5] && d.skip(n - 5)[1] == d[n - 4]);
        assert("_copy"@[0] == '_' && "_copy"@[1] == 'c');
        if n - 5 < b {
            assert(d[n - 5] == base[n - 5]);
        } else if n - 5 < b + 4 {
            assert(d[n - 5] == "_dup"@[n - 5 - b]);
            if n - 5 == b {
                assert(d[n - 4] == "_dup"@[1]);
            }
        } else {
            assert(d[n - 5] == digits[n - 9 - b]);
        }
    }
}

proof fn lemma_dup_found(front: Seq<char>, digits: Seq<char>)
    requires
        forall|k: int| 0 <= k < digits.len() ==> '0' <= #[trigger] digits[k] <= '9',
    ensures
        file_actions::without_duplicate_number(front + "_dup"@ + digits) == if digits.len() == 3 {
            front
        } else {
            front + "_dup"@ + digits
        },
{
    reveal_strlit("_dup");
    let s = front + "_dup"@ + digits;
    let at = front.len() as int;
    assert(s.subrange(at, at + 4) =~= "_dup"@);
    assert forall|k: int| at < k <= s.len() - 4 && k < s.len() implies #[trigger] s[k] != '_' by {
        if k < at + 4 {
            assert(s[k] == "_dup"@[k - at]);
        } else {
            assert(s[k] == digits[k - at - 4]);
        }
    }
    lemma_last_dup(s, at, s.len() - 4);
    assert(s.skip(at + 4) =~= digits);
    assert(s.take(at) =~= front);
    assert(text::all_digits(digits));
}

/// Only files are copied, and only into folders.
pub proof fn only_files_are_copied(
    source: PathModel,
    target: Seq<char>,
    existing: Seq<String>,
    windows: bool,
)
    ensures
        file_actions::copy_beside(source, false, existing, windows) == Err::<PathModel, Seq<char>>(
            "Select a file before saving a copy."@,
        ),
        file_actions::copy_in(source, false, target, true, existing, windows) == Err::<
            PathModel,
            Seq<char>,
        >("Select files only."@),
        file_actions::copy_in(source, true, target, false, existing, windows) == Err::<
            PathModel,
            Seq<char>,
        >("Paste target folder could not be resolved."@),
{
}

/// An entry gets the name that was entered, in its own folder, unless the name is
/// empty, holds a separator, or belongs to another entry.
pub proof fn entries_get_the_entered_name(
    folder: Seq<char>,
    old_name: Seq<char>,
    name: Seq<char>,
    existing: Seq<String>,
    windows: bool,
    k: int,
)
    requires
        text::trim(name) == name,
    ensures
        ({
            let current = PathModel { folder: Some(folder), name: old_name };
            let target = PathModel { folder: Some(folder), name };
            let r = file_actions::renamed_path(current, name, existing, windows);
            let separated = 0 <= k < name.len() && (name[k] == '/' || name[k] == '\\');
            &&& name.len() == 0 ==> r == Err::<PathModel, Seq<char>>("File name cannot be empty."@)
            &&& separated ==> r == Err::<PathModel, Seq<char>>(
                "File name cannot contain path separators."@,
            )
            &&& r is Ok ==> r->Ok_0 == target
            &&& name.len() > 0 && !name.contains('/') && !name.contains('\\') && existing.len() == 0
                ==> r is Ok
            &&& name.len() > 0 && !name.contains('/') && !name.contains('\\') && name == old_name
                ==> r is Ok
            &&& name.len() > 0 && !name.contains('/') && !name.contains('\\') && name != old_name
                && 0 <= k < existing.len() && existing[k]@ == folder + name ==> r == Err::<
                PathModel,
                Seq<char>,
            >("A file with that name already exists."@)
        }),
{
    if 0 <= k < name.len() && (name[k] == '/' || name[k] == '\\') {
        assert(name.contains(name[k]));
    }
    if 0 <= k < existing.len() && existing[k]@ == folder + name {
        assert(file_path::exists_path(existing, folder + name, windows));
    }
}

} // verus!
