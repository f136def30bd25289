//! File names: the stem and the extension of a name.
use crate::text::{self, chars_of, to_lower};
use vstd::prelude::*;

verus! {

/// The place of the last dot of a name, if it is not the name's first character.
pub open spec fn last_dot(name: Seq<char>, n: int) -> Option<int>
    decreases n,
{
    if n <= 1 {
        None
    } else if name[n - 1] == '.' {
        Some(n - 1)
    } else {
        last_dot(name, n - 1)
    }
}

/// The name without its extension.
pub open spec fn stem(name: Seq<char>) -> Seq<char> {
    match last_dot(name, name.len() as int) {
        Some(i) => name.take(i),
        None => name,
    }
}

/// What stands behind the last dot of a name.
pub open spec fn extension(name: Seq<char>) -> Option<Seq<char>> {
    match last_dot(name, name.len() as int) {
        Some(i) => Some(name.skip(i + 1)),
        None => None,
    }
}

/// The extension in small letters; empty where there is none.
pub open spec fn lower_extension(name: Seq<char>) -> Seq<char> {
    match extension(name) {
        Some(e) => text::lower(e),
        None => Seq::empty(),
    }
}

fn find_last_dot(chars: &[char]) -> (r: Option<usize>)
    ensures
        match r {
            Some(i) => last_dot(chars@, chars@.len() as int) == Some(i as int) && i < chars@.len(),
            None => last_dot(chars@, chars@.len() as int) is None,
        },
{
    let mut n: usize = chars.len();
    while n > 1
        invariant
            n <= chars@.len(),
            last_dot(chars@, chars@.len() as int) == last_dot(chars@, n as int),
        decreases n,
    {
        if chars[n - 1] == '.' {
            return Some(n - 1);
        }
        n -= 1;
    }
    None
}

pub fn file_stem(name: &str) -> (r: String)
    ensures
        r@ == stem(name@),
{
    let chars = chars_of(name);
    match find_last_dot(chars.as_slice()) {
        Some(i) => {
            assert(name@.subrange(0, i as int) =~= name@.take(i as int));
            name.substring_char(0, i).to_owned()
        },
        None => name.to_owned(),
    }
}

pub fn file_extension(name: &str) -> (r: Option<String>)
    ensures
        match r {
            Some(e) => extension(name@) == Some(e@),
            None => extension(name@) is None,
        },
{
    let chars = chars_of(name);
    let n: usize = chars.len();
    match find_last_dot(chars.as_slice()) {
        Some(i) => {
            assert(name@.subrange(i + 1, n as int) =~= name@.skip(i + 1));
            Some(name.substring_char(i + 1, n).to_owned())
        },
        None => None,
    }
}

pub fn lower_file_extension(name: &str) -> (r: String)
    ensures
        r@ == lower_extension(name@),
{
    match file_extension(name) {
        Some(e) => to_lower(e.as_str()),
        None => String::new(),
    }
}

/// A name is its stem, and a dot and its extension where it has one.
pub proof fn name_is_stem_and_extension(name: Seq<char>)
    ensures
        match extension(name) {
            Some(e) => name == stem(name) + seq!['.'] + e && stem(name).len() > 0,
            None => name == stem(name),
        },
{
    lemma_last_dot(name, name.len() as int);
    match last_dot(name, name.len() as int) {
        Some(i) => {
            assert(name =~= name.take(i) + seq!['.'] + name.skip(i + 1));
        },
        None => {},
    }
}

pub proof fn lemma_last_dot(name: Seq<char>, n: int)
    requires
        0 <= n <= name.len(),
    ensures
        match last_dot(name, n) {
            Some(i) => 0 < i < n && name[i] == '.' && (forall|k: int|
                i < k < n ==> name[k] != '.'),
            None => forall|k: int| 0 < k < n ==> name[k] != '.',
        },
    decreases n,
{
    if n > 1 && name[n - 1] != '.' {
        lemma_last_dot(name, n - 1);
    }
}

} // verus!
