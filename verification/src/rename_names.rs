//! Rules that give files new names: numbers moved to the front or taken away,
//! and prefixes of cameras taken away.
use crate::names::{self, file_extension, file_stem};
use crate::text::{self, are_digits, chars_of, find_char, is_ascii_digit, text_of};
use vstd::prelude::*;

verus! {

/// A number of two or three digits.
pub open spec fn is_short_number(s: Seq<char>) -> bool {
    (s.len() == 2 || s.len() == 3) && text::all_digits(s)
}

fn check_short_number(s: &[char]) -> (r: bool)
    ensures
        r == is_short_number(s@),
{
    (s.len() == 2 || s.len() == 3) && are_digits(s)
}

/// The place of the last of some character among the first characters.
pub open spec fn last_char(s: Seq<char>, c: char, n: int) -> Option<int>
    decreases n,
{
    if n <= 0 {
        None
    } else if s[n - 1] == c {
        Some(n - 1)
    } else {
        last_char(s, c, n - 1)
    }
}

pub(crate) fn find_last_char(s: &[char], c: char) -> (r: Option<usize>)
    ensures
        match r {
            Some(i) => last_char(s@, c, s@.len() as int) == Some(i as int) && i < s@.len(),
            None => last_char(s@, c, s@.len() as int) is None,
        },
{
    let mut n: usize = s.len();
    while n > 0
        invariant
            n <= s@.len(),
            last_char(s@, c, s@.len() as int) == last_char(s@, c, n as int),
        decreases n,
    {
        if s[n - 1] == c {
            return Some(n - 1);
        }
        n -= 1;
    }
    None
}

/// A stem with the extension that a name has, also where that is empty.
pub open spec fn renamed(stem: Seq<char>, name: Seq<char>) -> Seq<char> {
    match names::extension(name) {
        Some(e) => stem + seq!['.'] + e,
        None => stem,
    }
}

fn rename_stem(stem: &[char], name: &str) -> (r: String)
    ensures
        r@ == renamed(stem@, name@),
{
    let mut out = text_of(stem);
    match file_extension(name) {
        Some(e) => {
            out.push('.');
            out.append(e.as_str());
            assert(out@ =~= stem@ + seq!['.'] + e@);
        },
        None => {},
    }
    out
}

// Numbers in front or at the end.

/// The stem without a short number in front of its first underscore.
pub open spec fn without_front_number(s: Seq<char>) -> Option<Seq<char>> {
    match text::first_char(s, '_', 0) {
        Some(i) => if is_short_number(s.take(i)) {
            Some(s.skip(i + 1))
        } else {
            None
        },
        None => None,
    }
}

/// The stem without a short number behind its last underscore.
pub open spec fn without_rear_number(s: Seq<char>) -> Option<Seq<char>> {
    match last_char(s, '_', s.len() as int) {
        Some(i) => if is_short_number(s.skip(i + 1)) {
            Some(s.take(i))
        } else {
            None
        },
        None => None,
    }
}

/// The stem without either number, if it has one.
pub open spec fn without_numbers(s: Seq<char>) -> Option<Seq<char>> {
    match without_front_number(s) {
        Some(rest) => match without_rear_number(rest) {
            Some(both) => Some(both),
            None => Some(rest),
        },
        None => without_rear_number(s),
    }
}

/// The name without short numbers in front or at the end of its stem.
pub open spec fn number_removed(name: Seq<char>) -> Option<Seq<char>> {
    match without_numbers(names::stem(name)) {
        Some(base) => if base.len() > 0 {
            Some(renamed(base, name))
        } else {
            None
        },
        None => None,
    }
}

pub fn remove_front_or_rear_number_name(name: &str) -> (r: Option<String>)
    ensures
        match r {
            Some(n) => number_removed(name@) == Some(n@),
            None => number_removed(name@) is None,
        },
{
    let stem = file_stem(name);
    let chars = chars_of(stem.as_str());
    let n: usize = chars.len();
    let mut from: usize = 0;
    let mut changed = false;
    match find_char(chars.as_slice(), '_') {
        Some(i) => {
            let number = &chars.as_slice()[0..i];
            assert(number@ =~= chars@.take(i as int));
            if check_short_number(number) {
                from = i + 1;
                changed = true;
            }
        },
        None => {},
    }
    let rest = &chars.as_slice()[from..n];
    proof {
        if changed {
            assert(rest@ =~= chars@.skip(from as int));
        } else {
            assert(rest@ =~= chars@);
        }
    }
    let m: usize = rest.len();
    let mut to: usize = m;
    match find_last_char(rest, '_') {
        Some(i) => {
            let number = &rest[i + 1..m];
            assert(number@ =~= rest@.skip(i + 1));
            if check_short_number(number) {
                to = i;
                changed = true;
            }
        },
        None => {},
    }
    let base = &rest[0..to];
    proof {
        if to < m {
            assert(base@ =~= rest@.take(to as int));
        } else {
            assert(base@ =~= rest@);
        }
    }
    if !changed || base.len() == 0 {
        return None;
    }
    Some(rename_stem(base, name))
}

// Prefixes.

/// A stem that begins with one of the prefixes of cameras.
pub open spec fn has_camera_prefix(s: Seq<char>) -> bool {
    s.len() >= 4 && (text::lower(s.take(4)) == "img_"@ || text::lower(s.take(4)) == "vid_"@)
}

/// The name without the prefix that a camera gives it.
pub open spec fn prefix_removed(name: Seq<char>) -> Option<Seq<char>> {
    let s = names::stem(name);
    if has_camera_prefix(s) && s.len() > 4 {
        Some(renamed(s.skip(4), name))
    } else {
        None
    }
}

pub fn remove_img_vid_prefix_name(name: &str) -> (r: Option<String>)
    ensures
        match r {
            Some(n) => prefix_removed(name@) == Some(n@),
            None => prefix_removed(name@) is None,
        },
{
    let stem = file_stem(name);
    let n: usize = stem.as_str().unicode_len();
    if n <= 4 {
        return None;
    }
    let prefix = text::to_lower(stem.as_str().substring_char(0, 4));
    assert(stem@.subrange(0, 4) =~= stem@.take(4));
    if !text::same_text(prefix.as_str(), "img_") && !text::same_text(prefix.as_str(), "vid_") {
        return None;
    }
    let chars = chars_of(stem.as_str());
    let base = &chars.as_slice()[4..n];
    assert(base@ =~= stem@.skip(4));
    Some(rename_stem(base, name))
}

// Trailing numbers.

/// Where the digits at the end of a text begin.
pub open spec fn digits_start(s: Seq<char>, n: int) -> int
    decreases n,
{
    if n > 0 && text::is_digit(s[n - 1]) {
        digits_start(s, n - 1)
    } else {
        n
    }
}

pub open spec fn is_number_separator(c: char) -> bool {
    c == '_' || c == '-' || c == ' '
}

/// How many of the first characters are left when the separators at their end
/// are taken away.
pub open spec fn separators_start(s: Seq<char>, n: int) -> int
    decreases n,
{
    if n > 0 && is_number_separator(s[n - 1]) {
        separators_start(s, n - 1)
    } else {
        n
    }
}

/// The name with the number at the end of its stem moved to the front.
pub open spec fn number_in_front(name: Seq<char>) -> Option<Seq<char>> {
    let s = names::stem(name);
    let start = digits_start(s, s.len() as int);
    let number = s.skip(start);
    if (number.len() == 2 || number.len() == 3) && start > 0 && is_number_separator(
        s[start - 1],
    ) {
        let base = s.take(separators_start(s, start - 1));
        if base.len() > 0 {
            Some(renamed(number + seq!['_'] + base, name))
        } else {
            None
        }
    } else {
        None
    }
}

proof fn lemma_starts(s: Seq<char>, n: int)
    requires
        0 <= n <= s.len(),
    ensures
        0 <= digits_start(s, n) <= n,
        0 <= separators_start(s, n) <= n,
    decreases n,
{
    if n > 0 {
        lemma_starts(s, n - 1);
    }
}

pub fn move_trailing_number_to_front_name(name: &str) -> (r: Option<String>)
    ensures
        match r {
            Some(n) => number_in_front(name@) == Some(n@),
            None => number_in_front(name@) is None,
        },
{
    let stem = file_stem(name);
    let chars = chars_of(stem.as_str());
    let n: usize = chars.len();
    let mut start: usize = n;
    while start > 0 && is_ascii_digit(chars[start - 1])
        invariant
            start <= n,
            n == chars@.len(),
            digits_start(chars@, n as int) == digits_start(chars@, start as int),
        decreases start,
    {
        start -= 1;
    }
    assert(digits_start(chars@, n as int) == start);
    let length: usize = n - start;
    if length != 2 && length != 3 {
        return None;
    }
    if start == 0 {
        return None;
    }
    let separator: char = chars[start - 1];
    if separator != '_' && separator != '-' && separator != ' ' {
        return None;
    }
    let mut end: usize = start - 1;
    while end > 0 && (chars[end - 1] == '_' || chars[end - 1] == '-' || chars[end - 1] == ' ')
        invariant
            end < n,
            n == chars@.len(),
            separators_start(chars@, start - 1) == separators_start(chars@, end as int),
        decreases end,
    {
        end -= 1;
    }
    if end == 0 {
        return None;
    }
    let mut out: Vec<char> = Vec::new();
    let mut i: usize = start;
    while i < n
        invariant
            start <= i <= n,
            n == chars@.len(),
            out@ == chars@.subrange(start as int, i as int),
        decreases n - i,
    {
        out.push(chars[i]);
        i += 1;
        assert(out@ =~= chars@.subrange(start as int, i as int));
    }
    let ghost number = out@;
    assert(number =~= chars@.skip(start as int));
    out.push('_');
    let mut j: usize = 0;
    while j < end
        invariant
            j <= end,
            end < n,
            n == chars@.len(),
            out@ == number + seq!['_'] + chars@.take(j as int),
        decreases end - j,
    {
        out.push(chars[j]);
        j += 1;
        assert(out@ =~= number + seq!['_'] + chars@.take(j as int));
    }
    Some(rename_stem(out.as_slice(), name))
}

/// The extension stays where it is, whatever becomes of the stem.
pub proof fn renaming_keeps_the_extension(stem: Seq<char>, name: Seq<char>)
    requires
        stem.len() > 0,
        names::extension(name) is Some,
    ensures
        names::extension(renamed(stem, name)) == names::extension(name),
        names::stem(renamed(stem, name)) == stem,
{
    let e = names::extension(name)->0;
    let r = renamed(stem, name);
    names::name_is_stem_and_extension(name);
    names::lemma_last_dot(name, name.len() as int);
    let i = names::last_dot(name, name.len() as int)->0;
    assert forall|k: int| 0 <= k < e.len() implies e[k] != '.' by {
        assert(name[i + 1 + k] == e[k]);
    }
    assert(r == stem + seq!['.'] + e);
    lemma_dot_found(r, stem.len() as int, r.len() as int);
    assert(r.take(stem.len() as int) =~= stem);
    assert(r.skip(stem.len() as int + 1) =~= e);
}

proof fn lemma_dot_found(name: Seq<char>, at: int, n: int)
    requires
        0 < at < n <= name.len(),
        name[at] == '.',
        forall|k: int| at < k < name.len() ==> name[k] != '.',
    ensures
        names::last_dot(name, n) == Some(at),
    decreases n,
{
    if n - 1 > at {
        lemma_dot_found(name, at, n - 1);
    }
}

} // verus!
