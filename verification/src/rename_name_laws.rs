//! What the rules for new names do to names that are put together from their parts.
use crate::names;
use crate::rename_names;
use crate::text;
use vstd::prelude::*;

verus! {

// Names from their parts.

/// A name is made of a stem and a tail: the tail is a dot and an extension, or
/// there is none, and then no dot stands behind the stem's first character.
pub open spec fn is_tail(stem: Seq<char>, tail: Seq<char>) -> bool {
    ||| tail.len() == 0 && forall|k: int| 0 < k < stem.len() ==> #[trigger] stem[k] != '.'
    ||| tail.len() > 0 && tail[0] == '.' && forall|k: int| 0 < k < tail.len() ==> #[trigger] tail[k]
        != '.'
}

/// Two or three of the characters from `0` to `9`.
pub open spec fn two_or_three_digits(s: Seq<char>) -> bool {
    ||| s.len() == 2 && '0' <= s[0] <= '9' && '0' <= s[1] <= '9'
    ||| s.len() == 3 && '0' <= s[0] <= '9' && '0' <= s[1] <= '9' && '0' <= s[2] <= '9'
}

proof fn lemma_dot(name: Seq<char>, at: int, n: int)
    requires
        0 < at < n <= name.len(),
        name[at] == '.',
        forall|k: int| at < k < n ==> name[k] != '.',
    ensures
        names::last_dot(name, n) == Some(at),
    decreases n,
{
    if n - 1 > at {
        lemma_dot(name, at, n - 1);
    }
}

proof fn lemma_no_dot(name: Seq<char>, n: int)
    requires
        n <= name.len(),
        forall|k: int| 0 < k < n ==> name[k] != '.',
    ensures
        names::last_dot(name, n) is None,
    decreases n,
{
    if n > 1 {
        lemma_no_dot(name, n - 1);
    }
}

/// A stem and a tail are found again in the name that they make; the stem is what
/// `Path::file_stem` gives.
pub proof fn name_splits_into_its_parts(stem: Seq<char>, tail: Seq<char>)
    requires
        stem.len() > 0,
        is_tail(stem, tail),
    ensures
        names::stem(stem + tail) == stem,
        tail.len() == 0 ==> names::extension(stem + tail) is None,
        tail.len() > 0 ==> names::extension(stem + tail) == Some(tail.skip(1)),
{
    let name = stem + tail;
    if tail.len() == 0 {
        assert(name =~= stem);
        lemma_no_dot(name, name.len() as int);
    } else {
        let at = stem.len() as int;
        assert(name[at] == tail[0]);
        assert forall|k: int| at < k < name.len() implies name[k] != '.' by {
            assert(name[k] == tail[k - at]);
        }
        lemma_dot(name, at, name.len() as int);
        assert(name.take(at) =~= stem);
        assert(name.skip(at + 1) =~= tail.skip(1));
    }
}

/// Every name has a stem and a tail.
proof fn lemma_parts(name: Seq<char>) -> (tail: Seq<char>)
    ensures
        name == names::stem(name) + tail,
        is_tail(names::stem(name), tail),
        forall|s: Seq<char>| #[trigger] rename_names::renamed(s, name) == s + tail,
{
    names::name_is_stem_and_extension(name);
    names::lemma_last_dot(name, name.len() as int);
    match names::extension(name) {
        Some(e) => {
            let tail = seq!['.'] + e;
            let i = names::last_dot(name, name.len() as int)->0;
            assert forall|k: int| 0 < k < tail.len() implies #[trigger] tail[k] != '.' by {
                assert(tail[k] == name[i + k]);
            }
            assert(name =~= names::stem(name) + tail);
            assert forall|s: Seq<char>| #[trigger] rename_names::renamed(s, name) == s + tail by {
                assert(s + seq!['.'] + e =~= s + tail);
            }
            tail
        },
        None => {
            let tail = Seq::<char>::empty();
            assert(name =~= names::stem(name) + tail);
            assert forall|s: Seq<char>| #[trigger] rename_names::renamed(s, name) == s + tail by {
                assert(s =~= s + tail);
            }
            tail
        },
    }
}

proof fn lemma_renamed(stem: Seq<char>, tail: Seq<char>, s: Seq<char>)
    requires
        stem.len() > 0,
        is_tail(stem, tail),
    ensures
        rename_names::renamed(s, stem + tail) == s + tail,
{
    name_splits_into_its_parts(stem, tail);
    if tail.len() > 0 {
        assert(s + seq!['.'] + tail.skip(1) =~= s + tail);
    } else {
        assert(s =~= s + tail);
    }
}

proof fn lemma_short_number(s: Seq<char>)
    ensures
        rename_names::is_short_number(s) == two_or_three_digits(s),
{
    if rename_names::is_short_number(s) {
        assert(text::is_digit(s[0]) && text::is_digit(s[1]));
        if s.len() == 3 {
            assert(text::is_digit(s[2]));
        }
    }
}

// Numbers at the end of a name.

/// A name that ends in a number: something that does not end in an underscore, a
/// hyphen or a space, one or more of these, two or three digits, and the tail.
pub open spec fn ends_in_number(
    name: Seq<char>,
    base: Seq<char>,
    gap: Seq<char>,
    number: Seq<char>,
    tail: Seq<char>,
) -> bool {
    &&& name == base + gap + number + tail
    &&& base.len() > 0
    &&& base.last() != '_' && base.last() != '-' && base.last() != ' '
    &&& gap.len() > 0
    &&& forall|k: int|
        0 <= k < gap.len() ==> #[trigger] gap[k] == '_' || gap[k] == '-' || gap[k] == ' '
    &&& two_or_three_digits(number)
    &&& is_tail(base + gap + number, tail)
}

proof fn lemma_digits_start(s: Seq<char>, start: int, n: int)
    requires
        0 <= start <= n <= s.len(),
        forall|k: int| start <= k < n ==> '0' <= #[trigger] s[k] <= '9',
        start > 0 ==> !('0' <= s[start - 1] <= '9'),
    ensures
        rename_names::digits_start(s, n) == start,
    decreases n,
{
    if n > start {
        lemma_digits_start(s, start, n - 1);
    }
}

proof fn lemma_separators_start(s: Seq<char>, start: int, n: int)
    requires
        0 < start <= n <= s.len(),
        forall|k: int|
            start <= k < n ==> #[trigger] s[k] == '_' || s[k] == '-' || s[k] == ' ',
        s[start - 1] != '_' && s[start - 1] != '-' && s[start - 1] != ' ',
    ensures
        rename_names::separators_start(s, n) == start,
    decreases n,
{
    if n > start {
        lemma_separators_start(s, start, n - 1);
    }
}

/// The number at the end of a name goes to its front, with an underscore behind it;
/// what parted it from the rest goes, and the rest and the extension stay.
pub proof fn trailing_number_goes_to_the_front(
    name: Seq<char>,
    base: Seq<char>,
    gap: Seq<char>,
    number: Seq<char>,
    tail: Seq<char>,
)
    requires
        ends_in_number(name, base, gap, number, tail),
    ensures
        rename_names::number_in_front(name) == Some(number + seq!['_'] + base + tail),
{
    let s = base + gap + number;
    let b = base.len() as int;
    let g = b + gap.len() as int;
    name_splits_into_its_parts(s, tail);
    assert forall|k: int| g <= k < s.len() implies '0' <= #[trigger] s[k] <= '9' by {
        assert(s[k] == number[k - g]);
    }
    assert(s[g - 1] == gap[gap.len() - 1]);
    lemma_digits_start(s, g, s.len() as int);
    assert(s.skip(g) =~= number);
    assert forall|k: int| b <= k < g - 1 implies #[trigger] s[k] == '_' || s[k] == '-' || s[k]
        == ' ' by {
        assert(s[k] == gap[k - b]);
    }
    assert(s[b - 1] == base.last());
    lemma_separators_start(s, b, g - 1);
    assert(s.take(b) =~= base);
    lemma_renamed(s, tail, number + seq!['_'] + base);
}

proof fn lemma_starts_are(s: Seq<char>, n: int)
    requires
        0 <= n <= s.len(),
    ensures
        ({
            let d = rename_names::digits_start(s, n);
            &&& 0 <= d <= n
            &&& forall|k: int| d <= k < n ==> '0' <= #[trigger] s[k] <= '9'
        }),
        ({
            let e = rename_names::separators_start(s, n);
            &&& 0 <= e <= n
            &&& forall|k: int| e <= k < n ==> #[trigger] s[k] == '_' || s[k] == '-' || s[k] == ' '
            &&& e > 0 ==> s[e - 1] != '_' && s[e - 1] != '-' && s[e - 1] != ' '
        }),
    decreases n,
{
    if n > 0 {
        lemma_starts_are(s, n - 1);
    }
}

/// A name that gets a new one by this rule ends in a number, which the new name has
/// at its front.
pub proof fn only_trailing_numbers_are_moved(name: Seq<char>)
    requires
        rename_names::number_in_front(name) is Some,
    ensures
        exists|base: Seq<char>, gap: Seq<char>, number: Seq<char>, tail: Seq<char>| #[trigger]
            ends_in_number(name, base, gap, number, tail) && rename_names::number_in_front(name)
                == Some(number + seq!['_'] + base + tail),
{
    let tail = lemma_parts(name);
    let s = names::stem(name);
    let n = s.len() as int;
    lemma_starts_are(s, n);
    let start = rename_names::digits_start(s, n);
    lemma_starts_are(s, start - 1);
    let end = rename_names::separators_start(s, start - 1);
    let base = s.take(end);
    let gap = s.subrange(end, start);
    let number = s.skip(start);
    assert(base + gap + number =~= s);
    assert(base.last() == s[end - 1]);
    assert forall|k: int| 0 <= k < gap.len() implies #[trigger] gap[k] == '_' || gap[k] == '-'
        || gap[k] == ' ' by {
        assert(gap[k] == s[end + k]);
    }
    assert(number[0] == s[start] && number[1] == s[start + 1]);
    if number.len() == 3 {
        assert(number[2] == s[start + 2]);
    }
    assert(ends_in_number(name, base, gap, number, tail));
}

// Numbers in front or at the end of a name.

/// Two or three digits and an underscore stand at the beginning.
pub open spec fn begins_with_number(s: Seq<char>) -> bool {
    ||| s.len() > 2 && two_or_three_digits(s.take(2)) && s[2] == '_'
    ||| s.len() > 3 && two_or_three_digits(s.take(3)) && s[3] == '_'
}

/// An underscore and two or three digits stand at the end.
pub open spec fn ends_with_number(s: Seq<char>) -> bool {
    ||| s.len() > 2 && two_or_three_digits(s.skip(s.len() - 2)) && s[s.len() - 3] == '_'
    ||| s.len() > 3 && two_or_three_digits(s.skip(s.len() - 3)) && s[s.len() - 4] == '_'
}

proof fn lemma_first_char(s: Seq<char>, c: char, i: int)
    requires
        0 <= i,
    ensures
        match text::first_char(s, c, i) {
            Some(k) => i <= k < s.len() && s[k] == c && forall|j: int| i <= j < k ==> s[j] != c,
            None => forall|j: int| i <= j < s.len() ==> s[j] != c,
        },
    decreases s.len() - i,
{
    if i < s.len() && s[i] != c {
        lemma_first_char(s, c, i + 1);
    }
}

proof fn lemma_last_char(s: Seq<char>, c: char, n: int)
    requires
        n <= s.len(),
    ensures
        match rename_names::last_char(s, c, n) {
            Some(k) => 0 <= k < n && s[k] == c && forall|j: int| k < j < n ==> s[j] != c,
            None => forall|j: int| 0 <= j < n ==> s[j] != c,
        },
    decreases n,
{
    if n > 0 && s[n - 1] != c {
        lemma_last_char(s, c, n - 1);
    }
}

proof fn lemma_front(s: Seq<char>)
    ensures
        match rename_names::without_front_number(s) {
            Some(rest) => begins_with_number(s) && exists|n: int|
                #![trigger s.take(n)]
                0 <= n < s.len() && two_or_three_digits(s.take(n)) && s[n] == '_' && rest
                    == s.skip(n + 1),
            None => !begins_with_number(s),
        },
{
    lemma_first_char(s, '_', 0);
    match text::first_char(s, '_', 0) {
        Some(i) => {
            lemma_short_number(s.take(i));
            if begins_with_number(s) {
                if s.len() > 2 && two_or_three_digits(s.take(2)) && s[2] == '_' {
                    assert(s.take(2)[0] == s[0] && s.take(2)[1] == s[1]);
                    assert(i == 2);
                } else {
                    assert(s.take(3)[0] == s[0] && s.take(3)[1] == s[1] && s.take(3)[2] == s[2]);
                    assert(i == 3);
                }
            }
            if rename_names::is_short_number(s.take(i)) {
                assert(i == 2 || i == 3);
            }
        },
        None => {},
    }
}

proof fn lemma_rear(s: Seq<char>)
    ensures
        match rename_names::without_rear_number(s) {
            Some(rest) => ends_with_number(s) && exists|n: int|
                #![trigger s.skip(n + 1)]
                0 <= n < s.len() && two_or_three_digits(s.skip(n + 1)) && s[n] == '_' && rest
                    == s.take(n),
            None => !ends_with_number(s),
        },
{
    let n = s.len() as int;
    lemma_last_char(s, '_', n);
    match rename_names::last_char(s, '_', n) {
        Some(i) => {
            lemma_short_number(s.skip(i + 1));
            if ends_with_number(s) {
                if n > 2 && two_or_three_digits(s.skip(n - 2)) && s[n - 3] == '_' {
                    assert(s.skip(n - 2)[0] == s[n - 2] && s.skip(n - 2)[1] == s[n - 1]);
                    assert(i == n - 3);
                } else {
                    assert(s.skip(n - 3)[0] == s[n - 3] && s.skip(n - 3)[1] == s[n - 2] && s.skip(
                        n - 3,
                    )[2] == s[n - 1]);
                    assert(i == n - 4);
                }
            }
            if rename_names::is_short_number(s.skip(i + 1)) {
                assert(i == n - 3 || i == n - 4);
                assert(s.skip(i + 1) == s.skip(n - (n - i - 1)));
            }
        },
        None => {},
    }
}

proof fn lemma_front_taken(number: Seq<char>, rest: Seq<char>)
    requires
        two_or_three_digits(number),
    ensures
        rename_names::without_front_number(number + seq!['_'] + rest) == Some(rest),
{
    let s = number + seq!['_'] + rest;
    let n = number.len() as int;
    lemma_first_char(s, '_', 0);
    assert(s[n] == '_');
    assert(s[0] == number[0] && s[1] == number[1]);
    if n == 3 {
        assert(s[2] == number[2]);
    }
    assert(text::first_char(s, '_', 0) == Some(n));
    assert(s.take(n) =~= number);
    assert(s.skip(n + 1) =~= rest);
    lemma_short_number(number);
}

proof fn lemma_rear_taken(rest: Seq<char>, number: Seq<char>)
    requires
        two_or_three_digits(number),
    ensures
        rename_names::without_rear_number(rest + seq!['_'] + number) == Some(rest),
{
    let s = rest + seq!['_'] + number;
    let n = rest.len() as int;
    lemma_last_char(s, '_', s.len() as int);
    assert(s[n] == '_');
    assert(s[n + 1] == number[0] && s[n + 2] == number[1]);
    if number.len() == 3 {
        assert(s[n + 3] == number[2]);
    }
    assert(rename_names::last_char(s, '_', s.len() as int) == Some(n));
    assert(s.take(n) =~= rest);
    assert(s.skip(n + 1) =~= number);
    lemma_short_number(number);
}

/// A number in front of a name goes, with its underscore.
pub proof fn number_in_front_is_taken_away(number: Seq<char>, rest: Seq<char>, tail: Seq<char>)
    requires
        two_or_three_digits(number),
        rest.len() > 0,
        !ends_with_number(rest),
        is_tail(number + seq!['_'] + rest, tail),
    ensures
        rename_names::number_removed(number + seq!['_'] + rest + tail) == Some(rest + tail),
{
    let s = number + seq!['_'] + rest;
    name_splits_into_its_parts(s, tail);
    lemma_front_taken(number, rest);
    lemma_rear(rest);
    lemma_renamed(s, tail, rest);
}

/// A number at the end of a name goes, with its underscore.
pub proof fn number_at_the_end_is_taken_away(rest: Seq<char>, number: Seq<char>, tail: Seq<char>)
    requires
        two_or_three_digits(number),
        rest.len() > 0,
        !begins_with_number(rest + seq!['_'] + number),
        is_tail(rest + seq!['_'] + number, tail),
    ensures
        rename_names::number_removed(rest + seq!['_'] + number + tail) == Some(rest + tail),
{
    let s = rest + seq!['_'] + number;
    name_splits_into_its_parts(s, tail);
    lemma_front(s);
    lemma_rear_taken(rest, number);
    lemma_renamed(s, tail, rest);
}

/// Where a name has a number in front and one at its end, both go.
pub proof fn both_numbers_are_taken_away(
    front: Seq<char>,
    rest: Seq<char>,
    rear: Seq<char>,
    tail: Seq<char>,
)
    requires
        two_or_three_digits(front),
        two_or_three_digits(rear),
        rest.len() > 0,
        is_tail(front + seq!['_'] + rest + seq!['_'] + rear, tail),
    ensures
        rename_names::number_removed(front + seq!['_'] + rest + seq!['_'] + rear + tail) == Some(
            rest + tail,
        ),
{
    let s = front + seq!['_'] + rest + seq!['_'] + rear;
    let inner = rest + seq!['_'] + rear;
    assert(s =~= front + seq!['_'] + inner);
    name_splits_into_its_parts(s, tail);
    lemma_front_taken(front, inner);
    lemma_rear_taken(rest, rear);
    lemma_renamed(s, tail, rest);
}

/// A name that neither begins nor ends with a number is left alone, and so is one
/// of which nothing would be left.
pub proof fn names_without_numbers_are_left_alone(stem: Seq<char>, tail: Seq<char>)
    requires
        stem.len() > 0,
        is_tail(stem, tail),
    ensures
        !begins_with_number(stem) && !ends_with_number(stem) ==> rename_names::number_removed(
            stem + tail,
        ) is None,
        rename_names::number_removed(stem + tail) matches Some(r) ==> r.len() > tail.len()
            && r.len() < stem.len() + tail.len(),
{
    name_splits_into_its_parts(stem, tail);
    lemma_front(stem);
    lemma_rear(stem);
    match rename_names::without_numbers(stem) {
        Some(base) => {
            lemma_renamed(stem, tail, base);
            match rename_names::without_front_number(stem) {
                Some(rest) => lemma_rear(rest),
                None => {},
            }
        },
        None => {},
    }
}

// Prefixes of cameras.

/// `IMG_` or `VID_`, in capital or small letters.
pub open spec fn is_camera_prefix(p: Seq<char>) -> bool {
    &&& p.len() == 4
    &&& p[3] == '_'
    &&& {
        ||| (p[0] == 'I' || p[0] == 'i') && (p[1] == 'M' || p[1] == 'm') && (p[2] == 'G' || p[2]
            == 'g')
        ||| (p[0] == 'V' || p[0] == 'v') && (p[1] == 'I' || p[1] == 'i') && (p[2] == 'D' || p[2]
            == 'd')
    }
}

proof fn lemma_camera_prefix(p: Seq<char>)
    requires
        p.len() == 4,
    ensures
        (text::lower(p) == "img_"@ || text::lower(p) == "vid_"@) == is_camera_prefix(p),
{
    reveal_strlit("img_");
    reveal_strlit("vid_");
    let l = text::lower(p);
    assert(l[0] == text::lower_char(p[0]) && l[1] == text::lower_char(p[1]) && l[2]
        == text::lower_char(p[2]) && l[3] == text::lower_char(p[3]));
    if is_camera_prefix(p) {
        if p[0] == 'I' || p[0] == 'i' {
            assert(l =~= "img_"@);
        } else {
            assert(l =~= "vid_"@);
        }
    }
}

/// The prefix of a camera goes from a name that is more than the prefix.
pub proof fn camera_prefix_is_taken_away(prefix: Seq<char>, rest: Seq<char>, tail: Seq<char>)
    requires
        is_camera_prefix(prefix),
        rest.len() > 0,
        is_tail(prefix + rest, tail),
    ensures
        rename_names::prefix_removed(prefix + rest + tail) == Some(rest + tail),
{
    let s = prefix + rest;
    name_splits_into_its_parts(s, tail);
    assert(s.take(4) =~= prefix);
    assert(s.skip(4) =~= rest);
    lemma_camera_prefix(prefix);
    lemma_renamed(s, tail, rest);
}

/// Nothing but a prefix of a camera is taken away by this rule.
pub proof fn only_camera_prefixes_are_taken_away(name: Seq<char>)
    requires
        rename_names::prefix_removed(name) is Some,
    ensures
        name.len() > 4,
        is_camera_prefix(name.take(4)),
        rename_names::prefix_removed(name) == Some(name.skip(4)),
{
    let tail = lemma_parts(name);
    let s = names::stem(name);
    lemma_camera_prefix(s.take(4));
    assert(s.take(4) =~= name.take(4));
    assert(s.skip(4) + tail =~= name.skip(4));
}

} // verus!
