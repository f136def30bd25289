//! What the operations on texts do to characters.
use crate::text;
use vstd::prelude::*;

verus! {

/// A blank, a tabulator or a line break.
pub open spec fn is_blank_char(c: char) -> bool {
    c == ' ' || c == '\t' || c == '\n' || c == '\r'
}

/// A visible ASCII character.
pub open spec fn is_visible_char(c: char) -> bool {
    '!' <= c <= '~'
}

/// Blanks at the two ends of a text are taken away, and nothing else.
pub proof fn trimming_takes_the_blanks_away(before: Seq<char>, t: Seq<char>, after: Seq<char>)
    requires
        forall|k: int| 0 <= k < before.len() ==> is_blank_char(#[trigger] before[k]),
        forall|k: int| 0 <= k < after.len() ==> is_blank_char(#[trigger] after[k]),
        t.len() == 0 || (is_visible_char(t[0]) && is_visible_char(t.last())),
    ensures
        text::trim(before + t + after) == t,
{
    let s = before + t + after;
    lemma_start(before, t + after);
    assert(s =~= before + (t + after));
    if t.len() == 0 {
        lemma_start(after, Seq::empty());
        assert(t + after =~= after + Seq::<char>::empty());
        assert(text::trim_start(Seq::<char>::empty()) =~= Seq::<char>::empty());
        assert(text::trim_end(Seq::<char>::empty()) =~= t);
    } else {
        assert((t + after)[0] == t[0]);
        assert(text::trim_start(t + after) == t + after);
        lemma_end(t, after);
    }
}

proof fn lemma_start(before: Seq<char>, t: Seq<char>)
    requires
        forall|k: int| 0 <= k < before.len() ==> is_blank_char(#[trigger] before[k]),
    ensures
        text::trim_start(before + t) == text::trim_start(t),
    decreases before.len(),
{
    let s = before + t;
    if before.len() > 0 {
        assert(is_blank_char(before[0]));
        assert(s[0] == before[0]);
        assert(s.skip(1) =~= before.skip(1) + t);
        assert forall|k: int| 0 <= k < before.skip(1).len() implies is_blank_char(
            #[trigger] before.skip(1)[k],
        ) by {
            assert(before.skip(1)[k] == before[k + 1]);
        }
        lemma_start(before.skip(1), t);
    } else {
        assert(s =~= t);
    }
}

proof fn lemma_end(t: Seq<char>, after: Seq<char>)
    requires
        forall|k: int| 0 <= k < after.len() ==> is_blank_char(#[trigger] after[k]),
        t.len() > 0,
        is_visible_char(t.last()),
    ensures
        text::trim_end(t + after) == t,
    decreases after.len(),
{
    let s = t + after;
    if after.len() > 0 {
        assert(is_blank_char(after[after.len() - 1]));
        assert(s.last() == after.last());
        assert(s.drop_last() =~= t + after.drop_last());
        assert forall|k: int| 0 <= k < after.drop_last().len() implies is_blank_char(
            #[trigger] after.drop_last()[k],
        ) by {
            assert(after.drop_last()[k] == after[k]);
        }
        lemma_end(t, after.drop_last());
    } else {
        assert(s =~= t);
    }
}

/// Small letters take the places of the capitals from `A` to `Z`, each its own, and
/// all other characters stay.
pub proof fn capitals_become_small(s: Seq<char>, i: int)
    requires
        0 <= i < s.len(),
    ensures
        text::lower(s).len() == s.len(),
        'A' <= s[i] <= 'Z' ==> text::lower(s)[i] as int - 'a' as int == s[i] as int - 'A' as int,
        !('A' <= s[i] <= 'Z') ==> text::lower(s)[i] == s[i],
{
}

/// A number up to the largest value is read from its digits, with or without a plus
/// sign; a larger one is not, and neither is a text that holds anything else.
pub proof fn numbers_are_read_from_their_digits(n: nat, max: nat, t: Seq<char>, k: int)
    ensures
        text::unsigned_value(text::decimal(n), max) == if n <= max {
            Some(n)
        } else {
            None
        },
        text::unsigned_value(seq!['+'] + text::decimal(n), max) == if n <= max {
            Some(n)
        } else {
            None
        },
        text::unsigned_value(Seq::empty(), max) is None,
        0 <= k < t.len() && !('0' <= t[k] <= '9') && !(k == 0 && t[0] == '+')
            ==> text::unsigned_value(t, max) is None,
{
    text::decimal_reads_back(n);
    let d = text::decimal(n);
    assert(text::is_digit(d[0]));
    assert((seq!['+'] + d).skip(1) =~= d);
    if 0 <= k < t.len() && !('0' <= t[k] <= '9') && !(k == 0 && t[0] == '+') {
        if t[0] == '+' {
            assert(t.skip(1)[k - 1] == t[k]);
            assert(!text::is_digit(t.skip(1)[k - 1]));
        } else {
            assert(!text::is_digit(t[k]));
        }
    }
}

/// Endings are taken away as often as they stand there.
pub proof fn endings_are_taken_away(t: Seq<char>, ending: Seq<char>)
    requires
        ending.len() > 0,
    ensures
        text::trim_suffix(t + ending, ending) == text::trim_suffix(t, ending),
        !text::ends_with(t, ending) ==> text::trim_suffix(t, ending) == t,
        text::ends_with(t + ending, ending),
        text::starts_with(ending + t, ending),
{
    let s = t + ending;
    assert(s.skip(s.len() - ending.len()) =~= ending);
    assert(s.take(s.len() - ending.len()) =~= t);
    assert((ending + t).take(ending.len() as int) =~= ending);
}

/// A number is filled up with zeros in front to a width, and a longer one stays.
pub proof fn numbers_are_filled_up_with_zeros(n: nat, width: nat, k: int)
    requires
        0 <= k,
    ensures
        text::decimal(n).len() >= width ==> text::zero_padded(n, width) == text::decimal(n),
        text::decimal(n).len() < width ==> {
            let s = text::zero_padded(n, width);
            let z = width - text::decimal(n).len();
            &&& s.len() == width
            &&& k < z ==> s[k] == '0'
            &&& s.skip(z) == text::decimal(n)
        },
{
    let d = text::decimal(n);
    let s = text::zero_padded(n, width);
    if d.len() >= width {
        assert(s =~= d);
    } else {
        assert(s.skip(width - d.len()) =~= d);
    }
}

/// White space are the twenty-five characters that Unicode lists as such.
pub proof fn white_space_is_that_of_unicode(c: char)
    ensures
        text::is_white_space(c) <==> {
            ||| c == '\t' || c == '\n' || c == '\u{b}' || c == '\u{c}' || c == '\r' || c == ' '
            ||| c == '\u{85}' || c == '\u{a0}' || c == '\u{1680}'
            ||| c == '\u{2000}' || c == '\u{2001}' || c == '\u{2002}' || c == '\u{2003}'
            ||| c == '\u{2004}' || c == '\u{2005}' || c == '\u{2006}' || c == '\u{2007}'
            ||| c == '\u{2008}' || c == '\u{2009}' || c == '\u{200a}'
            ||| c == '\u{2028}' || c == '\u{2029}' || c == '\u{202f}' || c == '\u{205f}'
            ||| c == '\u{3000}'
        },
{
}

} // verus!
