//! What holds of dates as they are typed.
use crate::date_input;
use crate::text;
use vstd::prelude::*;

verus! {

proof fn lemma_push_digits(s: Seq<char>, c: char, separator: char)
    requires
        text::is_digit(c) || c == separator,
        date_input::only_digits_and(s, separator),
    ensures
        date_input::digits_of(s.push(c)) == if text::is_digit(c) {
            date_input::digits_of(s).push(c)
        } else {
            date_input::digits_of(s)
        },
        date_input::only_digits_and(s.push(c), separator),
{
    reveal(Seq::filter);
    let t = s.push(c);
    assert(t.drop_last() =~= s);
    assert(t.last() == c);
}

proof fn lemma_partly_grouped_step(d: Seq<char>, width: int, separator: char, i: int)
    requires
        2 <= width <= 4,
        0 < i <= d.len(),
    ensures
        date_input::partly_grouped(d, width, separator, i) == if i - 1 == width || i - 1 == width + 2 {
            date_input::partly_grouped(d, width, separator, i - 1).push(separator).push(d[i - 1])
        } else {
            date_input::partly_grouped(d, width, separator, i - 1).push(d[i - 1])
        },
{
    let before = date_input::partly_grouped(d, width, separator, i - 1);
    let now = date_input::partly_grouped(d, width, separator, i);
    if i - 1 == width || i - 1 == width + 2 {
        assert(now =~= before.push(separator).push(d[i - 1]));
    } else {
        assert(now =~= before.push(d[i - 1]));
    }
}

proof fn lemma_partly_grouped(d: Seq<char>, width: int, separator: char, i: int)
    requires
        text::all_digits(d),
        !text::is_digit(separator),
        2 <= width <= 4,
        0 <= i <= d.len(),
    ensures
        date_input::digits_of(date_input::partly_grouped(d, width, separator, i)) == d.take(i),
        date_input::only_digits_and(date_input::partly_grouped(d, width, separator, i), separator),
    decreases i,
{
    if i == 0 {
        reveal(Seq::filter);
        assert(date_input::partly_grouped(d, width, separator, 0) =~= Seq::<char>::empty());
        assert(d.take(0) =~= Seq::<char>::empty());
    } else {
        let before = date_input::partly_grouped(d, width, separator, i - 1);
        let c = d[i - 1];
        lemma_partly_grouped(d, width, separator, i - 1);
        lemma_partly_grouped_step(d, width, separator, i);
        assert(text::is_digit(c));
        lemma_push_digits(before, separator, separator);
        lemma_push_digits(before, c, separator);
        lemma_push_digits(before.push(separator), c, separator);
        assert(d.take(i) =~= d.take(i - 1).push(c));
    }
}

proof fn lemma_group_digits(d: Seq<char>, width: int, separator: char)
    requires
        text::all_digits(d),
        !text::is_digit(separator),
        2 <= width <= 4,
    ensures
        date_input::digits_of(date_input::in_groups(d, width, separator)) == d,
        date_input::only_digits_and(date_input::in_groups(d, width, separator), separator),
{
    let n = d.len() as int;
    let whole = date_input::partly_grouped(d, width, separator, n);
    lemma_partly_grouped(d, width, separator, n);
    lemma_push_digits(whole, separator, separator);
    lemma_grouped_whole(d, width, separator);
    assert(d.take(n) =~= d);
}

proof fn lemma_grouped_whole(d: Seq<char>, width: int, separator: char)
    requires
        2 <= width <= 4,
    ensures
        date_input::in_groups(d, width, separator) == if d.len() == width || d.len() == width + 2 {
            date_input::partly_grouped(d, width, separator, d.len() as int).push(separator)
        } else {
            date_input::partly_grouped(d, width, separator, d.len() as int)
        },
{
    let n = d.len() as int;
    let whole = date_input::partly_grouped(d, width, separator, n);
    if n == width || n == width + 2 {
        assert(date_input::in_groups(d, width, separator) =~= whole.push(separator));
    } else {
        assert(date_input::in_groups(d, width, separator) =~= whole);
    }
}

proof fn lemma_digits_are_digits(s: Seq<char>)
    ensures
        text::all_digits(date_input::digits_of(s)),
    decreases s.len(),
{
    reveal(Seq::filter);
    let keep = |c: char| text::is_digit(c);
    if s.len() > 0 {
        lemma_digits_are_digits(s.drop_last());
        assert(date_input::digits_of(s) == s.filter(keep));
        assert(date_input::digits_of(s.drop_last()) == s.drop_last().filter(keep));
    }
}

proof fn lemma_end_of_date(s: Seq<char>, rest: Seq<char>, i: int)
    requires
        date_input::only_digits_and(s, '-'),
        0 <= i <= s.len(),
        rest.len() > 0 ==> text::is_white_space(rest[0]) || rest[0] == 'T',
    ensures
        date_input::date_end(s + rest, i) == s.len(),
    decreases s.len() - i,
{
    if i < s.len() {
        assert((s + rest)[i] == s[i]);
        lemma_end_of_date(s, rest, i + 1);
    } else if rest.len() > 0 {
        assert((s + rest)[i] == rest[0]);
    }
}

proof fn lemma_date_end(s: Seq<char>, i: int)
    requires
        0 <= i <= s.len(),
    ensures
        i <= date_input::date_end(s, i) <= s.len(),
        date_input::date_end(s, i) < s.len() ==> text::is_white_space(s[date_input::date_end(s, i)]) || s[date_input::date_end(s, i)]
            == 'T',
    decreases s.len() - i,
{
    if i < s.len() && !(text::is_white_space(s[i]) || s[i] == 'T') {
        lemma_date_end(s, i + 1);
    }
}

proof fn lemma_suffix_again(suffix: Seq<char>)
    ensures
        date_input::formatted_suffix(date_input::formatted_suffix(suffix)) == date_input::formatted_suffix(suffix),
        date_input::formatted_suffix(suffix).len() > 0 ==> suffix.len() > 0 && date_input::formatted_suffix(suffix)[0]
            == suffix[0],
        date_input::formatted_suffix(suffix).len() == 0 ==> suffix.len() == 0,
{
    if suffix.len() > 1 {
        let time = suffix.skip(1);
        let d = date_input::digits_of(time);
        if date_input::only_digits_and(time, ':') && d.len() <= 6 {
            lemma_digits_are_digits(time);
            lemma_group_digits(d, 2, ':');
            let g = date_input::in_groups(d, 2, ':');
            let again = date_input::formatted_suffix(suffix);
            assert(again.skip(1) =~= g);
            if g.len() == 0 {
                assert(again.len() == 1);
            } else {
                assert(date_input::digits_of(again.skip(1)) == d);
            }
        }
    }
}

/// An input that has its separators is left as it is.
pub proof fn formatting_again_changes_nothing(value: Seq<char>)
    ensures
        date_input::formatted_input(date_input::formatted_input(value)) == date_input::formatted_input(value),
{
    let end = date_input::date_end(value, 0);
    let date = value.take(end);
    let d = date_input::digits_of(date);
    lemma_date_end(value, 0);
    if !(date.len() == 0 || !date_input::only_digits_and(date, '-') || d.len() < 4 || d.len() > 8) {
        let suffix = value.skip(end);
        let g = date_input::in_groups(d, 4, '-');
        let f = date_input::formatted_suffix(suffix);
        lemma_digits_are_digits(date);
        lemma_group_digits(d, 4, '-');
        lemma_suffix_again(suffix);
        if f.len() > 0 {
            assert(suffix[0] == value[end]);
        }
        lemma_end_of_date(g, f, 0);
        let again = g + f;
        assert(again.take(g.len() as int) =~= g);
        assert(again.skip(g.len() as int) =~= f);
    }
}

} // verus!
