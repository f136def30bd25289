//! What becomes of dates while they are typed.
use crate::date_input;
use crate::text;
use vstd::prelude::*;

verus! {

/// Characters that are all from `0` to `9`.
pub open spec fn digits_only(d: Seq<char>) -> bool {
    forall|k: int| 0 <= k < d.len() ==> '0' <= #[trigger] d[k] <= '9'
}

proof fn lemma_all_digits(d: Seq<char>)
    requires
        digits_only(d),
    ensures
        date_input::digits_of(d) == d,
        date_input::only_digits_and(d, '-'),
        date_input::only_digits_and(d, ':'),
{
    assert forall|i: int| 0 <= i < d.len() implies (|c: char| text::is_digit(c))(
        #[trigger] d[i],
    ) by {}
    text::lemma_all_kept(d, |c: char| text::is_digit(c));
}

proof fn lemma_end(value: Seq<char>, i: int, n: int)
    requires
        0 <= i <= n <= value.len(),
        forall|k: int| i <= k < n ==> '0' <= #[trigger] value[k] <= '9',
        n == value.len() || value[n] == ' ' || value[n] == 'T',
    ensures
        date_input::date_end(value, i) == n,
    decreases n - i,
{
    if i < n {
        assert('0' <= value[i] <= '9');
        lemma_end(value, i + 1, n);
    }
}

/// While the digits of a date are typed, a hyphen follows the four digits of the year
/// and the two of the month.
pub proof fn typed_dates_get_their_hyphens(d: Seq<char>)
    requires
        digits_only(d),
    ensures
        d.len() < 4 || d.len() > 8 ==> date_input::formatted_input(d) == d,
        d.len() == 4 ==> date_input::formatted_input(d) == d + seq!['-'],
        d.len() == 5 ==> date_input::formatted_input(d) == d.take(4) + seq!['-'] + d.skip(4),
        d.len() == 6 ==> date_input::formatted_input(d) == d.take(4) + seq!['-'] + d.skip(4)
            + seq!['-'],
        d.len() == 7 || d.len() == 8 ==> date_input::formatted_input(d) == d.take(4) + seq!['-']
            + d.subrange(4, 6) + seq!['-'] + d.skip(6),
{
    lemma_all_digits(d);
    lemma_end(d, 0, d.len() as int);
    let n = d.len() as int;
    assert(d.take(n) =~= d);
    let f = date_input::formatted_input(d);
    if 4 <= n <= 8 {
        let g = date_input::in_groups(d, 4, '-');
        assert(d.skip(n).len() == 0);
        assert(date_input::formatted_suffix(d.skip(n)) =~= Seq::<char>::empty());
        assert(f =~= g);
        if n == 4 {
            assert(g =~= d + seq!['-']);
        }
    }
}

/// While the digits of a time are typed behind a date, and a blank or a `T`, a colon
/// follows the two digits of the hour and the two of the minute.
pub proof fn typed_times_get_their_colons(d: Seq<char>, between: char, t: Seq<char>)
    requires
        digits_only(d),
        digits_only(t),
        d.len() == 8,
        between == ' ' || between == 'T',
    ensures
        ({
            let date = d.take(4) + seq!['-'] + d.subrange(4, 6) + seq!['-'] + d.skip(6);
            let f = date_input::formatted_input(d + seq![between] + t);
            &&& t.len() <= 1 || t.len() > 6 ==> f == date + seq![between] + t
            &&& t.len() == 2 ==> f == date + seq![between] + t + seq![':']
            &&& t.len() == 3 ==> f == date + seq![between] + t.take(2) + seq![':'] + t.skip(2)
            &&& t.len() == 4 ==> f == date + seq![between] + t.take(2) + seq![':'] + t.skip(2)
                + seq![':']
            &&& t.len() == 5 || t.len() == 6 ==> f == date + seq![between] + t.take(2) + seq![':']
                + t.subrange(2, 4) + seq![':'] + t.skip(4)
        }),
{
    let value = d + seq![between] + t;
    assert forall|k: int| 0 <= k < 8 implies '0' <= #[trigger] value[k] <= '9' by {
        assert(value[k] == d[k]);
    }
    assert(value[8] == between);
    lemma_end(value, 0, 8);
    assert(value.take(8) =~= d);
    let suffix = value.skip(8);
    assert(suffix =~= seq![between] + t);
    lemma_all_digits(d);
    lemma_all_digits(t);
    assert(suffix.skip(1) =~= t);
    assert(suffix[0] == between);
    let date = d.take(4) + seq!['-'] + d.subrange(4, 6) + seq!['-'] + d.skip(6);
    let f = date_input::formatted_input(value);
    let g = date_input::in_groups(t, 2, ':');
    assert(date_input::in_groups(d, 4, '-') =~= date);
    let b = seq![between];
    if t.len() == 0 || t.len() > 6 {
        assert(f =~= date + b + t);
    } else if t.len() == 1 {
        assert(g =~= t);
        assert(f =~= date + b + t);
    } else if t.len() == 2 {
        assert(f =~= date + b + t + seq![':']);
    } else if t.len() == 3 {
        assert(f =~= date + b + t.take(2) + seq![':'] + t.skip(2));
    } else if t.len() == 4 {
        assert(f =~= date + b + t.take(2) + seq![':'] + t.skip(2) + seq![':']);
    } else {
        assert(f =~= date + b + t.take(2) + seq![':'] + t.subrange(2, 4) + seq![':'] + t.skip(4));
    }
}

/// A text that begins with anything but a digit or a hyphen is left as it was typed.
pub proof fn other_texts_are_left_as_typed(value: Seq<char>)
    requires
        value.len() > 0,
        !('0' <= value[0] <= '9'),
        value[0] != '-',
    ensures
        date_input::formatted_input(value) == value,
{
    let end = date_input::date_end(value, 0);
    lemma_end_bounds(value, 0);
    let date = value.take(end);
    if date.len() > 0 {
        assert(date[0] == value[0]);
        assert(!text::is_digit(date[0]) && date[0] != '-');
    }
}

proof fn lemma_end_bounds(value: Seq<char>, i: int)
    requires
        0 <= i <= value.len(),
    ensures
        i <= date_input::date_end(value, i) <= value.len(),
    decreases value.len() - i,
{
    if i < value.len() && !text::is_white_space(value[i]) && value[i] != 'T' {
        lemma_end_bounds(value, i + 1);
    }
}

/// A separator that was just deleted stays away; every other edit is formatted.
pub proof fn deleted_separators_stay_away(previous: Seq<char>, current: Seq<char>)
    ensures
        date_input::formatted_edit(current.push('-'), current) == current,
        date_input::formatted_edit(current.push(':'), current) == current,
        previous.len() == 0 || (previous.last() != '-' && previous.last() != ':')
            || previous.drop_last() != current ==> date_input::formatted_edit(previous, current)
            == date_input::formatted_input(current),
{
    if previous == current.push('-') || previous == current.push(':') {
        assert(previous.drop_last() =~= current);
    }
}

// Rows.

/// After rows were deleted, the row nearest to the one that was selected is selected;
/// where none remain, none is.
pub proof fn the_nearest_row_is_selected(index: i32, remaining: int, k: int)
    requires
        1 <= k <= remaining,
    ensures
        ({
            let r = date_input::row_after_deletion(index, remaining);
            &&& r is Some
            &&& 1 <= r->0 <= remaining
            &&& index <= k ==> r->0 <= k
            &&& index >= k ==> r->0 >= k
        }),
        date_input::row_after_deletion(index, 0) is None,
{
}

/// The question names how many entries are deleted.
pub proof fn the_question_names_the_number(count: i32)
    ensures
        count == 1 ==> date_input::delete_question(count)
            == "1 file/folder is selected. Send it to the Recycle Bin?"@,
        count > 1 ==> date_input::delete_question(count) == text::decimal(count as nat)
            + " files/folders are selected. Send them to the Recycle Bin?"@,
        count < 1 ==> date_input::delete_question(count).len() == 0,
{
    reveal_strlit("");
}

/// A search begins with visible characters; control characters and those for private
/// use begin none, and neither does an empty text.
pub proof fn visible_characters_begin_a_search(s: Seq<char>, k: int)
    ensures
        s.len() > 0 && (forall|i: int| 0 <= i < s.len() ==> ' ' <= #[trigger] s[i] <= '~')
            ==> date_input::begins_search(s),
        0 <= k < s.len() && (s[k] < ' ' || s[k] == '\u{7f}' || s[k] == '\u{f700}')
            ==> !date_input::begins_search(s),
        s.len() == 0 ==> !date_input::begins_search(s),
{
    if 0 <= k < s.len() && (s[k] < ' ' || s[k] == '\u{7f}' || s[k] == '\u{f700}') {
        assert(date_input::is_control(s[k]));
    }
}

/// A control character, and one of the private range in which keys without a character
/// are reported, begins no search.
pub proof fn control_characters_begin_no_search(s: Seq<char>, k: int)
    requires
        0 <= k < s.len(),
        (s[k] as int) < 0x20 || 0x7f <= s[k] as int <= 0x9f || 0xe000 <= s[k] as int <= 0xf8ff,
    ensures
        !date_input::begins_search(s),
        !date_input::begins_search(Seq::empty()),
{
    assert(date_input::is_control(s[k]));
}

} // verus!
