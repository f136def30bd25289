//! Dates as they are typed: separators are put in by themselves.
use crate::text::{self, chars_of, is_ascii_digit, is_white, same_text, text_of, trimmed};
use vstd::prelude::*;

verus! {

/// Where the date in an input ends: at white space or at the letter T.
pub open spec fn date_end(s: Seq<char>, i: int) -> int
    decreases s.len() - i,
{
    if i < 0 || i >= s.len() || text::is_white_space(s[i]) || s[i] == 'T' {
        i
    } else {
        date_end(s, i + 1)
    }
}

/// The digits of a text.
pub open spec fn digits_of(s: Seq<char>) -> Seq<char> {
    s.filter(|c: char| text::is_digit(c))
}

/// Only digits and a separator.
pub open spec fn only_digits_and(s: Seq<char>, separator: char) -> bool {
    forall|i: int| 0 <= i < s.len() ==> text::is_digit(#[trigger] s[i]) || s[i] == separator
}

/// Digits in three groups, with a separator behind every full group but the
/// last; the first group has the given width, the others have two digits.
pub open spec fn in_groups(d: Seq<char>, width: int, separator: char) -> Seq<char> {
    if d.len() < width {
        d
    } else if d.len() == width {
        d.push(separator)
    } else if d.len() < width + 2 {
        d.take(width) + seq![separator] + d.skip(width)
    } else if d.len() == width + 2 {
        d.take(width) + seq![separator] + d.skip(width) + seq![separator]
    } else {
        d.take(width) + seq![separator] + d.subrange(width, width + 2) + seq![separator] + d.skip(
            width + 2,
        )
    }
}

/// What follows the date: the time in groups, where it is one.
pub open spec fn formatted_suffix(suffix: Seq<char>) -> Seq<char> {
    if suffix.len() <= 1 {
        suffix
    } else {
        let time = suffix.skip(1);
        let d = digits_of(time);
        if only_digits_and(time, ':') && d.len() <= 6 {
            seq![suffix[0]] + in_groups(d, 2, ':')
        } else {
            suffix
        }
    }
}

/// The input with its separators.
pub open spec fn formatted_input(value: Seq<char>) -> Seq<char> {
    let end = date_end(value, 0);
    let date = value.take(end);
    let d = digits_of(date);
    if date.len() == 0 || !only_digits_and(date, '-') || d.len() < 4 || d.len() > 8 {
        value
    } else {
        in_groups(d, 4, '-') + formatted_suffix(value.skip(end))
    }
}

fn check_digits_and(s: &[char], separator: char) -> (r: bool)
    ensures
        r == only_digits_and(s@, separator),
{
    let n: usize = s.len();
    let mut i: usize = 0;
    while i < n
        invariant
            i <= n,
            n == s@.len(),
            forall|k: int| 0 <= k < i ==> text::is_digit(#[trigger] s@[k]) || s@[k] == separator,
        decreases n - i,
    {
        if !is_ascii_digit(s[i]) && s[i] != separator {
            return false;
        }
        i += 1;
    }
    true
}

fn collect_digits(s: &[char]) -> (r: Vec<char>)
    ensures
        r@ == digits_of(s@),
{
    let n: usize = s.len();
    let mut out: Vec<char> = Vec::new();
    let mut i: usize = 0;
    let ghost keep = |c: char| text::is_digit(c);
    proof {
        reveal(Seq::filter);
        assert(s@.take(0).filter(keep) =~= Seq::<char>::empty());
    }
    while i < n
        invariant
            i <= n,
            n == s@.len(),
            keep == (|c: char| text::is_digit(c)),
            out@ == s@.take(i as int).filter(keep),
        decreases n - i,
    {
        proof {
            reveal(Seq::filter);
            let t = s@.take(i + 1);
            assert(t.drop_last() =~= s@.take(i as int));
            assert(t.last() == s@[i as int]);
        }
        if is_ascii_digit(s[i]) {
            out.push(s[i]);
        }
        i += 1;
    }
    assert(s@.take(n as int) =~= s@);
    out
}

fn group(d: &Vec<char>, width: usize, separator: char) -> (r: Vec<char>)
    requires
        width <= 4,
    ensures
        r@ == in_groups(d@, width as int, separator),
{
    let n: usize = d.len();
    let mut out: Vec<char> = Vec::new();
    let mut i: usize = 0;
    while i < n
        invariant
            i <= n,
            n == d@.len(),
            width <= 4,
            i < width ==> out@ == d@.take(i as int),
            i >= width ==> out@ == partly_grouped(d@, width as int, separator, i as int),
        decreases n - i,
    {
        if i == width {
            out.push(separator);
        } else if i == width + 2 {
            out.push(separator);
        }
        out.push(d[i]);
        i += 1;
        proof {
            if i < width {
                assert(out@ =~= d@.take(i as int));
            } else {
                assert(out@ =~= partly_grouped(d@, width as int, separator, i as int));
            }
        }
    }
    if n == width || n == width + 2 {
        out.push(separator);
    }
    assert(out@ =~= in_groups(d@, width as int, separator));
    out
}

/// The first digits in groups, without a separator behind the last one.
pub open spec fn partly_grouped(d: Seq<char>, width: int, separator: char, i: int) -> Seq<char> {
    if i <= width {
        d.take(i)
    } else if i <= width + 2 {
        d.take(width) + seq![separator] + d.subrange(width, i)
    } else {
        d.take(width) + seq![separator] + d.subrange(width, width + 2) + seq![separator]
            + d.subrange(width + 2, i)
    }
}

pub fn auto_format_date_input(value: &str) -> (r: String)
    ensures
        r@ == formatted_input(value@),
{
    let chars = chars_of(value);
    let n: usize = chars.len();
    let mut end: usize = 0;
    while end < n && !is_white(chars[end]) && chars[end] != 'T'
        invariant
            end <= n,
            n == chars@.len(),
            chars@ == value@,
            date_end(value@, 0) == date_end(value@, end as int),
        decreases n - end,
    {
        end += 1;
    }
    assert(date_end(value@, 0) == end);
    let date = &chars.as_slice()[0..end];
    assert(date@ =~= value@.take(end as int));
    if end == 0 || !check_digits_and(date, '-') {
        return value.to_owned();
    }
    let digits = collect_digits(date);
    if digits.len() < 4 || digits.len() > 8 {
        return value.to_owned();
    }
    let out = text_of(group(&digits, 4, '-').as_slice());
    let suffix = &chars.as_slice()[end..n];
    assert(suffix@ =~= value@.skip(end as int));
    let tail = format_suffix(suffix);
    let mut r = out;
    r.append(tail.as_str());
    r
}

fn format_suffix(suffix: &[char]) -> (r: String)
    ensures
        r@ == formatted_suffix(suffix@),
{
    let n: usize = suffix.len();
    if n <= 1 {
        return text_of(suffix);
    }
    let time = &suffix[1..n];
    assert(time@ =~= suffix@.skip(1));
    if !check_digits_and(time, ':') {
        return text_of(suffix);
    }
    let digits = collect_digits(time);
    if digits.len() > 6 {
        return text_of(suffix);
    }
    let mut out: Vec<char> = Vec::new();
    out.push(suffix[0]);
    let mut groups = group(&digits, 2, ':');
    out.append(&mut groups);
    assert(out@ =~= seq![suffix@[0]] + in_groups(digits@, 2, ':'));
    text_of(out.as_slice())
}

/// What becomes of an edit: a separator that was just deleted stays away.
pub open spec fn formatted_edit(previous: Seq<char>, current: Seq<char>) -> Seq<char> {
    if previous == current.push('-') || previous == current.push(':') {
        current
    } else {
        formatted_input(current)
    }
}

pub fn auto_format_date_edit(previous: &str, current: &str) -> (r: String)
    ensures
        r@ == formatted_edit(previous@, current@),
{
    let n: usize = previous.unicode_len();
    if n > 0 {
        let last: char = previous.get_char(n - 1);
        if (last == '-' || last == ':') && same_text(previous.substring_char(0, n - 1), current) {
            assert(previous@ =~= current@.push(last));
            return current.to_owned();
        }
    }
    proof {
        if previous@ == current@.push('-') || previous@ == current@.push(':') {
            assert(previous@.subrange(0, n - 1) =~= current@);
        }
    }
    auto_format_date_input(current)
}

// Other inputs.

/// Whether an edit of one date of a PNG file goes into the other one too.
pub fn should_mirror_png_date_source(
    original_opposite: &str,
    current_opposite: &str,
    previous_source: &str,
) -> (r: bool)
    ensures
        r == (text::trim(original_opposite@).len() == 0 && (text::trim(current_opposite@).len()
            == 0 || current_opposite@ == previous_source@)),
        text::trim(original_opposite@).len() > 0 ==> !r,
        text::trim(current_opposite@).len() > 0 && current_opposite@ != previous_source@ ==> !r,
        text::trim(original_opposite@).len() == 0 && text::trim(current_opposite@).len() == 0 ==> r,
        text::trim(original_opposite@).len() == 0 && current_opposite@ == previous_source@ ==> r,
{
    trimmed(original_opposite).unicode_len() == 0 && (trimmed(current_opposite).unicode_len() == 0
        || same_text(current_opposite, previous_source))
}

/// A character that no text holds: a control character, or a private one.
pub open spec fn is_control(c: char) -> bool {
    (c as int) < 32 || 127 <= (c as int) < 160 || 0xe000 <= (c as int) <= 0xf8ff
}

/// A text that can begin the search for a name.
pub open spec fn begins_search(s: Seq<char>) -> bool {
    s.len() > 0 && forall|i: int| 0 <= i < s.len() ==> !is_control(#[trigger] s[i])
}

pub fn is_type_ahead_text(value: &str) -> (r: bool)
    ensures
        r == begins_search(value@),
{
    let chars = chars_of(value);
    let n: usize = chars.len();
    let mut i: usize = 0;
    while i < n
        invariant
            i <= n,
            n == chars@.len(),
            chars@ == value@,
            forall|k: int| 0 <= k < i ==> !is_control(#[trigger] value@[k]),
        decreases n - i,
    {
        let c: char = chars[i];
        if c < ' ' || (c >= '\u{7f}' && c < '\u{a0}') || (c >= '\u{e000}' && c <= '\u{f8ff}') {
            assert(is_control(value@[i as int]));
            return false;
        }
        i += 1;
    }
    n > 0
}

/// The question before files are deleted.
pub open spec fn delete_question(count: i32) -> Seq<char> {
    if count == 1 {
        "1 file/folder is selected. Send it to the Recycle Bin?"@
    } else if count > 1 {
        text::decimal(count as nat) + " files/folders are selected. Send them to the Recycle Bin?"@
    } else {
        ""@
    }
}

pub fn delete_confirmation_message(count: i32) -> (r: String)
    ensures
        r@ == delete_question(count),
{
    if count == 1 {
        "1 file/folder is selected. Send it to the Recycle Bin?".to_owned()
    } else if count > 1 {
        let mut out = text::decimal_text(count as u64);
        out.append(" files/folders are selected. Send them to the Recycle Bin?");
        out
    } else {
        "".to_owned()
    }
}

/// The row that is selected after rows were deleted.
pub open spec fn row_after_deletion(index: i32, remaining: int) -> Option<int> {
    if remaining <= 0 {
        None
    } else if index < 1 {
        Some(1)
    } else if index > remaining {
        Some(remaining)
    } else {
        Some(index as int)
    }
}

pub fn selection_index_after_deletion(selection_index: i32, remaining_count: usize) -> (r: Option<
    i32,
>)
    ensures
        match r {
            Some(i) => row_after_deletion(selection_index, remaining_count as int) == Some(
                i as int,
            ),
            None => row_after_deletion(selection_index, remaining_count as int) is None,
        },
{
    if remaining_count == 0 {
        return None;
    }
    if selection_index < 1 {
        Some(1)
    } else if selection_index as usize > remaining_count {
        Some(remaining_count as i32)
    } else {
        Some(selection_index)
    }
}

} // verus!
