//! GPS dates and times as they are written, read and shifted, and the previews of
//! shifts.
use crate::date_shift::{self, GpsShiftFile};
use crate::datetime::{self, Moment};
use crate::media;
use crate::moment_laws;
use crate::text;
use crate::text_laws;
use vstd::prelude::*;

verus! {

/// A text that begins and ends with visible characters and does not end with a zone.
pub open spec fn bare(t: Seq<char>) -> bool {
    &&& t.len() > 0
    &&& text_laws::is_visible_char(t[0])
    &&& text_laws::is_visible_char(t.last())
    &&& t.last() != 'C'
    &&& t.last() != ')'
}

proof fn lemma_trimmed(t: Seq<char>)
    requires
        bare(t),
    ensures
        text::trim(t) == t,
        text::trim(t + seq![' ']) == t,
        text::trim_suffix(t, "UTC"@) == t,
        text::trim_suffix(t, "(date only)"@) == t,
        text::trim_suffix(t, "(time only)"@) == t,
        text::trim_suffix(t + seq![' '], "UTC"@) == t + seq![' '],
        text::trim_suffix(t + seq![' '], "(date only)"@) == t + seq![' '],
        text::trim_suffix(t + seq![' '], "(time only)"@) == t + seq![' '],
{
    let none = Seq::<char>::empty();
    text_laws::trimming_takes_the_blanks_away(none, t, none);
    assert(none + t + none =~= t);
    let blank = seq![' '];
    assert(text_laws::is_blank_char(blank[0]));
    text_laws::trimming_takes_the_blanks_away(none, t, blank);
    assert(none + t + blank =~= t + blank);
    lemma_no_ending(t);
    lemma_no_ending(t + blank);
}

proof fn lemma_no_ending(t: Seq<char>)
    requires
        t.len() > 0,
        t.last() != 'C',
        t.last() != ')',
    ensures
        text::trim_suffix(t, "UTC"@) == t,
        text::trim_suffix(t, "(date only)"@) == t,
        text::trim_suffix(t, "(time only)"@) == t,
{
    reveal_strlit("UTC");
    reveal_strlit("(date only)");
    reveal_strlit("(time only)");
    assert("UTC"@.last() == 'C');
    assert("(date only)"@.last() == ')');
    assert("(time only)"@.last() == ')');
    if text::ends_with(t, "UTC"@) {
        assert(t.skip(t.len() - 3).last() == t.last());
    }
    if text::ends_with(t, "(date only)"@) {
        assert(t.skip(t.len() - 11).last() == t.last());
    }
    if text::ends_with(t, "(time only)"@) {
        assert(t.skip(t.len() - 11).last() == t.last());
    }
    text_laws::endings_are_taken_away(t, "UTC"@);
    text_laws::endings_are_taken_away(t, "(date only)"@);
    text_laws::endings_are_taken_away(t, "(time only)"@);
}

/// The zone behind a time is left out, with the space before it or without.
pub proof fn zones_are_left_out(time: Seq<char>)
    requires
        bare(time),
    ensures
        date_shift::plain_time(time) == time,
        date_shift::plain_time(time + "UTC"@) == time,
        date_shift::plain_time(time + seq![' '] + "UTC"@) == time,
{
    lemma_trimmed(time);
    lemma_zone(time);
    lemma_zone(time + seq![' ']);
}

proof fn lemma_zone(t: Seq<char>)
    requires
        t.len() > 0,
        text_laws::is_visible_char(t[0]),
    ensures
        text::trim_suffix(text::trim(t + "UTC"@), "UTC"@) == text::trim_suffix(t, "UTC"@),
{
    reveal_strlit("UTC");
    let none = Seq::<char>::empty();
    let s = t + "UTC"@;
    assert(s[0] == t[0]);
    assert(s.last() == 'C');
    text_laws::trimming_takes_the_blanks_away(none, s, none);
    assert(none + s + none =~= s);
    text_laws::endings_are_taken_away(t, "UTC"@);
}

/// A date and a time stand in one text with a space between them; one that is alone is
/// called so, and the text of both or of one is read as what it was put together from.
pub proof fn dates_and_times_are_put_together(date: Seq<char>, time: Seq<char>)
    requires
        bare(date),
        bare(time),
    ensures
        date_shift::combined(date, time) == date + seq![' '] + time,
        date_shift::combined(date, time + seq![' '] + "UTC"@) == date + seq![' '] + time,
        date_shift::combined(date, Seq::empty()) == date + " (date only)"@,
        date_shift::combined(Seq::empty(), time) == time + " (time only)"@,
        date_shift::combined(Seq::empty(), Seq::empty()).len() == 0,
        date_shift::gps_value(date + seq![' '] + time) == date + seq![' '] + time,
        date_shift::gps_value(date + " (date only)"@) == date,
        date_shift::gps_value(time + " (time only)"@) == time,
        date_shift::gps_value(date + seq![' '] + time + seq![' '] + "UTC"@) == date + seq![' ']
            + time,
{
    reveal_strlit(" ");
    reveal_strlit("");
    assert(" "@ =~= seq![' ']);
    let none = Seq::<char>::empty();
    lemma_trimmed(date);
    lemma_trimmed(time);
    zones_are_left_out(time);
    text_laws::trimming_takes_the_blanks_away(none, none, none);
    assert(none + none + none =~= none);
    assert(text::trim_suffix(none, "UTC"@) == none) by {
        reveal_strlit("UTC");
    }
    let both = date + seq![' '] + time;
    assert(both[0] == date[0]);
    assert(both.last() == time.last());
    lemma_trimmed(both);
    zones_are_left_out(both);
    lemma_only(date);
    lemma_only(time);
}

proof fn lemma_only(t: Seq<char>)
    requires
        bare(t),
    ensures
        date_shift::gps_value(t + " (date only)"@) == t,
        date_shift::gps_value(t + " (time only)"@) == t,
{
    reveal_strlit(" (date only)");
    reveal_strlit(" (time only)");
    reveal_strlit("(date only)");
    reveal_strlit("(time only)");
    let d = "(date only)"@;
    let m = "(time only)"@;
    let blank = t + seq![' '];
    assert(t + " (date only)"@ =~= blank + d);
    assert(t + " (time only)"@ =~= blank + m);
    lemma_trimmed(t);
    lemma_brackets(blank + d);
    lemma_brackets(blank + m);
    text_laws::endings_are_taken_away(blank, d);
    text_laws::endings_are_taken_away(blank, m);
    assert(!text::ends_with(blank + m, d)) by {
        let s = blank + m;
        assert(s.skip(s.len() - 11) =~= m);
        assert(m[1] == 't' && d[1] == 'd');
    }
    text_laws::endings_are_taken_away(blank + m, d);
    assert(blank[0] == t[0]);
}

proof fn lemma_brackets(s: Seq<char>)
    requires
        s.len() > 0,
        text_laws::is_visible_char(s[0]),
        s.last() == ')',
    ensures
        date_shift::plain_time(s) == s,
{
    reveal_strlit("UTC");
    let none = Seq::<char>::empty();
    text_laws::trimming_takes_the_blanks_away(none, s, none);
    assert(none + s + none =~= s);
    if text::ends_with(s, "UTC"@) {
        assert(s.skip(s.len() - 3).last() == s.last());
        assert("UTC"@.last() == 'C');
    }
    text_laws::endings_are_taken_away(s, "UTC"@);
}

/// What was read from a text becomes a date and a time, each written from its longest
/// part to its shortest; a date alone leaves the time open, and a time alone the date.
pub proof fn read_dates_and_times_are_parted(value: Seq<char>, m: Moment, is_time: bool)
    requires
        datetime::plain(m),
    ensures
        ({
            let r = date_shift::split_value(value, Some(m), None, is_time);
            &&& r is Ok && (r->Ok_0).0 is Some && (r->Ok_0).1 is Some
            &&& (r->Ok_0).0->0 + seq![' '] + (r->Ok_0).1->0 == datetime::display_text(m)
            &&& ((r->Ok_0).0->0).len() == 10
        }),
        ({
            let r = date_shift::split_value(value, None, Some((m.year, m.month, m.day)), is_time);
            &&& r is Ok && (r->Ok_0).0 is Some && (r->Ok_0).1 is None
            &&& (r->Ok_0).0->0 == datetime::display_text(m).take(10)
        }),
        date_shift::split_value(value, None, None, true) == Ok::<
            (Option<Seq<char>>, Option<Seq<char>>),
            Seq<char>,
        >((None, Some(value))),
        date_shift::split_value(value, None, None, false) is Err,
{
    moment_laws::dates_are_written_from_the_year_to_the_second(m);
    moment_laws::lemma_four(m.year as int);
    moment_laws::lemma_two(m.month as int);
    moment_laws::lemma_two(m.day as int);
    let d = datetime::date_text(m.year as int, m.month as int, m.day as int, seq!['-']);
    assert(d.len() == 10);
    assert(datetime::display_text(m).take(10) =~= d);
}

/// The GPS time of a JPEG file with a date and a time that make one is shifted; other
/// files are left alone.
pub proof fn gps_times_of_photographs_are_shifted(
    file: GpsShiftFile,
    date: Seq<char>,
    time: Seq<char>,
    seconds: int,
    subtract: bool,
)
    requires
        file.name is Some,
        file.date@ == date,
        file.time@ == time,
        bare(date),
        bare(time),
    ensures
        ({
            let read = datetime::display_datetime(date + seq![' '] + time);
            &&& media::jpeg_name((file.name->0)@) && read is Some ==> date_shift::gps_shift(
                file,
                seconds,
                subtract,
            ) == date_shift::shifted_text(read, seconds, subtract)
            &&& !media::jpeg_name((file.name->0)@) || read is None ==> date_shift::gps_shift(
                file,
                seconds,
                subtract,
            ) is None
        }),
{
    reveal_strlit(" ");
    assert(" "@ =~= seq![' ']);
    lemma_trimmed(date);
    lemma_trimmed(time);
    zones_are_left_out(time);
    let both = date + seq![' '] + time;
    assert(both[0] == date[0]);
    assert(both.last() == time.last());
    lemma_trimmed(both);
}

/// A file without a GPS date or without a GPS time is not shifted.
pub proof fn incomplete_gps_times_are_left(file: GpsShiftFile, seconds: int, subtract: bool)
    requires
        file.name is None || file.date@.len() == 0 || file.time@.len() == 0,
    ensures
        date_shift::gps_shift(file, seconds, subtract) is None,
{
}

/// The date that is shifted is one that waits to be saved; else that of the scan for
/// movies and PNG files, and the one on which a JPEG file was taken.
pub proof fn waiting_dates_are_shifted_first(
    waiting: Seq<char>,
    name: Seq<char>,
    scanned: Seq<char>,
    taken: Seq<char>,
)
    ensures
        date_shift::date_to_shift(Some(waiting), name, scanned, taken) == waiting,
        media::mp4_name(name) || media::png_name(name) ==> date_shift::date_to_shift(
            None,
            name,
            scanned,
            taken,
        ) == scanned,
        media::jpeg_name(name) && !media::mp4_name(name) && !media::png_name(name)
            ==> date_shift::date_to_shift(None, name, scanned, taken) == taken,
        !media::jpeg_name(name) && !media::mp4_name(name) && !media::png_name(name)
            ==> date_shift::date_to_shift(None, name, scanned, taken).len() == 0,
{
    reveal_strlit("");
}

// Previews of shifts.

/// A preview has a line for each file that can be shifted, but for no more than three,
/// which are the first ones; all that can be shifted are counted.
pub proof fn previews_show_the_first_three(shifts: Seq<bool>, lines: Seq<Seq<char>>, n: int)
    requires
        0 <= n <= shifts.len(),
        shifts.len() == lines.len(),
    ensures
        ({
            let shown = date_shift::preview_lines(shifts, lines, n);
            let ready = date_shift::ready_count(shifts, n);
            &&& shown.len() == if ready < 3 {
                ready
            } else {
                3
            }
            &&& 0 <= ready <= n
            &&& ready == 0 <==> forall|i: int| 0 <= i < n ==> !#[trigger] shifts[i]
            &&& n < shifts.len() && shifts[n] ==> date_shift::ready_count(shifts, n + 1) == ready
                + 1
            &&& n < shifts.len() && !shifts[n] ==> date_shift::ready_count(shifts, n + 1) == ready
            &&& n < shifts.len() && shifts[n] && ready < 3 ==> date_shift::preview_lines(
                shifts,
                lines,
                n + 1,
            ) == shown.push(lines[n])
            &&& n < shifts.len() && (!shifts[n] || ready >= 3) ==> date_shift::preview_lines(
                shifts,
                lines,
                n + 1,
            ) == shown
        }),
    decreases n,
{
    if n > 0 {
        previews_show_the_first_three(shifts, lines, n - 1);
        if date_shift::ready_count(shifts, n) == 0 {
            assert forall|i: int| 0 <= i < n implies !#[trigger] shifts[i] by {
                assert(!shifts[n - 1]);
            }
        }
    }
}

/// The last line of a preview counts the files; without a line there is the complaint
/// and the number of files.
pub proof fn previews_count_the_files(
    shifts: Seq<bool>,
    lines: Seq<Seq<char>>,
    nothing: Seq<char>,
    line: Seq<char>,
)
    requires
        shifts.len() == lines.len(),
    ensures
        (forall|i: int| 0 <= i < shifts.len() ==> !#[trigger] shifts[i]) ==> date_shift::preview(
            shifts,
            lines,
            nothing,
        ) == nothing + text::decimal(shifts.len()),
        shifts == seq![true] && lines == seq![line] ==> date_shift::preview(shifts, lines, nothing)
            == line + seq!['\n'] + "Ready: "@ + text::decimal(1) + " file(s)   Skipped: "@
            + text::decimal(0),
        shifts == seq![false, true] && lines.len() == 2 && lines[1] == line ==> date_shift::preview(
            shifts,
            lines,
            nothing,
        ) == line + seq!['\n'] + "Ready: "@ + text::decimal(1) + " file(s)   Skipped: "@
            + text::decimal(1),
{
    let n = shifts.len() as int;
    previews_show_the_first_three(shifts, lines, n);
    reveal_with_fuel(date_shift::preview_lines, 3);
    reveal_with_fuel(date_shift::ready_count, 3);
    reveal_with_fuel(date_shift::joined_lines, 3);
    if (shifts == seq![true] && lines == seq![line]) || (shifts == seq![false, true] && lines.len()
        == 2 && lines[1] == line) {
        let shown = date_shift::preview_lines(shifts, lines, n);
        assert(shown =~= seq![line]);
        let last = "Ready: "@ + text::decimal(1) + " file(s)   Skipped: "@ + text::decimal(
            (n - 1) as nat,
        );
        let all = shown.push(last);
        assert(all.drop_last() =~= seq![line]);
        assert(all.last() == last);
        assert(date_shift::joined_lines(all) == line + seq!['\n'] + last);
        assert(line + seq!['\n'] + last =~= line + seq!['\n'] + "Ready: "@ + text::decimal(1)
            + " file(s)   Skipped: "@ + text::decimal((n - 1) as nat));
    }
}

} // verus!
