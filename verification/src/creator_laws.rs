//! Dates that are created from names, and what the files are called then.
use crate::creator::{self, TakenModel};
use crate::datetime::{self, Moment};
use crate::filename_date_laws;
use crate::moment_laws;
use crate::rename_name_laws;
use crate::text;
use vstd::prelude::*;

verus! {

// Digits.

proof fn lemma_pair(d: Seq<char>, at: int, n: int)
    requires
        0 <= at,
        at + 2 <= d.len(),
        '0' <= d[at] <= '9',
        '0' <= d[at + 1] <= '9',
    ensures
        creator::pair_at(d, at) is Some,
        moment_laws::writes_two(d, at, n) == (n == creator::pair_at(d, at)->0),
{
    reveal_with_fuel(text::digits_value, 3);
    let s = d.subrange(at, at + 2);
    assert(s.drop_last().drop_last() =~= Seq::<char>::empty());
    assert(s.drop_last().last() == d[at]);
    assert(s.last() == d[at + 1]);
    assert(s[0] == d[at] && s[1] == d[at + 1]);
    assert(text::all_digits(s));
}

proof fn lemma_year(d: Seq<char>, n: int)
    requires
        4 <= d.len(),
        '0' <= d[0] <= '9',
        '0' <= d[1] <= '9',
        '0' <= d[2] <= '9',
        '0' <= d[3] <= '9',
    ensures
        creator::signed_value(d.subrange(0, 4), 9999) is Some,
        moment_laws::writes_four(d, 0, n) == (n == creator::signed_value(d.subrange(0, 4), 9999)->0),
        0 <= creator::signed_value(d.subrange(0, 4), 9999)->0 <= 9999,
{
    reveal_with_fuel(text::digits_value, 5);
    let s = d.subrange(0, 4);
    let t = s.drop_last();
    let u = t.drop_last();
    assert(u.drop_last().drop_last() =~= Seq::<char>::empty());
    assert(u.drop_last().last() == d[0]);
    assert(u.last() == d[1]);
    assert(t.last() == d[2]);
    assert(s.last() == d[3]);
    assert(s[0] == d[0] && s[1] == d[1] && s[2] == d[2] && s[3] == d[3]);
    assert(text::all_digits(s));
}

/// Fourteen digits are read as the year, month, day, hour, minute and second that they
/// write, and twelve with the second zero; only where the calendar and the clock have
/// that moment.
pub proof fn runs_of_digits_are_read_as_their_date(d: Seq<char>, m: Moment)
    requires
        filename_date_laws::digits_only(d),
        d.len() != 10,
    ensures
        creator::compact_moment(creator::filled_up(d)) == Some(m) <==> filename_date_laws::stand_for(
            d,
            m,
        ) && datetime::valid_moment(m) && m.nano == 0,
{
    reveal_strlit("00");
    let f = creator::filled_up(d);
    if f.len() == 14 {
        assert forall|k: int| 0 <= k < 14 implies '0' <= #[trigger] f[k] <= '9' by {
            if k < d.len() {
                assert(f[k] == d[k]);
            }
        }
        assert forall|k: int| 0 <= k < d.len() implies #[trigger] f[k] == d[k] by {}
        if d.len() == 12 {
            assert(f[12] == '0' && f[13] == '0');
        }
        lemma_year(f, m.year as int);
        lemma_pair(f, 4, m.month as int);
        lemma_pair(f, 6, m.day as int);
        lemma_pair(f, 8, m.hour as int);
        lemma_pair(f, 10, m.minute as int);
        lemma_pair(f, 12, m.second as int);
    }
}

/// A mark between two groups of digits is passed over.
pub proof fn marks_between_digits_are_passed_over(a: Seq<char>, mark: char, b: Seq<char>)
    requires
        filename_date_laws::digits_only(a),
        filename_date_laws::digits_only(b),
        !('0' <= mark <= '9'),
    ensures
        creator::only_digits(a + seq![mark] + b) == a + b,
        creator::only_digits(a + b) == a + b,
    decreases b.len(),
{
    if b.len() > 0 {
        let c = b.drop_last();
        marks_between_digits_are_passed_over(a, mark, c);
        assert((a + seq![mark] + b).drop_last() =~= a + seq![mark] + c);
        assert((a + b).drop_last() =~= a + c);
        assert((a + c).push(b.last()) =~= a + b);
        assert('0' <= b[b.len() - 1] <= '9');
    } else {
        let t = a + seq![mark] + b;
        assert(t.drop_last() =~= a + b);
        assert(t.last() == mark);
        lemma_kept(a);
        assert(a + b =~= a);
    }
}

proof fn lemma_kept(a: Seq<char>)
    requires
        filename_date_laws::digits_only(a),
    ensures
        creator::only_digits(a) == a,
    decreases a.len(),
{
    if a.len() > 0 {
        lemma_kept(a.drop_last());
        assert('0' <= a[a.len() - 1] <= '9');
        assert(a.drop_last().push(a.last()) =~= a);
    }
}

/// Of the dates in a name the earliest one counts: it is the date of a run, and no run
/// has an earlier one. There is none only where no run has one.
pub proof fn the_earliest_run_counts(runs: Seq<Seq<char>>, n: int, k: int)
    requires
        0 <= k < n <= runs.len(),
    ensures
        ({
            let date = creator::compact_moment(creator::filled_up(runs[k]));
            let first = creator::earliest_in(runs, n);
            &&& date is Some ==> first is Some && datetime::timestamp(first->0)
                <= datetime::timestamp(date->0)
            &&& first is Some ==> exists|i: int|
                0 <= i < n && creator::compact_moment(creator::filled_up(#[trigger] runs[i]))
                    == first
        }),
    decreases n,
{
    let before = creator::earliest_in(runs, n - 1);
    let last = creator::compact_moment(creator::filled_up(runs[n - 1]));
    if n - 1 > 0 {
        the_earliest_run_counts(
            runs,
            n - 1,
            if k < n - 1 {
                k
            } else {
                0
            },
        );
    }
    if before is Some && last is Some {
        let j = choose|i: int|
            0 <= i < n - 1 && creator::compact_moment(creator::filled_up(#[trigger] runs[i]))
                == before;
        assert(creator::compact_moment(creator::filled_up(runs[j])) == before);
        moment_laws::earlier_moments_have_earlier_seconds(last->0, before->0);
    }
    if creator::earliest_in(runs, n) == last && last is Some {
        assert(creator::compact_moment(creator::filled_up(runs[n - 1])) == last);
    }
}

/// The dates in a name are searched in its stem: runs of twelve to fourteen digits, or
/// eight digits and four to six more with an underscore or a hyphen between them or not.
pub proof fn dates_are_searched_in_the_stem(stem: Seq<char>, tail: Seq<char>)
    requires
        stem.len() > 0,
        rename_name_laws::is_tail(stem, tail),
    ensures
        creator::date_in_name(stem + tail) == creator::date_in_runs(
            creator::regex_matches("\\d{12,14}"@, stem),
        ),
        ({
            let runs = creator::regex_matches("\\d{8}[_-]?\\d{4,6}"@, stem);
            creator::grouped_date_in_name(stem + tail) == creator::date_in_runs(
                Seq::new(runs.len(), |i: int| creator::only_digits(runs[i])),
            )
        }),
{
    rename_name_laws::name_splits_into_its_parts(stem, tail);
}

/// A date that is recorded counts before one in the name, which is created; without both
/// there is none.
pub proof fn recorded_dates_count_first(d: Seq<char>, other: Option<Seq<char>>)
    ensures
        creator::date_taken(Some(d), other) == TakenModel::Recorded(d),
        creator::date_taken(None, Some(d)) == TakenModel::Create(d),
        creator::date_taken(None, None) == TakenModel::Missing,
{
}

/// A created date is written from the year to the second, with colons.
pub proof fn created_dates_are_written_as_in_exif_data(m: Moment)
    requires
        datetime::plain(m),
    ensures
        moment_laws::writes_moment(creator::created_text(m), ':', m),
{
    moment_laws::dates_are_written_from_the_year_to_the_second(m);
}

/// Of the dates in the tags of a file the earliest one counts, whichever are there.
pub proof fn the_earliest_tag_counts(
    original: Option<Moment>,
    image: Option<Moment>,
    digitized: Option<Moment>,
)
    requires
        original matches Some(m) ==> datetime::valid_moment(m) && m.nano == 0,
        image matches Some(m) ==> datetime::valid_moment(m) && m.nano == 0,
        digitized matches Some(m) ==> datetime::valid_moment(m) && m.nano == 0,
    ensures
        ({
            let first = creator::earliest_tag(original, image, digitized);
            &&& first is None <==> original is None && image is None && digitized is None
            &&& first is Some ==> first == original || first == image || first == digitized
            &&& original matches Some(m) ==> datetime::timestamp(first->0)
                <= datetime::timestamp(m)
            &&& image matches Some(m) ==> datetime::timestamp(first->0) <= datetime::timestamp(m)
            &&& digitized matches Some(m) ==> datetime::timestamp(first->0)
                <= datetime::timestamp(m)
        }),
{
    if original is Some && image is Some {
        moment_laws::earlier_moments_have_earlier_seconds(image->0, original->0);
    }
    let a = creator::first_moment(original, image);
    if a is Some && digitized is Some {
        moment_laws::earlier_moments_have_earlier_seconds(digitized->0, a->0);
    }
}

// Names.

/// A file whose date was created gets the mark behind its stem and keeps its extension;
/// one that bears the mark already keeps its name.
pub proof fn marks_stand_behind_the_stem(
    stem: Seq<char>,
    e: Seq<char>,
    end: Seq<char>,
    mark: Seq<char>,
)
    requires
        stem.len() > 0,
        forall|k: int| 0 <= k < e.len() ==> #[trigger] e[k] != '.',
    ensures
        ({
            let name = stem + seq!['.'] + e;
            &&& creator::marked_name(name, end, mark) is None <==> stem.len() >= end.len()
                && stem.skip(stem.len() - end.len()) == end
            &&& creator::marked_name(name, end, mark) is Some ==> creator::marked_name(
                name,
                end,
                mark,
            ) == Some(stem + mark + seq!['.'] + e)
            &&& creator::jpeg_name(name) == stem + seq!['.', 'j', 'p', 'g']
            &&& creator::saved_anew(name) == stem + seq!['_', 'N', 'E', 'W', '.'] + e
        }),
{
    let tail = seq!['.'] + e;
    assert forall|k: int| 0 < k < tail.len() implies #[trigger] tail[k] != '.' by {
        assert(tail[k] == e[k - 1]);
    }
    rename_name_laws::name_splits_into_its_parts(stem, tail);
    assert(tail.skip(1) =~= e);
    assert(stem + tail =~= stem + seq!['.'] + e);
    reveal_strlit(".jpg");
    reveal_strlit("_NEW");
    assert(".jpg"@ =~= seq!['.', 'j', 'p', 'g']);
    assert(stem + "_NEW"@ + seq!['.'] + e =~= stem + seq!['_', 'N', 'E', 'W', '.'] + e);
}

/// The pictures are listed by their extensions.
pub proof fn pictures_are_listed_by_their_extensions(stem: Seq<char>, e: Seq<char>)
    requires
        stem.len() > 0,
        forall|k: int| 0 <= k < e.len() ==> #[trigger] e[k] != '.',
    ensures
        creator::listed_name(stem + seq!['.'] + e) <==> text::lowercased(e) == "jpg"@
            || text::lowercased(e) == "jpeg"@ || text::lowercased(e) == "png"@ || text::lowercased(
            e,
        ) == "gif"@,
{
    let tail = seq!['.'] + e;
    assert forall|k: int| 0 < k < tail.len() implies #[trigger] tail[k] != '.' by {
        assert(tail[k] == e[k - 1]);
    }
    rename_name_laws::name_splits_into_its_parts(stem, tail);
    assert(tail.skip(1) =~= e);
    assert(stem + tail =~= stem + seq!['.'] + e);
}

/// Each picture is listed once, in the order of the names, and no other file is.
pub proof fn pictures_keep_their_order(names: Seq<Seq<char>>, n: int)
    requires
        0 <= n <= names.len(),
    ensures
        creator::listed(names, n).len() <= n,
        forall|i: int|
            0 <= i < n && creator::listed_name(#[trigger] names[i]) ==> creator::listed(
                names,
                n,
            ).contains(names[i]),
        forall|k: int|
            0 <= k < creator::listed(names, n).len() ==> creator::listed_name(
                #[trigger] creator::listed(names, n)[k],
            ) && names.contains(creator::listed(names, n)[k]),
        n < names.len() && creator::listed_name(names[n]) ==> creator::listed(names, n + 1)
            == creator::listed(names, n).push(names[n]),
        n < names.len() && !creator::listed_name(names[n]) ==> creator::listed(names, n + 1)
            == creator::listed(names, n),
    decreases n,
{
    if n > 0 {
        pictures_keep_their_order(names, n - 1);
        let before = creator::listed(names, n - 1);
        let all = creator::listed(names, n);
        assert forall|i: int| 0 <= i < n && creator::listed_name(#[trigger] names[i]) implies
            all.contains(names[i]) by {
            if i < n - 1 {
                assert(before.contains(names[i]));
                let k = choose|k: int| 0 <= k < before.len() && before[k] == names[i];
                assert(all[k] == names[i]);
            } else {
                assert(all[all.len() - 1] == names[i]);
            }
        }
        assert forall|k: int| 0 <= k < all.len() implies creator::listed_name(#[trigger] all[k])
            && names.contains(all[k]) by {
            if k < before.len() {
                assert(all[k] == before[k]);
            } else {
                assert(all[k] == names[n - 1]);
            }
        }
    }
}

/// A line about a file shows its name in forty columns, its size in kilobytes at the
/// right of the next seven, and its date or that there is none.
pub proof fn lines_about_files_have_columns(
    name: Seq<char>,
    width: int,
    size: u64,
    date: Option<Seq<char>>,
)
    requires
        0 <= width <= 40,
        text::decimal((size / 1024) as nat).len() <= 6,
    ensures
        ({
            let line = creator::info_line(name, width, size, date);
            let n = name.len() as int;
            let kilobytes = text::decimal((size / 1024) as nat);
            let shown = if date is Some {
                date->0
            } else {
                seq!['N', '/', 'A']
            };
            &&& line.take(n) == name
            &&& line.subrange(n + 47 - width - kilobytes.len(), n + 47 - width) == kilobytes
            &&& forall|k: int|
                n <= k < n + 47 - width - kilobytes.len() ==> #[trigger] line[k] == ' '
            &&& line.skip(n + 47 - width) == seq![' ', 'K', 'B', ' ', ' ', ' '] + shown
        }),
{
    reveal_strlit(" KB   ");
    reveal_strlit("N/A");
    assert("N/A"@ =~= seq!['N', '/', 'A']);
    assert(" KB   "@ =~= seq![' ', 'K', 'B', ' ', ' ', ' ']);
    let line = creator::info_line(name, width, size, date);
    let n = name.len() as int;
    let kilobytes = text::decimal((size / 1024) as nat);
    let shown = if date is Some {
        date->0
    } else {
        seq!['N', '/', 'A']
    };
    assert(line.take(n) =~= name);
    assert(line.subrange(n + 47 - width - kilobytes.len(), n + 47 - width) =~= kilobytes);
    assert(line.skip(n + 47 - width) =~= seq![' ', 'K', 'B', ' ', ' ', ' '] + shown);
}

/// A file has a date unless the text says that there is none.
pub proof fn missing_dates_are_no_dates(d: Seq<char>)
    ensures
        creator::has_date(Some(d)) <==> d != "N/A"@,
        !creator::has_date(None),
{
}

/// A segment of EXIF data begins with its marker, its length with the more significant
/// byte first, and `Exif` with two zeros; the field follows.
pub proof fn basic_structures_hold_the_field(field: Seq<u8>)
    requires
        field.len() + 8 < 65536,
    ensures
        ({
            let s = creator::basic_structure(field);
            &&& s.len() == field.len() + 10
            &&& s[0] == 0xff
            &&& s[1] == 0xe1
            &&& s[2] * 256 + s[3] == field.len() + 8
            &&& s[4] == 'E' as u8
            &&& s[5] == 'x' as u8
            &&& s[6] == 'i' as u8
            &&& s[7] == 'f' as u8
            &&& s[8] == 0
            &&& s[9] == 0
            &&& s.skip(10) == field
        }),
{
    let s = creator::basic_structure(field);
    assert(s.skip(10) =~= field);
}

/// A part of a date may have a plus sign, and a year a minus sign; the number is that of
/// the digits behind it.
pub proof fn signs_stand_before_the_digits(s: Seq<char>, at: int, t: Seq<char>)
    requires
        0 <= at,
        at + 2 <= s.len(),
        s[at] == '+',
        '0' <= s[at + 1] <= '9',
        t.len() == 4,
        t[0] == '-' || t[0] == '+',
        '0' <= t[1] <= '9',
        '0' <= t[2] <= '9',
        '0' <= t[3] <= '9',
    ensures
        creator::pair_at(s, at) == Some(moment_laws::digit(s[at + 1]) as nat),
        ({
            let n = 100 * moment_laws::digit(t[1]) + 10 * moment_laws::digit(t[2])
                + moment_laws::digit(t[3]);
            creator::signed_value(t, 9999) == Some(
                if t[0] == '-' {
                    -n
                } else {
                    n
                },
            )
        }),
{
    reveal_with_fuel(text::digits_value, 4);
    let p = s.subrange(at, at + 2);
    assert(p[0] == '+' && p[1] == s[at + 1]);
    let d = p.skip(1);
    assert(d[0] == s[at + 1]);
    assert(d.drop_last() =~= Seq::<char>::empty());
    assert(text::all_digits(d));
    let e = t.skip(1);
    assert(e[0] == t[1] && e[1] == t[2] && e[2] == t[3]);
    assert(text::all_digits(e));
    let f = e.drop_last();
    assert(f.drop_last().drop_last() =~= Seq::<char>::empty());
    assert(f.drop_last().last() == t[1]);
    assert(f.last() == t[2]);
    assert(e.last() == t[3]);
}

} // verus!
