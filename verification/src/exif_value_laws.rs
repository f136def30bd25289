//! What the numbers of EXIF data are called, and which numbers entered texts stand
//! for.
use crate::exif_values::{self, DecimalReading};
use crate::text;
use crate::text_laws;
use vstd::prelude::*;

verus! {

// What is shown.

/// The flash fired if the lowest bit of its number is set.
pub proof fn odd_flash_numbers_fired(v: u16)
    ensures
        exif_values::flash_text(v) == if v as int == 2 * (v as int / 2) {
            "No"@
        } else {
            "Yes"@
        },
{
}

/// The orientations by their numbers. Turning a picture by half a circle leads from 1
/// to 3, from 6 to 8, and from 5 to 7; 2 and 4 are mirrored only.
pub proof fn orientations_are_called_by_their_numbers(v: u16)
    ensures
        v == 1 ==> exif_values::orientation_text(v) == "Normal"@,
        v == 2 ==> exif_values::orientation_text(v) == "Mirrored horizontal"@,
        v == 3 ==> exif_values::orientation_text(v) == "Rotated 180"@,
        v == 4 ==> exif_values::orientation_text(v) == "Mirrored vertical"@,
        v == 5 ==> exif_values::orientation_text(v) == "Mirrored horizontal rotated 270"@,
        v == 6 ==> exif_values::orientation_text(v) == "Rotated 90"@,
        v == 7 ==> exif_values::orientation_text(v) == "Mirrored horizontal rotated 90"@,
        v == 8 ==> exif_values::orientation_text(v) == "Rotated 270"@,
        v == 0 || v > 8 ==> exif_values::orientation_text(v) == "Unknown"@,
{
}

/// The metering modes, the color spaces, the exposure programs and the white balances
/// by their numbers.
pub proof fn settings_are_called_by_their_numbers(v: u16)
    ensures
        v == 1 ==> exif_values::metering_text(v) == "Average"@,
        v == 2 ==> exif_values::metering_text(v) == "Center-weighted average"@,
        v == 3 ==> exif_values::metering_text(v) == "Spot"@,
        v == 4 ==> exif_values::metering_text(v) == "Multi-spot"@,
        v == 5 ==> exif_values::metering_text(v) == "Pattern"@,
        v == 6 ==> exif_values::metering_text(v) == "Partial"@,
        v == 255 ==> exif_values::metering_text(v) == "Other"@,
        v == 0 || 6 < v < 255 || v > 255 ==> exif_values::metering_text(v) == "Unknown"@,
        v == 1 ==> exif_values::color_space_text(v) == "sRGB"@,
        v == 65535 ==> exif_values::color_space_text(v) == "Uncalibrated"@,
        v == 0 || 1 < v < 65535 ==> exif_values::color_space_text(v) == "Unknown"@,
        v == 0 ==> exif_values::exposure_program_text(v) == "Not defined"@,
        v == 1 ==> exif_values::exposure_program_text(v) == "Manual"@,
        v == 2 ==> exif_values::exposure_program_text(v) == "Normal program"@,
        v == 3 ==> exif_values::exposure_program_text(v) == "Aperture priority"@,
        v == 4 ==> exif_values::exposure_program_text(v) == "Shutter priority"@,
        v == 5 ==> exif_values::exposure_program_text(v) == "Creative program"@,
        v == 6 ==> exif_values::exposure_program_text(v) == "Action program"@,
        v == 7 ==> exif_values::exposure_program_text(v) == "Portrait mode"@,
        v == 8 ==> exif_values::exposure_program_text(v) == "Landscape mode"@,
        v > 8 ==> exif_values::exposure_program_text(v) == text::decimal(v as nat),
        v == 0 ==> exif_values::white_balance_text(v) == "Auto"@,
        v == 1 ==> exif_values::white_balance_text(v) == "Manual"@,
        v > 1 ==> exif_values::white_balance_text(v) == text::decimal(v as nat),
{
}

// What is entered.

/// Blanks, as texts hold them.
pub open spec fn blanks(s: Seq<char>) -> bool {
    forall|k: int| 0 <= k < s.len() ==> text_laws::is_blank_char(#[trigger] s[k])
}

/// A number that was entered, with blanks around it, stands for itself up to 65535 as
/// a flash, a metering mode above 8, an orientation or a color space, and is refused
/// above.
pub proof fn entered_numbers_stand_for_themselves(before: Seq<char>, n: nat, after: Seq<char>)
    requires
        blanks(before),
        blanks(after),
    ensures
        ({
            let t = before + text::decimal(n) + after;
            let number = if n <= 65535 {
                Ok::<u16, Seq<char>>(n as u16)
            } else {
                Err("Expected an integer value."@)
            };
            &&& exif_values::u16_value(t) == number
            &&& exif_values::flash_value(t) == number
            &&& exif_values::metering_value(t) == number
            &&& exif_values::orientation_value(t) == number
            &&& exif_values::color_space_value(t) == number
        }),
{
    let t = before + text::decimal(n) + after;
    let d = text::decimal(n);
    text::decimal_reads_back(n);
    assert(text::is_digit(d[0]));
    assert(text::is_digit(d.last()));
    text_laws::trimming_takes_the_blanks_away(before, d, after);
    text_laws::numbers_are_read_from_their_digits(n, 65535, d, 0);
    let l = exif_values::lowered(t);
    assert(l[0] == d[0]);
    lemma_words_begin_with_letters();
    reveal_strlit("1");
    reveal_strlit("0");
    if l == "1"@ {
        assert(d =~= "1"@);
        assert(d.drop_last() =~= Seq::<char>::empty());
        assert(text::digits_value(d.drop_last()) == 0);
        assert(n == 1);
    }
    if l == "0"@ {
        assert(d =~= "0"@);
        assert(d.drop_last() =~= Seq::<char>::empty());
        assert(text::digits_value(d.drop_last()) == 0);
        assert(n == 0);
    }
}

proof fn lemma_words_begin_with_letters()
    ensures
        "yes"@.len() > 0 && "yes"@[0] == 'y',
        "true"@.len() > 0 && "true"@[0] == 't',
        "no"@.len() > 0 && "no"@[0] == 'n',
        "false"@.len() > 0 && "false"@[0] == 'f',
        "average"@.len() > 0 && "average"@[0] == 'a',
        "center-weighted average"@.len() > 0 && "center-weighted average"@[0] == 'c',
        "spot"@.len() > 0 && "spot"@[0] == 's',
        "multi-spot"@.len() > 0 && "multi-spot"@[0] == 'm',
        "pattern"@.len() > 0 && "pattern"@[0] == 'p',
        "partial"@.len() > 0 && "partial"@[0] == 'p',
        "other"@.len() > 0 && "other"@[0] == 'o',
        "normal"@.len() > 0 && "normal"@[0] == 'n',
        "mirrored horizontal"@.len() > 0 && "mirrored horizontal"@[0] == 'm',
        "mirrored vertical"@.len() > 0 && "mirrored vertical"@[0] == 'm',
        "mirrored horizontal rotated 270"@.len() > 0 && "mirrored horizontal rotated 270"@[0]
            == 'm',
        "mirrored horizontal rotated 90"@.len() > 0 && "mirrored horizontal rotated 90"@[0] == 'm',
        "rotated 180"@.len() > 0 && "rotated 180"@[0] == 'r',
        "rotated 90"@.len() > 0 && "rotated 90"@[0] == 'r',
        "rotated 270"@.len() > 0 && "rotated 270"@[0] == 'r',
        "srgb"@.len() > 0 && "srgb"@[0] == 's',
        "uncalibrated"@.len() > 0 && "uncalibrated"@[0] == 'u',
{
    reveal_strlit("yes");
    reveal_strlit("true");
    reveal_strlit("no");
    reveal_strlit("false");
    reveal_strlit("average");
    reveal_strlit("center-weighted average");
    reveal_strlit("spot");
    reveal_strlit("multi-spot");
    reveal_strlit("pattern");
    reveal_strlit("partial");
    reveal_strlit("other");
    reveal_strlit("normal");
    reveal_strlit("mirrored horizontal");
    reveal_strlit("mirrored vertical");
    reveal_strlit("mirrored horizontal rotated 270");
    reveal_strlit("mirrored horizontal rotated 90");
    reveal_strlit("rotated 180");
    reveal_strlit("rotated 90");
    reveal_strlit("rotated 270");
    reveal_strlit("srgb");
    reveal_strlit("uncalibrated");
}

/// Yes and true mean that the flash fired, and no and false that it did not, in
/// capitals or small letters.
pub proof fn entered_flash_is_yes_or_no(before: Seq<char>, word: Seq<char>, after: Seq<char>)
    requires
        blanks(before),
        blanks(after),
        word.len() > 0,
        text_laws::is_visible_char(word[0]),
        text_laws::is_visible_char(word.last()),
    ensures
        text::lower(word) == "yes"@ || text::lower(word) == "true"@ ==> exif_values::flash_value(
            before + word + after,
        ) == Ok::<u16, Seq<char>>(1),
        text::lower(word) == "no"@ || text::lower(word) == "false"@ ==> exif_values::flash_value(
            before + word + after,
        ) == Ok::<u16, Seq<char>>(0),
{
    text_laws::trimming_takes_the_blanks_away(before, word, after);
    lemma_words_begin_with_letters();
    reveal_strlit("1");
}

proof fn lemma_no_slash(s: Seq<char>, i: int)
    requires
        0 <= i,
        forall|k: int| 0 <= k < s.len() ==> #[trigger] s[k] != '/',
    ensures
        text::first_char(s, '/', i) is None,
    decreases s.len() - i,
{
    if i < s.len() {
        lemma_no_slash(s, i + 1);
    }
}

proof fn lemma_first_slash(s: Seq<char>, i: int, at: int)
    requires
        0 <= i <= at < s.len(),
        s[at] == '/',
        forall|k: int| i <= k < at ==> #[trigger] s[k] != '/',
    ensures
        text::first_char(s, '/', i) == Some(at),
    decreases at - i,
{
    if i < at {
        assert(s[i] != '/');
        lemma_first_slash(s, i + 1, at);
    }
}

/// A fraction that was entered, with or without an `s` for seconds behind it, stands
/// for its two numbers; one whose numbers need more than 32 bits is refused.
pub proof fn entered_fractions_stand_for_themselves(
    n: nat,
    d: nat,
    seconds: bool,
    reading: DecimalReading,
)
    ensures
        ({
            let t = text::decimal(n) + seq!['/'] + text::decimal(d);
            let value = if seconds {
                t.push('s')
            } else {
                t
            };
            exif_values::rational_value_of(value, reading) == if n <= 4294967295 && d <= 4294967295 {
                Ok::<(u32, u32), Seq<char>>((n as u32, d as u32))
            } else {
                Err("Expected rational value like 1/125 or 3/2."@)
            }
        }),
{
    let a = text::decimal(n);
    let b = text::decimal(d);
    let t = a + seq!['/'] + b;
    let value = if seconds {
        t.push('s')
    } else {
        t
    };
    text::decimal_reads_back(n);
    text::decimal_reads_back(d);
    assert(text::is_digit(a[0]) && text::is_digit(a.last()));
    assert(text::is_digit(b[0]) && text::is_digit(b.last()));
    let none = Seq::<char>::empty();
    assert(t[0] == a[0] && t.last() == b.last());
    lemma_plain_trim(t);
    lemma_plain_trim(value);
    assert(value.drop_last() =~= t || !seconds);
    assert(exif_values::without_seconds(value) == t);
    assert forall|k: int| 0 <= k < a.len() implies #[trigger] t[k] != '/' by {
        assert(t[k] == a[k]);
        assert(text::is_digit(a[k]));
    }
    lemma_first_slash(t, 0, a.len() as int);
    assert(t.take(a.len() as int) =~= a);
    assert(t.skip(a.len() as int + 1) =~= b);
    lemma_plain_trim(a);
    lemma_plain_trim(b);
    text_laws::numbers_are_read_from_their_digits(n, 0xffff_ffff, a, 0);
    text_laws::numbers_are_read_from_their_digits(d, 0xffff_ffff, b, 0);
}

proof fn lemma_plain_trim(t: Seq<char>)
    requires
        t.len() > 0,
        text_laws::is_visible_char(t[0]),
        text_laws::is_visible_char(t.last()),
    ensures
        text::trim(t) == t,
{
}

/// A decimal number is taken in thousandths, and of an aperture in tenths; what is no
/// number, or not above zero, is refused.
pub proof fn entered_decimals_are_scaled(value: Seq<char>, n: u32)
    requires
        forall|k: int| 0 <= k < value.len() ==> #[trigger] value[k] != '/',
    ensures
        exif_values::rational_value_of(value, DecimalReading::Scaled(n)) == Ok::<
            (u32, u32),
            Seq<char>,
        >((n, 1000)),
        exif_values::rational_value_of(value, DecimalReading::NotANumber) == Err::<
            (u32, u32),
            Seq<char>,
        >("Expected numeric or fraction value."@),
        exif_values::rational_value_of(value, DecimalReading::NotPositive) == Err::<
            (u32, u32),
            Seq<char>,
        >("Expected a positive numeric value."@),
        exif_values::aperture_value_of(DecimalReading::Scaled(n)) == Ok::<(u32, u32), Seq<char>>(
            (n, 10),
        ),
        exif_values::aperture_value_of(DecimalReading::NotANumber) == Err::<(u32, u32), Seq<char>>(
            "Expected aperture like f/2.8 or 2.8."@,
        ),
        exif_values::aperture_value_of(DecimalReading::NotPositive) == Err::<
            (u32, u32),
            Seq<char>,
        >("Expected a positive aperture value."@),
{
    let v = exif_values::without_seconds(value);
    lemma_trim_keeps(value);
    let t = text::trim(value);
    if t.len() > 0 && t.last() == 's' {
        assert forall|k: int| 0 <= k < t.drop_last().len() implies #[trigger] t.drop_last()[k]
            != '/' by {
            assert(t.drop_last()[k] == t[k]);
        }
        lemma_trim_keeps(t.drop_last());
    } else {
        lemma_trim_keeps(t);
    }
    lemma_no_slash(v, 0);
}

proof fn lemma_trim_keeps(s: Seq<char>)
    requires
        forall|k: int| 0 <= k < s.len() ==> #[trigger] s[k] != '/',
    ensures
        forall|k: int| 0 <= k < text::trim(s).len() ==> #[trigger] text::trim(s)[k] != '/',
{
    lemma_trim_start_keeps(s);
    lemma_trim_end_keeps(text::trim_start(s));
}

proof fn lemma_trim_start_keeps(s: Seq<char>)
    requires
        forall|k: int| 0 <= k < s.len() ==> #[trigger] s[k] != '/',
    ensures
        forall|k: int|
            0 <= k < text::trim_start(s).len() ==> #[trigger] text::trim_start(s)[k] != '/',
    decreases s.len(),
{
    if s.len() > 0 && text::is_white_space(s[0]) {
        assert forall|k: int| 0 <= k < s.skip(1).len() implies #[trigger] s.skip(1)[k] != '/' by {
            assert(s.skip(1)[k] == s[k + 1]);
        }
        lemma_trim_start_keeps(s.skip(1));
        assert(text::trim_start(s) == text::trim_start(s.skip(1)));
    }
}

proof fn lemma_trim_end_keeps(s: Seq<char>)
    requires
        forall|k: int| 0 <= k < s.len() ==> #[trigger] s[k] != '/',
    ensures
        forall|k: int| 0 <= k < text::trim_end(s).len() ==> #[trigger] text::trim_end(s)[k] != '/',
    decreases s.len(),
{
    if s.len() > 0 && text::is_white_space(s.last()) {
        assert forall|k: int| 0 <= k < s.drop_last().len() implies #[trigger] s.drop_last()[k]
            != '/' by {
            assert(s.drop_last()[k] == s[k]);
        }
        lemma_trim_end_keeps(s.drop_last());
        assert(text::trim_end(s) == text::trim_end(s.drop_last()));
    }
}

/// The number of an aperture is what stands behind an `f`, a slash, or both.
pub proof fn apertures_are_entered_with_or_without_f(t: Seq<char>)
    requires
        t.len() > 0,
        text_laws::is_visible_char(t[0]),
        text_laws::is_visible_char(t.last()),
        t[0] != 'f',
        t[0] != '/',
    ensures
        exif_values::aperture_decimal(t) == t,
        exif_values::aperture_decimal(seq!['f'] + t) == t,
        exif_values::aperture_decimal(seq!['f', '/'] + t) == t,
        exif_values::aperture_decimal(seq!['/'] + t) == t,
{
    lemma_plain_trim(t);
    let a = seq!['f'] + t;
    let b = seq!['f', '/'] + t;
    let c = seq!['/'] + t;
    assert(a.last() == t.last() && b.last() == t.last() && c.last() == t.last());
    lemma_plain_trim(a);
    lemma_plain_trim(b);
    lemma_plain_trim(c);
    assert(a.skip(1) =~= t);
    assert(b.skip(1) =~= c);
    assert(c.skip(1) =~= t);
}

/// The number of a length is what stands before `mm`, and of a time what stands before
/// `s`.
pub proof fn units_are_left_out(t: Seq<char>)
    requires
        t.len() > 0,
        text_laws::is_visible_char(t[0]),
        t[0] != 'f',
        '0' <= t.last() <= '9',
    ensures
        exif_values::rational_decimal(t) == t,
        exif_values::rational_decimal(t.push('s')) == t,
        exif_values::rational_decimal(t + "mm"@) == t,
        exif_values::rational_decimal(t + " mm"@) == t,
{
    reveal_strlit("mm");
    reveal_strlit(" mm");
    lemma_plain_trim(t);
    let mm = "mm"@;
    let a = t.push('s');
    let b = t + mm;
    let c = t + " mm"@;
    lemma_plain_trim(a);
    assert(a.drop_last() =~= t);
    assert(b.last() == 'm' && c.last() == 'm');
    lemma_plain_trim(b);
    lemma_plain_trim(c);
    lemma_not_ending(t);
    let d = t.push(' ');
    lemma_not_ending(d);
    text_laws::endings_are_taken_away(t, mm);
    text_laws::endings_are_taken_away(d, mm);
    assert(c =~= d + mm);
    text_laws::trimming_takes_the_blanks_away(Seq::empty(), t, seq![' ']);
    assert(Seq::<char>::empty() + t + seq![' '] =~= d);
}

proof fn lemma_not_ending(t: Seq<char>)
    requires
        t.len() > 0,
        t.last() != 'm',
    ensures
        !text::ends_with(t, "mm"@),
{
    reveal_strlit("mm");
    if text::ends_with(t, "mm"@) {
        assert(t.skip(t.len() - 2)[1] == t.last());
    }
}

} // verus!
