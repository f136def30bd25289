//! The values of EXIF tags as texts: what is shown for them, and what an
//! entered text stands for.
use crate::text::{self, chars_of, decimal_text, find_char, parse_unsigned, same_text, to_lower,
    trimmed, without_suffix};
use vstd::prelude::*;

verus! {

/// Whether an entered text stands for no value.
pub open spec fn is_blank(value: Seq<char>) -> bool {
    let t = text::trim(value);
    t.len() == 0 || t == "N/A"@ || t == "-"@
}

pub fn is_empty_metadata_value(value: &str) -> (r: bool)
    ensures
        r == is_blank(value@),
{
    let t = trimmed(value);
    t.is_empty() || same_text(t, "N/A") || same_text(t, "-")
}

/// The entered text without white space around it; nothing for a blank value.
pub open spec fn entered(value: Seq<char>) -> Seq<char> {
    if is_blank(value) {
        Seq::empty()
    } else {
        text::trim(value)
    }
}

pub fn entered_text(value: &str) -> (r: String)
    ensures
        r@ == entered(value@),
{
    if is_empty_metadata_value(value) {
        String::new()
    } else {
        trimmed(value).to_owned()
    }
}

// What is shown for numbers.

pub open spec fn flash_text(value: u16) -> Seq<char> {
    if value % 2 == 1 {
        "Yes"@
    } else {
        "No"@
    }
}

pub fn format_flash(value: u16) -> (r: String)
    ensures
        r@ == flash_text(value),
{
    if value % 2 == 1 {
        "Yes".to_owned()
    } else {
        "No".to_owned()
    }
}

pub open spec fn metering_text(value: u16) -> Seq<char> {
    match value {
        1 => "Average"@,
        2 => "Center-weighted average"@,
        3 => "Spot"@,
        4 => "Multi-spot"@,
        5 => "Pattern"@,
        6 => "Partial"@,
        255 => "Other"@,
        _ => "Unknown"@,
    }
}

pub fn format_metering(value: u16) -> (r: String)
    ensures
        r@ == metering_text(value),
{
    match value {
        1 => "Average".to_owned(),
        2 => "Center-weighted average".to_owned(),
        3 => "Spot".to_owned(),
        4 => "Multi-spot".to_owned(),
        5 => "Pattern".to_owned(),
        6 => "Partial".to_owned(),
        255 => "Other".to_owned(),
        _ => "Unknown".to_owned(),
    }
}

pub open spec fn exposure_program_text(value: u16) -> Seq<char> {
    match value {
        0 => "Not defined"@,
        1 => "Manual"@,
        2 => "Normal program"@,
        3 => "Aperture priority"@,
        4 => "Shutter priority"@,
        5 => "Creative program"@,
        6 => "Action program"@,
        7 => "Portrait mode"@,
        8 => "Landscape mode"@,
        _ => text::decimal(value as nat),
    }
}

pub fn format_exposure_program(value: u16) -> (r: String)
    ensures
        r@ == exposure_program_text(value),
{
    match value {
        0 => "Not defined".to_owned(),
        1 => "Manual".to_owned(),
        2 => "Normal program".to_owned(),
        3 => "Aperture priority".to_owned(),
        4 => "Shutter priority".to_owned(),
        5 => "Creative program".to_owned(),
        6 => "Action program".to_owned(),
        7 => "Portrait mode".to_owned(),
        8 => "Landscape mode".to_owned(),
        _ => decimal_text(value as u64),
    }
}

pub open spec fn white_balance_text(value: u16) -> Seq<char> {
    match value {
        0 => "Auto"@,
        1 => "Manual"@,
        _ => text::decimal(value as nat),
    }
}

pub fn format_white_balance(value: u16) -> (r: String)
    ensures
        r@ == white_balance_text(value),
{
    match value {
        0 => "Auto".to_owned(),
        1 => "Manual".to_owned(),
        _ => decimal_text(value as u64),
    }
}

pub open spec fn orientation_text(value: u16) -> Seq<char> {
    match value {
        1 => "Normal"@,
        2 => "Mirrored horizontal"@,
        3 => "Rotated 180"@,
        4 => "Mirrored vertical"@,
        5 => "Mirrored horizontal rotated 270"@,
        6 => "Rotated 90"@,
        7 => "Mirrored horizontal rotated 90"@,
        8 => "Rotated 270"@,
        _ => "Unknown"@,
    }
}

pub fn format_orientation(value: u16) -> (r: String)
    ensures
        r@ == orientation_text(value),
{
    match value {
        1 => "Normal".to_owned(),
        2 => "Mirrored horizontal".to_owned(),
        3 => "Rotated 180".to_owned(),
        4 => "Mirrored vertical".to_owned(),
        5 => "Mirrored horizontal rotated 270".to_owned(),
        6 => "Rotated 90".to_owned(),
        7 => "Mirrored horizontal rotated 90".to_owned(),
        8 => "Rotated 270".to_owned(),
        _ => "Unknown".to_owned(),
    }
}

pub open spec fn color_space_text(value: u16) -> Seq<char> {
    match value {
        1 => "sRGB"@,
        0xffff => "Uncalibrated"@,
        _ => "Unknown"@,
    }
}

pub fn format_color_space(value: u16) -> (r: String)
    ensures
        r@ == color_space_text(value),
{
    match value {
        1 => "sRGB".to_owned(),
        0xffff => "Uncalibrated".to_owned(),
        _ => "Unknown".to_owned(),
    }
}

// What entered texts stand for.

pub open spec fn u16_value(value: Seq<char>) -> Result<u16, Seq<char>> {
    match text::unsigned_value(text::trim(value), 65535) {
        Some(n) => Ok(n as u16),
        None => Err("Expected an integer value."@),
    }
}

pub fn parse_u16_value(value: &str) -> (r: Result<u16, String>)
    ensures
        match r {
            Ok(n) => u16_value(value@) == Ok::<u16, Seq<char>>(n),
            Err(e) => u16_value(value@) == Err::<u16, Seq<char>>(e@),
        },
{
    match parse_unsigned(trimmed(value), 65535) {
        Some(n) => Ok(n as u16),
        None => Err("Expected an integer value.".to_owned()),
    }
}

/// The entered text in small letters, without white space around it.
pub open spec fn lowered(value: Seq<char>) -> Seq<char> {
    text::lower(text::trim(value))
}

pub open spec fn flash_value(value: Seq<char>) -> Result<u16, Seq<char>> {
    let l = lowered(value);
    if l == "yes"@ || l == "true"@ || l == "1"@ {
        Ok(1)
    } else if l == "no"@ || l == "false"@ || l == "0"@ {
        Ok(0)
    } else {
        u16_value(value)
    }
}

pub fn parse_flash_value(value: &str) -> (r: Result<u16, String>)
    ensures
        match r {
            Ok(n) => flash_value(value@) == Ok::<u16, Seq<char>>(n),
            Err(e) => flash_value(value@) == Err::<u16, Seq<char>>(e@),
        },
{
    let l = to_lower(trimmed(value));
    let l = l.as_str();
    if same_text(l, "yes") || same_text(l, "true") || same_text(l, "1") {
        Ok(1)
    } else if same_text(l, "no") || same_text(l, "false") || same_text(l, "0") {
        Ok(0)
    } else {
        parse_u16_value(value)
    }
}

pub open spec fn metering_value(value: Seq<char>) -> Result<u16, Seq<char>> {
    let l = lowered(value);
    if l == "average"@ {
        Ok(1)
    } else if l == "center-weighted average"@ {
        Ok(2)
    } else if l == "spot"@ {
        Ok(3)
    } else if l == "multi-spot"@ {
        Ok(4)
    } else if l == "pattern"@ {
        Ok(5)
    } else if l == "partial"@ {
        Ok(6)
    } else if l == "other"@ {
        Ok(255)
    } else {
        u16_value(value)
    }
}

pub fn parse_metering_mode_value(value: &str) -> (r: Result<u16, String>)
    ensures
        match r {
            Ok(n) => metering_value(value@) == Ok::<u16, Seq<char>>(n),
            Err(e) => metering_value(value@) == Err::<u16, Seq<char>>(e@),
        },
{
    let l = to_lower(trimmed(value));
    let l = l.as_str();
    if same_text(l, "average") {
        Ok(1)
    } else if same_text(l, "center-weighted average") {
        Ok(2)
    } else if same_text(l, "spot") {
        Ok(3)
    } else if same_text(l, "multi-spot") {
        Ok(4)
    } else if same_text(l, "pattern") {
        Ok(5)
    } else if same_text(l, "partial") {
        Ok(6)
    } else if same_text(l, "other") {
        Ok(255)
    } else {
        parse_u16_value(value)
    }
}

pub open spec fn orientation_value(value: Seq<char>) -> Result<u16, Seq<char>> {
    let l = lowered(value);
    if l == "normal"@ {
        Ok(1)
    } else if l == "mirrored horizontal"@ {
        Ok(2)
    } else if l == "rotated 180"@ {
        Ok(3)
    } else if l == "mirrored vertical"@ {
        Ok(4)
    } else if l == "mirrored horizontal rotated 270"@ {
        Ok(5)
    } else if l == "rotated 90"@ {
        Ok(6)
    } else if l == "mirrored horizontal rotated 90"@ {
        Ok(7)
    } else if l == "rotated 270"@ {
        Ok(8)
    } else {
        u16_value(value)
    }
}

pub fn parse_orientation_value(value: &str) -> (r: Result<u16, String>)
    ensures
        match r {
            Ok(n) => orientation_value(value@) == Ok::<u16, Seq<char>>(n),
            Err(e) => orientation_value(value@) == Err::<u16, Seq<char>>(e@),
        },
{
    let l = to_lower(trimmed(value));
    let l = l.as_str();
    if same_text(l, "normal") {
        Ok(1)
    } else if same_text(l, "mirrored horizontal") {
        Ok(2)
    } else if same_text(l, "rotated 180") {
        Ok(3)
    } else if same_text(l, "mirrored vertical") {
        Ok(4)
    } else if same_text(l, "mirrored horizontal rotated 270") {
        Ok(5)
    } else if same_text(l, "rotated 90") {
        Ok(6)
    } else if same_text(l, "mirrored horizontal rotated 90") {
        Ok(7)
    } else if same_text(l, "rotated 270") {
        Ok(8)
    } else {
        parse_u16_value(value)
    }
}

pub open spec fn color_space_value(value: Seq<char>) -> Result<u16, Seq<char>> {
    let l = lowered(value);
    if l == "srgb"@ {
        Ok(1)
    } else if l == "uncalibrated"@ {
        Ok(0xffff)
    } else {
        u16_value(value)
    }
}

pub fn parse_color_space_value(value: &str) -> (r: Result<u16, String>)
    ensures
        match r {
            Ok(n) => color_space_value(value@) == Ok::<u16, Seq<char>>(n),
            Err(e) => color_space_value(value@) == Err::<u16, Seq<char>>(e@),
        },
{
    let l = to_lower(trimmed(value));
    let l = l.as_str();
    if same_text(l, "srgb") {
        Ok(1)
    } else if same_text(l, "uncalibrated") {
        Ok(0xffff)
    } else {
        parse_u16_value(value)
    }
}

/// What a decimal number that was entered reads as, scaled to the unit of the
/// tag and rounded to a whole number.
#[derive(Clone, Copy, Debug, PartialEq, Eq, Structural)]
pub enum DecimalReading {
    NotANumber,
    NotPositive,
    Scaled(u32),
}

/// A fraction that was entered, or the text of a decimal number.
pub enum EnteredRational {
    Fraction(Result<(u32, u32), String>),
    Decimal(String),
}

/// The text without the unit of seconds.
pub open spec fn without_seconds(value: Seq<char>) -> Seq<char> {
    let t = text::trim(value);
    text::trim(
        if t.len() > 0 && t.last() == 's' {
            t.drop_last()
        } else {
            t
        },
    )
}

pub open spec fn without_leading(s: Seq<char>, c: char) -> Seq<char>
    decreases s.len(),
{
    if s.len() > 0 && s[0] == c {
        without_leading(s.skip(1), c)
    } else {
        s
    }
}

/// The text of the decimal number in a value that holds no fraction.
pub open spec fn rational_decimal(value: Seq<char>) -> Seq<char> {
    text::trim(text::trim_suffix(without_leading(without_seconds(value), 'f'), "mm"@))
}

/// The fraction that a text with a slash stands for.
pub open spec fn fraction_value(value: Seq<char>, slash: int) -> Result<(u32, u32), Seq<char>> {
    match (
        text::unsigned_value(text::trim(value.take(slash)), 0xffff_ffff),
        text::unsigned_value(text::trim(value.skip(slash + 1)), 0xffff_ffff),
    ) {
        (Some(n), Some(d)) => Ok((n as u32, d as u32)),
        _ => Err("Expected rational value like 1/125 or 3/2."@),
    }
}

/// The fraction that an entered text stands for, given what its decimal
/// number reads as in thousandths.
pub open spec fn rational_value_of(value: Seq<char>, reading: DecimalReading) -> Result<
    (u32, u32),
    Seq<char>,
> {
    let v = without_seconds(value);
    match text::first_char(v, '/', 0) {
        Some(i) => fraction_value(v, i),
        None => match reading {
            DecimalReading::NotANumber => Err("Expected numeric or fraction value."@),
            DecimalReading::NotPositive => Err("Expected a positive numeric value."@),
            DecimalReading::Scaled(n) => Ok((n, 1000)),
        },
    }
}

fn strip_seconds(value: &str) -> (r: String)
    ensures
        r@ == without_seconds(value@),
{
    let t = trimmed(value);
    let n: usize = t.unicode_len();
    if n > 0 && t.get_char(n - 1) == 's' {
        let rest = t.substring_char(0, n - 1);
        assert(rest@ =~= t@.drop_last());
        trimmed(rest).to_owned()
    } else {
        trimmed(t).to_owned()
    }
}

fn strip_leading<'a>(s: &'a str, c: char) -> (r: &'a str)
    ensures
        r@ == without_leading(s@, c),
    decreases s@.len(),
{
    let n: usize = s.unicode_len();
    if n > 0 && s.get_char(0) == c {
        let rest = s.substring_char(1, n);
        assert(rest@ =~= s@.skip(1));
        strip_leading(rest, c)
    } else {
        s
    }
}

/// Reads an entered exposure time or focal length: a fraction, or the text of
/// a decimal number that is yet to be read.
pub fn read_entered_rational(value: &str) -> (r: EnteredRational)
    ensures
        match r {
            EnteredRational::Fraction(f) => text::first_char(without_seconds(value@), '/', 0)
                matches Some(i) && (match f {
                Ok(x) => fraction_value(without_seconds(value@), i) == Ok::<
                    (u32, u32),
                    Seq<char>,
                >(x),
                Err(e) => fraction_value(without_seconds(value@), i) == Err::<
                    (u32, u32),
                    Seq<char>,
                >(e@),
            }),
            EnteredRational::Decimal(t) => text::first_char(without_seconds(value@), '/', 0)
                is None && t@ == rational_decimal(value@),
        },
{
    let v = strip_seconds(value);
    let chars = chars_of(v.as_str());
    let n: usize = chars.len();
    match find_char(chars.as_slice(), '/') {
        Some(i) => {
            let a = v.as_str().substring_char(0, i);
            let b = v.as_str().substring_char(i + 1, n);
            assert(a@ =~= v@.take(i as int));
            assert(b@ =~= v@.skip(i + 1));
            match (
                parse_unsigned(trimmed(a), 0xffff_ffff),
                parse_unsigned(trimmed(b), 0xffff_ffff),
            ) {
                (Some(x), Some(y)) => EnteredRational::Fraction(Ok((x as u32, y as u32))),
                _ => EnteredRational::Fraction(
                    Err("Expected rational value like 1/125 or 3/2.".to_owned()),
                ),
            }
        },
        None => {
            let t = trimmed(without_suffix(strip_leading(v.as_str(), 'f'), "mm"));
            EnteredRational::Decimal(t.to_owned())
        },
    }
}

pub fn parse_exif_rational_value(value: &str, reading: DecimalReading) -> (r: Result<
    (u32, u32),
    String,
>)
    ensures
        match r {
            Ok(x) => rational_value_of(value@, reading) == Ok::<(u32, u32), Seq<char>>(x),
            Err(e) => rational_value_of(value@, reading) == Err::<(u32, u32), Seq<char>>(e@),
        },
{
    match read_entered_rational(value) {
        EnteredRational::Fraction(f) => f,
        EnteredRational::Decimal(_) => match reading {
            DecimalReading::NotANumber => Err("Expected numeric or fraction value.".to_owned()),
            DecimalReading::NotPositive => Err("Expected a positive numeric value.".to_owned()),
            DecimalReading::Scaled(n) => Ok((n, 1000)),
        },
    }
}

/// The text of the decimal number in an entered aperture.
pub open spec fn aperture_decimal(value: Seq<char>) -> Seq<char> {
    let t = text::trim(value);
    let t = text::trim(
        if t.len() > 0 && t[0] == 'f' {
            t.skip(1)
        } else {
            t
        },
    );
    text::trim(
        if t.len() > 0 && t[0] == '/' {
            t.skip(1)
        } else {
            t
        },
    )
}

fn strip_first<'a>(s: &'a str, c: char) -> (r: &'a str)
    ensures
        r@ == (if s@.len() > 0 && s@[0] == c {
            s@.skip(1)
        } else {
            s@
        }),
{
    let n: usize = s.unicode_len();
    if n > 0 && s.get_char(0) == c {
        let rest = s.substring_char(1, n);
        assert(rest@ =~= s@.skip(1));
        rest
    } else {
        s
    }
}

pub fn aperture_decimal_text(value: &str) -> (r: String)
    ensures
        r@ == aperture_decimal(value@),
{
    let t = trimmed(strip_first(trimmed(value), 'f'));
    trimmed(strip_first(t, '/')).to_owned()
}

/// The fraction that an entered aperture stands for, given what its decimal
/// number reads as in tenths.
pub open spec fn aperture_value_of(reading: DecimalReading) -> Result<(u32, u32), Seq<char>> {
    match reading {
        DecimalReading::NotANumber => Err("Expected aperture like f/2.8 or 2.8."@),
        DecimalReading::NotPositive => Err("Expected a positive aperture value."@),
        DecimalReading::Scaled(n) => Ok((n, 10)),
    }
}

pub fn parse_aperture_value(reading: DecimalReading) -> (r: Result<(u32, u32), String>)
    ensures
        match r {
            Ok(x) => aperture_value_of(reading) == Ok::<(u32, u32), Seq<char>>(x),
            Err(e) => aperture_value_of(reading) == Err::<(u32, u32), Seq<char>>(e@),
        },
{
    match reading {
        DecimalReading::NotANumber => Err("Expected aperture like f/2.8 or 2.8.".to_owned()),
        DecimalReading::NotPositive => Err("Expected a positive aperture value.".to_owned()),
        DecimalReading::Scaled(n) => Ok((n, 10)),
    }
}

// What is shown and entered again.

proof fn lemma_lowered(shown: Seq<char>, low: Seq<char>)
    requires
        shown.len() > 0,
        !text::is_white_space(shown[0]),
        !text::is_white_space(shown.last()),
        low == text::lower(shown),
    ensures
        lowered(shown) == low,
{
}

/// The text of an orientation stands for it when it is entered.
pub proof fn shown_orientation_is_entered(value: u16)
    requires
        1 <= value <= 8,
    ensures
        orientation_value(orientation_text(value)) == Ok::<u16, Seq<char>>(value),
{
    if value == 1 {
        reveal_strlit("Normal");
        reveal_strlit("normal");
        assert("normal"@ =~= text::lower("Normal"@));
        lemma_lowered("Normal"@, "normal"@);
    } else if value == 2 {
        reveal_strlit("Mirrored horizontal");
        reveal_strlit("mirrored horizontal");
        reveal_strlit("normal");
        assert("mirrored horizontal"@ =~= text::lower("Mirrored horizontal"@));
        lemma_lowered("Mirrored horizontal"@, "mirrored horizontal"@);
    } else if value == 3 {
        reveal_strlit("Rotated 180");
        reveal_strlit("rotated 180");
        reveal_strlit("normal");
        reveal_strlit("mirrored horizontal");
        assert("rotated 180"@ =~= text::lower("Rotated 180"@));
        lemma_lowered("Rotated 180"@, "rotated 180"@);
    } else if value == 4 {
        reveal_strlit("Mirrored vertical");
        reveal_strlit("mirrored vertical");
        reveal_strlit("normal");
        reveal_strlit("mirrored horizontal");
        reveal_strlit("rotated 180");
        assert("mirrored vertical"@ =~= text::lower("Mirrored vertical"@));
        lemma_lowered("Mirrored vertical"@, "mirrored vertical"@);
    } else if value == 5 {
        reveal_strlit("Mirrored horizontal rotated 270");
        reveal_strlit("mirrored horizontal rotated 270");
        reveal_strlit("normal");
        reveal_strlit("mirrored horizontal");
        reveal_strlit("rotated 180");
        reveal_strlit("mirrored vertical");
        assert("mirrored horizontal rotated 270"@ =~= text::lower("Mirrored horizontal rotated 270"@));
        lemma_lowered("Mirrored horizontal rotated 270"@, "mirrored horizontal rotated 270"@);
    } else if value == 6 {
        reveal_strlit("Rotated 90");
        reveal_strlit("rotated 90");
        reveal_strlit("normal");
        reveal_strlit("mirrored horizontal");
        reveal_strlit("rotated 180");
        reveal_strlit("mirrored vertical");
        reveal_strlit("mirrored horizontal rotated 270");
        assert("rotated 90"@ =~= text::lower("Rotated 90"@));
        lemma_lowered("Rotated 90"@, "rotated 90"@);
    } else if value == 7 {
        reveal_strlit("Mirrored horizontal rotated 90");
        reveal_strlit("mirrored horizontal rotated 90");
        reveal_strlit("normal");
        reveal_strlit("mirrored horizontal");
        reveal_strlit("rotated 180");
        reveal_strlit("mirrored vertical");
        reveal_strlit("mirrored horizontal rotated 270");
        reveal_strlit("rotated 90");
        assert("mirrored horizontal rotated 90"@ =~= text::lower("Mirrored horizontal rotated 90"@));
        lemma_lowered("Mirrored horizontal rotated 90"@, "mirrored horizontal rotated 90"@);
    } else if value == 8 {
        reveal_strlit("Rotated 270");
        reveal_strlit("rotated 270");
        reveal_strlit("normal");
        reveal_strlit("mirrored horizontal");
        reveal_strlit("rotated 180");
        reveal_strlit("mirrored vertical");
        reveal_strlit("mirrored horizontal rotated 270");
        reveal_strlit("rotated 90");
        reveal_strlit("mirrored horizontal rotated 90");
        assert("rotated 180"@[8] != "rotated 270"@[8]);
        assert("rotated 270"@ =~= text::lower("Rotated 270"@));
        lemma_lowered("Rotated 270"@, "rotated 270"@);
    }
}

/// The text of a metering mode stands for it when it is entered.
pub proof fn shown_metering_is_entered(value: u16)
    requires
        1 <= value <= 6 || value == 255,
    ensures
        metering_value(metering_text(value)) == Ok::<u16, Seq<char>>(value),
{
    if value == 1 {
        reveal_strlit("Average");
        reveal_strlit("average");
        assert("average"@ =~= text::lower("Average"@));
        lemma_lowered("Average"@, "average"@);
    } else if value == 2 {
        reveal_strlit("Center-weighted average");
        reveal_strlit("center-weighted average");
        reveal_strlit("average");
        assert("center-weighted average"@ =~= text::lower("Center-weighted average"@));
        lemma_lowered("Center-weighted average"@, "center-weighted average"@);
    } else if value == 3 {
        reveal_strlit("Spot");
        reveal_strlit("spot");
        reveal_strlit("average");
        reveal_strlit("center-weighted average");
        assert("spot"@ =~= text::lower("Spot"@));
        lemma_lowered("Spot"@, "spot"@);
    } else if value == 4 {
        reveal_strlit("Multi-spot");
        reveal_strlit("multi-spot");
        reveal_strlit("average");
        reveal_strlit("center-weighted average");
        reveal_strlit("spot");
        assert("multi-spot"@ =~= text::lower("Multi-spot"@));
        lemma_lowered("Multi-spot"@, "multi-spot"@);
    } else if value == 5 {
        reveal_strlit("Pattern");
        reveal_strlit("pattern");
        reveal_strlit("average");
        reveal_strlit("center-weighted average");
        reveal_strlit("spot");
        reveal_strlit("multi-spot");
        assert("average"@[0] != "pattern"@[0]);
        assert("pattern"@ =~= text::lower("Pattern"@));
        lemma_lowered("Pattern"@, "pattern"@);
    } else if value == 6 {
        reveal_strlit("Partial");
        reveal_strlit("partial");
        reveal_strlit("average");
        reveal_strlit("center-weighted average");
        reveal_strlit("spot");
        reveal_strlit("multi-spot");
        reveal_strlit("pattern");
        assert("average"@[0] != "partial"@[0]);
        assert("pattern"@[2] != "partial"@[2]);
        assert("partial"@ =~= text::lower("Partial"@));
        lemma_lowered("Partial"@, "partial"@);
    } else if value == 255 {
        reveal_strlit("Other");
        reveal_strlit("other");
        reveal_strlit("average");
        reveal_strlit("center-weighted average");
        reveal_strlit("spot");
        reveal_strlit("multi-spot");
        reveal_strlit("pattern");
        reveal_strlit("partial");
        assert("other"@ =~= text::lower("Other"@));
        lemma_lowered("Other"@, "other"@);
    }
}

/// The text of a color space stands for it when it is entered.
pub proof fn shown_color_space_is_entered(value: u16)
    requires
        value == 1 || value == 0xffff,
    ensures
        color_space_value(color_space_text(value)) == Ok::<u16, Seq<char>>(value),
{
    if value == 1 {
        reveal_strlit("sRGB");
        reveal_strlit("srgb");
        assert("srgb"@ =~= text::lower("sRGB"@));
        lemma_lowered("sRGB"@, "srgb"@);
    } else if value == 0xffff {
        reveal_strlit("Uncalibrated");
        reveal_strlit("uncalibrated");
        reveal_strlit("srgb");
        assert("uncalibrated"@ =~= text::lower("Uncalibrated"@));
        lemma_lowered("Uncalibrated"@, "uncalibrated"@);
    }
}

} // verus!
