//! Which entries of EXIF data the fields of a photo show, byte by byte.
use crate::binary::{self, Endian};
use crate::datetime;
use crate::exif::{self, ExifReading, Field};
use crate::exif_laws;
use crate::exif_values;
use crate::text;
use crate::tiff;
use vstd::prelude::*;

verus! {

// The bytes of a TIFF structure.

/// The number that two bytes make, the low byte first in little-endian data.
pub open spec fn number2(data: Seq<u8>, at: int, little: bool) -> int {
    if little {
        data[at] + 256 * data[at + 1]
    } else {
        256 * data[at] + data[at + 1]
    }
}

/// The number that four bytes make, the low byte first in little-endian data.
pub open spec fn number4(data: Seq<u8>, at: int, little: bool) -> int {
    if little {
        data[at] + 256 * data[at + 1] + 65536 * data[at + 2] + 16777216 * data[at + 3]
    } else {
        16777216 * data[at] + 65536 * data[at + 1] + 256 * data[at + 2] + data[at + 3]
    }
}

/// The data begin as a TIFF structure: `II` or `MM`, and 42.
pub open spec fn begins(data: Seq<u8>, little: bool) -> bool {
    &&& data.len() >= 8
    &&& little ==> data[0] == 'I' as u8 && data[1] == 'I' as u8
    &&& !little ==> data[0] == 'M' as u8 && data[1] == 'M' as u8
    &&& number2(data, 2, little) == 42
}

/// A directory lies at a place: the number of its entries, and twelve bytes for each.
pub open spec fn directory_at(data: Seq<u8>, little: bool, dir: int) -> bool {
    &&& 0 <= dir
    &&& dir + 2 <= data.len()
    &&& dir + 2 + 12 * number2(data, dir, little) <= data.len()
}

/// An entry of a directory has a tag, and no entry behind it has the same.
pub open spec fn entry(data: Seq<u8>, little: bool, dir: int, i: int, tag: int) -> bool {
    &&& directory_at(data, little, dir)
    &&& 0 <= i < number2(data, dir, little)
    &&& number2(data, dir + 2 + 12 * i, little) == tag
    &&& forall|k: int|
        #![trigger number2(data, dir + 2 + 12 * k, little)]
        i < k < number2(data, dir, little) ==> number2(data, dir + 2 + 12 * k, little) != tag
}

/// No entry of a directory has a tag.
pub open spec fn no_entry(data: Seq<u8>, little: bool, dir: int, tag: int) -> bool {
    &&& directory_at(data, little, dir)
    &&& forall|k: int|
        #![trigger number2(data, dir + 2 + 12 * k, little)]
        0 <= k < number2(data, dir, little) ==> number2(data, dir + 2 + 12 * k, little) != tag
}

/// Where the value of an entry begins: in the entry itself if it has at most four
/// bytes, and otherwise where the entry says.
pub open spec fn value_start(data: Seq<u8>, little: bool, at: int, size: int) -> int {
    if size * number4(data, at + 4, little) <= 4 {
        at + 8
    } else {
        number4(data, at + 8, little)
    }
}

/// An entry has a type whose values have so many bytes, and as many values at least
/// as are asked for, which lie within the data.
pub open spec fn has_values(
    data: Seq<u8>,
    little: bool,
    at: int,
    kind: int,
    size: int,
    least: int,
) -> bool {
    &&& number2(data, at + 2, little) == kind
    &&& number4(data, at + 4, little) >= least
    &&& value_start(data, little, at, size) + size * number4(data, at + 4, little) <= data.len()
}

/// An entry holds a number of two bytes.
pub open spec fn short_at(data: Seq<u8>, little: bool, at: int, v: u16) -> bool {
    &&& has_values(data, little, at, 3, 2, 1)
    &&& number2(data, value_start(data, little, at, 2), little) == v
}

/// An entry holds a number of two or four bytes.
pub open spec fn number_at(data: Seq<u8>, little: bool, at: int, v: u32) -> bool {
    ||| {
        &&& has_values(data, little, at, 3, 2, 1)
        &&& number2(data, value_start(data, little, at, 2), little) == v
    }
    ||| {
        &&& has_values(data, little, at, 4, 4, 1)
        &&& number4(data, value_start(data, little, at, 4), little) == v
    }
}

/// An entry holds fractions, and number `k` of them is the one given.
pub open spec fn fraction_at(
    data: Seq<u8>,
    little: bool,
    at: int,
    k: int,
    f: (u32, u32),
) -> bool {
    &&& has_values(data, little, at, 5, 8, k + 1)
    &&& number4(data, value_start(data, little, at, 8) + 8 * k, little) == f.0
    &&& number4(data, value_start(data, little, at, 8) + 8 * k + 4, little) == f.1
}

/// An entry holds a text, which a zero byte or the end of the value follows; no white
/// space stands at the ends of the text.
pub open spec fn text_at(data: Seq<u8>, little: bool, at: int, t: Seq<char>) -> bool {
    let bytes = vstd::utf8::encode_utf8(t);
    let start = value_start(data, little, at, 1);
    &&& has_values(data, little, at, 2, 1, bytes.len() as int)
    &&& data.subrange(start, start + bytes.len()) == bytes
    &&& number4(data, at + 4, little) == bytes.len() || data[start + bytes.len()] == 0
    &&& exif_laws::without_zero(t)
    &&& t.len() > 0
    &&& text::trim(t) == t
}

/// The EXIF directory: the first directory has an entry with the tag 8769 that points
/// to it.
pub open spec fn exif_directory(data: Seq<u8>, little: bool, dir: int) -> bool {
    &&& 0 <= dir <= u32::MAX
    &&& exists|k: int| #[trigger]
        entry(data, little, number4(data, 4, little), k, 0x8769) && number_at(
            data,
            little,
            number4(data, 4, little) + 2 + 12 * k,
            dir as u32,
        )
}

/// The GPS directory: the first directory has an entry with the tag 8825 that points
/// to it.
pub open spec fn gps_directory(data: Seq<u8>, little: bool, dir: int) -> bool {
    &&& 0 < dir <= u32::MAX
    &&& exists|k: int| #[trigger]
        entry(data, little, number4(data, 4, little), k, 0x8825) && number_at(
            data,
            little,
            number4(data, 4, little) + 2 + 12 * k,
            dir as u32,
        )
}

// What they are to the reader.

pub open spec fn byte_order(little: bool) -> Endian {
    if little {
        Endian::Little
    } else {
        Endian::Big
    }
}

/// Numbers are read in the byte order of the data.
pub proof fn numbers_are_read_in_their_byte_order(data: Seq<u8>, at: int, little: bool)
    requires
        0 <= at,
    ensures
        at + 2 <= data.len() ==> binary::u16_at(data, at, byte_order(little)) == Some(
            number2(data, at, little) as u16,
        ) && 0 <= number2(data, at, little) <= 65535,
        at + 2 > data.len() ==> binary::u16_at(data, at, byte_order(little)) is None,
        at + 4 <= data.len() ==> binary::u32_at(data, at, byte_order(little)) == Some(
            number4(data, at, little) as u32,
        ) && 0 <= number4(data, at, little) <= 4294967295,
        at + 4 > data.len() ==> binary::u32_at(data, at, byte_order(little)) is None,
{
}

proof fn lemma_words(data: Seq<u8>, at: int, little: bool)
    ensures
        tiff::tag_at(data, at, byte_order(little)) == number2(data, at, little),
        tiff::type_at(data, at, byte_order(little)) == number2(data, at + 2, little),
        tiff::count_at(data, at, byte_order(little)) == number4(data, at + 4, little),
        tiff::offset_at(data, at, byte_order(little)) == number4(data, at + 8, little),
{
}

proof fn lemma_last(data: Seq<u8>, little: bool, dir: int, i: int, tag: u16, n: int)
    requires
        entry(data, little, dir, i, tag as int),
        i < n <= number2(data, dir, little),
    ensures
        tiff::last_among(data, dir, byte_order(little), tag, n) == Some(dir + 2 + 12 * i),
    decreases n,
{
    lemma_words(data, dir + 2 + 12 * (n - 1), little);
    if i < n - 1 {
        assert(number2(data, dir + 2 + 12 * (n - 1), little) != tag);
        lemma_last(data, little, dir, i, tag, n - 1);
    }
}

proof fn lemma_none(data: Seq<u8>, little: bool, dir: int, tag: u16, n: int)
    requires
        no_entry(data, little, dir, tag as int),
        n <= number2(data, dir, little),
    ensures
        tiff::last_among(data, dir, byte_order(little), tag, n) is None,
    decreases n,
{
    if n > 0 {
        lemma_words(data, dir + 2 + 12 * (n - 1), little);
        assert(number2(data, dir + 2 + 12 * (n - 1), little) != tag);
        lemma_none(data, little, dir, tag, n - 1);
    }
}

/// Of several entries with one tag the last one counts.
pub proof fn the_last_entry_counts(data: Seq<u8>, little: bool, dir: int, i: int, tag: u16)
    ensures
        entry(data, little, dir, i, tag as int) ==> tiff::last_entry(
            data,
            dir,
            byte_order(little),
            tag,
        ) == Some(dir + 2 + 12 * i),
        no_entry(data, little, dir, tag as int) ==> tiff::last_entry(
            data,
            dir,
            byte_order(little),
            tag,
        ) is None,
{
    if directory_at(data, little, dir) {
        numbers_are_read_in_their_byte_order(data, dir, little);
        let n = number2(data, dir, little);
        if entry(data, little, dir, i, tag as int) {
            lemma_last(data, little, dir, i, tag, n);
        }
        if no_entry(data, little, dir, tag as int) {
            lemma_none(data, little, dir, tag, n);
        }
    }
}

proof fn lemma_value(data: Seq<u8>, little: bool, at: int, kind: int, size: int)
    requires
        0 <= at,
        at + 12 <= data.len(),
        number2(data, at + 2, little) == kind,
        (size == 1 && (kind == 1 || kind == 2 || kind == 7)) || (size == 2 && kind == 3) || (size
            == 4 && kind == 4) || (size == 8 && kind == 5),
    ensures
        ({
            let start = value_start(data, little, at, size);
            let len = size * number4(data, at + 4, little);
            &&& 0 <= start
            &&& 0 <= len
            &&& tiff::value_bytes(data, at, byte_order(little)) == if start + len <= data.len() {
                Some(data.subrange(start, start + len))
            } else {
                None
            }
        }),
{
    reveal(tiff::value_range);
    lemma_words(data, at, little);
    numbers_are_read_in_their_byte_order(data, at + 4, little);
    numbers_are_read_in_their_byte_order(data, at + 8, little);
}

proof fn lemma_short(data: Seq<u8>, little: bool, at: int, v: u16)
    requires
        0 <= at,
        at + 12 <= data.len(),
        short_at(data, little, at, v),
    ensures
        tiff::short_value(data, at, byte_order(little)) == Some(v),
{
    lemma_words(data, at, little);
    lemma_value(data, little, at, 3, 2);
    let start = value_start(data, little, at, 2);
    let part = data.subrange(start, start + 2 * number4(data, at + 4, little));
    assert(part[0] == data[start] && part[1] == data[start + 1]);
}

proof fn lemma_number(data: Seq<u8>, little: bool, at: int, v: u32)
    requires
        0 <= at,
        at + 12 <= data.len(),
        number_at(data, little, at, v),
    ensures
        tiff::long_value(data, at, byte_order(little)) == Some(v),
{
    lemma_words(data, at, little);
    if number2(data, at + 2, little) == 3 {
        lemma_short(data, little, at, v as u16);
    } else {
        lemma_value(data, little, at, 4, 4);
        let start = value_start(data, little, at, 4);
        let part = data.subrange(start, start + 4 * number4(data, at + 4, little));
        assert(part[0] == data[start] && part[1] == data[start + 1] && part[2] == data[start + 2]
            && part[3] == data[start + 3]);
    }
}

proof fn lemma_fraction(data: Seq<u8>, little: bool, at: int, k: int, f: (u32, u32))
    requires
        0 <= at,
        0 <= k,
        at + 12 <= data.len(),
        fraction_at(data, little, at, k, f),
    ensures
        tiff::type_at(data, at, byte_order(little)) == 5,
        tiff::count_at(data, at, byte_order(little)) >= k + 1,
        tiff::value_bytes(data, at, byte_order(little)) matches Some(v) && tiff::fraction_in(
            v,
            k,
            byte_order(little),
        ) == Some(f),
{
    lemma_words(data, at, little);
    lemma_value(data, little, at, 5, 8);
    let start = value_start(data, little, at, 8);
    let part = data.subrange(start, start + 8 * number4(data, at + 4, little));
    assert forall|j: int| 0 <= j < 8 implies #[trigger] part[8 * k + j] == data[start + 8 * k + j] by {}
    assert(part[8 * k + 0] == data[start + 8 * k + 0]);
    assert(part[8 * k + 1] == data[start + 8 * k + 1]);
    assert(part[8 * k + 2] == data[start + 8 * k + 2]);
    assert(part[8 * k + 3] == data[start + 8 * k + 3]);
    assert(part[8 * k + 4] == data[start + 8 * k + 4]);
    assert(part[8 * k + 5] == data[start + 8 * k + 5]);
    assert(part[8 * k + 6] == data[start + 8 * k + 6]);
    assert(part[8 * k + 7] == data[start + 8 * k + 7]);
}

proof fn lemma_text(data: Seq<u8>, little: bool, at: int, t: Seq<char>)
    requires
        0 <= at,
        at + 12 <= data.len(),
        text_at(data, little, at, t),
    ensures
        exif::ascii_value(data, at, byte_order(little)) == Some(t),
{
    lemma_words(data, at, little);
    lemma_value(data, little, at, 2, 1);
    let bytes = vstd::utf8::encode_utf8(t);
    let start = value_start(data, little, at, 1);
    let n = number4(data, at + 4, little);
    let v = data.subrange(start, start + n);
    assert(tiff::value_bytes(data, at, byte_order(little)) == Some(v));
    exif_laws::lemma_text_has_no_zero(t);
    assert forall|k: int| 0 <= k < bytes.len() implies #[trigger] v[k] == bytes[k] by {
        assert(data.subrange(start, start + bytes.len())[k] == bytes[k]);
    }
    lemma_up_to_zero(v, 0, bytes.len() as int);
    assert(v.take(bytes.len() as int) =~= bytes);
    vstd::utf8::encode_utf8_valid_utf8(t);
    vstd::utf8::encode_utf8_decode_utf8(t);
}

proof fn lemma_up_to_zero(v: Seq<u8>, i: int, n: int)
    requires
        0 <= i <= n <= v.len(),
        forall|k: int| i <= k < n ==> #[trigger] v[k] != 0,
        n == v.len() || v[n] == 0,
    ensures
        exif::zero_from(v, i) == n,
    decreases n - i,
{
    if i < n {
        assert(v[i] != 0);
        lemma_up_to_zero(v, i + 1, n);
    }
}

// The directories.

proof fn lemma_begins(data: Seq<u8>, little: bool)
    requires
        begins(data, little),
    ensures
        0 <= number4(data, 4, little) <= 4294967295,
        exif::readable_tiff(data) == if directory_at(data, little, number4(data, 4, little)) {
            Some((byte_order(little), number4(data, 4, little) as u32))
        } else {
            None
        },
{
    numbers_are_read_in_their_byte_order(data, 2, little);
    numbers_are_read_in_their_byte_order(data, 4, little);
    numbers_are_read_in_their_byte_order(data, number4(data, 4, little), little);
}

proof fn lemma_pointer(data: Seq<u8>, little: bool, dir: int, k: int, tag: u16)
    requires
        begins(data, little),
        0 <= dir <= u32::MAX,
        entry(data, little, number4(data, 4, little), k, tag as int),
        number_at(data, little, number4(data, 4, little) + 2 + 12 * k, dir as u32),
    ensures
        exif::long_in(data, Some(number4(data, 4, little) as u32), byte_order(little), tag)
            == Some(dir as u32),
{
    reveal(exif::long_in);
    lemma_begins(data, little);
    let first = number4(data, 4, little);
    the_last_entry_counts(data, little, first, k, tag);
    lemma_number(data, little, first + 2 + 12 * k, dir as u32);
}

proof fn lemma_exif_directory(data: Seq<u8>, little: bool, dir: int)
    requires
        begins(data, little),
        exif_directory(data, little, dir),
    ensures
        exif::exif_dir(data, byte_order(little), number4(data, 4, little) as u32) == Some(
            dir as u32,
        ),
        directory_at(data, little, number4(data, 4, little)),
{
    let first = number4(data, 4, little);
    let k = choose|k: int| #[trigger]
        entry(data, little, first, k, 0x8769) && number_at(
            data,
            little,
            first + 2 + 12 * k,
            dir as u32,
        );
    lemma_pointer(data, little, dir, k, 0x8769);
}

proof fn lemma_gps_directory(data: Seq<u8>, little: bool, dir: int)
    requires
        begins(data, little),
        gps_directory(data, little, dir),
    ensures
        exif::gps_dir(data, byte_order(little), number4(data, 4, little) as u32) == Some(
            dir as u32,
        ),
        directory_at(data, little, number4(data, 4, little)),
{
    let first = number4(data, 4, little);
    let k = choose|k: int| #[trigger]
        entry(data, little, first, k, 0x8825) && number_at(
            data,
            little,
            first + 2 + 12 * k,
            dir as u32,
        );
    lemma_pointer(data, little, dir, k, 0x8825);
}

/// Data are read as EXIF data if they begin as a TIFF structure whose first directory
/// lies within them, and only then.
pub proof fn structures_with_a_directory_are_read(r: Option<ExifReading>, data: Seq<u8>)
    requires
        exif::reads_tiff(r, data),
    ensures
        r is Some <==> exists|little: bool| #[trigger]
            begins(data, little) && directory_at(data, little, number4(data, 4, little)),
        r matches Some(x) ==> x.metadata.has_exif,
{
    if begins(data, true) {
        lemma_begins(data, true);
    } else if begins(data, false) {
        lemma_begins(data, false);
    } else {
        if data.len() >= 8 {
            numbers_are_read_in_their_byte_order(data, 2, true);
            numbers_are_read_in_their_byte_order(data, 2, false);
        }
        assert(exif::readable_tiff(data) is None);
    }
}

/// Two readers give the same of one structure: the one that expects a structure, and
/// the one that answers with nothing where there is none.
pub proof fn readers_agree(r: ExifReading, data: Seq<u8>)
    requires
        exif::reads_or_nothing(r, exif::readable_tiff(data), data),
    ensures
        r.metadata.has_exif ==> exif::reads_tiff(Some(r), data),
        !r.metadata.has_exif ==> exif::reads_tiff(None, data) && forall|f: Field| #[trigger]
            r.metadata.field(f) == Seq::<char>::empty(),
{
}

// The fields.

proof fn lemma_number_in(data: Seq<u8>, little: bool, dir: int, i: int, tag: u16, v: u32)
    requires
        0 <= dir <= u32::MAX,
        entry(data, little, dir, i, tag as int),
        number_at(data, little, dir + 2 + 12 * i, v),
    ensures
        exif::long_in(data, Some(dir as u32), byte_order(little), tag) == Some(v),
{
    reveal(exif::long_in);
    the_last_entry_counts(data, little, dir, i, tag);
    lemma_number(data, little, dir + 2 + 12 * i, v);
}

proof fn lemma_short_in(data: Seq<u8>, little: bool, dir: int, i: int, tag: u16, v: u16)
    requires
        0 <= dir <= u32::MAX,
        entry(data, little, dir, i, tag as int),
        short_at(data, little, dir + 2 + 12 * i, v),
    ensures
        exif::short_in(data, Some(dir as u32), byte_order(little), tag) == Some(v),
{
    reveal(exif::short_in);
    the_last_entry_counts(data, little, dir, i, tag);
    lemma_short(data, little, dir + 2 + 12 * i, v);
}

proof fn lemma_text_in(data: Seq<u8>, little: bool, dir: int, i: int, tag: u16, t: Seq<char>)
    requires
        0 <= dir <= u32::MAX,
        entry(data, little, dir, i, tag as int),
        text_at(data, little, dir + 2 + 12 * i, t),
    ensures
        exif::text_in(data, Some(dir as u32), byte_order(little), tag) == Some(t),
        exif::date_in(data, Some(dir as u32), byte_order(little), tag) == datetime::display_of(
            datetime::known_datetime(t),
            t,
        ),
{
    reveal(exif::text_in);
    reveal(exif::date_in);
    the_last_entry_counts(data, little, dir, i, tag);
    lemma_text(data, little, dir + 2 + 12 * i, t);
}

proof fn lemma_fraction_in(
    data: Seq<u8>,
    little: bool,
    dir: int,
    i: int,
    tag: u16,
    f: (u32, u32),
)
    requires
        0 <= dir <= u32::MAX,
        entry(data, little, dir, i, tag as int),
        fraction_at(data, little, dir + 2 + 12 * i, 0, f),
    ensures
        exif::rational_in(data, Some(dir as u32), byte_order(little), tag) == Some(f),
{
    reveal(exif::rational_in);
    the_last_entry_counts(data, little, dir, i, tag);
    lemma_fraction(data, little, dir + 2 + 12 * i, 0, f);
}

/// The width of an image is the number in the entry with the tag a002 of the EXIF
/// directory, and its height the number in the entry with the tag a003.
pub proof fn width_and_height_are_shown(
    r: ExifReading,
    data: Seq<u8>,
    little: bool,
    dir: int,
    i: int,
    v: u32,
)
    requires
        exif::reads_tiff(Some(r), data),
        begins(data, little),
        exif_directory(data, little, dir),
        number_at(data, little, dir + 2 + 12 * i, v),
    ensures
        entry(data, little, dir, i, 0xa002) ==> r.metadata.image_width@ == text::decimal(v as nat),
        entry(data, little, dir, i, 0xa003) ==> r.metadata.image_height@ == text::decimal(v as nat),
{
    lemma_begins(data, little);
    lemma_exif_directory(data, little, dir);
    if entry(data, little, dir, i, 0xa002) {
        lemma_number_in(data, little, dir, i, 0xa002, v);
        assert(r.metadata.field(Field::ImageWidth) == text::decimal(v as nat));
    }
    if entry(data, little, dir, i, 0xa003) {
        lemma_number_in(data, little, dir, i, 0xa003, v);
        assert(r.metadata.field(Field::ImageHeight) == text::decimal(v as nat));
    }
}

/// A reading shows the width and the height that the EXIF directory holds.
pub open spec fn shows_the_size(r: ExifReading, data: Seq<u8>) -> bool {
    &&& forall|little: bool, dir: int, i: int, v: u32|
        #![trigger entry(data, little, dir, i, 0xa002), number_at(data, little, dir + 2 + 12 * i, v)]
        begins(data, little) && exif_directory(data, little, dir) && entry(
            data,
            little,
            dir,
            i,
            0xa002,
        ) && number_at(data, little, dir + 2 + 12 * i, v) ==> r.metadata.image_width@
            == text::decimal(v as nat)
    &&& forall|little: bool, dir: int, i: int, v: u32|
        #![trigger entry(data, little, dir, i, 0xa003), number_at(data, little, dir + 2 + 12 * i, v)]
        begins(data, little) && exif_directory(data, little, dir) && entry(
            data,
            little,
            dir,
            i,
            0xa003,
        ) && number_at(data, little, dir + 2 + 12 * i, v) ==> r.metadata.image_height@
            == text::decimal(v as nat)
}

/// Every reading of a structure shows its width and its height.
pub proof fn readings_show_the_size(r: ExifReading, data: Seq<u8>)
    requires
        exif::reads_tiff(Some(r), data),
    ensures
        shows_the_size(r, data),
{
    assert forall|little: bool, dir: int, i: int, v: u32|
        #![trigger entry(data, little, dir, i, 0xa002), number_at(data, little, dir + 2 + 12 * i, v)]
        begins(data, little) && exif_directory(data, little, dir) && entry(
            data,
            little,
            dir,
            i,
            0xa002,
        ) && number_at(data, little, dir + 2 + 12 * i, v) implies r.metadata.image_width@
        == text::decimal(v as nat) by {
        width_and_height_are_shown(r, data, little, dir, i, v);
    }
    assert forall|little: bool, dir: int, i: int, v: u32|
        #![trigger entry(data, little, dir, i, 0xa003), number_at(data, little, dir + 2 + 12 * i, v)]
        begins(data, little) && exif_directory(data, little, dir) && entry(
            data,
            little,
            dir,
            i,
            0xa003,
        ) && number_at(data, little, dir + 2 + 12 * i, v) implies r.metadata.image_height@
        == text::decimal(v as nat) by {
        width_and_height_are_shown(r, data, little, dir, i, v);
    }
}

/// The texts of the first directory are shown by their tags: the description of the
/// image, the maker and the model of the camera, the software, the artist and the
/// copyright; and so is the lens of the EXIF directory.
pub proof fn texts_are_shown(
    r: ExifReading,
    data: Seq<u8>,
    little: bool,
    dir: int,
    i: int,
    t: Seq<char>,
)
    requires
        exif::reads_tiff(Some(r), data),
        begins(data, little),
        text_at(data, little, dir + 2 + 12 * i, t),
    ensures
        dir == number4(data, 4, little) ==> {
            &&& entry(data, little, dir, i, 0x010e) ==> r.metadata.image_description@ == t
            &&& entry(data, little, dir, i, 0x010f) ==> r.metadata.camera_make@ == t
            &&& entry(data, little, dir, i, 0x0110) ==> r.metadata.camera_model@ == t
            &&& entry(data, little, dir, i, 0x0131) ==> r.metadata.software@ == t
            &&& entry(data, little, dir, i, 0x013b) ==> r.metadata.artist@ == t
            &&& entry(data, little, dir, i, 0x8298) ==> r.metadata.copyright@ == t
        },
        exif_directory(data, little, dir) && entry(data, little, dir, i, 0xa434)
            ==> r.metadata.lens_model@ == t,
{
    lemma_begins(data, little);
    if dir == number4(data, 4, little) {
        if entry(data, little, dir, i, 0x010e) {
            lemma_text_in(data, little, dir, i, 0x010e, t);
            assert(r.metadata.field(Field::ImageDescription) == t);
        }
        if entry(data, little, dir, i, 0x010f) {
            lemma_text_in(data, little, dir, i, 0x010f, t);
            assert(r.metadata.field(Field::CameraMake) == t);
        }
        if entry(data, little, dir, i, 0x0110) {
            lemma_text_in(data, little, dir, i, 0x0110, t);
            assert(r.metadata.field(Field::CameraModel) == t);
        }
        if entry(data, little, dir, i, 0x0131) {
            lemma_text_in(data, little, dir, i, 0x0131, t);
            assert(r.metadata.field(Field::Software) == t);
        }
        if entry(data, little, dir, i, 0x013b) {
            lemma_text_in(data, little, dir, i, 0x013b, t);
            assert(r.metadata.field(Field::Artist) == t);
        }
        if entry(data, little, dir, i, 0x8298) {
            lemma_text_in(data, little, dir, i, 0x8298, t);
            assert(r.metadata.field(Field::Copyright) == t);
        }
    }
    if exif_directory(data, little, dir) && entry(data, little, dir, i, 0xa434) {
        lemma_exif_directory(data, little, dir);
        lemma_text_in(data, little, dir, i, 0xa434, t);
        assert(r.metadata.field(Field::LensModel) == t);
    }
}

/// The dates are shown by their tags: that of the image, of the first directory, and
/// those on which the photo was taken and stored, of the EXIF directory.
pub proof fn dates_are_shown(
    r: ExifReading,
    data: Seq<u8>,
    little: bool,
    dir: int,
    i: int,
    t: Seq<char>,
)
    requires
        exif::reads_tiff(Some(r), data),
        begins(data, little),
        text_at(data, little, dir + 2 + 12 * i, t),
    ensures
        ({
            let shown = datetime::display_of(datetime::known_datetime(t), t);
            &&& dir == number4(data, 4, little) && entry(data, little, dir, i, 0x0132)
                ==> r.metadata.image_date_time@ == shown
            &&& exif_directory(data, little, dir) && entry(data, little, dir, i, 0x9003)
                ==> r.metadata.date_time_original@ == shown
            &&& exif_directory(data, little, dir) && entry(data, little, dir, i, 0x9004)
                ==> r.metadata.date_time_digitized@ == shown
        }),
{
    lemma_begins(data, little);
    let shown = datetime::display_of(datetime::known_datetime(t), t);
    if dir == number4(data, 4, little) && entry(data, little, dir, i, 0x0132) {
        lemma_text_in(data, little, dir, i, 0x0132, t);
        assert(r.metadata.field(Field::ImageDateTime) == shown);
    }
    if exif_directory(data, little, dir) {
        lemma_exif_directory(data, little, dir);
        if entry(data, little, dir, i, 0x9003) {
            lemma_text_in(data, little, dir, i, 0x9003, t);
            assert(r.metadata.field(Field::DateTimeOriginal) == shown);
        }
        if entry(data, little, dir, i, 0x9004) {
            lemma_text_in(data, little, dir, i, 0x9004, t);
            assert(r.metadata.field(Field::DateTimeDigitized) == shown);
        }
    }
}

/// A photo was taken on the date that it was taken, or else stored, or else on the
/// date of the image: the first of them that is there.
pub proof fn the_first_date_is_the_date_taken(r: ExifReading, data: Seq<u8>)
    requires
        exif::reads_tiff(Some(r), data),
    ensures
        r.metadata.date_time_original@.len() > 0 ==> r.metadata.taken_date@
            == r.metadata.date_time_original@,
        r.metadata.date_time_original@.len() == 0 && r.metadata.date_time_digitized@.len() > 0
            ==> r.metadata.taken_date@ == r.metadata.date_time_digitized@,
        r.metadata.date_time_original@.len() == 0 && r.metadata.date_time_digitized@.len() == 0
            ==> r.metadata.taken_date@ == r.metadata.image_date_time@,
{
    assert(r.metadata.field(Field::TakenDate) == r.metadata.taken_date@);
    assert(r.metadata.field(Field::DateTimeOriginal) == r.metadata.date_time_original@);
    assert(r.metadata.field(Field::DateTimeDigitized) == r.metadata.date_time_digitized@);
    assert(r.metadata.field(Field::ImageDateTime) == r.metadata.image_date_time@);
}

/// The small numbers are shown by their tags: the orientation, of the first directory,
/// and the exposure program, the sensitivity, the metering mode, the flash, the color
/// space, the white balance and the focal length in 35 mm film, of the EXIF
/// directory.
pub proof fn small_numbers_are_shown(
    r: ExifReading,
    data: Seq<u8>,
    little: bool,
    dir: int,
    i: int,
    v: u16,
)
    requires
        exif::reads_tiff(Some(r), data),
        begins(data, little),
        short_at(data, little, dir + 2 + 12 * i, v),
    ensures
        dir == number4(data, 4, little) && entry(data, little, dir, i, 0x0112)
            ==> r.metadata.orientation@ == exif_values::orientation_text(v),
        exif_directory(data, little, dir) ==> {
            &&& entry(data, little, dir, i, 0x8822) ==> r.metadata.exposure_program@
                == exif_values::exposure_program_text(v)
            &&& entry(data, little, dir, i, 0x8827) ==> r.metadata.iso_speed@ == text::decimal(
                v as nat,
            )
            &&& entry(data, little, dir, i, 0x9207) ==> r.metadata.metering_mode@
                == exif_values::metering_text(v)
            &&& entry(data, little, dir, i, 0x9209) ==> r.metadata.flash_fired@
                == exif_values::flash_text(v)
            &&& entry(data, little, dir, i, 0xa001) ==> r.metadata.color_space@
                == exif_values::color_space_text(v)
            &&& entry(data, little, dir, i, 0xa403) ==> r.metadata.white_balance@
                == exif_values::white_balance_text(v)
            &&& entry(data, little, dir, i, 0xa405) ==> r.metadata.focal_length_35mm@
                == text::decimal(v as nat) + " mm"@
        },
{
    lemma_begins(data, little);
    if dir == number4(data, 4, little) && entry(data, little, dir, i, 0x0112) {
        lemma_short_in(data, little, dir, i, 0x0112, v);
        assert(r.metadata.field(Field::Orientation) == exif_values::orientation_text(v));
    }
    if exif_directory(data, little, dir) {
        lemma_exif_directory(data, little, dir);
        lemma_small_numbers(r, data, little, dir, i, v);
    }
}

proof fn lemma_small_numbers(
    r: ExifReading,
    data: Seq<u8>,
    little: bool,
    dir: int,
    i: int,
    v: u16,
)
    requires
        exif::reads_tiff(Some(r), data),
        exif::readable_tiff(data) == Some((byte_order(little), number4(data, 4, little) as u32)),
        exif::exif_dir(data, byte_order(little), number4(data, 4, little) as u32) == Some(
            dir as u32,
        ),
        0 <= dir <= u32::MAX,
        short_at(data, little, dir + 2 + 12 * i, v),
    ensures
        entry(data, little, dir, i, 0x8822) ==> r.metadata.exposure_program@
            == exif_values::exposure_program_text(v),
        entry(data, little, dir, i, 0x8827) ==> r.metadata.iso_speed@ == text::decimal(v as nat),
        entry(data, little, dir, i, 0x9207) ==> r.metadata.metering_mode@
            == exif_values::metering_text(v),
        entry(data, little, dir, i, 0x9209) ==> r.metadata.flash_fired@ == exif_values::flash_text(
            v,
        ),
        entry(data, little, dir, i, 0xa001) ==> r.metadata.color_space@
            == exif_values::color_space_text(v),
        entry(data, little, dir, i, 0xa403) ==> r.metadata.white_balance@
            == exif_values::white_balance_text(v),
        entry(data, little, dir, i, 0xa405) ==> r.metadata.focal_length_35mm@ == text::decimal(
            v as nat,
        ) + " mm"@,
{
    if entry(data, little, dir, i, 0x8822) {
        lemma_short_in(data, little, dir, i, 0x8822, v);
        assert(r.metadata.field(Field::ExposureProgram) == exif_values::exposure_program_text(v));
    }
    if entry(data, little, dir, i, 0x8827) {
        lemma_short_in(data, little, dir, i, 0x8827, v);
        assert(r.metadata.field(Field::IsoSpeed) == text::decimal(v as nat));
    }
    if entry(data, little, dir, i, 0x9207) {
        lemma_short_in(data, little, dir, i, 0x9207, v);
        assert(r.metadata.field(Field::MeteringMode) == exif_values::metering_text(v));
    }
    if entry(data, little, dir, i, 0x9209) {
        lemma_short_in(data, little, dir, i, 0x9209, v);
        assert(r.metadata.field(Field::FlashFired) == exif_values::flash_text(v));
    }
    if entry(data, little, dir, i, 0xa001) {
        lemma_short_in(data, little, dir, i, 0xa001, v);
        assert(r.metadata.field(Field::ColorSpace) == exif_values::color_space_text(v));
    }
    if entry(data, little, dir, i, 0xa403) {
        lemma_short_in(data, little, dir, i, 0xa403, v);
        assert(r.metadata.field(Field::WhiteBalance) == exif_values::white_balance_text(v));
    }
    if entry(data, little, dir, i, 0xa405) {
        lemma_short_in(data, little, dir, i, 0xa405, v);
        assert(r.metadata.field(Field::FocalLength35mm) == text::decimal(v as nat) + " mm"@);
    }
}

/// The fractions of the EXIF directory are read by their tags: the exposure time, the
/// aperture and the focal length.
pub proof fn fractions_are_read(
    r: ExifReading,
    data: Seq<u8>,
    little: bool,
    dir: int,
    i: int,
    f: (u32, u32),
)
    requires
        exif::reads_tiff(Some(r), data),
        begins(data, little),
        exif_directory(data, little, dir),
        fraction_at(data, little, dir + 2 + 12 * i, 0, f),
    ensures
        entry(data, little, dir, i, 0x829a) ==> r.numbers.shutter_speed == Some(f),
        entry(data, little, dir, i, 0x829d) ==> r.numbers.aperture == Some(f),
        entry(data, little, dir, i, 0x920a) ==> r.numbers.focal_length == Some(f),
{
    lemma_begins(data, little);
    lemma_exif_directory(data, little, dir);
    if entry(data, little, dir, i, 0x829a) {
        lemma_fraction_in(data, little, dir, i, 0x829a, f);
    }
    if entry(data, little, dir, i, 0x829d) {
        lemma_fraction_in(data, little, dir, i, 0x829d, f);
    }
    if entry(data, little, dir, i, 0x920a) {
        lemma_fraction_in(data, little, dir, i, 0x920a, f);
    }
}

/// A version of four digits is shown with a dot in the middle.
pub proof fn versions_are_shown_with_a_dot(
    r: ExifReading,
    data: Seq<u8>,
    little: bool,
    dir: int,
    i: int,
)
    requires
        exif::reads_tiff(Some(r), data),
        begins(data, little),
        exif_directory(data, little, dir),
        entry(data, little, dir, i, 0x9000),
        has_values(data, little, dir + 2 + 12 * i, 7, 1, 4),
        number4(data, dir + 2 + 12 * i + 4, little) == 4,
        forall|k: int|
            dir + 2 + 12 * i + 8 <= k < dir + 2 + 12 * i + 12 ==> '0' as u8 <= #[trigger] data[k]
                <= '9' as u8,
    ensures
        ({
            let at = dir + 2 + 12 * i + 8;
            r.metadata.exif_version@ == seq![
                data[at] as char,
                data[at + 1] as char,
                '.',
                data[at + 2] as char,
                data[at + 3] as char,
            ]
        }),
{
    lemma_begins(data, little);
    lemma_exif_directory(data, little, dir);
    the_last_entry_counts(data, little, dir, i, 0x9000);
    let at = dir + 2 + 12 * i;
    lemma_words(data, at, little);
    lemma_value(data, little, at, 7, 1);
    reveal(exif::version_in);
    reveal_with_fuel(exif::digits_among, 5);
    let v = data.subrange(at + 8, at + 12);
    assert(v[0] == data[at + 8] && v[1] == data[at + 9] && v[2] == data[at + 10] && v[3] == data[at
        + 11]);
    assert(v.drop_last().drop_last().drop_last().drop_last().len() == 0);
    assert(exif::digits_among(v) =~= seq![
        v[0] as char,
        v[1] as char,
        v[2] as char,
        v[3] as char,
    ]);
    assert(exif::digits_among(v).take(2) + seq!['.'] + exif::digits_among(v).skip(2) =~= seq![
        v[0] as char,
        v[1] as char,
        '.',
        v[2] as char,
        v[3] as char,
    ]);
    assert(r.metadata.field(Field::ExifVersion) == r.metadata.exif_version@);
}

// The place.

/// The latitude and the longitude are read from the GPS directory: each is a letter,
/// with the tag 1 or 3, and three fractions, with the tag 2 or 4.
pub proof fn coordinates_are_read(
    r: ExifReading,
    data: Seq<u8>,
    little: bool,
    dir: int,
    i: int,
    letter: Seq<char>,
    j: int,
    degrees: (u32, u32),
    minutes: (u32, u32),
    seconds: (u32, u32),
)
    requires
        exif::reads_tiff(Some(r), data),
        begins(data, little),
        gps_directory(data, little, dir),
        text_at(data, little, dir + 2 + 12 * i, letter),
        fraction_at(data, little, dir + 2 + 12 * j, 0, degrees),
        fraction_at(data, little, dir + 2 + 12 * j, 1, minutes),
        fraction_at(data, little, dir + 2 + 12 * j, 2, seconds),
    ensures
        entry(data, little, dir, i, 1) && entry(data, little, dir, j, 2) ==> (r.numbers.latitude matches Some(
            (l, v),
        ) && l@ == letter && v == (degrees, minutes, seconds)),
        entry(data, little, dir, i, 3) && entry(data, little, dir, j, 4) ==> (r.numbers.longitude matches Some(
            (l, v),
        ) && l@ == letter && v == (degrees, minutes, seconds)),
{
    lemma_begins(data, little);
    lemma_gps_directory(data, little, dir);
    reveal(exif::coordinate_in);
    reveal(exif::triple_in);
    let at = dir + 2 + 12 * j;
    if entry(data, little, dir, i, 1) && entry(data, little, dir, j, 2) {
        lemma_text_in(data, little, dir, i, 1, letter);
        the_last_entry_counts(data, little, dir, j, 2);
        lemma_fraction(data, little, at, 0, degrees);
        lemma_fraction(data, little, at, 1, minutes);
        lemma_fraction(data, little, at, 2, seconds);
    }
    if entry(data, little, dir, i, 3) && entry(data, little, dir, j, 4) {
        lemma_text_in(data, little, dir, i, 3, letter);
        the_last_entry_counts(data, little, dir, j, 4);
        lemma_fraction(data, little, at, 0, degrees);
        lemma_fraction(data, little, at, 1, minutes);
        lemma_fraction(data, little, at, 2, seconds);
    }
}

/// The altitude is the fraction with the tag 6 of the GPS directory; it lies below sea
/// level if the byte with the tag 5 is one, and above it if the byte is another or is
/// not there.
pub proof fn altitudes_are_read(
    r: ExifReading,
    data: Seq<u8>,
    little: bool,
    dir: int,
    i: int,
    j: int,
    meters: (u32, u32),
)
    requires
        exif::reads_tiff(Some(r), data),
        begins(data, little),
        gps_directory(data, little, dir),
        entry(data, little, dir, j, 6),
        fraction_at(data, little, dir + 2 + 12 * j, 0, meters),
    ensures
        no_entry(data, little, dir, 5) ==> r.numbers.altitude == Some((false, meters)),
        entry(data, little, dir, i, 5) && has_values(data, little, dir + 2 + 12 * i, 1, 1, 1)
            ==> r.numbers.altitude == Some(
            (data[value_start(data, little, dir + 2 + 12 * i, 1)] == 1, meters),
        ),
{
    lemma_begins(data, little);
    lemma_gps_directory(data, little, dir);
    lemma_fraction_in(data, little, dir, j, 6, meters);
    reveal(exif::byte_in);
    the_last_entry_counts(data, little, dir, i, 5);
    if entry(data, little, dir, i, 5) && has_values(data, little, dir + 2 + 12 * i, 1, 1, 1) {
        lemma_words(data, dir + 2 + 12 * i, little);
        lemma_value(data, little, dir + 2 + 12 * i, 1, 1);
    }
}

// Fields that are not there.

proof fn lemma_nothing_in(data: Seq<u8>, little: bool, dir: int, tag: u16)
    requires
        0 <= dir <= u32::MAX,
        no_entry(data, little, dir, tag as int),
    ensures
        exif::long_in(data, Some(dir as u32), byte_order(little), tag) is None,
        exif::short_in(data, Some(dir as u32), byte_order(little), tag) is None,
        exif::text_in(data, Some(dir as u32), byte_order(little), tag) is None,
        exif::date_in(data, Some(dir as u32), byte_order(little), tag).len() == 0,
        exif::version_in(data, Some(dir as u32), byte_order(little), tag) is None,
        exif::rational_in(data, Some(dir as u32), byte_order(little), tag) is None,
        exif::triple_in(data, Some(dir as u32), byte_order(little), tag) is None,
{
    the_last_entry_counts(data, little, dir, 0, tag);
    reveal(exif::long_in);
    reveal(exif::short_in);
    reveal(exif::text_in);
    reveal(exif::date_in);
    reveal(exif::version_in);
    reveal(exif::rational_in);
    reveal(exif::triple_in);
}

/// A field of the first directory whose entry is not there is empty.
pub proof fn fields_without_an_entry_are_empty(r: ExifReading, data: Seq<u8>, little: bool)
    requires
        exif::reads_tiff(Some(r), data),
        begins(data, little),
    ensures
        ({
            let dir = number4(data, 4, little);
            &&& no_entry(data, little, dir, 0x010e) ==> r.metadata.image_description@.len() == 0
            &&& no_entry(data, little, dir, 0x010f) ==> r.metadata.camera_make@.len() == 0
            &&& no_entry(data, little, dir, 0x0110) ==> r.metadata.camera_model@.len() == 0
            &&& no_entry(data, little, dir, 0x0112) ==> r.metadata.orientation@.len() == 0
            &&& no_entry(data, little, dir, 0x0131) ==> r.metadata.software@.len() == 0
            &&& no_entry(data, little, dir, 0x0132) ==> r.metadata.image_date_time@.len() == 0
            &&& no_entry(data, little, dir, 0x013b) ==> r.metadata.artist@.len() == 0
            &&& no_entry(data, little, dir, 0x8298) ==> r.metadata.copyright@.len() == 0
        }),
{
    lemma_begins(data, little);
    let dir = number4(data, 4, little);
    if no_entry(data, little, dir, 0x010e) {
        lemma_nothing_in(data, little, dir, 0x010e);
        assert(r.metadata.field(Field::ImageDescription).len() == 0);
    }
    if no_entry(data, little, dir, 0x010f) {
        lemma_nothing_in(data, little, dir, 0x010f);
        assert(r.metadata.field(Field::CameraMake).len() == 0);
    }
    if no_entry(data, little, dir, 0x0110) {
        lemma_nothing_in(data, little, dir, 0x0110);
        assert(r.metadata.field(Field::CameraModel).len() == 0);
    }
    if no_entry(data, little, dir, 0x0112) {
        lemma_nothing_in(data, little, dir, 0x0112);
        assert(r.metadata.field(Field::Orientation).len() == 0);
    }
    if no_entry(data, little, dir, 0x0131) {
        lemma_nothing_in(data, little, dir, 0x0131);
        assert(r.metadata.field(Field::Software).len() == 0);
    }
    if no_entry(data, little, dir, 0x0132) {
        lemma_nothing_in(data, little, dir, 0x0132);
        assert(r.metadata.field(Field::ImageDateTime).len() == 0);
    }
    if no_entry(data, little, dir, 0x013b) {
        lemma_nothing_in(data, little, dir, 0x013b);
        assert(r.metadata.field(Field::Artist).len() == 0);
    }
    if no_entry(data, little, dir, 0x8298) {
        lemma_nothing_in(data, little, dir, 0x8298);
        assert(r.metadata.field(Field::Copyright).len() == 0);
    }
}

/// The entry of the first directory that points to the EXIF directory gives none of
/// the fields below it where it is not there; and a field of the EXIF directory whose
/// entry is not there is empty.
pub proof fn exif_fields_without_an_entry_are_empty(
    r: ExifReading,
    data: Seq<u8>,
    little: bool,
    dir: int,
)
    requires
        exif::reads_tiff(Some(r), data),
        begins(data, little),
        exif_directory(data, little, dir) || no_entry(
            data,
            little,
            number4(data, 4, little),
            0x8769,
        ),
    ensures
        ({
            let none = no_entry(data, little, number4(data, 4, little), 0x8769);
            &&& none || no_entry(data, little, dir, 0x8822) ==> r.metadata.exposure_program@.len()
                == 0
            &&& none || no_entry(data, little, dir, 0x8827) ==> r.metadata.iso_speed@.len() == 0
            &&& none || no_entry(data, little, dir, 0x9000) ==> r.metadata.exif_version@.len() == 0
            &&& none || no_entry(data, little, dir, 0x9003) ==> r.metadata.date_time_original@.len()
                == 0
            &&& none || no_entry(data, little, dir, 0x9004)
                ==> r.metadata.date_time_digitized@.len() == 0
            &&& none || no_entry(data, little, dir, 0x9207) ==> r.metadata.metering_mode@.len() == 0
            &&& none || no_entry(data, little, dir, 0x9209) ==> r.metadata.flash_fired@.len() == 0
            &&& none || no_entry(data, little, dir, 0xa001) ==> r.metadata.color_space@.len() == 0
            &&& none || no_entry(data, little, dir, 0xa002) ==> r.metadata.image_width@.len() == 0
            &&& none || no_entry(data, little, dir, 0xa003) ==> r.metadata.image_height@.len() == 0
            &&& none || no_entry(data, little, dir, 0xa403) ==> r.metadata.white_balance@.len() == 0
            &&& none || no_entry(data, little, dir, 0xa405) ==> r.metadata.focal_length_35mm@.len()
                == 0
            &&& none || no_entry(data, little, dir, 0xa434) ==> r.metadata.lens_model@.len() == 0
            &&& none || no_entry(data, little, dir, 0x829a) ==> r.numbers.shutter_speed is None
            &&& none || no_entry(data, little, dir, 0x829d) ==> r.numbers.aperture is None
            &&& none || no_entry(data, little, dir, 0x920a) ==> r.numbers.focal_length is None
        }),
{
    lemma_begins(data, little);
    let first = number4(data, 4, little);
    assert(r.metadata.field(Field::ExposureProgram) == r.metadata.exposure_program@);
    assert(r.metadata.field(Field::IsoSpeed) == r.metadata.iso_speed@);
    assert(r.metadata.field(Field::ExifVersion) == r.metadata.exif_version@);
    assert(r.metadata.field(Field::DateTimeOriginal) == r.metadata.date_time_original@);
    assert(r.metadata.field(Field::DateTimeDigitized) == r.metadata.date_time_digitized@);
    assert(r.metadata.field(Field::MeteringMode) == r.metadata.metering_mode@);
    assert(r.metadata.field(Field::FlashFired) == r.metadata.flash_fired@);
    assert(r.metadata.field(Field::ColorSpace) == r.metadata.color_space@);
    assert(r.metadata.field(Field::ImageWidth) == r.metadata.image_width@);
    assert(r.metadata.field(Field::ImageHeight) == r.metadata.image_height@);
    assert(r.metadata.field(Field::WhiteBalance) == r.metadata.white_balance@);
    assert(r.metadata.field(Field::FocalLength35mm) == r.metadata.focal_length_35mm@);
    assert(r.metadata.field(Field::LensModel) == r.metadata.lens_model@);
    if no_entry(data, little, first, 0x8769) {
        lemma_nothing_in(data, little, first, 0x8769);
        lemma_no_directory(data, byte_order(little));
    } else {
        lemma_exif_directory(data, little, dir);
        lemma_absent(data, little, dir, 0x8822);
        lemma_absent(data, little, dir, 0x8827);
        lemma_absent(data, little, dir, 0x9000);
        lemma_absent(data, little, dir, 0x9003);
        lemma_absent(data, little, dir, 0x9004);
        lemma_absent(data, little, dir, 0x9207);
        lemma_absent(data, little, dir, 0x9209);
        lemma_absent(data, little, dir, 0xa001);
        lemma_absent(data, little, dir, 0xa002);
        lemma_absent(data, little, dir, 0xa003);
        lemma_absent(data, little, dir, 0xa403);
        lemma_absent(data, little, dir, 0xa405);
        lemma_absent(data, little, dir, 0xa434);
        lemma_absent(data, little, dir, 0x829a);
        lemma_absent(data, little, dir, 0x829d);
        lemma_absent(data, little, dir, 0x920a);
    }
}

proof fn lemma_absent(data: Seq<u8>, little: bool, dir: int, tag: u16)
    requires
        0 <= dir <= u32::MAX,
    ensures
        no_entry(data, little, dir, tag as int) ==> {
            &&& exif::long_in(data, Some(dir as u32), byte_order(little), tag) is None
            &&& exif::short_in(data, Some(dir as u32), byte_order(little), tag) is None
            &&& exif::text_in(data, Some(dir as u32), byte_order(little), tag) is None
            &&& exif::date_in(data, Some(dir as u32), byte_order(little), tag).len() == 0
            &&& exif::version_in(data, Some(dir as u32), byte_order(little), tag) is None
            &&& exif::rational_in(data, Some(dir as u32), byte_order(little), tag) is None
        },
{
    if no_entry(data, little, dir, tag as int) {
        lemma_nothing_in(data, little, dir, tag);
    }
}

proof fn lemma_no_directory(data: Seq<u8>, endian: Endian)
    ensures
        forall|tag: u16| #[trigger] exif::long_in(data, None, endian, tag) is None,
        forall|tag: u16| #[trigger] exif::short_in(data, None, endian, tag) is None,
        forall|tag: u16| #[trigger] exif::text_in(data, None, endian, tag) is None,
        forall|tag: u16| (#[trigger] exif::date_in(data, None, endian, tag)).len() == 0,
        forall|tag: u16| #[trigger] exif::version_in(data, None, endian, tag) is None,
        forall|tag: u16| #[trigger] exif::rational_in(data, None, endian, tag) is None,
{
    reveal(exif::long_in);
    reveal(exif::short_in);
    reveal(exif::text_in);
    reveal(exif::date_in);
    reveal(exif::version_in);
    reveal(exif::rational_in);
}

} // verus!
