//! Building a basic EXIF structure from metadata, and how it reads back.
use crate::binary::{self, append_bytes, append_u16, append_u32, Endian};
use crate::datetime::{self, display_datetime_to_exif, Moment};
use crate::exif::ExifMetadata;
use crate::exif_build_laws;
use crate::exif_values::{
    self, entered_text, is_empty_metadata_value, parse_aperture_value, parse_color_space_value,
    parse_exif_rational_value, parse_flash_value, parse_metering_mode_value,
    parse_orientation_value, parse_u16_value, DecimalReading,
};
use crate::jpeg::{self, build_exif_app1_from_tiff};
use crate::tiff;
use vstd::prelude::*;

verus! {

/// The length that text entries have at least, so that longer texts can be
/// written into them later.
pub const DEFAULT_WRITABLE_ASCII_LEN: usize = 64;

/// An entry of a directory that is being built.
#[verifier::ext_equal]
pub struct EntryModel {
    pub tag: u16,
    pub field_type: u16,
    pub count: u32,
    pub value: Seq<u8>,
}

struct TiffEntryBuilder {
    tag: u16,
    field_type: u16,
    count: u32,
    value: Vec<u8>,
}

impl TiffEntryBuilder {
    spec fn model(self) -> EntryModel {
        EntryModel {
            tag: self.tag,
            field_type: self.field_type,
            count: self.count,
            value: self.value@,
        }
    }
}

spec fn models(entries: Seq<TiffEntryBuilder>) -> Seq<EntryModel> {
    Seq::new(entries.len(), |i: int| entries[i].model())
}

pub open spec fn zeros(n: int) -> Seq<u8> {
    Seq::new(n as nat, |i: int| 0u8)
}

/// The twelve bytes of an entry. A value of more than four bytes stands at an offset.
pub open spec fn built_bytes(e: EntryModel, offset: int) -> Seq<u8> {
    binary::u16_bytes(e.tag, Endian::Little) + binary::u16_bytes(e.field_type, Endian::Little)
        + binary::u32_bytes(e.count, Endian::Little) + (if e.value.len() <= 4 {
        e.value + zeros(4 - e.value.len())
    } else {
        binary::u32_bytes(offset as u32, Endian::Little)
    })
}

/// What of an entry's value stands behind the directory.
pub open spec fn extra(e: EntryModel) -> Seq<u8> {
    if e.value.len() > 4 {
        e.value
    } else {
        Seq::empty()
    }
}

/// The values behind the directory, of the first entries.
pub open spec fn extras(es: Seq<EntryModel>, n: int) -> Seq<u8>
    decreases n,
{
    if n <= 0 {
        Seq::empty()
    } else {
        extras(es, n - 1) + extra(es[n - 1])
    }
}

/// The first entries of the directory, whose values stand from `base` on.
pub open spec fn table_bytes(es: Seq<EntryModel>, n: int, base: int) -> Seq<u8>
    decreases n,
{
    if n <= 0 {
        Seq::empty()
    } else {
        table_bytes(es, n - 1, base) + built_bytes(es[n - 1], base + extras(es, n - 1).len())
    }
}

/// A directory at an offset, with the values behind it.
pub open spec fn built_ifd(es: Seq<EntryModel>, at: int) -> Seq<u8> {
    binary::u16_bytes(es.len() as u16, Endian::Little) + table_bytes(
        es,
        es.len() as int,
        at + 6 + 12 * es.len(),
    ) + binary::u32_bytes(0, Endian::Little) + extras(es, es.len() as int)
}

fn write_ifd(tiff: &mut Vec<u8>, entries: &Vec<TiffEntryBuilder>)
    requires
        entries@.len() <= 100,
    ensures
        final(tiff)@ == old(tiff)@ + built_ifd(models(entries@), old(tiff)@.len() as int),
{
    let at: usize = tiff.len();
    let n: usize = entries.len();
    let ghost es = models(entries@);
    let ghost base = at + 6 + 12 * n;
    append_u16(tiff, n as u16, Endian::Little);
    let ghost head = tiff@;
    let mut values: Vec<u8> = Vec::new();
    let mut i: usize = 0;
    assert(tiff@ =~= head + table_bytes(es, 0, base));
    assert(values@ =~= extras(es, 0));
    while i < n
        invariant
            i <= n,
            n == entries@.len(),
            n <= 100,
            es == models(entries@),
            base == at + 6 + 12 * n,
            tiff@ == head + table_bytes(es, i as int, base),
            values@ == extras(es, i as int),
        decreases n - i,
    {
        let ghost before = tiff@;
        let entry = &entries[i];
        append_u16(tiff, entry.tag, Endian::Little);
        append_u16(tiff, entry.field_type, Endian::Little);
        append_u32(tiff, entry.count, Endian::Little);
        let ghost fields = tiff@;
        let len: usize = entry.value.len();
        if len <= 4 {
            append_bytes(tiff, entry.value.as_slice());
            let mut k: usize = len;
            while k < 4
                invariant
                    len <= k <= 4,
                    len == entry.value@.len(),
                    tiff@ == fields + entry.value@ + zeros(k - len),
                decreases 4 - k,
            {
                tiff.push(0);
                k += 1;
                assert(tiff@ =~= fields + entry.value@ + zeros(k - len));
            }
        } else {
            let offset: u128 = at as u128 + 6 + 12 * (n as u128) + values.len() as u128;
            append_u32(tiff, offset as u32, Endian::Little);
            append_bytes(&mut values, entry.value.as_slice());
        }
        proof {
            let e = es[i as int];
            assert(e == entries@[i as int].model());
            assert(tiff@ =~= before + built_bytes(e, base + extras(es, i as int).len()));
            assert(before + built_bytes(e, base + extras(es, i as int).len()) =~= head
                + table_bytes(es, i + 1, base));
            assert(values@ =~= extras(es, i + 1));
        }
        i += 1;
    }
    append_u32(tiff, 0, Endian::Little);
    append_bytes(tiff, values.as_slice());
    assert(tiff@ =~= old(tiff)@ + built_ifd(es, at as int));
}

// The entries of a basic EXIF structure.

pub open spec fn padded(bytes: Seq<u8>, min: int) -> Seq<u8> {
    if bytes.len() < min {
        bytes + zeros(min - bytes.len())
    } else {
        bytes
    }
}

/// An entry for a text, which ends with a zero and has at least some length.
pub open spec fn ascii_entry(tag: u16, value: Seq<char>, min: int) -> EntryModel {
    let bytes = padded(vstd::utf8::encode_utf8(value).push(0), min);
    EntryModel { tag, field_type: 2, count: bytes.len() as u32, value: bytes }
}

pub open spec fn short_entry(tag: u16, value: u16) -> EntryModel {
    EntryModel {
        tag,
        field_type: 3,
        count: 1,
        value: binary::u16_bytes(value, Endian::Little),
    }
}

pub open spec fn long_entry(tag: u16, value: u32) -> EntryModel {
    EntryModel {
        tag,
        field_type: 4,
        count: 1,
        value: binary::u32_bytes(value, Endian::Little),
    }
}

pub open spec fn rational_entry(tag: u16, value: (u32, u32)) -> EntryModel {
    EntryModel {
        tag,
        field_type: 5,
        count: 1,
        value: binary::u32_bytes(value.0, Endian::Little) + binary::u32_bytes(
            value.1,
            Endian::Little,
        ),
    }
}

fn add_ascii(entries: &mut Vec<TiffEntryBuilder>, tag: u16, value: &str, min_len: usize)
    ensures
        models(final(entries)@) == models(old(entries)@).push(
            ascii_entry(tag, value@, min_len as int),
        ),
{
    let mut bytes: Vec<u8> = Vec::new();
    append_bytes(&mut bytes, value.as_bytes());
    bytes.push(0);
    let ghost plain = bytes@;
    assert(plain =~= vstd::utf8::encode_utf8(value@).push(0));
    let mut n: usize = bytes.len();
    while n < min_len
        invariant
            n == bytes@.len(),
            plain.len() <= n,
            n <= min_len || n == plain.len(),
            bytes@ == plain + zeros(n - plain.len()),
        decreases min_len - n,
    {
        bytes.push(0);
        n += 1;
        assert(bytes@ =~= plain + zeros(n - plain.len()));
    }
    assert(bytes@ =~= padded(plain, min_len as int));
    let count: u32 = bytes.len() as u32;
    entries.push(TiffEntryBuilder { tag, field_type: 2, count, value: bytes });
    assert(models(entries@) =~= models(old(entries)@).push(
        ascii_entry(tag, value@, min_len as int),
    ));
}

fn add_short(entries: &mut Vec<TiffEntryBuilder>, tag: u16, value: u16)
    ensures
        models(final(entries)@) == models(old(entries)@).push(short_entry(tag, value)),
{
    let mut bytes: Vec<u8> = Vec::new();
    append_u16(&mut bytes, value, Endian::Little);
    assert(bytes@ =~= binary::u16_bytes(value, Endian::Little));
    entries.push(TiffEntryBuilder { tag, field_type: 3, count: 1, value: bytes });
    assert(models(entries@) =~= models(old(entries)@).push(short_entry(tag, value)));
}

fn add_long(entries: &mut Vec<TiffEntryBuilder>, tag: u16, value: u32)
    ensures
        models(final(entries)@) == models(old(entries)@).push(long_entry(tag, value)),
{
    let mut bytes: Vec<u8> = Vec::new();
    append_u32(&mut bytes, value, Endian::Little);
    assert(bytes@ =~= binary::u32_bytes(value, Endian::Little));
    entries.push(TiffEntryBuilder { tag, field_type: 4, count: 1, value: bytes });
    assert(models(entries@) =~= models(old(entries)@).push(long_entry(tag, value)));
}

fn add_rational(entries: &mut Vec<TiffEntryBuilder>, tag: u16, value: (u32, u32))
    ensures
        models(final(entries)@) == models(old(entries)@).push(rational_entry(tag, value)),
{
    let mut bytes: Vec<u8> = Vec::new();
    append_u32(&mut bytes, value.0, Endian::Little);
    append_u32(&mut bytes, value.1, Endian::Little);
    assert(bytes@ =~= binary::u32_bytes(value.0, Endian::Little) + binary::u32_bytes(
        value.1,
        Endian::Little,
    ));
    entries.push(TiffEntryBuilder { tag, field_type: 5, count: 1, value: bytes });
    assert(models(entries@) =~= models(old(entries)@).push(rational_entry(tag, value)));
}

/// What the decimal numbers among the entered values read as.
#[derive(Clone, Copy, Debug)]
pub struct DecimalReadings {
    pub shutter_speed: DecimalReading,
    pub aperture: DecimalReading,
    pub focal_length: DecimalReading,
}

/// The values of a basic EXIF structure that are not plain texts.
#[verifier::ext_equal]
pub struct BasicModel {
    pub orientation: Option<u16>,
    pub datetime: Option<Seq<char>>,
    pub shutter_speed: Option<(u32, u32)>,
    pub aperture: Option<(u32, u32)>,
    pub iso_speed: Option<u16>,
    pub metering_mode: Option<u16>,
    pub flash: Option<u16>,
    pub focal_length: Option<(u32, u32)>,
    pub color_space: Option<u16>,
}

/// A value that may be left blank.
pub open spec fn optional<T>(value: Seq<char>, parsed: Result<T, Seq<char>>) -> Result<
    Option<T>,
    Seq<char>,
> {
    if exif_values::is_blank(value) {
        Ok(None)
    } else {
        match parsed {
            Ok(v) => Ok(Some(v)),
            Err(e) => Err(e),
        }
    }
}

pub open spec fn date_for_exif(value: Seq<char>) -> Result<Option<Seq<char>>, Seq<char>> {
    optional(value, datetime::exif_date_of(datetime::known_datetime(value)))
}

/// The values that the metadata stand for, or the first complaint about one.
pub open spec fn basic_model(m: ExifMetadata, readings: DecimalReadings) -> Result<
    BasicModel,
    Seq<char>,
> {
    match optional(m.orientation@, exif_values::orientation_value(m.orientation@)) {
        Err(e) => Err(e),
        Ok(orientation) => match date_for_exif(m.taken_date@) {
            Err(e) => Err(e),
            Ok(datetime) => match optional(
                m.shutter_speed@,
                exif_values::rational_value_of(m.shutter_speed@, readings.shutter_speed),
            ) {
                Err(e) => Err(e),
                Ok(shutter_speed) => match optional(
                    m.aperture@,
                    exif_values::aperture_value_of(readings.aperture),
                ) {
                    Err(e) => Err(e),
                    Ok(aperture) => match optional(
                        m.iso_speed@,
                        exif_values::u16_value(m.iso_speed@),
                    ) {
                        Err(e) => Err(e),
                        Ok(iso_speed) => match optional(
                            m.metering_mode@,
                            exif_values::metering_value(m.metering_mode@),
                        ) {
                            Err(e) => Err(e),
                            Ok(metering_mode) => match optional(
                                m.flash_fired@,
                                exif_values::flash_value(m.flash_fired@),
                            ) {
                                Err(e) => Err(e),
                                Ok(flash) => match optional(
                                    m.focal_length@,
                                    exif_values::rational_value_of(
                                        m.focal_length@,
                                        readings.focal_length,
                                    ),
                                ) {
                                    Err(e) => Err(e),
                                    Ok(focal_length) => match optional(
                                        m.color_space@,
                                        exif_values::color_space_value(m.color_space@),
                                    ) {
                                        Err(e) => Err(e),
                                        Ok(color_space) => Ok(
                                            BasicModel {
                                                orientation,
                                                datetime,
                                                shutter_speed,
                                                aperture,
                                                iso_speed,
                                                metering_mode,
                                                flash,
                                                focal_length,
                                                color_space,
                                            },
                                        ),
                                    },
                                },
                            },
                        },
                    },
                },
            },
        },
    }
}

struct BasicValues {
    orientation: Option<u16>,
    datetime: Option<String>,
    shutter_speed: Option<(u32, u32)>,
    aperture: Option<(u32, u32)>,
    iso_speed: Option<u16>,
    metering_mode: Option<u16>,
    flash: Option<u16>,
    focal_length: Option<(u32, u32)>,
    color_space: Option<u16>,
}

impl BasicValues {
    spec fn model(self) -> BasicModel {
        BasicModel {
            orientation: self.orientation,
            datetime: match self.datetime {
                Some(t) => Some(t@),
                None => None,
            },
            shutter_speed: self.shutter_speed,
            aperture: self.aperture,
            iso_speed: self.iso_speed,
            metering_mode: self.metering_mode,
            flash: self.flash,
            focal_length: self.focal_length,
            color_space: self.color_space,
        }
    }
}

fn optional_exif_datetime(value: &str) -> (r: Result<Option<String>, String>)
    ensures
        match r {
            Ok(Some(t)) => date_for_exif(value@) == Ok::<Option<Seq<char>>, Seq<char>>(Some(t@)),
            Ok(None) => date_for_exif(value@) == Ok::<Option<Seq<char>>, Seq<char>>(None),
            Err(e) => date_for_exif(value@) == Err::<Option<Seq<char>>, Seq<char>>(e@),
        },
        forall|x: Moment|
            datetime::plain(x) && value@ == #[trigger] datetime::display_text(x) ==> (
            r matches Ok(Some(t)) && datetime::known_datetime(t@) == Some(x)),
{
    proof {
        assert forall|x: Moment|
            datetime::plain(x) && value@ == #[trigger] datetime::display_text(
                x,
            ) implies !exif_values::is_blank(value@) by {
            datetime::lemma_date_texts(x);
            datetime::lemma_date_like(value@);
            reveal_strlit("N/A");
            reveal_strlit("-");
        }
    }
    if is_empty_metadata_value(value) {
        return Ok(None);
    }
    match display_datetime_to_exif(value) {
        Ok(t) => Ok(Some(t)),
        Err(e) => Err(e),
    }
}

fn parse_basic_values(m: &ExifMetadata, readings: DecimalReadings) -> (r: Result<
    BasicValues,
    String,
>)
    ensures
        match r {
            Ok(v) => basic_model(*m, readings) == Ok::<BasicModel, Seq<char>>(v.model())
                && exif_build_laws::keeps_taken_date(*m, v.model()),
            Err(e) => basic_model(*m, readings) == Err::<BasicModel, Seq<char>>(e@),
        },
{
    let mut orientation: Option<u16> = None;
    if !is_empty_metadata_value(m.orientation.as_str()) {
        match parse_orientation_value(m.orientation.as_str()) {
            Ok(v) => {
                orientation = Some(v);
            },
            Err(e) => {
                return Err(e);
            },
        }
    }
    let datetime = match optional_exif_datetime(m.taken_date.as_str()) {
        Ok(v) => v,
        Err(e) => {
            return Err(e);
        },
    };
    let mut shutter_speed: Option<(u32, u32)> = None;
    if !is_empty_metadata_value(m.shutter_speed.as_str()) {
        match parse_exif_rational_value(m.shutter_speed.as_str(), readings.shutter_speed) {
            Ok(v) => {
                shutter_speed = Some(v);
            },
            Err(e) => {
                return Err(e);
            },
        }
    }
    let mut aperture: Option<(u32, u32)> = None;
    if !is_empty_metadata_value(m.aperture.as_str()) {
        match parse_aperture_value(readings.aperture) {
            Ok(v) => {
                aperture = Some(v);
            },
            Err(e) => {
                return Err(e);
            },
        }
    }
    let mut iso_speed: Option<u16> = None;
    if !is_empty_metadata_value(m.iso_speed.as_str()) {
        match parse_u16_value(m.iso_speed.as_str()) {
            Ok(v) => {
                iso_speed = Some(v);
            },
            Err(e) => {
                return Err(e);
            },
        }
    }
    let mut metering_mode: Option<u16> = None;
    if !is_empty_metadata_value(m.metering_mode.as_str()) {
        match parse_metering_mode_value(m.metering_mode.as_str()) {
            Ok(v) => {
                metering_mode = Some(v);
            },
            Err(e) => {
                return Err(e);
            },
        }
    }
    let mut flash: Option<u16> = None;
    if !is_empty_metadata_value(m.flash_fired.as_str()) {
        match parse_flash_value(m.flash_fired.as_str()) {
            Ok(v) => {
                flash = Some(v);
            },
            Err(e) => {
                return Err(e);
            },
        }
    }
    let mut focal_length: Option<(u32, u32)> = None;
    if !is_empty_metadata_value(m.focal_length.as_str()) {
        match parse_exif_rational_value(m.focal_length.as_str(), readings.focal_length) {
            Ok(v) => {
                focal_length = Some(v);
            },
            Err(e) => {
                return Err(e);
            },
        }
    }
    let mut color_space: Option<u16> = None;
    if !is_empty_metadata_value(m.color_space.as_str()) {
        match parse_color_space_value(m.color_space.as_str()) {
            Ok(v) => {
                color_space = Some(v);
            },
            Err(e) => {
                return Err(e);
            },
        }
    }
    Ok(
        BasicValues {
            orientation,
            datetime,
            shutter_speed,
            aperture,
            iso_speed,
            metering_mode,
            flash,
            focal_length,
            color_space,
        },
    )
}

pub open spec fn with_short(es: Seq<EntryModel>, tag: u16, value: Option<u16>) -> Seq<EntryModel> {
    match value {
        Some(v) => es.push(short_entry(tag, v)),
        None => es,
    }
}

pub open spec fn with_rational(
    es: Seq<EntryModel>,
    tag: u16,
    value: Option<(u32, u32)>,
) -> Seq<EntryModel> {
    match value {
        Some(v) => es.push(rational_entry(tag, v)),
        None => es,
    }
}

pub open spec fn with_date(es: Seq<EntryModel>, tag: u16, value: Option<Seq<char>>) -> Seq<
    EntryModel,
> {
    match value {
        Some(v) => es.push(ascii_entry(tag, v, 0)),
        None => es,
    }
}

/// An entry for an entered text, with room for a longer one.
pub open spec fn with_text(es: Seq<EntryModel>, tag: u16, value: Seq<char>) -> Seq<EntryModel> {
    es.push(ascii_entry(tag, exif_values::entered(value), DEFAULT_WRITABLE_ASCII_LEN as int))
}

/// The entries of the first directory, in the order of their tags.
pub open spec fn first_entries(m: ExifMetadata, b: BasicModel, exif_at: int) -> Seq<EntryModel> {
    let es = with_text(Seq::empty(), 0x010f, m.camera_make@);
    let es = with_text(es, 0x0110, m.camera_model@);
    let es = with_short(es, 0x0112, b.orientation);
    let es = with_text(es, 0x0131, m.software@);
    let es = with_date(es, 0x0132, b.datetime);
    let es = with_text(es, 0x013b, m.artist@);
    es.push(long_entry(tiff::EXIF_POINTER, exif_at as u32))
}

/// The entries of the EXIF directory, in the order of their tags.
pub open spec fn exif_entries(m: ExifMetadata, b: BasicModel) -> Seq<EntryModel> {
    let es = with_rational(Seq::empty(), 0x829a, b.shutter_speed);
    let es = with_rational(es, 0x829d, b.aperture);
    let es = with_short(es, 0x8827, b.iso_speed);
    let es = with_date(es, 0x9003, b.datetime);
    let es = with_date(es, 0x9004, b.datetime);
    let es = with_short(es, 0x9207, b.metering_mode);
    let es = with_short(es, 0x9209, b.flash);
    let es = with_rational(es, 0x920a, b.focal_length);
    let es = with_short(es, 0xa001, b.color_space);
    with_text(es, 0xa434, m.lens_model@)
}

/// The header of a TIFF structure whose first directory follows.
pub open spec fn tiff_header() -> Seq<u8> {
    seq![0x49u8, 0x49] + binary::u16_bytes(42, Endian::Little) + binary::u32_bytes(
        8,
        Endian::Little,
    )
}

/// Where the EXIF directory stands: behind the first one.
pub open spec fn exif_offset(m: ExifMetadata, b: BasicModel) -> int {
    8 + built_ifd(first_entries(m, b, 0), 8).len() as int
}

/// The TIFF structure of a basic set of EXIF data.
pub open spec fn basic_tiff_of(m: ExifMetadata, b: BasicModel) -> Seq<u8> {
    let at = exif_offset(m, b);
    tiff_header() + built_ifd(first_entries(m, b, at), 8) + built_ifd(exif_entries(m, b), at)
}

pub open spec fn basic_tiff(m: ExifMetadata, readings: DecimalReadings) -> Result<
    Seq<u8>,
    Seq<char>,
> {
    match basic_model(m, readings) {
        Ok(b) => Ok(basic_tiff_of(m, b)),
        Err(e) => Err(e),
    }
}

fn add_optional_short(entries: &mut Vec<TiffEntryBuilder>, tag: u16, value: Option<u16>)
    ensures
        models(final(entries)@) == with_short(models(old(entries)@), tag, value),
{
    match value {
        Some(v) => add_short(entries, tag, v),
        None => {},
    }
}

fn add_optional_rational(entries: &mut Vec<TiffEntryBuilder>, tag: u16, value: Option<(u32, u32)>)
    ensures
        models(final(entries)@) == with_rational(models(old(entries)@), tag, value),
{
    match value {
        Some(v) => add_rational(entries, tag, v),
        None => {},
    }
}

fn add_optional_date(entries: &mut Vec<TiffEntryBuilder>, tag: u16, value: &Option<String>)
    ensures
        models(final(entries)@) == with_date(
            models(old(entries)@),
            tag,
            match *value {
                Some(t) => Some(t@),
                None => None,
            },
        ),
{
    match value {
        Some(v) => add_ascii(entries, tag, v.as_str(), 0),
        None => {},
    }
}

fn add_writable_ascii(entries: &mut Vec<TiffEntryBuilder>, tag: u16, value: &str)
    ensures
        models(final(entries)@) == with_text(models(old(entries)@), tag, value@),
{
    let entered = entered_text(value);
    add_ascii(entries, tag, entered.as_str(), DEFAULT_WRITABLE_ASCII_LEN);
}

fn build_first_entries(m: &ExifMetadata, v: &BasicValues, exif_at: u32) -> (r: Vec<
    TiffEntryBuilder,
>)
    ensures
        models(r@) == first_entries(*m, v.model(), exif_at as int),
        r@.len() <= 7,
{
    let mut entries: Vec<TiffEntryBuilder> = Vec::new();
    assert(models(entries@) =~= Seq::<EntryModel>::empty());
    add_writable_ascii(&mut entries, 0x010f, m.camera_make.as_str());
    add_writable_ascii(&mut entries, 0x0110, m.camera_model.as_str());
    add_optional_short(&mut entries, 0x0112, v.orientation);
    add_writable_ascii(&mut entries, 0x0131, m.software.as_str());
    add_optional_date(&mut entries, 0x0132, &v.datetime);
    add_writable_ascii(&mut entries, 0x013b, m.artist.as_str());
    add_long(&mut entries, tiff::EXIF_POINTER, exif_at);
    assert(models(entries@).len() == entries@.len());
    entries
}

fn build_exif_entries(m: &ExifMetadata, v: &BasicValues) -> (r: Vec<TiffEntryBuilder>)
    ensures
        models(r@) == exif_entries(*m, v.model()),
        r@.len() <= 10,
{
    let mut entries: Vec<TiffEntryBuilder> = Vec::new();
    assert(models(entries@) =~= Seq::<EntryModel>::empty());
    add_optional_rational(&mut entries, 0x829a, v.shutter_speed);
    add_optional_rational(&mut entries, 0x829d, v.aperture);
    add_optional_short(&mut entries, 0x8827, v.iso_speed);
    add_optional_date(&mut entries, 0x9003, &v.datetime);
    add_optional_date(&mut entries, 0x9004, &v.datetime);
    add_optional_short(&mut entries, 0x9207, v.metering_mode);
    add_optional_short(&mut entries, 0x9209, v.flash);
    add_optional_rational(&mut entries, 0x920a, v.focal_length);
    add_optional_short(&mut entries, 0xa001, v.color_space);
    add_writable_ascii(&mut entries, 0xa434, m.lens_model.as_str());
    assert(models(entries@).len() == entries@.len());
    entries
}

pub(crate) fn write_header(tiff: &mut Vec<u8>)
    requires
        old(tiff)@.len() == 0,
    ensures
        final(tiff)@ == tiff_header(),
        final(tiff)@.len() == 8,
{
    tiff.push(0x49);
    tiff.push(0x49);
    append_u16(tiff, 42, Endian::Little);
    append_u32(tiff, 8, Endian::Little);
    proof {
        binary::u16_bytes_read_back(42, Endian::Little);
        binary::u32_bytes_read_back(8, Endian::Little);
        assert(tiff@ =~= tiff_header());
    }
}

/// Builds the TIFF structure for metadata, given what the decimal numbers
/// among its values read as.
pub fn build_basic_tiff(metadata: &ExifMetadata, readings: DecimalReadings) -> (r: Result<
    Vec<u8>,
    String,
>)
    ensures
        match r {
            Ok(v) => basic_tiff(*metadata, readings) == Ok::<Seq<u8>, Seq<char>>(v@),
            Err(e) => basic_tiff(*metadata, readings) == Err::<Seq<u8>, Seq<char>>(e@),
        },
        r matches Ok(v) ==> exif_build_laws::keeps_taken_date(
            *metadata,
            basic_model(*metadata, readings)->Ok_0,
        ),
        r matches Ok(v) ==> v@.len() <= u32::MAX && exif_build_laws::texts_without_zero(*metadata)
            ==> exif_build_laws::shows_taken_date(v@, *metadata),
{
    let values = match parse_basic_values(metadata, readings) {
        Ok(values) => values,
        Err(e) => {
            return Err(e);
        },
    };
    let mut draft: Vec<u8> = Vec::new();
    write_header(&mut draft);
    let draft_entries = build_first_entries(metadata, &values, 0);
    write_ifd(&mut draft, &draft_entries);
    let exif_at: usize = draft.len();
    let mut tiff: Vec<u8> = Vec::new();
    write_header(&mut tiff);
    let first = build_first_entries(metadata, &values, exif_at as u32);
    write_ifd(&mut tiff, &first);
    let exif = build_exif_entries(metadata, &values);
    proof {
        let m = *metadata;
        let b = values.model();
        assert(exif_at == exif_offset(m, b));
        lemma_first_len(m, b, 0, exif_at as int);
        assert(models(first@) == first_entries(m, b, (exif_at as u32) as int));
        assert(first_entries(m, b, (exif_at as u32) as int) =~= first_entries(
            m,
            b,
            exif_at as int,
        ));
    }
    write_ifd(&mut tiff, &exif);
    proof {
        let m = *metadata;
        let b = values.model();
        if tiff@.len() <= u32::MAX && exif_build_laws::texts_without_zero(m) {
            exif_build_laws::lemma_basic_date(m, readings);
            exif_build_laws::built_structure_reads_back(m, b, Seq::empty());
            assert(tiff@ + Seq::<u8>::empty() =~= tiff@);
            exif_build_laws::lemma_taken_date(tiff@, m, b);
        }
    }
    Ok(tiff)
}

pub proof fn lemma_first_len(m: ExifMetadata, b: BasicModel, x: int, y: int)
    ensures
        built_ifd(first_entries(m, b, x), 8).len() == built_ifd(first_entries(m, b, y), 8).len(),
        built_ifd(first_entries(m, b, x), 8).len() == 6 + 12 * first_entries(m, b, x).len()
            + extras(first_entries(m, b, x), first_entries(m, b, x).len() as int).len(),
{
    let a = first_entries(m, b, x);
    let c = first_entries(m, b, y);
    let n = a.len() as int;
    assert(c.len() == n);
    lemma_built_len(a, 8);
    lemma_built_len(c, 8);
    binary::u32_bytes_read_back(x as u32, Endian::Little);
    binary::u32_bytes_read_back(y as u32, Endian::Little);
    assert(a.drop_last() =~= c.drop_last());
    lemma_extras_prefix(a, a.drop_last(), n - 1);
    lemma_extras_prefix(c, c.drop_last(), n - 1);
}

proof fn lemma_extras_prefix(a: Seq<EntryModel>, b: Seq<EntryModel>, n: int)
    requires
        n <= a.len(),
        n <= b.len(),
        forall|i: int| 0 <= i < n ==> a[i] == b[i],
    ensures
        extras(a, n) == extras(b, n),
    decreases n,
{
    if n > 0 {
        lemma_extras_prefix(a, b, n - 1);
    }
}

/// A directory takes twelve bytes for each entry and six around them.
pub proof fn lemma_built_len(es: Seq<EntryModel>, at: int)
    ensures
        built_ifd(es, at).len() == 6 + 12 * es.len() + extras(es, es.len() as int).len(),
{
    lemma_table_len(es, es.len() as int, at + 6 + 12 * es.len());
    binary::u16_bytes_read_back(es.len() as u16, Endian::Little);
    binary::u32_bytes_read_back(0, Endian::Little);
}

pub proof fn lemma_built_bytes_len(e: EntryModel, offset: int)
    ensures
        built_bytes(e, offset).len() == 12,
{
    binary::u16_bytes_read_back(e.tag, Endian::Little);
    binary::u16_bytes_read_back(e.field_type, Endian::Little);
    binary::u32_bytes_read_back(e.count, Endian::Little);
    binary::u32_bytes_read_back(offset as u32, Endian::Little);
}

pub proof fn lemma_table_len(es: Seq<EntryModel>, n: int, base: int)
    requires
        0 <= n <= es.len(),
    ensures
        table_bytes(es, n, base).len() == 12 * n,
    decreases n,
{
    if n > 0 {
        lemma_table_len(es, n - 1, base);
        lemma_built_bytes_len(es[n - 1], base + extras(es, n - 1).len());
    }
}

/// The APP1 segment for a basic set of EXIF data.
pub open spec fn basic_app1(m: ExifMetadata, readings: DecimalReadings) -> Result<
    Seq<u8>,
    Seq<char>,
> {
    match basic_tiff(m, readings) {
        Ok(t) => jpeg::exif_app1(t),
        Err(e) => Err(e),
    }
}

pub fn build_basic_exif_app1(metadata: &ExifMetadata, readings: DecimalReadings) -> (r: Result<
    Vec<u8>,
    String,
>)
    ensures
        match r {
            Ok(v) => basic_app1(*metadata, readings) == Ok::<Seq<u8>, Seq<char>>(v@)
                && exif_build_laws::keeps_taken_date(
                *metadata,
                basic_model(*metadata, readings)->Ok_0,
            ),
            Err(e) => basic_app1(*metadata, readings) == Err::<Seq<u8>, Seq<char>>(e@),
        },
{
    match build_basic_tiff(metadata, readings) {
        Ok(tiff) => build_exif_app1_from_tiff(tiff.as_slice()),
        Err(e) => Err(e),
    }
}

} // verus!
