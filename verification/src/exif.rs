//! The EXIF metadata of a photo, and how it is read from a TIFF structure.
use crate::binary::{self, read_u16, read_u32, Endian};
use crate::datetime::{self, exif_datetime_to_display};
use crate::exif_field_laws;
use crate::exif_values::{
    self, format_color_space, format_exposure_program, format_flash, format_metering,
    format_orientation, format_white_balance,
};
use crate::jpeg::{self, find_exif_tiff_start};
use crate::text::{self, decimal_text, joined_text, text_of, trimmed};
use crate::tiff::{self, last_with_tag, read_ifd_entries, read_tiff_endian, Entry};
use vstd::prelude::*;

verus! {

/// What is shown of a photo's EXIF data. A field without a value is empty.
#[derive(Debug)]
pub struct ExifMetadata {
    pub has_exif: bool,
    pub taken_date: String,
    pub date_time_original: String,
    pub date_time_digitized: String,
    pub image_date_time: String,
    pub camera_make: String,
    pub camera_model: String,
    pub lens_model: String,
    pub software: String,
    pub artist: String,
    pub image_description: String,
    pub copyright: String,
    pub exif_version: String,
    pub exposure_program: String,
    pub white_balance: String,
    pub focal_length_35mm: String,
    pub shutter_speed: String,
    pub aperture: String,
    pub iso_speed: String,
    pub focal_length: String,
    pub flash_fired: String,
    pub metering_mode: String,
    pub image_width: String,
    pub image_height: String,
    pub orientation: String,
    pub color_space: String,
    pub gps_latitude: String,
    pub gps_longitude: String,
    pub gps_altitude: String,
    pub gps_date_stamp: String,
    pub gps_time_stamp: String,
}

/// The text fields of the metadata.
#[derive(Clone, Copy, Debug, PartialEq, Eq, Structural)]
pub enum Field {
    TakenDate,
    DateTimeOriginal,
    DateTimeDigitized,
    ImageDateTime,
    CameraMake,
    CameraModel,
    LensModel,
    Software,
    Artist,
    ImageDescription,
    Copyright,
    ExifVersion,
    ExposureProgram,
    WhiteBalance,
    FocalLength35mm,
    ShutterSpeed,
    Aperture,
    IsoSpeed,
    FocalLength,
    FlashFired,
    MeteringMode,
    ImageWidth,
    ImageHeight,
    Orientation,
    ColorSpace,
    GpsLatitude,
    GpsLongitude,
    GpsAltitude,
    GpsDateStamp,
    GpsTimeStamp,
}

impl ExifMetadata {
    /// The text of a field.
    pub open spec fn field(self, f: Field) -> Seq<char> {
        match f {
            Field::TakenDate => self.taken_date@,
            Field::DateTimeOriginal => self.date_time_original@,
            Field::DateTimeDigitized => self.date_time_digitized@,
            Field::ImageDateTime => self.image_date_time@,
            Field::CameraMake => self.camera_make@,
            Field::CameraModel => self.camera_model@,
            Field::LensModel => self.lens_model@,
            Field::Software => self.software@,
            Field::Artist => self.artist@,
            Field::ImageDescription => self.image_description@,
            Field::Copyright => self.copyright@,
            Field::ExifVersion => self.exif_version@,
            Field::ExposureProgram => self.exposure_program@,
            Field::WhiteBalance => self.white_balance@,
            Field::FocalLength35mm => self.focal_length_35mm@,
            Field::ShutterSpeed => self.shutter_speed@,
            Field::Aperture => self.aperture@,
            Field::IsoSpeed => self.iso_speed@,
            Field::FocalLength => self.focal_length@,
            Field::FlashFired => self.flash_fired@,
            Field::MeteringMode => self.metering_mode@,
            Field::ImageWidth => self.image_width@,
            Field::ImageHeight => self.image_height@,
            Field::Orientation => self.orientation@,
            Field::ColorSpace => self.color_space@,
            Field::GpsLatitude => self.gps_latitude@,
            Field::GpsLongitude => self.gps_longitude@,
            Field::GpsAltitude => self.gps_altitude@,
            Field::GpsDateStamp => self.gps_date_stamp@,
            Field::GpsTimeStamp => self.gps_time_stamp@,
        }
    }

    /// The text of a field.
    pub fn get(&self, f: Field) -> (r: &String)
        ensures
            r@ == self.field(f),
    {
        match f {
            Field::TakenDate => &self.taken_date,
            Field::DateTimeOriginal => &self.date_time_original,
            Field::DateTimeDigitized => &self.date_time_digitized,
            Field::ImageDateTime => &self.image_date_time,
            Field::CameraMake => &self.camera_make,
            Field::CameraModel => &self.camera_model,
            Field::LensModel => &self.lens_model,
            Field::Software => &self.software,
            Field::Artist => &self.artist,
            Field::ImageDescription => &self.image_description,
            Field::Copyright => &self.copyright,
            Field::ExifVersion => &self.exif_version,
            Field::ExposureProgram => &self.exposure_program,
            Field::WhiteBalance => &self.white_balance,
            Field::FocalLength35mm => &self.focal_length_35mm,
            Field::ShutterSpeed => &self.shutter_speed,
            Field::Aperture => &self.aperture,
            Field::IsoSpeed => &self.iso_speed,
            Field::FocalLength => &self.focal_length,
            Field::FlashFired => &self.flash_fired,
            Field::MeteringMode => &self.metering_mode,
            Field::ImageWidth => &self.image_width,
            Field::ImageHeight => &self.image_height,
            Field::Orientation => &self.orientation,
            Field::ColorSpace => &self.color_space,
            Field::GpsLatitude => &self.gps_latitude,
            Field::GpsLongitude => &self.gps_longitude,
            Field::GpsAltitude => &self.gps_altitude,
            Field::GpsDateStamp => &self.gps_date_stamp,
            Field::GpsTimeStamp => &self.gps_time_stamp,
        }
    }
}

impl Default for ExifMetadata {
    fn default() -> (r: Self)
        ensures
            !r.has_exif,
            forall|f: Field| #[trigger] r.field(f) == Seq::<char>::empty(),
    {
        ExifMetadata {
            has_exif: false,
            taken_date: String::new(),
            date_time_original: String::new(),
            date_time_digitized: String::new(),
            image_date_time: String::new(),
            camera_make: String::new(),
            camera_model: String::new(),
            lens_model: String::new(),
            software: String::new(),
            artist: String::new(),
            image_description: String::new(),
            copyright: String::new(),
            exif_version: String::new(),
            exposure_program: String::new(),
            white_balance: String::new(),
            focal_length_35mm: String::new(),
            shutter_speed: String::new(),
            aperture: String::new(),
            iso_speed: String::new(),
            focal_length: String::new(),
            flash_fired: String::new(),
            metering_mode: String::new(),
            image_width: String::new(),
            image_height: String::new(),
            orientation: String::new(),
            color_space: String::new(),
            gps_latitude: String::new(),
            gps_longitude: String::new(),
            gps_altitude: String::new(),
            gps_date_stamp: String::new(),
            gps_time_stamp: String::new(),
        }
    }
}

impl Clone for ExifMetadata {
    fn clone(&self) -> (r: Self)
        ensures
            r == *self,
    {
        ExifMetadata {
            has_exif: self.has_exif,
            taken_date: self.taken_date.clone(),
            date_time_original: self.date_time_original.clone(),
            date_time_digitized: self.date_time_digitized.clone(),
            image_date_time: self.image_date_time.clone(),
            camera_make: self.camera_make.clone(),
            camera_model: self.camera_model.clone(),
            lens_model: self.lens_model.clone(),
            software: self.software.clone(),
            artist: self.artist.clone(),
            image_description: self.image_description.clone(),
            copyright: self.copyright.clone(),
            exif_version: self.exif_version.clone(),
            exposure_program: self.exposure_program.clone(),
            white_balance: self.white_balance.clone(),
            focal_length_35mm: self.focal_length_35mm.clone(),
            shutter_speed: self.shutter_speed.clone(),
            aperture: self.aperture.clone(),
            iso_speed: self.iso_speed.clone(),
            focal_length: self.focal_length.clone(),
            flash_fired: self.flash_fired.clone(),
            metering_mode: self.metering_mode.clone(),
            image_width: self.image_width.clone(),
            image_height: self.image_height.clone(),
            orientation: self.orientation.clone(),
            color_space: self.color_space.clone(),
            gps_latitude: self.gps_latitude.clone(),
            gps_longitude: self.gps_longitude.clone(),
            gps_altitude: self.gps_altitude.clone(),
            gps_date_stamp: self.gps_date_stamp.clone(),
            gps_time_stamp: self.gps_time_stamp.clone(),
        }
    }
}

/// The fractions of the EXIF data, which are shown as decimal numbers.
#[derive(Debug)]
pub struct ExifNumbers {
    pub shutter_speed: Option<(u32, u32)>,
    pub aperture: Option<(u32, u32)>,
    pub focal_length: Option<(u32, u32)>,
    pub latitude: Option<(String, ((u32, u32), (u32, u32), (u32, u32)))>,
    pub longitude: Option<(String, ((u32, u32), (u32, u32), (u32, u32)))>,
    /// The altitude in meters, and whether it is below sea level.
    pub altitude: Option<(bool, (u32, u32))>,
}

/// What was read from EXIF data: the texts, and the fractions beside them.
#[derive(Debug)]
pub struct ExifReading {
    pub metadata: ExifMetadata,
    pub numbers: ExifNumbers,
}

// The texts of entries.

/// The text that `String::from_utf8_lossy` makes of bytes that are not UTF-8.
pub uninterp spec fn utf8_replaced(bytes: Seq<u8>) -> Seq<char>;

/// The text that bytes stand for.
pub open spec fn utf8_text(bytes: Seq<u8>) -> Seq<char> {
    if vstd::utf8::valid_utf8(bytes) {
        vstd::utf8::decode_utf8(bytes)
    } else {
        utf8_replaced(bytes)
    }
}

/// The text of bytes, made with `String::from_utf8_lossy`: UTF-8 is decoded.
/// What stands in place of bytes that are not UTF-8 is not stated.
#[verifier::external_body]
fn lossy_text(bytes: &[u8]) -> (r: String)
    ensures
        vstd::utf8::valid_utf8(bytes@) ==> r@ == vstd::utf8::decode_utf8(bytes@),
        !vstd::utf8::valid_utf8(bytes@) ==> r@ == utf8_replaced(bytes@),
{
    String::from_utf8_lossy(bytes).into_owned()
}

/// The number of bytes before the first zero, from a place on.
pub open spec fn zero_from(bytes: Seq<u8>, i: int) -> int
    decreases bytes.len() - i,
{
    if i >= bytes.len() || bytes[i] == 0 {
        i
    } else {
        zero_from(bytes, i + 1)
    }
}

pub fn find_zero(bytes: &[u8]) -> (r: usize)
    ensures
        r == zero_from(bytes@, 0),
        r <= bytes@.len(),
{
    let mut end: usize = 0;
    while end < bytes.len() && bytes[end] != 0
        invariant
            end <= bytes@.len(),
            zero_from(bytes@, 0) == zero_from(bytes@, end as int),
        decreases bytes@.len() - end,
    {
        end += 1;
    }
    end
}

/// The text before the first zero byte, without white space around it.
pub open spec fn terminated_text(bytes: Seq<u8>) -> Seq<char> {
    text::trim(utf8_text(bytes.take(zero_from(bytes, 0))))
}

/// The text of an entry; an empty one counts as none.
pub open spec fn ascii_value(data: Seq<u8>, pos: int, endian: Endian) -> Option<Seq<char>> {
    if tiff::type_at(data, pos, endian) != 2 {
        None
    } else {
        match tiff::value_bytes(data, pos, endian) {
            None => None,
            Some(v) => if terminated_text(v).len() > 0 {
                Some(terminated_text(v))
            } else {
                None
            },
        }
    }
}

fn as_ascii(entry: &Entry, data: &[u8], endian: Endian) -> (r: Option<String>)
    requires
        entry.reads(data@, endian),
    ensures
        match r {
            Some(t) => ascii_value(data@, entry.pos as int, endian) == Some(t@),
            None => ascii_value(data@, entry.pos as int, endian) is None,
        },
{
    if entry.field_type != 2 {
        return None;
    }
    let bytes = match entry.bytes(data, endian) {
        None => {
            return None;
        },
        Some(bytes) => bytes,
    };
    let end: usize = find_zero(bytes.as_slice());
    let part = &bytes.as_slice()[0..end];
    assert(part@ =~= bytes@.take(end as int));
    let whole = lossy_text(part);
    let value = trimmed(whole.as_str());
    if value.is_empty() {
        None
    } else {
        Some(value.to_owned())
    }
}

/// The digits among some bytes.
pub open spec fn digits_among(bytes: Seq<u8>) -> Seq<char>
    decreases bytes.len(),
{
    if bytes.len() == 0 {
        Seq::empty()
    } else {
        let rest = digits_among(bytes.drop_last());
        if 48 <= bytes.last() <= 57 {
            rest.push(bytes.last() as char)
        } else {
            rest
        }
    }
}

/// The version that an entry of undefined type holds: its digits, four of
/// them with a dot in the middle.
pub open spec fn version_value(data: Seq<u8>, pos: int, endian: Endian) -> Option<Seq<char>> {
    if tiff::type_at(data, pos, endian) != 7 {
        None
    } else {
        match tiff::value_bytes(data, pos, endian) {
            None => None,
            Some(v) => {
                let d = digits_among(v);
                if d.len() == 4 {
                    Some(d.take(2) + seq!['.'] + d.skip(2))
                } else if d.len() > 0 {
                    Some(d)
                } else {
                    None
                }
            },
        }
    }
}

fn as_version_string(entry: &Entry, data: &[u8], endian: Endian) -> (r: Option<String>)
    requires
        entry.reads(data@, endian),
    ensures
        match r {
            Some(t) => version_value(data@, entry.pos as int, endian) == Some(t@),
            None => version_value(data@, entry.pos as int, endian) is None,
        },
{
    if entry.field_type != 7 {
        return None;
    }
    let bytes = match entry.bytes(data, endian) {
        None => {
            return None;
        },
        Some(bytes) => bytes,
    };
    let mut digits: Vec<char> = Vec::new();
    let mut i: usize = 0;
    assert(digits@ =~= digits_among(bytes@.take(0)));
    while i < bytes.len()
        invariant
            i <= bytes@.len(),
            digits@ == digits_among(bytes@.take(i as int)),
        decreases bytes@.len() - i,
    {
        assert(bytes@.take(i + 1).drop_last() =~= bytes@.take(i as int));
        if 48 <= bytes[i] && bytes[i] <= 57 {
            digits.push(bytes[i] as char);
        }
        i += 1;
    }
    assert(bytes@.take(bytes@.len() as int) =~= bytes@);
    if digits.len() == 4 {
        let dotted: Vec<char> = vec![digits[0], digits[1], '.', digits[2], digits[3]];
        assert(dotted@ =~= digits@.take(2) + seq!['.'] + digits@.skip(2));
        Some(text_of(dotted.as_slice()))
    } else if digits.len() > 0 {
        Some(text_of(digits.as_slice()))
    } else {
        None
    }
}

// The fields, by the directories that hold them. Of several entries with the
// same tag the last one counts.

pub open spec fn text_or_empty(t: Option<Seq<char>>) -> Seq<char> {
    match t {
        Some(t) => t,
        None => Seq::empty(),
    }
}

/// The last entry with a tag in a directory, if there is the directory.
pub open spec fn entry_in(data: Seq<u8>, dir: Option<u32>, endian: Endian, tag: u16) -> Option<
    int,
> {
    match dir {
        None => None,
        Some(at) => tiff::last_entry(data, at as int, endian, tag),
    }
}

#[verifier::opaque]
pub open spec fn text_in(data: Seq<u8>, dir: Option<u32>, endian: Endian, tag: u16) -> Option<
    Seq<char>,
> {
    match entry_in(data, dir, endian, tag) {
        None => None,
        Some(p) => ascii_value(data, p, endian),
    }
}

/// The date in an entry, as it is shown.
#[verifier::opaque]
pub open spec fn date_in(data: Seq<u8>, dir: Option<u32>, endian: Endian, tag: u16) -> Seq<char> {
    match text_in(data, dir, endian, tag) {
        None => Seq::empty(),
        Some(t) => datetime::display_of(datetime::known_datetime(t), t),
    }
}

#[verifier::opaque]
pub open spec fn short_in(data: Seq<u8>, dir: Option<u32>, endian: Endian, tag: u16) -> Option<
    u16,
> {
    match entry_in(data, dir, endian, tag) {
        None => None,
        Some(p) => tiff::short_value(data, p, endian),
    }
}

#[verifier::opaque]
pub open spec fn long_in(data: Seq<u8>, dir: Option<u32>, endian: Endian, tag: u16) -> Option<u32> {
    match entry_in(data, dir, endian, tag) {
        None => None,
        Some(p) => tiff::long_value(data, p, endian),
    }
}

#[verifier::opaque]
pub open spec fn rational_in(data: Seq<u8>, dir: Option<u32>, endian: Endian, tag: u16) -> Option<
    (u32, u32),
> {
    match entry_in(data, dir, endian, tag) {
        None => None,
        Some(p) => tiff::rational_value(data, p, endian),
    }
}

#[verifier::opaque]
pub open spec fn triple_in(data: Seq<u8>, dir: Option<u32>, endian: Endian, tag: u16) -> Option<
    ((u32, u32), (u32, u32), (u32, u32)),
> {
    match entry_in(data, dir, endian, tag) {
        None => None,
        Some(p) => tiff::rational_triple(data, p, endian),
    }
}

#[verifier::opaque]
pub open spec fn byte_in(data: Seq<u8>, dir: Option<u32>, endian: Endian, tag: u16) -> Option<u8> {
    match entry_in(data, dir, endian, tag) {
        None => None,
        Some(p) => tiff::byte_value(data, p, endian),
    }
}

#[verifier::opaque]
pub open spec fn version_in(data: Seq<u8>, dir: Option<u32>, endian: Endian, tag: u16) -> Option<
    Seq<char>,
> {
    match entry_in(data, dir, endian, tag) {
        None => None,
        Some(p) => version_value(data, p, endian),
    }
}

/// The EXIF directory.
pub open spec fn exif_dir(data: Seq<u8>, endian: Endian, ifd0: u32) -> Option<u32> {
    long_in(data, Some(ifd0), endian, tiff::EXIF_POINTER)
}

/// The GPS directory.
pub open spec fn gps_dir(data: Seq<u8>, endian: Endian, ifd0: u32) -> Option<u32> {
    match long_in(data, Some(ifd0), endian, tiff::GPS_POINTER) {
        Some(v) => if v > 0 {
            Some(v)
        } else {
            None
        },
        None => None,
    }
}

pub open spec fn first_filled(a: Seq<char>, b: Seq<char>, c: Seq<char>) -> Seq<char> {
    if a.len() > 0 {
        a
    } else if b.len() > 0 {
        b
    } else {
        c
    }
}

/// What a field shows, by the data that hold it.
pub open spec fn field_in(data: Seq<u8>, endian: Endian, ifd0: u32, f: Field) -> Seq<char> {
    let d0 = Some(ifd0);
    let d1 = exif_dir(data, endian, ifd0);
    match f {
        Field::ImageDescription => text_or_empty(text_in(data, d0, endian, 0x010e)),
        Field::CameraMake => text_or_empty(text_in(data, d0, endian, 0x010f)),
        Field::CameraModel => text_or_empty(text_in(data, d0, endian, 0x0110)),
        Field::Orientation => match short_in(data, d0, endian, 0x0112) {
            Some(v) => exif_values::orientation_text(v),
            None => Seq::empty(),
        },
        Field::Software => text_or_empty(text_in(data, d0, endian, 0x0131)),
        Field::ImageDateTime => date_in(data, d0, endian, 0x0132),
        Field::Artist => text_or_empty(text_in(data, d0, endian, 0x013b)),
        Field::Copyright => text_or_empty(text_in(data, d0, endian, 0x8298)),
        Field::ExposureProgram => match short_in(data, d1, endian, 0x8822) {
            Some(v) => exif_values::exposure_program_text(v),
            None => Seq::empty(),
        },
        Field::IsoSpeed => match short_in(data, d1, endian, 0x8827) {
            Some(v) => text::decimal(v as nat),
            None => Seq::empty(),
        },
        Field::DateTimeOriginal => date_in(data, d1, endian, 0x9003),
        Field::DateTimeDigitized => date_in(data, d1, endian, 0x9004),
        Field::ExifVersion => text_or_empty(version_in(data, d1, endian, 0x9000)),
        Field::MeteringMode => match short_in(data, d1, endian, 0x9207) {
            Some(v) => exif_values::metering_text(v),
            None => Seq::empty(),
        },
        Field::FlashFired => match short_in(data, d1, endian, 0x9209) {
            Some(v) => exif_values::flash_text(v),
            None => Seq::empty(),
        },
        Field::ColorSpace => match short_in(data, d1, endian, 0xa001) {
            Some(v) => exif_values::color_space_text(v),
            None => Seq::empty(),
        },
        Field::ImageWidth => match long_in(data, d1, endian, 0xa002) {
            Some(v) => text::decimal(v as nat),
            None => Seq::empty(),
        },
        Field::ImageHeight => match long_in(data, d1, endian, 0xa003) {
            Some(v) => text::decimal(v as nat),
            None => Seq::empty(),
        },
        Field::WhiteBalance => match short_in(data, d1, endian, 0xa403) {
            Some(v) => exif_values::white_balance_text(v),
            None => Seq::empty(),
        },
        Field::FocalLength35mm => match short_in(data, d1, endian, 0xa405) {
            Some(v) => text::decimal(v as nat) + " mm"@,
            None => Seq::empty(),
        },
        Field::LensModel => text_or_empty(text_in(data, d1, endian, 0xa434)),
        Field::TakenDate => first_filled(
            date_in(data, d1, endian, 0x9003),
            date_in(data, d1, endian, 0x9004),
            date_in(data, d0, endian, 0x0132),
        ),
        _ => Seq::empty(),
    }
}

/// A GPS coordinate: the hemisphere and the three fractions.
#[verifier::opaque]
pub open spec fn coordinate_in(
    data: Seq<u8>,
    dir: Option<u32>,
    endian: Endian,
    reference_tag: u16,
    value_tag: u16,
) -> Option<(Seq<char>, ((u32, u32), (u32, u32), (u32, u32)))> {
    match (text_in(data, dir, endian, reference_tag), triple_in(data, dir, endian, value_tag)) {
        (Some(reference), Some(value)) => Some((reference, value)),
        _ => None,
    }
}

pub open spec fn coordinate_view(
    c: Option<(String, ((u32, u32), (u32, u32), (u32, u32)))>,
) -> Option<(Seq<char>, ((u32, u32), (u32, u32), (u32, u32)))> {
    match c {
        Some((reference, value)) => Some((reference@, value)),
        None => None,
    }
}

/// The fractions are those that the data hold.
pub open spec fn numbers_in(n: ExifNumbers, data: Seq<u8>, endian: Endian, ifd0: u32) -> bool {
    let d1 = exif_dir(data, endian, ifd0);
    let d2 = gps_dir(data, endian, ifd0);
    &&& n.shutter_speed == rational_in(data, d1, endian, 0x829a)
    &&& n.aperture == rational_in(data, d1, endian, 0x829d)
    &&& n.focal_length == rational_in(data, d1, endian, 0x920a)
    &&& coordinate_view(n.latitude) == coordinate_in(data, d2, endian, 1, 2)
    &&& coordinate_view(n.longitude) == coordinate_in(data, d2, endian, 3, 4)
    &&& n.altitude == (match rational_in(data, d2, endian, 6) {
        Some(v) => Some((byte_in(data, d2, endian, 5) == Some(1u8), v)),
        None => None,
    })
}

/// Where the first directory of a TIFF structure stands, if it can be read.
pub open spec fn readable_tiff(data: Seq<u8>) -> Option<(Endian, u32)> {
    match tiff::tiff_endian(data) {
        None => None,
        Some(endian) => if data.len() < 8 || binary::u16_at(data, 2, endian) != Some(42u16) {
            None
        } else {
            match binary::u32_at(data, 4, endian) {
                None => None,
                Some(ifd0) => if tiff::ifd_len(data, ifd0 as int, endian) is Some {
                    Some((endian, ifd0))
                } else {
                    None
                },
            }
        },
    }
}

/// The reading of a TIFF structure.
pub open spec fn reads_tiff(r: Option<ExifReading>, data: Seq<u8>) -> bool {
    match readable_tiff(data) {
        None => r is None,
        Some((endian, ifd0)) => r matches Some(x) && x.metadata.has_exif && (forall|f: Field| #[trigger]
            x.metadata.field(f) == field_in(data, endian, ifd0, f)) && numbers_in(
            x.numbers,
            data,
            endian,
            ifd0,
        ),
    }
}

/// The entries of a directory that may not be there.
struct Directory {
    at: Option<u32>,
    entries: Vec<Entry>,
}

impl Directory {
    spec fn holds(self, data: Seq<u8>, endian: Endian) -> bool {
        match self.at {
            None => self.entries@.len() == 0,
            Some(at) => if tiff::ifd_len(data, at as int, endian) is Some {
                tiff::entries_of(self.entries@, data, at as int, endian)
            } else {
                self.entries@.len() == 0
            },
        }
    }

    fn read(data: &[u8], at: Option<u32>, endian: Endian) -> (r: Directory)
        ensures
            r.at == at,
            r.holds(data@, endian),
    {
        match at {
            None => Directory { at, entries: Vec::new() },
            Some(offset) => match read_ifd_entries(data, offset as usize, endian) {
                None => Directory { at, entries: Vec::new() },
                Some(entries) => Directory { at, entries },
            },
        }
    }

    fn last(&self, data: &[u8], endian: Endian, tag: u16) -> (r: Option<Entry>)
        requires
            self.holds(data@, endian),
        ensures
            match r {
                Some(e) => e.reads(data@, endian) && entry_in(data@, self.at, endian, tag) == Some(
                    e.pos as int,
                ),
                None => entry_in(data@, self.at, endian, tag) is None,
            },
    {
        match self.at {
            None => None,
            Some(at) => {
                if self.entries.len() == 0 {
                    return None;
                }
                last_with_tag(
                    self.entries.as_slice(),
                    tag,
                    Ghost(data@),
                    Ghost(at as int),
                    endian,
                )
            },
        }
    }

    fn optional_text(&self, data: &[u8], endian: Endian, tag: u16) -> (r: Option<String>)
        requires
            self.holds(data@, endian),
        ensures
            match r {
                Some(t) => text_in(data@, self.at, endian, tag) == Some(t@),
                None => text_in(data@, self.at, endian, tag) is None,
            },
    {
        proof {
            reveal(text_in);
        }
        match self.last(data, endian, tag) {
            None => None,
            Some(e) => as_ascii(&e, data, endian),
        }
    }

    fn text(&self, data: &[u8], endian: Endian, tag: u16) -> (r: String)
        requires
            self.holds(data@, endian),
        ensures
            r@ == text_or_empty(text_in(data@, self.at, endian, tag)),
    {
        match self.optional_text(data, endian, tag) {
            Some(t) => t,
            None => String::new(),
        }
    }

    fn date(&self, data: &[u8], endian: Endian, tag: u16) -> (r: String)
        requires
            self.holds(data@, endian),
        ensures
            r@ == date_in(data@, self.at, endian, tag),
    {
        proof {
            reveal(date_in);
        }
        match self.optional_text(data, endian, tag) {
            Some(t) => exif_datetime_to_display(t.as_str()),
            None => String::new(),
        }
    }

    fn short(&self, data: &[u8], endian: Endian, tag: u16) -> (r: Option<u16>)
        requires
            self.holds(data@, endian),
        ensures
            r == short_in(data@, self.at, endian, tag),
    {
        proof {
            reveal(short_in);
        }
        match self.last(data, endian, tag) {
            None => None,
            Some(e) => e.as_short(data, endian),
        }
    }

    fn long(&self, data: &[u8], endian: Endian, tag: u16) -> (r: Option<u32>)
        requires
            self.holds(data@, endian),
        ensures
            r == long_in(data@, self.at, endian, tag),
    {
        proof {
            reveal(long_in);
        }
        match self.last(data, endian, tag) {
            None => None,
            Some(e) => e.as_long(data, endian),
        }
    }

    fn number(&self, data: &[u8], endian: Endian, tag: u16) -> (r: String)
        requires
            self.holds(data@, endian),
        ensures
            r@ == (match long_in(data@, self.at, endian, tag) {
                Some(v) => text::decimal(v as nat),
                None => Seq::empty(),
            }),
    {
        match self.long(data, endian, tag) {
            None => String::new(),
            Some(v) => decimal_text(v as u64),
        }
    }

    fn rational(&self, data: &[u8], endian: Endian, tag: u16) -> (r: Option<(u32, u32)>)
        requires
            self.holds(data@, endian),
        ensures
            r == rational_in(data@, self.at, endian, tag),
    {
        proof {
            reveal(rational_in);
        }
        match self.last(data, endian, tag) {
            None => None,
            Some(e) => e.as_rational(data, endian),
        }
    }

    fn coordinate(&self, data: &[u8], endian: Endian, reference_tag: u16, value_tag: u16) -> (r:
        Option<(String, ((u32, u32), (u32, u32), (u32, u32)))>)
        requires
            self.holds(data@, endian),
        ensures
            coordinate_view(r) == coordinate_in(
                data@,
                self.at,
                endian,
                reference_tag,
                value_tag,
            ),
    {
        proof {
            reveal(coordinate_in);
            reveal(triple_in);
        }
        let reference = self.optional_text(data, endian, reference_tag);
        let value = match self.last(data, endian, value_tag) {
            None => None,
            Some(e) => e.as_rational_array3(data, endian),
        };
        match (reference, value) {
            (Some(reference), Some(value)) => Some((reference, value)),
            _ => None,
        }
    }

    fn version(&self, data: &[u8], endian: Endian, tag: u16) -> (r: String)
        requires
            self.holds(data@, endian),
        ensures
            r@ == text_or_empty(version_in(data@, self.at, endian, tag)),
    {
        proof {
            reveal(version_in);
        }
        match self.last(data, endian, tag) {
            None => String::new(),
            Some(e) => match as_version_string(&e, data, endian) {
                None => String::new(),
                Some(t) => t,
            },
        }
    }

    fn byte(&self, data: &[u8], endian: Endian, tag: u16) -> (r: Option<u8>)
        requires
            self.holds(data@, endian),
        ensures
            r == byte_in(data@, self.at, endian, tag),
    {
        proof {
            reveal(byte_in);
        }
        match self.last(data, endian, tag) {
            None => None,
            Some(e) => e.as_byte(data, endian),
        }
    }
}

fn pick_first(a: &String, b: &String, c: &String) -> (r: String)
    ensures
        r@ == first_filled(a@, b@, c@),
{
    if !a.as_str().is_empty() {
        a.clone()
    } else if !b.as_str().is_empty() {
        b.clone()
    } else {
        c.clone()
    }
}

fn parse_gps_ifd(data: &[u8], dir: &Directory, endian: Endian) -> (r: (
    Option<(String, ((u32, u32), (u32, u32), (u32, u32)))>,
    Option<(String, ((u32, u32), (u32, u32), (u32, u32)))>,
    Option<(bool, (u32, u32))>,
))
    requires
        dir.holds(data@, endian),
    ensures
        coordinate_view(r.0) == coordinate_in(data@, dir.at, endian, 1, 2),
        coordinate_view(r.1) == coordinate_in(data@, dir.at, endian, 3, 4),
        r.2 == (match rational_in(data@, dir.at, endian, 6) {
            Some(v) => Some((byte_in(data@, dir.at, endian, 5) == Some(1u8), v)),
            None => None,
        }),
{
    let latitude = dir.coordinate(data, endian, 1, 2);
    let longitude = dir.coordinate(data, endian, 3, 4);
    let below: bool = match dir.byte(data, endian, 5) {
        Some(b) => b == 1,
        None => false,
    };
    let altitude = match dir.rational(data, endian, 6) {
        Some(v) => Some((below, v)),
        None => None,
    };
    (latitude, longitude, altitude)
}

/// Reads the EXIF data of a TIFF structure.
pub fn parse_tiff(data: &[u8]) -> (r: Option<ExifReading>)
    ensures
        reads_tiff(r, data@),
        r matches Some(x) ==> exif_field_laws::shows_the_size(x, data@),
{
    if data.len() < 8 {
        return None;
    }
    let endian = match read_tiff_endian(data) {
        None => {
            return None;
        },
        Some(endian) => endian,
    };
    match read_u16(data, 2, endian) {
        Some(42) => {},
        _ => {
            return None;
        },
    }
    let ifd0: u32 = match read_u32(data, 4, endian) {
        None => {
            return None;
        },
        Some(at) => at,
    };
    match read_ifd_entries(data, ifd0 as usize, endian) {
        None => {
            return None;
        },
        Some(_) => {},
    }
    let d0 = Directory::read(data, Some(ifd0), endian);
    let d1 = Directory::read(data, d0.long(data, endian, tiff::EXIF_POINTER), endian);
    let gps_at: Option<u32> = match d0.long(data, endian, tiff::GPS_POINTER) {
        Some(v) => if v > 0 {
            Some(v)
        } else {
            None
        },
        None => None,
    };
    let d2 = Directory::read(data, gps_at, endian);
    let date_time_original = d1.date(data, endian, 0x9003);
    let date_time_digitized = d1.date(data, endian, 0x9004);
    let image_date_time = d0.date(data, endian, 0x0132);
    let taken_date = pick_first(&date_time_original, &date_time_digitized, &image_date_time);
    let (latitude, longitude, altitude) = parse_gps_ifd(data, &d2, endian);
    let metadata = ExifMetadata {
        has_exif: true,
        taken_date,
        date_time_original,
        date_time_digitized,
        image_date_time,
        camera_make: d0.text(data, endian, 0x010f),
        camera_model: d0.text(data, endian, 0x0110),
        lens_model: d1.text(data, endian, 0xa434),
        software: d0.text(data, endian, 0x0131),
        artist: d0.text(data, endian, 0x013b),
        image_description: d0.text(data, endian, 0x010e),
        copyright: d0.text(data, endian, 0x8298),
        exif_version: d1.version(data, endian, 0x9000),
        exposure_program: match d1.short(data, endian, 0x8822) {
            None => String::new(),
            Some(v) => format_exposure_program(v),
        },
        white_balance: match d1.short(data, endian, 0xa403) {
            None => String::new(),
            Some(v) => format_white_balance(v),
        },
        focal_length_35mm: match d1.short(data, endian, 0xa405) {
            None => String::new(),
            Some(v) => joined_text(decimal_text(v as u64).as_str(), " mm"),
        },
        shutter_speed: String::new(),
        aperture: String::new(),
        iso_speed: match d1.short(data, endian, 0x8827) {
            None => String::new(),
            Some(v) => decimal_text(v as u64),
        },
        focal_length: String::new(),
        flash_fired: match d1.short(data, endian, 0x9209) {
            None => String::new(),
            Some(v) => format_flash(v),
        },
        metering_mode: match d1.short(data, endian, 0x9207) {
            None => String::new(),
            Some(v) => format_metering(v),
        },
        image_width: d1.number(data, endian, 0xa002),
        image_height: d1.number(data, endian, 0xa003),
        orientation: match d0.short(data, endian, 0x0112) {
            None => String::new(),
            Some(v) => format_orientation(v),
        },
        color_space: match d1.short(data, endian, 0xa001) {
            None => String::new(),
            Some(v) => format_color_space(v),
        },
        gps_latitude: String::new(),
        gps_longitude: String::new(),
        gps_altitude: String::new(),
        gps_date_stamp: String::new(),
        gps_time_stamp: String::new(),
    };
    let numbers = ExifNumbers {
        shutter_speed: d1.rational(data, endian, 0x829a),
        aperture: d1.rational(data, endian, 0x829d),
        focal_length: d1.rational(data, endian, 0x920a),
        latitude,
        longitude,
        altitude,
    };
    let reading = ExifReading { metadata, numbers };
    proof {
        exif_field_laws::readings_show_the_size(reading, data@);
    }
    Some(reading)
}

/// What was read, or nothing where there is no EXIF data.
pub open spec fn reads_or_nothing(r: ExifReading, read: Option<(Endian, u32)>, data: Seq<u8>) -> bool {
    match read {
        Some((endian, ifd0)) => r.metadata.has_exif && (forall|f: Field| #[trigger]
            r.metadata.field(f) == field_in(data, endian, ifd0, f)) && numbers_in(
            r.numbers,
            data,
            endian,
            ifd0,
        ),
        None => !r.metadata.has_exif && (forall|f: Field| #[trigger]
            r.metadata.field(f) == Seq::<char>::empty()) && r.numbers.shutter_speed is None
            && r.numbers.aperture is None && r.numbers.focal_length is None
            && r.numbers.latitude is None && r.numbers.longitude is None && r.numbers.altitude
            is None,
    }
}

pub(crate) fn nothing_read() -> (r: ExifReading)
    ensures
        reads_or_nothing(r, None, Seq::empty()),
{
    ExifReading {
        metadata: ExifMetadata::default(),
        numbers: ExifNumbers {
            shutter_speed: None,
            aperture: None,
            focal_length: None,
            latitude: None,
            longitude: None,
            altitude: None,
        },
    }
}

/// Reads a TIFF structure that stands on its own.
pub fn read_exif_tiff_metadata(tiff: &[u8]) -> (r: ExifReading)
    ensures
        reads_or_nothing(r, readable_tiff(tiff@), tiff@),
{
    match parse_tiff(tiff) {
        Some(r) => r,
        None => nothing_read(),
    }
}

/// The TIFF data behind the head of the first EXIF segment, up to the file's end.
pub open spec fn exif_tiff(bytes: Seq<u8>) -> Option<Seq<u8>> {
    match jpeg::exif_tiff_start(bytes) {
        Some(start) => Some(bytes.skip(start)),
        None => None,
    }
}

/// Reads the EXIF data of a JPEG file from the file's bytes.
pub fn read_exif_metadata(bytes: &[u8]) -> (r: ExifReading)
    ensures
        match exif_tiff(bytes@) {
            Some(data) => reads_or_nothing(r, readable_tiff(data), data),
            None => reads_or_nothing(r, None, bytes@),
        },
{
    match find_exif_tiff_start(bytes) {
        None => nothing_read(),
        Some(start) => {
            let n: usize = bytes.len();
            let tiff = &bytes[start..n];
            assert(tiff@ =~= bytes@.skip(start as int));
            read_exif_tiff_metadata(tiff)
        },
    }
}

} // verus!
