//! Changes of single EXIF tags, made one after the other in the bytes of a file,
//! and what follows when one of them fails.
use crate::date_shift::{self, parse_combined_gps_date_time};
use crate::datetime;
use crate::details_form::{DetailsForm, APERTURE, ARTIST, CAMERA_MAKE, CAMERA_MODEL, COLOR_SPACE,
    FLASH_FIRED, FOCAL_LENGTH, GPS_DATE_TIME, ISO_SPEED, LENS_MODEL, METERING_MODE, ORIENTATION,
    SHUTTER_SPEED, SOFTWARE, TAKEN_DATE};
use crate::exif::ExifMetadata;
use crate::exif_build::DecimalReadings;
use crate::exif_edit::{self, remove_gps_information, rewrite_repairable_exif_metadata};
use crate::exif_values;
use crate::exif_write::{self, text_value, value_fits, write_aperture, write_artist,
    write_camera_make, write_camera_model, write_color_space, write_flash_fired,
    write_focal_length, write_iso_speed, write_lens_model, write_metering_mode,
    write_orientation, write_shutter_speed, write_software, write_taken_date_if_it_fits};
use crate::save_plan::{self, collect_changes, is_missing_writable_exif_tag_error, PendingDate,
    TagWrite, WriteModel};
use crate::text;
use vstd::prelude::*;

verus! {

/// The tag of a field that holds a text.
pub open spec fn text_tag(field: int) -> Option<u16> {
    if field == CAMERA_MAKE {
        Some(0x010f)
    } else if field == CAMERA_MODEL {
        Some(0x0110)
    } else if field == LENS_MODEL {
        Some(0xa434)
    } else if field == SOFTWARE {
        Some(0x0131)
    } else if field == ARTIST {
        Some(0x013b)
    } else {
        None
    }
}

/// The file after a field got a value, which is written by the rule of that
/// field. There is none for a text that would run over the place of the old one,
/// nor for a field that is not written by itself.
#[verifier::opaque]
pub open spec fn value_written(
    bytes: Seq<u8>,
    field: int,
    value: Seq<char>,
    readings: DecimalReadings,
) -> Option<Result<Seq<u8>, Seq<char>>> {
    if field == TAKEN_DATE {
        let date = datetime::exif_date_of(datetime::known_datetime(value));
        match date {
            Ok(t) => if exif_write::text_fits(bytes, exif_write::date_tags(), t) {
                Some(exif_write::taken_date_written(bytes, date))
            } else {
                None
            },
            Err(_) => Some(exif_write::taken_date_written(bytes, date)),
        }
    } else if text_tag(field) is Some {
        let tags = seq![text_tag(field)->0];
        if exif_write::text_fits(bytes, tags, value) {
            Some(exif_write::tag_written(bytes, tags, exif_write::text_model(value)))
        } else {
            None
        }
    } else if field == SHUTTER_SPEED {
        Some(
            exif_write::rational_written(
                bytes,
                0x829a,
                exif_values::rational_value_of(value, readings.shutter_speed),
            ),
        )
    } else if field == APERTURE {
        Some(
            exif_write::rational_written(
                bytes,
                0x829d,
                exif_values::aperture_value_of(readings.aperture),
            ),
        )
    } else if field == ISO_SPEED {
        Some(exif_write::short_written(bytes, 0x8827, exif_values::u16_value(value)))
    } else if field == FOCAL_LENGTH {
        Some(
            exif_write::rational_written(
                bytes,
                0x920a,
                exif_values::rational_value_of(value, readings.focal_length),
            ),
        )
    } else if field == FLASH_FIRED {
        Some(exif_write::short_written(bytes, 0x9209, exif_values::flash_value(value)))
    } else if field == METERING_MODE {
        Some(exif_write::short_written(bytes, 0x9207, exif_values::metering_value(value)))
    } else if field == ORIENTATION {
        Some(exif_write::short_written(bytes, 0x0112, exif_values::u16_value(value)))
    } else if field == COLOR_SPACE {
        Some(exif_write::short_written(bytes, 0xa001, exif_values::color_space_value(value)))
    } else {
        None
    }
}

/// The file after one change. The date and the time of GPS data are not written
/// here.
pub open spec fn write_made(bytes: Seq<u8>, write: WriteModel, readings: DecimalReadings) -> Option<
    Result<Seq<u8>, Seq<char>>,
> {
    match write {
        WriteModel::Value(field, value) => value_written(bytes, field, value, readings),
        WriteModel::RemoveGps => Some(exif_edit::gps_removed(bytes)),
        WriteModel::Refuse(e) => Some(Err(e)),
        WriteModel::GpsDateTime(_, _) => None,
        WriteModel::GpsDate(_) => None,
        WriteModel::GpsTime(_) => None,
    }
}

/// How some changes ended.
#[derive(Debug)]
pub enum WritesEnd {
    /// All of them were made.
    Done,
    /// One failed, and none behind it was made.
    Failed(String),
    /// The change with this number is left to the caller, with those behind it.
    Left(usize),
}

pub enum EndModel {
    Done,
    Failed(Seq<char>),
    Left(int),
}

impl View for WritesEnd {
    type V = EndModel;

    open spec fn view(&self) -> EndModel {
        match self {
            WritesEnd::Done => EndModel::Done,
            WritesEnd::Failed(e) => EndModel::Failed(e@),
            WritesEnd::Left(i) => EndModel::Left(*i as int),
        }
    }
}

/// The file after the changes from one of them on, which are made in their order
/// until one fails or is left to the caller, and how they ended.
pub open spec fn writes_made(
    bytes: Seq<u8>,
    writes: Seq<WriteModel>,
    readings: DecimalReadings,
    i: int,
) -> (Seq<u8>, EndModel)
    decreases writes.len() - i,
{
    if i < 0 || i >= writes.len() {
        (bytes, EndModel::Done)
    } else {
        match write_made(bytes, writes[i], readings) {
            None => (bytes, EndModel::Left(i)),
            Some(Err(e)) => (bytes, EndModel::Failed(e)),
            Some(Ok(b)) => writes_made(b, writes, readings, i + 1),
        }
    }
}

fn text_fits_at(bytes: &Vec<u8>, tag: u16, value: &str) -> (r: bool)
    ensures
        r == exif_write::text_fits(bytes@, seq![tag], value@),
{
    let tags: Vec<u16> = vec![tag];
    assert(tags@ =~= seq![tag]);
    let text = text_value(value);
    value_fits(bytes.as_slice(), tags.as_slice(), &text)
}

/// A text is written over the entries of a field that holds one.
fn write_text(bytes: &mut Vec<u8>, field: usize, value: &str) -> (r: Option<Result<(), String>>)
    requires
        text_tag(field as int) is Some,
    ensures
        ({
            let tags = seq![text_tag(field as int)->0];
            match r {
                Some(r) => exif_write::text_fits(old(bytes)@, tags, value@) && exif_write::changed(
                    r,
                    old(bytes)@,
                    final(bytes)@,
                    exif_write::tag_written(old(bytes)@, tags, exif_write::text_model(value@)),
                ),
                None => !exif_write::text_fits(old(bytes)@, tags, value@) && final(bytes)@ == old(bytes)@,
            }
        }),
{
    if field == CAMERA_MAKE {
        if !text_fits_at(bytes, 0x010f, value) {
            return None;
        }
        Some(write_camera_make(bytes, value))
    } else if field == CAMERA_MODEL {
        if !text_fits_at(bytes, 0x0110, value) {
            return None;
        }
        Some(write_camera_model(bytes, value))
    } else if field == LENS_MODEL {
        if !text_fits_at(bytes, 0xa434, value) {
            return None;
        }
        Some(write_lens_model(bytes, value))
    } else if field == SOFTWARE {
        if !text_fits_at(bytes, 0x0131, value) {
            return None;
        }
        Some(write_software(bytes, value))
    } else {
        if !text_fits_at(bytes, 0x013b, value) {
            return None;
        }
        Some(write_artist(bytes, value))
    }
}

fn write_value(bytes: &mut Vec<u8>, field: usize, value: &str, readings: DecimalReadings) -> (r:
    Option<Result<(), String>>)
    ensures
        match r {
            Some(r) => value_written(old(bytes)@, field as int, value@, readings) matches Some(w)
                && exif_write::changed(r, old(bytes)@, final(bytes)@, w),
            None => value_written(old(bytes)@, field as int, value@, readings) is None && final(bytes)@ == old(bytes)@,
        },
{
    proof {
        reveal(value_written);
    }
    if field == TAKEN_DATE {
        write_taken_date_if_it_fits(bytes, value)
    } else if field == CAMERA_MAKE || field == CAMERA_MODEL || field == LENS_MODEL || field
        == SOFTWARE || field == ARTIST {
        write_text(bytes, field, value)
    } else if field == SHUTTER_SPEED {
        Some(write_shutter_speed(bytes, value, readings.shutter_speed))
    } else if field == APERTURE {
        Some(write_aperture(bytes, readings.aperture))
    } else if field == ISO_SPEED {
        Some(write_iso_speed(bytes, value))
    } else if field == FOCAL_LENGTH {
        Some(write_focal_length(bytes, value, readings.focal_length))
    } else if field == FLASH_FIRED {
        Some(write_flash_fired(bytes, value))
    } else if field == METERING_MODE {
        Some(write_metering_mode(bytes, value))
    } else if field == ORIENTATION {
        Some(write_orientation(bytes, value))
    } else if field == COLOR_SPACE {
        Some(write_color_space(bytes, value))
    } else {
        None
    }
}

/// Makes one change; what the decimal numbers among the values read as is given.
pub fn apply_tag_write(bytes: &mut Vec<u8>, write: &TagWrite, readings: DecimalReadings) -> (r:
    Option<Result<(), String>>)
    ensures
        match r {
            Some(r) => write_made(old(bytes)@, write@, readings) matches Some(w)
                && match r {
                Ok(_) => w == Ok::<Seq<u8>, Seq<char>>(final(bytes)@),
                Err(e) => w == Err::<Seq<u8>, Seq<char>>(e@) && final(bytes)@ == old(bytes)@,
            },
            None => write_made(old(bytes)@, write@, readings) is None && final(bytes)@ == old(bytes)@,
        },
{
    match write {
        TagWrite::Value(field, value) => write_value(bytes, *field, value.as_str(), readings),
        TagWrite::RemoveGps => Some(remove_gps_information(bytes)),
        TagWrite::Refuse(e) => Some(Err(e.clone())),
        TagWrite::GpsDateTime(_, _) => None,
        TagWrite::GpsDate(_) => None,
        TagWrite::GpsTime(_) => None,
    }
}

/// Makes the changes of a file in their order; the first that fails ends them.
pub fn apply_tag_writes(bytes: &mut Vec<u8>, writes: &[TagWrite], readings: DecimalReadings) -> (r:
    WritesEnd)
    ensures
        (final(bytes)@, r@) == writes_made(
            old(bytes)@,
            save_plan::write_models(writes@),
            readings,
            0,
        ),
{
    let ghost first = bytes@;
    let ghost models = save_plan::write_models(writes@);
    let n: usize = writes.len();
    let mut i: usize = 0;
    while i < n
        invariant
            i <= n,
            n == writes@.len(),
            first == old(bytes)@,
            models == save_plan::write_models(writes@),
            writes_made(first, models, readings, 0) == writes_made(
                bytes@,
                models,
                readings,
                i as int,
            ),
        decreases n - i,
    {
        assert(models[i as int] == writes@[i as int]@);
        match apply_tag_write(bytes, &writes[i], readings) {
            None => {
                return WritesEnd::Left(i);
            },
            Some(Err(e)) => {
                return WritesEnd::Failed(e);
            },
            Some(Ok(_)) => {},
        }
        i += 1;
    }
    WritesEnd::Done
}

// What follows.

/// What is done once the changes have ended.
#[derive(Debug)]
pub enum AfterWrites {
    Saved,
    /// A tag is missing, so the EXIF data are written anew.
    Repair,
    Failed(String),
    /// The change with this number is still to be made, with those behind it.
    Left(usize),
}

/// What is done once the changes have ended: a missing tag leads to a repair, any
/// other error ends the save.
pub fn after_tag_writes(end: WritesEnd) -> (r: AfterWrites)
    ensures
        match end@ {
            EndModel::Done => r is Saved,
            EndModel::Failed(e) => if text::contains_text(e, "No writable EXIF tag was found"@) {
                r is Repair
            } else {
                r matches AfterWrites::Failed(m) && m@ == e
            },
            EndModel::Left(i) => r matches AfterWrites::Left(k) && k == i,
        },
{
    match end {
        WritesEnd::Done => AfterWrites::Saved,
        WritesEnd::Failed(e) => if is_missing_writable_exif_tag_error(e.as_str()) {
            AfterWrites::Repair
        } else {
            AfterWrites::Failed(e)
        },
        WritesEnd::Left(i) => AfterWrites::Left(i),
    }
}

/// Writes the EXIF data of a file anew with the changes in the form, given what
/// the file holds now and what was read from the common field for date and time.
pub fn repair_with(
    bytes: &[u8],
    form: &DetailsForm,
    metadata: &ExifMetadata,
    pending: &PendingDate,
    parsed: Result<(Option<String>, Option<String>), String>,
    readings: DecimalReadings,
) -> (r: Result<Vec<u8>, String>)
    requires
        form@.well_formed(),
    ensures
        exists|m: ExifMetadata| #[trigger]
            save_plan::has_changes(
                m,
                *metadata,
                form@,
                *pending,
                date_shift::split_view(parsed),
            ) && is_repair(r, bytes@, m, readings),
{
    let m = collect_changes(form, metadata, pending, parsed);
    let r = rewrite_repairable_exif_metadata(bytes, &m, readings);
    assert(is_repair(r, bytes@, m, readings));
    r
}

/// The outcome of writing EXIF data anew.
pub open spec fn is_repair(
    r: Result<Vec<u8>, String>,
    bytes: Seq<u8>,
    m: ExifMetadata,
    readings: DecimalReadings,
) -> bool {
    match r {
        Ok(v) => exif_edit::repaired(bytes, m, readings) == Ok::<Seq<u8>, Seq<char>>(v@),
        Err(e) => exif_edit::repaired(bytes, m, readings) == Err::<Seq<u8>, Seq<char>>(e@),
    }
}

/// Writes the EXIF data of a file anew with the changes in the form, given what
/// the file holds now.
pub fn repair_tags(
    bytes: &[u8],
    form: &DetailsForm,
    metadata: &ExifMetadata,
    pending: &PendingDate,
    readings: DecimalReadings,
) -> (r: Result<Vec<u8>, String>)
    requires
        form@.well_formed(),
    ensures
        exists|m: ExifMetadata| #[trigger]
            save_plan::has_changes(
                m,
                *metadata,
                form@,
                *pending,
                date_shift::parsed_gps(form@.value(GPS_DATE_TIME)),
            ) && is_repair(r, bytes@, m, readings),
{
    let parsed = parse_combined_gps_date_time(form.value(GPS_DATE_TIME));
    repair_with(bytes, form, metadata, pending, parsed, readings)
}

/// A value whose tag is not in the file is the end of the changes, with an error
/// that leads to a repair; those before it stay made.
pub proof fn a_missing_tag_leads_to_repair(tags: Seq<u16>)
    ensures
        text::contains_text(
            exif_write::no_entry_message(tags),
            "No writable EXIF tag was found"@,
        ),
{
    let e = exif_write::no_entry_message(tags);
    let part = "No writable EXIF tag was found"@;
    reveal_strlit("No writable EXIF tag was found");
    reveal_strlit("No writable EXIF tag was found for tag(s) [");
    assert(e.subrange(0, 0int + part.len()) =~= part);
}

/// Where all changes of a list can be made, those of a second list behind it start
/// from what the first list left.
pub proof fn changes_are_made_in_order(
    bytes: Seq<u8>,
    a: Seq<WriteModel>,
    b: Seq<WriteModel>,
    readings: DecimalReadings,
    i: int,
)
    requires
        0 <= i <= a.len(),
        writes_made(bytes, a, readings, i).1 is Done,
    ensures
        writes_made(bytes, a + b, readings, i) == writes_made(
            writes_made(bytes, a, readings, i).0,
            a + b,
            readings,
            a.len() as int,
        ),
    decreases a.len() - i,
{
    if i < a.len() {
        assert((a + b)[i] == a[i]);
        match write_made(bytes, a[i], readings) {
            Some(Ok(x)) => {
                changes_are_made_in_order(x, a, b, readings, i + 1);
            },
            _ => {},
        }
    }
}

} // verus!
