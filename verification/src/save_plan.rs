//! What has to be written to the files when the changes in the form are saved.
use crate::date_shift::{self, parse_combined_gps_date_time};
use crate::details_form::{self, DetailsForm, FormModel, APERTURE, ARTIST, CAMERA_MAKE,
    CAMERA_MODEL, COLOR_SPACE, COPYRIGHT, CREATED, DATE_TIME_DIGITIZED, DATE_TIME_ORIGINAL,
    EXIF_VERSION, EXPOSURE_PROGRAM, FIELDS, FLASH_FIRED, FOCAL_LENGTH, FOCAL_LENGTH_35MM,
    GPS_ALTITUDE, GPS_DATE_STAMP, GPS_DATE_TIME, GPS_LATITUDE, GPS_LONGITUDE, GPS_TIME_STAMP,
    IMAGE_DATE_TIME, IMAGE_DESCRIPTION, IMAGE_HEIGHT, IMAGE_WIDTH, ISO_SPEED, LENS_MODEL,
    METERING_MODE, MODIFIED, NAME, ORIENTATION, PNG_CREATION_TIME, SHUTTER_SPEED, SOFTWARE,
    TAKEN_DATE, TRACKED, WHITE_BALANCE};
use crate::exif::{ExifMetadata, Field};
use crate::media::{self, is_mp4_path, is_mpeg_ts_path, is_png_path};
use crate::notices::{self, notice, sentence, Notice};
use crate::png::PngDateSources;
use crate::text::{self, same_text, text_contains, trimmed};
use vstd::prelude::*;

verus! {

// Which fields were changed.

/// A field whose value is written by itself.
pub open spec fn is_written_field(i: int) -> bool {
    CAMERA_MAKE <= i <= COLOR_SPACE && i != IMAGE_WIDTH && i != IMAGE_HEIGHT
}

/// A position in the world was changed.
pub open spec fn coordinates_changed(f: FormModel) -> bool {
    f.dirty[GPS_LATITUDE as int] || f.dirty[GPS_LONGITUDE as int] || f.dirty[GPS_ALTITUDE as int]
}

/// GPS data were changed.
pub open spec fn gps_changed(f: FormModel) -> bool {
    exists|i: int| GPS_LATITUDE <= i <= GPS_DATE_TIME && #[trigger] f.dirty[i]
}

/// A field that holds EXIF data was changed, the media date apart.
pub open spec fn other_exif_changed(f: FormModel) -> bool {
    exists|i: int|
        (is_written_field(i) || GPS_LATITUDE <= i <= GPS_DATE_TIME) && #[trigger] f.dirty[i]
}

pub open spec fn exif_changed(f: FormModel) -> bool {
    f.dirty[TAKEN_DATE as int] || other_exif_changed(f)
}

/// A field was changed that holds no GPS data.
pub open spec fn non_gps_changed(f: FormModel) -> bool {
    exists|i: int|
        (NAME <= i <= TAKEN_DATE || is_written_field(i) || PNG_CREATION_TIME <= i
            <= DATE_TIME_ORIGINAL) && #[trigger] f.dirty[i]
}

pub fn has_gps_metadata_changes(form: &DetailsForm) -> (r: bool)
    requires
        form@.well_formed(),
    ensures
        r == gps_changed(form@),
{
    let mut i: usize = GPS_LATITUDE;
    while i <= GPS_DATE_TIME
        invariant
            form@.well_formed(),
            GPS_LATITUDE <= i <= GPS_DATE_TIME + 1,
            forall|k: int| GPS_LATITUDE <= k < i ==> !#[trigger] form@.dirty[k],
        decreases GPS_DATE_TIME + 1 - i,
    {
        if form.is_dirty(i) {
            return true;
        }
        i += 1;
    }
    false
}

pub fn has_exif_metadata_changes_without_taken_date(form: &DetailsForm) -> (r: bool)
    requires
        form@.well_formed(),
    ensures
        r == other_exif_changed(form@),
{
    let mut i: usize = CAMERA_MAKE;
    while i <= GPS_DATE_TIME
        invariant
            form@.well_formed(),
            CAMERA_MAKE <= i <= GPS_DATE_TIME + 1,
            forall|k: int|
                CAMERA_MAKE <= k < i && k != IMAGE_WIDTH && k != IMAGE_HEIGHT
                    ==> !#[trigger] form@.dirty[k],
        decreases GPS_DATE_TIME + 1 - i,
    {
        if i != IMAGE_WIDTH && i != IMAGE_HEIGHT && form.is_dirty(i) {
            return true;
        }
        i += 1;
    }
    false
}

pub fn has_exif_metadata_changes(form: &DetailsForm) -> (r: bool)
    requires
        form@.well_formed(),
    ensures
        r == exif_changed(form@),
{
    form.is_dirty(TAKEN_DATE) || has_exif_metadata_changes_without_taken_date(form)
}

pub fn has_non_gps_metadata_changes(form: &DetailsForm) -> (r: bool)
    requires
        form@.well_formed(),
    ensures
        r == non_gps_changed(form@),
{
    let mut i: usize = NAME;
    while i < TRACKED
        invariant
            form@.well_formed(),
            i <= TRACKED,
            forall|k: int|
                0 <= k < i && (k <= TAKEN_DATE || is_written_field(k) || PNG_CREATION_TIME <= k)
                    ==> !#[trigger] form@.dirty[k],
        decreases TRACKED - i,
    {
        let plain = i <= COLOR_SPACE && i != IMAGE_WIDTH && i != IMAGE_HEIGHT;
        if (plain || i >= PNG_CREATION_TIME) && form.is_dirty(i) {
            return true;
        }
        i += 1;
    }
    false
}

/// Saving nothing but GPS data leaves the rest out, and a form with a change
/// has one of the two kinds, or one of a value that is never written.
pub proof fn changes_are_of_one_kind_or_the_other(f: FormModel, i: int)
    requires
        f.well_formed(),
        0 <= i < TRACKED,
        f.dirty[i],
        i != IMAGE_WIDTH,
        i != IMAGE_HEIGHT,
    ensures
        gps_changed(f) || non_gps_changed(f),
{
}

// Values for EXIF data.

/// The text of a field where it was changed, else the present one.
pub open spec fn edited(f: FormModel, i: usize, current: Seq<char>) -> Seq<char> {
    if f.dirty[i as int] {
        f.value(i)
    } else {
        current
    }
}

fn edited_text(form: &DetailsForm, i: usize, current: &String) -> (r: String)
    requires
        form@.well_formed(),
        i < TRACKED,
    ensures
        r@ == edited(form@, i, current@),
{
    if form.is_dirty(i) {
        form.value(i).to_owned()
    } else {
        current.clone()
    }
}

/// A media date that waits to be written to one file: no such dates are used,
/// the file has none, or it has one.
#[derive(Debug)]
pub enum PendingDate {
    NotUsed,
    Missing,
    Date(String),
}

/// The media date to write, if there is one.
pub open spec fn date_for(f: FormModel, pending: PendingDate) -> Option<Seq<char>> {
    match pending {
        PendingDate::Date(d) => Some(d@),
        PendingDate::Missing => None,
        PendingDate::NotUsed => if f.dirty[TAKEN_DATE as int] {
            Some(f.value(TAKEN_DATE))
        } else {
            None
        },
    }
}

fn find_date(form: &DetailsForm, pending: &PendingDate) -> (r: Option<String>)
    requires
        form@.well_formed(),
    ensures
        date_shift::text_view(r) == date_for(form@, *pending),
{
    match pending {
        PendingDate::Date(d) => Some(d.clone()),
        PendingDate::Missing => None,
        PendingDate::NotUsed => if form.is_dirty(TAKEN_DATE) {
            Some(form.value(TAKEN_DATE).to_owned())
        } else {
            None
        },
    }
}

/// The date or the time of GPS data after the changes.
pub open spec fn gps_part(
    f: FormModel,
    i: usize,
    current: Seq<char>,
    entered: Option<Seq<char>>,
) -> Seq<char> {
    match entered {
        Some(v) => v,
        None => edited(f, i, current),
    }
}

/// The date that stands in the common field for date and time, if that was
/// changed.
pub open spec fn entered_date(
    f: FormModel,
    parsed: Result<(Option<Seq<char>>, Option<Seq<char>>), Seq<char>>,
) -> Option<Seq<char>> {
    match parsed {
        Ok((d, t)) => if f.dirty[GPS_DATE_TIME as int] {
            d
        } else {
            None
        },
        Err(_) => None,
    }
}

pub open spec fn entered_time(
    f: FormModel,
    parsed: Result<(Option<Seq<char>>, Option<Seq<char>>), Seq<char>>,
) -> Option<Seq<char>> {
    match parsed {
        Ok((d, t)) => if f.dirty[GPS_DATE_TIME as int] {
            t
        } else {
            None
        },
        Err(_) => None,
    }
}

/// A text of the EXIF data after the changes in the form.
pub open spec fn changed_field(
    m: ExifMetadata,
    f: FormModel,
    pending: PendingDate,
    parsed: Result<(Option<Seq<char>>, Option<Seq<char>>), Seq<char>>,
    x: Field,
) -> Seq<char> {
    match x {
        Field::TakenDate => match date_for(f, pending) {
            Some(d) => d,
            None => m.field(x),
        },
        Field::CameraMake => edited(f, CAMERA_MAKE, m.field(x)),
        Field::CameraModel => edited(f, CAMERA_MODEL, m.field(x)),
        Field::LensModel => edited(f, LENS_MODEL, m.field(x)),
        Field::Software => edited(f, SOFTWARE, m.field(x)),
        Field::Artist => edited(f, ARTIST, m.field(x)),
        Field::ShutterSpeed => edited(f, SHUTTER_SPEED, m.field(x)),
        Field::Aperture => edited(f, APERTURE, m.field(x)),
        Field::IsoSpeed => edited(f, ISO_SPEED, m.field(x)),
        Field::FocalLength => edited(f, FOCAL_LENGTH, m.field(x)),
        Field::FlashFired => edited(f, FLASH_FIRED, m.field(x)),
        Field::MeteringMode => edited(f, METERING_MODE, m.field(x)),
        Field::Orientation => edited(f, ORIENTATION, m.field(x)),
        Field::ColorSpace => edited(f, COLOR_SPACE, m.field(x)),
        Field::GpsLatitude => edited(f, GPS_LATITUDE, m.field(x)),
        Field::GpsLongitude => edited(f, GPS_LONGITUDE, m.field(x)),
        Field::GpsAltitude => edited(f, GPS_ALTITUDE, m.field(x)),
        Field::GpsDateStamp => gps_part(f, GPS_DATE_STAMP, m.field(x), entered_date(f, parsed)),
        Field::GpsTimeStamp => gps_part(f, GPS_TIME_STAMP, m.field(x), entered_time(f, parsed)),
        _ => m.field(x),
    }
}

/// EXIF data with the changes in the form.
pub open spec fn has_changes(
    r: ExifMetadata,
    m: ExifMetadata,
    f: FormModel,
    pending: PendingDate,
    parsed: Result<(Option<Seq<char>>, Option<Seq<char>>), Seq<char>>,
) -> bool {
    &&& r.has_exif
    &&& forall|x: Field| #[trigger] r.field(x) == changed_field(m, f, pending, parsed, x)
}

fn gps_text(form: &DetailsForm, i: usize, current: &String, entered: Option<String>) -> (r: String)
    requires
        form@.well_formed(),
        i < TRACKED,
    ensures
        r@ == gps_part(form@, i, current@, date_shift::text_view(entered)),
{
    match entered {
        Some(v) => v,
        None => edited_text(form, i, current),
    }
}

/// The EXIF data with the changes in the form, given what was read from the
/// common field for date and time.
pub fn collect_changes(
    form: &DetailsForm,
    m: &ExifMetadata,
    pending: &PendingDate,
    parsed: Result<(Option<String>, Option<String>), String>,
) -> (r: ExifMetadata)
    requires
        form@.well_formed(),
    ensures
        has_changes(r, *m, form@, *pending, date_shift::split_view(parsed)),
{
    let ghost view = date_shift::split_view(parsed);
    let (entered_d, entered_t) = match parsed {
        Ok((d, t)) => if form.is_dirty(GPS_DATE_TIME) {
            (d, t)
        } else {
            (None, None)
        },
        Err(_) => (None, None),
    };
    let taken_date = match find_date(form, pending) {
        Some(d) => d,
        None => m.taken_date.clone(),
    };
    let r = ExifMetadata {
        has_exif: true,
        taken_date,
        date_time_original: m.date_time_original.clone(),
        date_time_digitized: m.date_time_digitized.clone(),
        image_date_time: m.image_date_time.clone(),
        camera_make: edited_text(form, CAMERA_MAKE, &m.camera_make),
        camera_model: edited_text(form, CAMERA_MODEL, &m.camera_model),
        lens_model: edited_text(form, LENS_MODEL, &m.lens_model),
        software: edited_text(form, SOFTWARE, &m.software),
        artist: edited_text(form, ARTIST, &m.artist),
        image_description: m.image_description.clone(),
        copyright: m.copyright.clone(),
        exif_version: m.exif_version.clone(),
        exposure_program: m.exposure_program.clone(),
        white_balance: m.white_balance.clone(),
        focal_length_35mm: m.focal_length_35mm.clone(),
        shutter_speed: edited_text(form, SHUTTER_SPEED, &m.shutter_speed),
        aperture: edited_text(form, APERTURE, &m.aperture),
        iso_speed: edited_text(form, ISO_SPEED, &m.iso_speed),
        focal_length: edited_text(form, FOCAL_LENGTH, &m.focal_length),
        flash_fired: edited_text(form, FLASH_FIRED, &m.flash_fired),
        metering_mode: edited_text(form, METERING_MODE, &m.metering_mode),
        image_width: m.image_width.clone(),
        image_height: m.image_height.clone(),
        orientation: edited_text(form, ORIENTATION, &m.orientation),
        color_space: edited_text(form, COLOR_SPACE, &m.color_space),
        gps_latitude: edited_text(form, GPS_LATITUDE, &m.gps_latitude),
        gps_longitude: edited_text(form, GPS_LONGITUDE, &m.gps_longitude),
        gps_altitude: edited_text(form, GPS_ALTITUDE, &m.gps_altitude),
        gps_date_stamp: gps_text(form, GPS_DATE_STAMP, &m.gps_date_stamp, entered_d),
        gps_time_stamp: gps_text(form, GPS_TIME_STAMP, &m.gps_time_stamp, entered_t),
    };
    proof {
        assert forall|x: Field| #[trigger]
            r.field(x) == changed_field(*m, form@, *pending, view, x) by {
            match x {
                Field::TakenDate => {},
                _ => {},
            }
        }
    }
    r
}

/// The EXIF data with the changes in the form.
pub fn collect_dirty_exif_metadata(form: &DetailsForm, metadata: &ExifMetadata, pending: &PendingDate) -> (r:
    ExifMetadata)
    requires
        form@.well_formed(),
    ensures
        has_changes(
            r,
            *metadata,
            form@,
            *pending,
            date_shift::parsed_gps(form@.value(GPS_DATE_TIME)),
        ),
{
    let parsed = parse_combined_gps_date_time(form.value(GPS_DATE_TIME));
    collect_changes(form, metadata, pending, parsed)
}

/// The EXIF data that the form shows.
pub fn collect_current_exif_metadata(form: &DetailsForm) -> (r: ExifMetadata)
    requires
        form@.well_formed(),
    ensures
        r.has_exif,
        forall|i: int|
            #![trigger details_form::exif_field(i)]
            0 <= i < FIELDS && details_form::exif_field(i) is Some ==> details_form::exif_value(
                r,
                i,
            ) == form@.values[i],
{
    ExifMetadata {
        has_exif: true,
        taken_date: form.value(TAKEN_DATE).to_owned(),
        date_time_original: form.value(DATE_TIME_ORIGINAL).to_owned(),
        date_time_digitized: form.value(DATE_TIME_DIGITIZED).to_owned(),
        image_date_time: form.value(IMAGE_DATE_TIME).to_owned(),
        camera_make: form.value(CAMERA_MAKE).to_owned(),
        camera_model: form.value(CAMERA_MODEL).to_owned(),
        lens_model: form.value(LENS_MODEL).to_owned(),
        software: form.value(SOFTWARE).to_owned(),
        artist: form.value(ARTIST).to_owned(),
        image_description: form.value(IMAGE_DESCRIPTION).to_owned(),
        copyright: form.value(COPYRIGHT).to_owned(),
        exif_version: form.value(EXIF_VERSION).to_owned(),
        exposure_program: form.value(EXPOSURE_PROGRAM).to_owned(),
        white_balance: form.value(WHITE_BALANCE).to_owned(),
        focal_length_35mm: form.value(FOCAL_LENGTH_35MM).to_owned(),
        shutter_speed: form.value(SHUTTER_SPEED).to_owned(),
        aperture: form.value(APERTURE).to_owned(),
        iso_speed: form.value(ISO_SPEED).to_owned(),
        focal_length: form.value(FOCAL_LENGTH).to_owned(),
        flash_fired: form.value(FLASH_FIRED).to_owned(),
        metering_mode: form.value(METERING_MODE).to_owned(),
        image_width: form.value(IMAGE_WIDTH).to_owned(),
        image_height: form.value(IMAGE_HEIGHT).to_owned(),
        orientation: form.value(ORIENTATION).to_owned(),
        color_space: form.value(COLOR_SPACE).to_owned(),
        gps_latitude: form.value(GPS_LATITUDE).to_owned(),
        gps_longitude: form.value(GPS_LONGITUDE).to_owned(),
        gps_altitude: form.value(GPS_ALTITUDE).to_owned(),
        gps_date_stamp: form.value(GPS_DATE_STAMP).to_owned(),
        gps_time_stamp: form.value(GPS_TIME_STAMP).to_owned(),
    }
}

// Writing single tags.

/// One change of the EXIF data of a file. The changes of a file are made in
/// their order; the first that fails ends them.
#[derive(Debug)]
pub enum TagWrite {
    /// A field of the form gets a value.
    Value(usize, String),
    RemoveGps,
    GpsDateTime(String, String),
    GpsDate(String),
    GpsTime(String),
    /// What was entered cannot be written.
    Refuse(String),
}

pub enum WriteModel {
    Value(int, Seq<char>),
    RemoveGps,
    GpsDateTime(Seq<char>, Seq<char>),
    GpsDate(Seq<char>),
    GpsTime(Seq<char>),
    Refuse(Seq<char>),
}

impl View for TagWrite {
    type V = WriteModel;

    open spec fn view(&self) -> WriteModel {
        match self {
            TagWrite::Value(i, v) => WriteModel::Value(*i as int, v@),
            TagWrite::RemoveGps => WriteModel::RemoveGps,
            TagWrite::GpsDateTime(d, t) => WriteModel::GpsDateTime(d@, t@),
            TagWrite::GpsDate(d) => WriteModel::GpsDate(d@),
            TagWrite::GpsTime(t) => WriteModel::GpsTime(t@),
            TagWrite::Refuse(e) => WriteModel::Refuse(e@),
        }
    }
}

pub open spec fn write_models(writes: Seq<TagWrite>) -> Seq<WriteModel> {
    Seq::new(writes.len(), |i: int| writes[i]@)
}

proof fn lemma_write_pushed(writes: Seq<TagWrite>, w: TagWrite)
    ensures
        write_models(writes.push(w)) == write_models(writes).push(w@),
{
    assert(write_models(writes.push(w)) =~= write_models(writes).push(w@));
}

/// The changes of fields before one of them.
pub open spec fn value_writes(f: FormModel, n: int) -> Seq<WriteModel>
    decreases n,
{
    if n <= CAMERA_MAKE {
        Seq::empty()
    } else {
        let before = value_writes(f, n - 1);
        if is_written_field(n - 1) && f.dirty[n - 1] {
            before.push(WriteModel::Value(n - 1, f.values[n - 1]))
        } else {
            before
        }
    }
}

/// The changes of GPS data, given what was read from the common field for date
/// and time. Coordinates can only be removed, all at once.
pub open spec fn gps_writes(
    f: FormModel,
    parsed: Result<(Option<Seq<char>>, Option<Seq<char>>), Seq<char>>,
) -> Seq<WriteModel> {
    if coordinates_changed(f) {
        if f.value(GPS_LATITUDE).len() == 0 && f.value(GPS_LONGITUDE).len() == 0 && f.value(
            GPS_ALTITUDE,
        ).len() == 0 {
            seq![WriteModel::RemoveGps]
        } else {
            seq![
                WriteModel::Refuse(
                    "Editing GPS coordinates is not supported yet. GPS Date Stamp and GPS Time Stamp can be edited."@,
                ),
            ]
        }
    } else if f.dirty[GPS_DATE_TIME as int] {
        match parsed {
            Err(e) => seq![WriteModel::Refuse(e)],
            Ok((Some(d), Some(t))) => seq![WriteModel::GpsDateTime(d, t)],
            Ok((Some(d), None)) => seq![WriteModel::GpsDate(d)],
            Ok((None, Some(t))) => seq![WriteModel::GpsTime(t)],
            Ok((None, None)) => seq![WriteModel::Refuse("GPS Date/Time cannot be empty."@)],
        }
    } else if f.dirty[GPS_DATE_STAMP as int] && f.dirty[GPS_TIME_STAMP as int] {
        seq![WriteModel::GpsDateTime(f.value(GPS_DATE_STAMP), f.value(GPS_TIME_STAMP))]
    } else if f.dirty[GPS_DATE_STAMP as int] {
        seq![WriteModel::GpsDate(f.value(GPS_DATE_STAMP))]
    } else if f.dirty[GPS_TIME_STAMP as int] {
        seq![WriteModel::GpsTime(f.value(GPS_TIME_STAMP))]
    } else {
        Seq::empty()
    }
}

/// All changes of the EXIF data of a file: the media date first, GPS data last.
pub open spec fn tag_writes(
    f: FormModel,
    pending: PendingDate,
    parsed: Result<(Option<Seq<char>>, Option<Seq<char>>), Seq<char>>,
) -> Seq<WriteModel> {
    (match date_for(f, pending) {
        Some(d) => seq![WriteModel::Value(TAKEN_DATE as int, d)],
        None => Seq::empty(),
    }) + value_writes(f, COLOR_SPACE + 1) + gps_writes(f, parsed)
}

/// The change of GPS data, given what was read from the common field for date
/// and time.
pub fn gps_change(
    form: &DetailsForm,
    parsed: Result<(Option<String>, Option<String>), String>,
) -> (r: Option<TagWrite>)
    requires
        form@.well_formed(),
    ensures
        gps_writes(form@, date_shift::split_view(parsed)) == (match r {
            Some(w) => seq![w@],
            None => Seq::empty(),
        }),
{
    if form.is_dirty(GPS_LATITUDE) || form.is_dirty(GPS_LONGITUDE) || form.is_dirty(GPS_ALTITUDE) {
        if form.value(GPS_LATITUDE).unicode_len() == 0 && form.value(GPS_LONGITUDE).unicode_len()
            == 0 && form.value(GPS_ALTITUDE).unicode_len() == 0 {
            return Some(TagWrite::RemoveGps);
        }
        return Some(
            TagWrite::Refuse(
                "Editing GPS coordinates is not supported yet. GPS Date Stamp and GPS Time Stamp can be edited.".to_owned(),
            ),
        );
    }
    if form.is_dirty(GPS_DATE_TIME) {
        return match parsed {
            Err(e) => Some(TagWrite::Refuse(e)),
            Ok((Some(d), Some(t))) => Some(TagWrite::GpsDateTime(d, t)),
            Ok((Some(d), None)) => Some(TagWrite::GpsDate(d)),
            Ok((None, Some(t))) => Some(TagWrite::GpsTime(t)),
            Ok((None, None)) => Some(TagWrite::Refuse("GPS Date/Time cannot be empty.".to_owned())),
        };
    }
    if form.is_dirty(GPS_DATE_STAMP) && form.is_dirty(GPS_TIME_STAMP) {
        return Some(
            TagWrite::GpsDateTime(
                form.value(GPS_DATE_STAMP).to_owned(),
                form.value(GPS_TIME_STAMP).to_owned(),
            ),
        );
    }
    if form.is_dirty(GPS_DATE_STAMP) {
        return Some(TagWrite::GpsDate(form.value(GPS_DATE_STAMP).to_owned()));
    }
    if form.is_dirty(GPS_TIME_STAMP) {
        return Some(TagWrite::GpsTime(form.value(GPS_TIME_STAMP).to_owned()));
    }
    None
}

/// The change of GPS data.
pub fn write_dirty_gps_tags(form: &DetailsForm) -> (r: Option<TagWrite>)
    requires
        form@.well_formed(),
    ensures
        gps_writes(form@, date_shift::parsed_gps(form@.value(GPS_DATE_TIME))) == (match r {
            Some(w) => seq![w@],
            None => Seq::empty(),
        }),
{
    gps_change(form, parse_combined_gps_date_time(form.value(GPS_DATE_TIME)))
}

/// All changes of the EXIF data of a file, given what was read from the common
/// field for date and time.
pub fn list_tag_writes(
    form: &DetailsForm,
    pending: &PendingDate,
    parsed: Result<(Option<String>, Option<String>), String>,
) -> (r: Vec<TagWrite>)
    requires
        form@.well_formed(),
    ensures
        write_models(r@) == tag_writes(form@, *pending, date_shift::split_view(parsed)),
{
    let ghost view = date_shift::split_view(parsed);
    let mut out: Vec<TagWrite> = Vec::new();
    let ghost mut first: Seq<WriteModel> = Seq::empty();
    assert(write_models(out@) =~= first);
    match find_date(form, pending) {
        Some(d) => {
            let w = TagWrite::Value(TAKEN_DATE, d);
            proof {
                lemma_write_pushed(out@, w);
                first = seq![w@];
            }
            out.push(w);
            assert(write_models(out@) =~= first);
        },
        None => {},
    }
    let mut i: usize = CAMERA_MAKE;
    assert(write_models(out@) =~= first + value_writes(form@, i as int));
    while i <= COLOR_SPACE
        invariant
            form@.well_formed(),
            CAMERA_MAKE <= i <= COLOR_SPACE + 1,
            write_models(out@) == first + value_writes(form@, i as int),
        decreases COLOR_SPACE + 1 - i,
    {
        if i != IMAGE_WIDTH && i != IMAGE_HEIGHT && form.is_dirty(i) {
            let w = TagWrite::Value(i, form.value(i).to_owned());
            proof {
                lemma_write_pushed(out@, w);
                assert((first + value_writes(form@, i as int)).push(w@) =~= first + value_writes(
                    form@,
                    i as int,
                ).push(w@));
            }
            out.push(w);
        }
        i += 1;
    }
    let ghost before = write_models(out@);
    match gps_change(form, parsed) {
        Some(w) => {
            proof {
                lemma_write_pushed(out@, w);
                assert(before.push(w@) =~= before + seq![w@]);
            }
            out.push(w);
        },
        None => {
            assert(before =~= before + Seq::<WriteModel>::empty());
        },
    }
    out
}

/// All changes of the EXIF data of a file.
pub fn write_dirty_exif_tags(form: &DetailsForm, pending: &PendingDate) -> (r: Vec<TagWrite>)
    requires
        form@.well_formed(),
    ensures
        write_models(r@) == tag_writes(
            form@,
            *pending,
            date_shift::parsed_gps(form@.value(GPS_DATE_TIME)),
        ),
{
    list_tag_writes(form, pending, parse_combined_gps_date_time(form.value(GPS_DATE_TIME)))
}

/// A tag that should change is not in the file, so the EXIF data have to be
/// written anew.
pub fn is_missing_writable_exif_tag_error(err: &str) -> (r: bool)
    ensures
        r == text::contains_text(err@, "No writable EXIF tag was found"@),
{
    text_contains(err, "No writable EXIF tag was found")
}

// The changes of one file.

/// What is done to the metadata of one file.
#[derive(Debug)]
pub enum MetadataChange {
    Nothing,
    Mp4Date(String),
    PngDate(String),
    /// The file gets EXIF data for the first time.
    NewExif(ExifMetadata),
    /// EXIF data that were made for the file are made anew.
    GeneratedExif(ExifMetadata),
    Tags(Vec<TagWrite>),
}

/// A file whose changes are saved.
#[derive(Debug)]
pub struct FileToSave {
    pub name: String,
    pub metadata: ExifMetadata,
    pub generated: bool,
}

/// The complaint about changes that a file of its kind cannot take.
pub open spec fn refusal(f: FormModel, name: Seq<char>, pending: PendingDate) -> Option<Seq<char>> {
    if media::mp4_name(name) {
        if other_exif_changed(f) {
            Some("Only Media Date can be written to MP4/MOV/M4V/3GP/3G2 files."@)
        } else {
            None
        }
    } else if media::transport_name(name) {
        if pending is Date || exif_changed(f) {
            Some("Embedded Media Date writing is not supported for MTS/M2TS files."@)
        } else {
            None
        }
    } else if media::png_name(name) {
        if other_exif_changed(f) {
            Some("Only Media Date can be written to PNG files."@)
        } else {
            None
        }
    } else {
        None
    }
}

/// The date that is written to a file that only holds a date; one that was
/// typed counts where all selected files are of the kind.
pub open spec fn own_date(
    f: FormModel,
    media_kind: Seq<char>,
    kind: Seq<char>,
    pending: PendingDate,
) -> Option<Seq<char>> {
    if pending is NotUsed && media_kind != kind {
        None
    } else {
        date_for(f, pending)
    }
}

/// EXIF data are written.
pub open spec fn writes_exif(f: FormModel, pending: PendingDate) -> bool {
    match pending {
        PendingDate::NotUsed => exif_changed(f),
        PendingDate::Missing => other_exif_changed(f),
        PendingDate::Date(_) => true,
    }
}

/// The change of a file that takes it.
pub open spec fn is_change(
    change: MetadataChange,
    f: FormModel,
    media_kind: Seq<char>,
    file: FileToSave,
    pending: PendingDate,
    parsed: Result<(Option<Seq<char>>, Option<Seq<char>>), Seq<char>>,
) -> bool {
    if media::mp4_name(file.name@) {
        match own_date(f, media_kind, "mp4"@, pending) {
            Some(d) => match change {
                MetadataChange::Mp4Date(v) => v@ == d,
                _ => false,
            },
            None => change is Nothing,
        }
    } else if media::transport_name(file.name@) {
        change is Nothing
    } else if media::png_name(file.name@) {
        match own_date(f, media_kind, "png"@, pending) {
            Some(d) => match change {
                MetadataChange::PngDate(v) => v@ == d,
                _ => false,
            },
            None => change is Nothing,
        }
    } else if !writes_exif(f, pending) {
        change is Nothing
    } else if !file.metadata.has_exif {
        match change {
            MetadataChange::NewExif(m) => has_changes(m, file.metadata, f, pending, parsed),
            _ => false,
        }
    } else if file.generated {
        match change {
            MetadataChange::GeneratedExif(m) => has_changes(m, file.metadata, f, pending, parsed),
            _ => false,
        }
    } else {
        match change {
            MetadataChange::Tags(w) => write_models(w@) == tag_writes(f, pending, parsed),
            _ => false,
        }
    }
}

/// What is done to the metadata of a file, given what was read from the common
/// field for date and time.
pub fn plan_metadata_change(
    form: &DetailsForm,
    media_kind: &str,
    file: &FileToSave,
    pending: &PendingDate,
    parsed: Result<(Option<String>, Option<String>), String>,
) -> (r: Result<MetadataChange, String>)
    requires
        form@.well_formed(),
    ensures
        match r {
            Err(e) => refusal(form@, file.name@, *pending) == Some(e@),
            Ok(change) => refusal(form@, file.name@, *pending) is None && is_change(
                change,
                form@,
                media_kind@,
                *file,
                *pending,
                date_shift::split_view(parsed),
            ),
        },
{
    let name = file.name.as_str();
    let typed = match pending {
        PendingDate::NotUsed => true,
        _ => false,
    };
    let dated = match pending {
        PendingDate::Date(_) => true,
        _ => false,
    };
    if is_mp4_path(name) {
        if has_exif_metadata_changes_without_taken_date(form) {
            return Err("Only Media Date can be written to MP4/MOV/M4V/3GP/3G2 files.".to_owned());
        }
        if typed && !same_text(media_kind, "mp4") {
            return Ok(MetadataChange::Nothing);
        }
        return match find_date(form, pending) {
            Some(d) => Ok(MetadataChange::Mp4Date(d)),
            None => Ok(MetadataChange::Nothing),
        };
    }
    if is_mpeg_ts_path(name) {
        if dated || has_exif_metadata_changes(form) {
            return Err(
                "Embedded Media Date writing is not supported for MTS/M2TS files.".to_owned(),
            );
        }
        return Ok(MetadataChange::Nothing);
    }
    if is_png_path(name) {
        if has_exif_metadata_changes_without_taken_date(form) {
            return Err("Only Media Date can be written to PNG files.".to_owned());
        }
        if typed && !same_text(media_kind, "png") {
            return Ok(MetadataChange::Nothing);
        }
        return match find_date(form, pending) {
            Some(d) => Ok(MetadataChange::PngDate(d)),
            None => Ok(MetadataChange::Nothing),
        };
    }
    let writes = if dated {
        true
    } else if typed {
        has_exif_metadata_changes(form)
    } else {
        has_exif_metadata_changes_without_taken_date(form)
    };
    if !writes {
        return Ok(MetadataChange::Nothing);
    }
    if !file.metadata.has_exif {
        return Ok(MetadataChange::NewExif(collect_changes(form, &file.metadata, pending, parsed)));
    }
    if file.generated {
        return Ok(
            MetadataChange::GeneratedExif(collect_changes(form, &file.metadata, pending, parsed)),
        );
    }
    Ok(MetadataChange::Tags(list_tag_writes(form, pending, parsed)))
}

/// What is done to the metadata of a file.
pub fn apply_metadata_changes_to_path(
    form: &DetailsForm,
    media_kind: &str,
    file: &FileToSave,
    pending: &PendingDate,
) -> (r: Result<MetadataChange, String>)
    requires
        form@.well_formed(),
    ensures
        match r {
            Err(e) => refusal(form@, file.name@, *pending) == Some(e@),
            Ok(change) => refusal(form@, file.name@, *pending) is None && is_change(
                change,
                form@,
                media_kind@,
                *file,
                *pending,
                date_shift::parsed_gps(form@.value(GPS_DATE_TIME)),
            ),
        },
{
    let parsed = parse_combined_gps_date_time(form.value(GPS_DATE_TIME));
    plan_metadata_change(form, media_kind, file, pending, parsed)
}

// File times.

/// A file time that waits to be set: no such times are used, the file has
/// none, or it has one.
#[derive(Clone, Copy, Debug, PartialEq, Eq, Structural)]
pub enum PendingTime {
    NotUsed,
    Missing,
    Known,
}

/// A time that a file gets.
#[derive(Debug)]
pub enum NewTime {
    Keep,
    /// The time that waits for the file.
    Pending,
    /// The time that was typed.
    Typed(String),
}

pub enum TimeModel {
    Keep,
    Pending,
    Typed(Seq<char>),
}

impl View for NewTime {
    type V = TimeModel;

    open spec fn view(&self) -> TimeModel {
        match self {
            NewTime::Keep => TimeModel::Keep,
            NewTime::Pending => TimeModel::Pending,
            NewTime::Typed(t) => TimeModel::Typed(t@),
        }
    }
}

pub open spec fn new_time(f: FormModel, i: usize, pending: PendingTime) -> TimeModel {
    if pending == PendingTime::Known {
        TimeModel::Pending
    } else if f.dirty[i as int] {
        TimeModel::Typed(f.value(i))
    } else {
        TimeModel::Keep
    }
}

/// The times that a file gets. Where times are used that wait for files, one
/// without such a time keeps its own.
pub open spec fn new_times(f: FormModel, created: PendingTime, modified: PendingTime) -> Option<
    (TimeModel, TimeModel),
> {
    if created == PendingTime::Missing || modified == PendingTime::Missing {
        None
    } else {
        match (new_time(f, CREATED, created), new_time(f, MODIFIED, modified)) {
            (TimeModel::Keep, TimeModel::Keep) => None,
            (c, m) => Some((c, m)),
        }
    }
}

fn time_for(form: &DetailsForm, i: usize, pending: PendingTime) -> (r: NewTime)
    requires
        form@.well_formed(),
        i < TRACKED,
    ensures
        r@ == new_time(form@, i, pending),
{
    if pending == PendingTime::Known {
        NewTime::Pending
    } else if form.is_dirty(i) {
        NewTime::Typed(form.value(i).to_owned())
    } else {
        NewTime::Keep
    }
}

/// The times that a file gets.
pub fn write_dirty_file_times(
    form: &DetailsForm,
    created: PendingTime,
    modified: PendingTime,
) -> (r: Option<(NewTime, NewTime)>)
    requires
        form@.well_formed(),
    ensures
        new_times(form@, created, modified) == (match r {
            Some((c, m)) => Some((c@, m@)),
            None => None,
        }),
{
    if created == PendingTime::Missing || modified == PendingTime::Missing {
        return None;
    }
    if !form.is_dirty(CREATED) && !form.is_dirty(MODIFIED) && created != PendingTime::Known
        && modified != PendingTime::Known {
        return None;
    }
    Some((time_for(form, CREATED, created), time_for(form, MODIFIED, modified)))
}

// New names, which a save gives first.

/// What a save does next about the names of files.
#[derive(Debug)]
pub enum RenameStep {
    /// The renames that wait are made.
    Waiting,
    /// The selected file gets the name that was entered.
    Named(String),
    /// The name of a file that is not known was changed.
    Refused(Notice),
    /// There is nothing left to rename.
    Done,
}

/// The renames that wait come first, then the name that was entered, without the
/// white space around it.
pub fn rename_step(form: &DetailsForm, has_waiting_renames: bool, resolved: bool) -> (r: RenameStep)
    requires
        form@.well_formed(),
    ensures
        match r {
            RenameStep::Waiting => has_waiting_renames,
            RenameStep::Named(name) => !has_waiting_renames && form@.dirty[NAME as int] && resolved
                && name@ == text::trim(form@.value(NAME)),
            RenameStep::Refused(n) => !has_waiting_renames && form@.dirty[NAME as int]
                && !resolved && n@ == (
                "Rename Failed"@,
                "Selected file could not be resolved."@,
            ),
            RenameStep::Done => !has_waiting_renames && !form@.dirty[NAME as int],
        },
{
    if has_waiting_renames {
        return RenameStep::Waiting;
    }
    if !form.is_dirty(NAME) {
        return RenameStep::Done;
    }
    if !resolved {
        return RenameStep::Refused(notice("Rename Failed", "Selected file could not be resolved."));
    }
    RenameStep::Named(trimmed(form.value(NAME)).to_owned())
}

/// The report on the renames that waited, and whether a file has a new name.
pub fn waiting_renames_made(count: usize) -> (r: (String, bool))
    ensures
        r.0@ == notices::with_number("Renamed "@, count as int, " file(s)."@),
        r.1 == (count > 0),
{
    (sentence("Renamed ", count, " file(s)."), count > 0)
}

// The way that a save takes.

/// Which kinds of changes wait for files.
#[derive(Clone, Copy, Debug)]
pub struct WaitingChanges {
    pub taken_dates: bool,
    pub gps_date_times: bool,
    pub created_dates: bool,
    pub modified_dates: bool,
    pub removals: bool,
    pub tag_removals: bool,
}

/// A selected file, for the question whether a date is overwritten.
#[derive(Debug)]
pub struct DatedFile {
    pub name: String,
    pub has_waiting_date: bool,
    pub sources: PngDateSources,
}

#[derive(Clone, Copy, Debug, PartialEq, Eq, Structural)]
pub enum SaveRoute {
    /// Files were renamed, and nothing else is to be done.
    ReloadOnly,
    /// Only dates and times of GPS data are written.
    SaveGps,
    /// Asks whether dates may be overwritten.
    ConfirmOverwrite,
    SaveMany,
    SaveOne,
}

/// A date of a PNG file would be overwritten.
pub open spec fn overwrites(f: FormModel, file: DatedFile, alone: bool) -> bool {
    media::png_name(file.name@) && {
        ||| (file.has_waiting_date || (alone && f.dirty[TAKEN_DATE as int]))
            && !file.sources.is_empty()
        ||| alone && f.dirty[PNG_CREATION_TIME as int] && file.sources.creation_time@.len() > 0
        ||| alone && f.dirty[DATE_TIME_ORIGINAL as int] && file.sources.date_time_original@.len()
            > 0
    }
}

/// Whether a date of a selected PNG file would be overwritten.
pub fn has_staged_png_overwrite(form: &DetailsForm, files: &[DatedFile]) -> (r: bool)
    requires
        form@.well_formed(),
    ensures
        r == exists|i: int|
            0 <= i < files@.len() && overwrites(form@, #[trigger] files@[i], files@.len() == 1),
{
    let n: usize = files.len();
    let alone = n == 1;
    let mut i: usize = 0;
    while i < n
        invariant
            form@.well_formed(),
            i <= n,
            n == files@.len(),
            alone == (files@.len() == 1),
            forall|k: int| 0 <= k < i ==> !overwrites(form@, #[trigger] files@[k], alone),
        decreases n - i,
    {
        let file = &files[i];
        if is_png_path(file.name.as_str()) {
            let together = file.has_waiting_date || (alone && form.is_dirty(TAKEN_DATE));
            let found = (together && file.sources.has_existing_date()) || (alone && form.is_dirty(
                PNG_CREATION_TIME,
            ) && file.sources.creation_time.as_str().unicode_len() > 0) || (alone
                && form.is_dirty(DATE_TIME_ORIGINAL)
                && file.sources.date_time_original.as_str().unicode_len() > 0);
            if found {
                assert(overwrites(form@, files@[i as int], alone));
                return true;
            }
        }
        i += 1;
    }
    false
}

pub open spec fn route(
    f: FormModel,
    renamed: bool,
    waiting: WaitingChanges,
    selected: int,
    overwrites: bool,
    confirmed: bool,
) -> SaveRoute {
    if renamed && !f.metadata_dirty && !waiting.taken_dates && !waiting.gps_date_times
        && !waiting.created_dates && !waiting.modified_dates && !waiting.removals
        && !waiting.tag_removals {
        SaveRoute::ReloadOnly
    } else if waiting.gps_date_times && !waiting.taken_dates && !non_gps_changed(f)
        && !waiting.removals && !waiting.tag_removals {
        SaveRoute::SaveGps
    } else if overwrites && !confirmed {
        SaveRoute::ConfirmOverwrite
    } else if selected > 1 {
        SaveRoute::SaveMany
    } else {
        SaveRoute::SaveOne
    }
}

/// The way that a save takes once the files have their new names.
pub fn save_route(
    form: &DetailsForm,
    renamed: bool,
    waiting: WaitingChanges,
    selected: usize,
    overwrites: bool,
    confirmed: bool,
) -> (r: SaveRoute)
    requires
        form@.well_formed(),
    ensures
        r == route(form@, renamed, waiting, selected as int, overwrites, confirmed),
{
    let has_waiting = waiting.taken_dates || waiting.gps_date_times || waiting.created_dates
        || waiting.modified_dates || waiting.removals || waiting.tag_removals;
    if renamed && !form.metadata_dirty && !has_waiting {
        return SaveRoute::ReloadOnly;
    }
    if waiting.gps_date_times && !waiting.taken_dates && !has_non_gps_metadata_changes(form)
        && !waiting.removals && !waiting.tag_removals {
        return SaveRoute::SaveGps;
    }
    if overwrites && !confirmed {
        return SaveRoute::ConfirmOverwrite;
    }
    if selected > 1 {
        SaveRoute::SaveMany
    } else {
        SaveRoute::SaveOne
    }
}

/// What is done to one of many files.
#[derive(Clone, Copy, Debug, PartialEq, Eq, Structural)]
pub enum ManyStep {
    RemoveMetadata,
    WriteGpsAndChanges,
    WriteChanges,
}

/// What is done to one of many files: a file whose metadata are removed takes
/// no other change.
pub fn step_of_many(remove: bool, has_gps: bool) -> (r: ManyStep)
    ensures
        r == if remove {
            ManyStep::RemoveMetadata
        } else if has_gps {
            ManyStep::WriteGpsAndChanges
        } else {
            ManyStep::WriteChanges
        },
{
    if remove {
        ManyStep::RemoveMetadata
    } else if has_gps {
        ManyStep::WriteGpsAndChanges
    } else {
        ManyStep::WriteChanges
    }
}

/// The only selected file.
#[derive(Debug)]
pub struct SingleFile {
    pub name: String,
    /// Tags of it were removed just now.
    pub removed_tags: bool,
    pub remove_metadata: bool,
    pub has_exif: bool,
    pub generated: bool,
}

#[derive(Debug)]
pub enum SingleRoute {
    /// Only tags were removed.
    TagsRemoved,
    RemoveMetadata,
    Mp4Date(String),
    PngDate(String),
    PngSources(Option<String>, Option<String>),
    NewExif,
    GeneratedExif,
    /// The changes are written as for one of many files.
    Changes,
    /// Nothing is to be written.
    Finish,
    /// The selected file is not known.
    Unresolved,
}

pub enum SingleModel {
    TagsRemoved,
    RemoveMetadata,
    Mp4Date(Seq<char>),
    PngDate(Seq<char>),
    PngSources(Option<Seq<char>>, Option<Seq<char>>),
    NewExif,
    GeneratedExif,
    Changes,
    Finish,
    Unresolved,
}

impl View for SingleRoute {
    type V = SingleModel;

    open spec fn view(&self) -> SingleModel {
        match self {
            SingleRoute::TagsRemoved => SingleModel::TagsRemoved,
            SingleRoute::RemoveMetadata => SingleModel::RemoveMetadata,
            SingleRoute::Mp4Date(d) => SingleModel::Mp4Date(d@),
            SingleRoute::PngDate(d) => SingleModel::PngDate(d@),
            SingleRoute::PngSources(c, o) => SingleModel::PngSources(
                date_shift::text_view(*c),
                date_shift::text_view(*o),
            ),
            SingleRoute::NewExif => SingleModel::NewExif,
            SingleRoute::GeneratedExif => SingleModel::GeneratedExif,
            SingleRoute::Changes => SingleModel::Changes,
            SingleRoute::Finish => SingleModel::Finish,
            SingleRoute::Unresolved => SingleModel::Unresolved,
        }
    }
}

/// The text of a field, where it was changed.
pub open spec fn if_changed(f: FormModel, i: usize) -> Option<Seq<char>> {
    if f.dirty[i as int] {
        Some(f.value(i))
    } else {
        None
    }
}

fn text_if_changed(form: &DetailsForm, i: usize) -> (r: Option<String>)
    requires
        form@.well_formed(),
        i < TRACKED,
    ensures
        date_shift::text_view(r) == if_changed(form@, i),
{
    if form.is_dirty(i) {
        Some(form.value(i).to_owned())
    } else {
        None
    }
}

/// The last part of a save: what is left is written like the changes of many.
pub open spec fn rest_of_save(f: FormModel, known: bool) -> SingleModel {
    if !f.metadata_dirty {
        SingleModel::Finish
    } else if known {
        SingleModel::Changes
    } else {
        SingleModel::Unresolved
    }
}

pub open spec fn single_route(f: FormModel, file: Option<SingleFile>) -> SingleModel {
    match file {
        None => if exif_changed(f) {
            SingleModel::Unresolved
        } else {
            rest_of_save(f, false)
        },
        Some(file) => if file.removed_tags && !exif_changed(f) && !f.dirty[CREATED as int]
            && !f.dirty[MODIFIED as int] {
            SingleModel::TagsRemoved
        } else if file.remove_metadata {
            SingleModel::RemoveMetadata
        } else if media::mp4_name(file.name@) && f.dirty[TAKEN_DATE as int] {
            SingleModel::Mp4Date(f.value(TAKEN_DATE))
        } else if media::png_name(file.name@) && f.dirty[TAKEN_DATE as int] {
            SingleModel::PngDate(f.value(TAKEN_DATE))
        } else if media::png_name(file.name@) && (f.dirty[PNG_CREATION_TIME as int]
            || f.dirty[DATE_TIME_ORIGINAL as int]) {
            SingleModel::PngSources(
                if_changed(f, PNG_CREATION_TIME),
                if_changed(f, DATE_TIME_ORIGINAL),
            )
        } else if exif_changed(f) && !file.has_exif {
            SingleModel::NewExif
        } else if exif_changed(f) && file.generated {
            SingleModel::GeneratedExif
        } else {
            rest_of_save(f, true)
        },
    }
}

/// The way that the save of one file takes. After a date was written, the way
/// goes on with the changes that are left.
pub fn single_save_route(form: &DetailsForm, file: &Option<SingleFile>) -> (r: SingleRoute)
    requires
        form@.well_formed(),
    ensures
        r@ == single_route(form@, *file),
{
    match file {
        None => if has_exif_metadata_changes(form) {
            SingleRoute::Unresolved
        } else {
            save_rest(form, false)
        },
        Some(file) => {
            let name = file.name.as_str();
            let changed = has_exif_metadata_changes(form);
            if file.removed_tags && !changed && !form.is_dirty(CREATED) && !form.is_dirty(
                MODIFIED,
            ) {
                return SingleRoute::TagsRemoved;
            }
            if file.remove_metadata {
                return SingleRoute::RemoveMetadata;
            }
            if is_mp4_path(name) && form.is_dirty(TAKEN_DATE) {
                return SingleRoute::Mp4Date(form.value(TAKEN_DATE).to_owned());
            }
            if is_png_path(name) {
                if form.is_dirty(TAKEN_DATE) {
                    return SingleRoute::PngDate(form.value(TAKEN_DATE).to_owned());
                }
                if form.is_dirty(PNG_CREATION_TIME) || form.is_dirty(DATE_TIME_ORIGINAL) {
                    return SingleRoute::PngSources(
                        text_if_changed(form, PNG_CREATION_TIME),
                        text_if_changed(form, DATE_TIME_ORIGINAL),
                    );
                }
            }
            if changed && !file.has_exif {
                return SingleRoute::NewExif;
            }
            if changed && file.generated {
                return SingleRoute::GeneratedExif;
            }
            save_rest(form, true)
        },
    }
}

/// What is left of the save of one file.
pub fn save_rest(form: &DetailsForm, known: bool) -> (r: SingleRoute)
    ensures
        r@ == rest_of_save(form@, known),
{
    if !form.metadata_dirty {
        SingleRoute::Finish
    } else if known {
        SingleRoute::Changes
    } else {
        SingleRoute::Unresolved
    }
}

impl DetailsForm {
    /// The file has the name that was entered.
    pub fn mark_name_saved(&mut self)
        requires
            old(self)@.well_formed(),
        ensures
            final(self)@ == old(self)@.with_original(NAME, old(self)@.value(NAME)).counted(),
            final(self)@.well_formed(),
    {
        let name = self.value(NAME).to_owned();
        self.set_original(NAME, name.as_str());
        self.update_metadata_dirty_state();
    }

    /// The media date of a video was written.
    pub fn mark_media_date_saved(&mut self)
        requires
            old(self)@.well_formed(),
        ensures
            final(self)@ == old(self)@.with_original(
                TAKEN_DATE,
                old(self)@.value(TAKEN_DATE),
            ).counted(),
            final(self)@.well_formed(),
    {
        let date = self.value(TAKEN_DATE).to_owned();
        self.set_original(TAKEN_DATE, date.as_str());
        self.update_metadata_dirty_state();
    }

    /// The dates of a PNG file were written: the media date became both.
    pub fn mark_png_dates_saved(&mut self)
        requires
            old(self)@.well_formed(),
        ensures
            final(self)@ == png_dates_saved(old(self)@).with_conflict_shown().counted(),
            final(self)@.well_formed(),
    {
        if self.is_dirty(TAKEN_DATE) {
            let date = self.value(TAKEN_DATE).to_owned();
            self.set_value(PNG_CREATION_TIME, date.as_str());
            self.set_value(DATE_TIME_ORIGINAL, date.as_str());
            self.set_original(TAKEN_DATE, date.as_str());
        }
        self.update_png_date_source_conflict();
        self.update_metadata_dirty_state();
    }
}

pub open spec fn png_dates_saved(f: FormModel) -> FormModel {
    if f.dirty[TAKEN_DATE as int] {
        f.with_value(PNG_CREATION_TIME, f.value(TAKEN_DATE)).with_value(
            DATE_TIME_ORIGINAL,
            f.value(TAKEN_DATE),
        ).with_original(TAKEN_DATE, f.value(TAKEN_DATE))
    } else {
        f
    }
}

/// A name that was given counts as saved, so that a save asks for no other.
pub proof fn saved_name_is_no_change(f: FormModel)
    requires
        f.well_formed(),
    ensures
        !f.with_original(NAME, f.value(NAME)).counted().dirty[NAME as int],
        f.with_original(NAME, f.value(NAME)).counted().value(NAME) == f.value(NAME),
{
}

/// A media date that was written counts as saved.
pub proof fn saved_media_date_is_no_change(f: FormModel)
    requires
        f.well_formed(),
    ensures
        !f.with_original(TAKEN_DATE, f.value(TAKEN_DATE)).counted().dirty[TAKEN_DATE as int],
        f.dirty[TAKEN_DATE as int] ==> !png_dates_saved(f).counted().dirty[TAKEN_DATE as int],
        f.dirty[TAKEN_DATE as int] ==> !png_dates_saved(f).png_conflict(),
{
}

} // verus!
