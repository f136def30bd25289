//! The form that shows the details of the selected files: the values that can
//! be edited, the values that were loaded, and which of them differ.
use crate::date_shift::{self, combined_gps_date_time};
use crate::datetime::{self, normalize_date};
use crate::date_input::{self, auto_format_date_edit, should_mirror_png_date_source};
use crate::exif::{ExifMetadata, Field};
use crate::file_selection;
use crate::png::PngDateSources;
use crate::text::{self, same_text, trimmed};
use vstd::prelude::*;

verus! {

pub const NAME: usize = 0;

pub const CREATED: usize = 1;

pub const MODIFIED: usize = 2;

pub const TAKEN_DATE: usize = 3;

pub const CAMERA_MAKE: usize = 4;

pub const CAMERA_MODEL: usize = 5;

pub const LENS_MODEL: usize = 6;

pub const SOFTWARE: usize = 7;

pub const ARTIST: usize = 8;

pub const SHUTTER_SPEED: usize = 9;

pub const APERTURE: usize = 10;

pub const ISO_SPEED: usize = 11;

pub const FOCAL_LENGTH: usize = 12;

pub const FLASH_FIRED: usize = 13;

pub const METERING_MODE: usize = 14;

pub const IMAGE_WIDTH: usize = 15;

pub const IMAGE_HEIGHT: usize = 16;

pub const ORIENTATION: usize = 17;

pub const COLOR_SPACE: usize = 18;

pub const GPS_LATITUDE: usize = 19;

pub const GPS_LONGITUDE: usize = 20;

pub const GPS_ALTITUDE: usize = 21;

pub const GPS_DATE_STAMP: usize = 22;

pub const GPS_TIME_STAMP: usize = 23;

pub const GPS_DATE_TIME: usize = 24;

pub const PNG_CREATION_TIME: usize = 25;

pub const DATE_TIME_ORIGINAL: usize = 26;

pub const DATE_TIME_DIGITIZED: usize = 27;

pub const IMAGE_DATE_TIME: usize = 28;

pub const IMAGE_DESCRIPTION: usize = 29;

pub const COPYRIGHT: usize = 30;

pub const EXIF_VERSION: usize = 31;

pub const EXPOSURE_PROGRAM: usize = 32;

pub const WHITE_BALANCE: usize = 33;

pub const FOCAL_LENGTH_35MM: usize = 34;

/// The number of fields.
pub const FIELDS: usize = 35;

/// The number of fields whose changes are tracked; they come first.
pub const TRACKED: usize = 27;

/// The number of fields with a status; they come first.
pub const WITH_STATUS: usize = 25;

/// The form.
#[derive(Debug)]
pub struct DetailsForm {
    pub values: Vec<String>,
    pub originals: Vec<String>,
    pub dirty: Vec<bool>,
    pub statuses: Vec<String>,
    pub metadata_dirty: bool,
    pub exif_available: bool,
    pub png_date_sources_conflict: bool,
    pub exif_date_sources_visible: bool,
    pub selected_file_count: i32,
}

/// The form as texts.
#[verifier::ext_equal]
pub struct FormModel {
    pub values: Seq<Seq<char>>,
    pub originals: Seq<Seq<char>>,
    pub dirty: Seq<bool>,
    pub statuses: Seq<Seq<char>>,
    pub metadata_dirty: bool,
    pub exif_available: bool,
    pub png_date_sources_conflict: bool,
    pub exif_date_sources_visible: bool,
    pub selected_file_count: i32,
}

impl View for DetailsForm {
    type V = FormModel;

    open spec fn view(&self) -> FormModel {
        FormModel {
            values: file_selection::text_views(self.values@),
            originals: file_selection::text_views(self.originals@),
            dirty: self.dirty@,
            statuses: file_selection::text_views(self.statuses@),
            metadata_dirty: self.metadata_dirty,
            exif_available: self.exif_available,
            png_date_sources_conflict: self.png_date_sources_conflict,
            exif_date_sources_visible: self.exif_date_sources_visible,
            selected_file_count: self.selected_file_count,
        }
    }
}

impl FormModel {
    pub open spec fn well_formed(self) -> bool {
        &&& self.values.len() == FIELDS
        &&& self.originals.len() == TRACKED
        &&& self.dirty.len() == TRACKED
        &&& self.statuses.len() == WITH_STATUS
    }

    /// The text of a field.
    pub open spec fn value(self, i: usize) -> Seq<char> {
        self.values[i as int]
    }

    /// The form with another text in a field.
    pub open spec fn with_value(self, i: usize, v: Seq<char>) -> FormModel {
        FormModel { values: self.values.update(i as int, v), ..self }
    }

    pub open spec fn with_original(self, i: usize, v: Seq<char>) -> FormModel {
        FormModel { originals: self.originals.update(i as int, v), ..self }
    }

    pub open spec fn with_dirty(self, i: usize, d: bool) -> FormModel {
        FormModel { dirty: self.dirty.update(i as int, d), ..self }
    }

    pub open spec fn with_status(self, i: usize, v: Seq<char>) -> FormModel {
        FormModel { statuses: self.statuses.update(i as int, v), ..self }
    }

    /// The form with its changes counted: a field is changed where its text is
    /// not the one that was loaded.
    pub open spec fn counted(self) -> FormModel {
        FormModel {
            dirty: Seq::new(TRACKED as nat, |i: int| self.values[i] != self.originals[i]),
            metadata_dirty: exists|i: int|
                0 <= i < TRACKED && #[trigger] self.values[i] != self.originals[i],
            ..self
        }
    }

    /// The form with no field marked as changed.
    pub open spec fn unmarked(self) -> FormModel {
        FormModel { dirty: Seq::new(TRACKED as nat, |i: int| false), ..self }
    }

    /// The form whose texts count as the loaded ones.
    pub open spec fn settled(self) -> FormModel {
        FormModel { originals: self.values.take(TRACKED as int), ..self }
    }

    /// Two dates of a PNG file contradict each other.
    pub open spec fn png_conflict(self) -> bool {
        &&& text::trim(self.value(PNG_CREATION_TIME)).len() > 0
        &&& text::trim(self.value(DATE_TIME_ORIGINAL)).len() > 0
        &&& self.value(PNG_CREATION_TIME) != self.value(DATE_TIME_ORIGINAL)
    }

    pub open spec fn with_conflict_shown(self) -> FormModel {
        FormModel { png_date_sources_conflict: self.png_conflict(), ..self }
    }
}

/// After the texts of a form were settled, nothing counts as changed.
pub proof fn settled_form_has_no_changes(f: FormModel)
    requires
        f.well_formed(),
    ensures
        !f.settled().counted().metadata_dirty,
        forall|i: int| 0 <= i < TRACKED ==> !#[trigger] f.settled().counted().dirty[i],
{
    let s = f.settled();
    assert forall|i: int| 0 <= i < TRACKED implies #[trigger] s.values[i] == s.originals[i] by {
        assert(f.values.take(TRACKED as int)[i] == f.values[i]);
    }
}

/// Counting the changes again gives the same.
pub proof fn counting_again_changes_nothing(f: FormModel)
    requires
        f.well_formed(),
    ensures
        f.counted().counted() == f.counted(),
        f.counted().metadata_dirty == exists|i: int|
            0 <= i < TRACKED && #[trigger] f.counted().dirty[i],
{
    let c = f.counted();
    assert(c.counted() =~= c);
    if c.metadata_dirty {
        let i = choose|i: int| 0 <= i < TRACKED && #[trigger] f.values[i] != f.originals[i];
        assert(c.dirty[i]);
    }
}

// The fields that hold EXIF data.

/// The field of the EXIF data that a field of the form shows.
pub open spec fn exif_field(i: int) -> Option<Field> {
    if i == TAKEN_DATE {
        Some(Field::TakenDate)
    } else if i == CAMERA_MAKE {
        Some(Field::CameraMake)
    } else if i == CAMERA_MODEL {
        Some(Field::CameraModel)
    } else if i == LENS_MODEL {
        Some(Field::LensModel)
    } else if i == SOFTWARE {
        Some(Field::Software)
    } else if i == ARTIST {
        Some(Field::Artist)
    } else if i == SHUTTER_SPEED {
        Some(Field::ShutterSpeed)
    } else if i == APERTURE {
        Some(Field::Aperture)
    } else if i == ISO_SPEED {
        Some(Field::IsoSpeed)
    } else if i == FOCAL_LENGTH {
        Some(Field::FocalLength)
    } else if i == FLASH_FIRED {
        Some(Field::FlashFired)
    } else if i == METERING_MODE {
        Some(Field::MeteringMode)
    } else if i == IMAGE_WIDTH {
        Some(Field::ImageWidth)
    } else if i == IMAGE_HEIGHT {
        Some(Field::ImageHeight)
    } else if i == ORIENTATION {
        Some(Field::Orientation)
    } else if i == COLOR_SPACE {
        Some(Field::ColorSpace)
    } else if i == GPS_LATITUDE {
        Some(Field::GpsLatitude)
    } else if i == GPS_LONGITUDE {
        Some(Field::GpsLongitude)
    } else if i == GPS_ALTITUDE {
        Some(Field::GpsAltitude)
    } else if i == GPS_DATE_STAMP {
        Some(Field::GpsDateStamp)
    } else if i == GPS_TIME_STAMP {
        Some(Field::GpsTimeStamp)
    } else if i == DATE_TIME_ORIGINAL {
        Some(Field::DateTimeOriginal)
    } else if i == DATE_TIME_DIGITIZED {
        Some(Field::DateTimeDigitized)
    } else if i == IMAGE_DATE_TIME {
        Some(Field::ImageDateTime)
    } else if i == IMAGE_DESCRIPTION {
        Some(Field::ImageDescription)
    } else if i == COPYRIGHT {
        Some(Field::Copyright)
    } else if i == EXIF_VERSION {
        Some(Field::ExifVersion)
    } else if i == EXPOSURE_PROGRAM {
        Some(Field::ExposureProgram)
    } else if i == WHITE_BALANCE {
        Some(Field::WhiteBalance)
    } else if i == FOCAL_LENGTH_35MM {
        Some(Field::FocalLength35mm)
    } else {
        None
    }
}

fn find_exif_field(i: usize) -> (r: Option<Field>)
    ensures
        r == exif_field(i as int),
{
    if i == TAKEN_DATE {
        Some(Field::TakenDate)
    } else if i == CAMERA_MAKE {
        Some(Field::CameraMake)
    } else if i == CAMERA_MODEL {
        Some(Field::CameraModel)
    } else if i == LENS_MODEL {
        Some(Field::LensModel)
    } else if i == SOFTWARE {
        Some(Field::Software)
    } else if i == ARTIST {
        Some(Field::Artist)
    } else if i == SHUTTER_SPEED {
        Some(Field::ShutterSpeed)
    } else if i == APERTURE {
        Some(Field::Aperture)
    } else if i == ISO_SPEED {
        Some(Field::IsoSpeed)
    } else if i == FOCAL_LENGTH {
        Some(Field::FocalLength)
    } else if i == FLASH_FIRED {
        Some(Field::FlashFired)
    } else if i == METERING_MODE {
        Some(Field::MeteringMode)
    } else if i == IMAGE_WIDTH {
        Some(Field::ImageWidth)
    } else if i == IMAGE_HEIGHT {
        Some(Field::ImageHeight)
    } else if i == ORIENTATION {
        Some(Field::Orientation)
    } else if i == COLOR_SPACE {
        Some(Field::ColorSpace)
    } else if i == GPS_LATITUDE {
        Some(Field::GpsLatitude)
    } else if i == GPS_LONGITUDE {
        Some(Field::GpsLongitude)
    } else if i == GPS_ALTITUDE {
        Some(Field::GpsAltitude)
    } else if i == GPS_DATE_STAMP {
        Some(Field::GpsDateStamp)
    } else if i == GPS_TIME_STAMP {
        Some(Field::GpsTimeStamp)
    } else if i == DATE_TIME_ORIGINAL {
        Some(Field::DateTimeOriginal)
    } else if i == DATE_TIME_DIGITIZED {
        Some(Field::DateTimeDigitized)
    } else if i == IMAGE_DATE_TIME {
        Some(Field::ImageDateTime)
    } else if i == IMAGE_DESCRIPTION {
        Some(Field::ImageDescription)
    } else if i == COPYRIGHT {
        Some(Field::Copyright)
    } else if i == EXIF_VERSION {
        Some(Field::ExifVersion)
    } else if i == EXPOSURE_PROGRAM {
        Some(Field::ExposureProgram)
    } else if i == WHITE_BALANCE {
        Some(Field::WhiteBalance)
    } else if i == FOCAL_LENGTH_35MM {
        Some(Field::FocalLength35mm)
    } else {
        None
    }
}

/// What a field of the form shows of EXIF data.
pub open spec fn exif_value(m: ExifMetadata, i: int) -> Seq<char> {
    match exif_field(i) {
        Some(f) => m.field(f),
        None => if i == GPS_DATE_TIME {
            date_shift::combined(m.gps_date_stamp@, m.gps_time_stamp@)
        } else {
            Seq::empty()
        },
    }
}

pub(crate) fn find_exif_value(m: &ExifMetadata, i: usize) -> (r: String)
    ensures
        r@ == exif_value(*m, i as int),
{
    match find_exif_field(i) {
        Some(f) => m.get(f).clone(),
        None => if i == GPS_DATE_TIME {
            combined_gps_date_time(m.gps_date_stamp.as_str(), m.gps_time_stamp.as_str())
        } else {
            String::new()
        },
    }
}

/// The dates of EXIF data contradict each other: the first one that is there
/// differs from another one.
pub open spec fn dates_conflict(original: Seq<char>, digitized: Seq<char>, image: Seq<char>) -> bool {
    if original.len() > 0 {
        (digitized.len() > 0 && digitized != original) || (image.len() > 0 && image != original)
    } else {
        digitized.len() > 0 && image.len() > 0 && digitized != image
    }
}

fn check_dates_conflict(original: &str, digitized: &str, image: &str) -> (r: bool)
    ensures
        r == dates_conflict(original@, digitized@, image@),
{
    let has_digitized = digitized.unicode_len() > 0;
    let has_image = image.unicode_len() > 0;
    if original.unicode_len() > 0 {
        (has_digitized && !same_text(digitized, original)) || (has_image && !same_text(
            image,
            original,
        ))
    } else {
        has_digitized && has_image && !same_text(digitized, image)
    }
}

impl FormModel {
    /// The form that shows EXIF data.
    pub open spec fn showing(self, m: ExifMetadata) -> FormModel {
        FormModel {
            values: Seq::new(
                FIELDS as nat,
                |i: int|
                    if i < TAKEN_DATE {
                        self.values[i]
                    } else {
                        exif_value(m, i)
                    },
            ),
            originals: self.originals.update(PNG_CREATION_TIME as int, Seq::empty()).update(
                DATE_TIME_ORIGINAL as int,
                Seq::empty(),
            ),
            exif_available: m.has_exif,
            png_date_sources_conflict: false,
            exif_date_sources_visible: self.selected_file_count == 1 && dates_conflict(
                m.date_time_original@,
                m.date_time_digitized@,
                m.image_date_time@,
            ),
            ..self
        }
    }

    /// The form into which EXIF data were loaded: nothing is changed.
    pub open spec fn loaded(self, m: ExifMetadata) -> FormModel {
        let shown = self.showing(m);
        FormModel {
            originals: Seq::new(
                TRACKED as nat,
                |i: int|
                    if TAKEN_DATE <= i <= GPS_DATE_TIME {
                        exif_value(m, i)
                    } else {
                        shown.originals[i]
                    },
            ),
            statuses: Seq::new(
                WITH_STATUS as nat,
                |i: int|
                    if i < TAKEN_DATE {
                        self.statuses[i]
                    } else {
                        Seq::empty()
                    },
            ),
            dirty: Seq::new(TRACKED as nat, |i: int| false),
            metadata_dirty: false,
            ..shown
        }
    }
}

proof fn lemma_views_set(v: Seq<String>, i: int, s: String)
    requires
        0 <= i < v.len(),
    ensures
        file_selection::text_views(v.update(i, s)) == file_selection::text_views(v).update(i, s@),
{
    assert(file_selection::text_views(v.update(i, s)) =~= file_selection::text_views(v).update(
        i,
        s@,
    ));
}

pub(crate) fn empty_texts(n: usize) -> (r: Vec<String>)
    ensures
        file_selection::text_views(r@) == Seq::new(n as nat, |i: int| Seq::<char>::empty()),
{
    let mut out: Vec<String> = Vec::new();
    let mut i: usize = 0;
    while i < n
        invariant
            i <= n,
            out@.len() == i,
            forall|k: int| 0 <= k < i ==> (#[trigger] out@[k])@ == Seq::<char>::empty(),
        decreases n - i,
    {
        out.push(String::new());
        i += 1;
    }
    assert(file_selection::text_views(out@) =~= Seq::new(
        n as nat,
        |i: int| Seq::<char>::empty(),
    ));
    out
}

impl DetailsForm {
    /// An empty form.
    pub fn new() -> (r: Self)
        ensures
            r@.well_formed(),
            r@ == (FormModel {
                values: Seq::new(FIELDS as nat, |i: int| Seq::empty()),
                originals: Seq::new(TRACKED as nat, |i: int| Seq::empty()),
                dirty: Seq::new(TRACKED as nat, |i: int| false),
                statuses: Seq::new(WITH_STATUS as nat, |i: int| Seq::empty()),
                metadata_dirty: false,
                exif_available: false,
                png_date_sources_conflict: false,
                exif_date_sources_visible: false,
                selected_file_count: 0,
            }),
    {
        let mut dirty: Vec<bool> = Vec::new();
        let mut i: usize = 0;
        while i < TRACKED
            invariant
                i <= TRACKED,
                dirty@ == Seq::new(i as nat, |k: int| false),
            decreases TRACKED - i,
        {
            dirty.push(false);
            i += 1;
            assert(dirty@ =~= Seq::new(i as nat, |k: int| false));
        }
        DetailsForm {
            values: empty_texts(FIELDS),
            originals: empty_texts(TRACKED),
            dirty,
            statuses: empty_texts(WITH_STATUS),
            metadata_dirty: false,
            exif_available: false,
            png_date_sources_conflict: false,
            exif_date_sources_visible: false,
            selected_file_count: 0,
        }
    }

    pub fn value(&self, i: usize) -> (r: &str)
        requires
            self@.well_formed(),
            i < FIELDS,
        ensures
            r@ == self@.value(i),
    {
        assert(self.values@.len() == FIELDS);
        self.values[i].as_str()
    }

    pub fn is_dirty(&self, i: usize) -> (r: bool)
        requires
            self@.well_formed(),
            i < TRACKED,
        ensures
            r == self@.dirty[i as int],
    {
        self.dirty[i]
    }

    pub fn original(&self, i: usize) -> (r: &str)
        requires
            self@.well_formed(),
            i < TRACKED,
        ensures
            r@ == self@.originals[i as int],
    {
        assert(self.originals@.len() == TRACKED);
        self.originals[i].as_str()
    }

    pub fn status(&self, i: usize) -> (r: &str)
        requires
            self@.well_formed(),
            i < WITH_STATUS,
        ensures
            r@ == self@.statuses[i as int],
    {
        assert(self.statuses@.len() == WITH_STATUS);
        self.statuses[i].as_str()
    }

    pub fn set_value(&mut self, i: usize, value: &str)
        requires
            old(self)@.well_formed(),
            i < FIELDS,
        ensures
            final(self)@ == old(self)@.with_value(i, value@),
            final(self)@.well_formed(),
    {
        assert(self.values@.len() == FIELDS);
        let v = value.to_owned();
        proof {
            lemma_views_set(self.values@, i as int, v);
        }
        self.values.set(i, v);
    }

    pub fn set_original(&mut self, i: usize, value: &str)
        requires
            old(self)@.well_formed(),
            i < TRACKED,
        ensures
            final(self)@ == old(self)@.with_original(i, value@),
            final(self)@.well_formed(),
    {
        assert(self.originals@.len() == TRACKED);
        let v = value.to_owned();
        proof {
            lemma_views_set(self.originals@, i as int, v);
        }
        self.originals.set(i, v);
    }

    pub fn set_dirty(&mut self, i: usize, dirty: bool)
        requires
            old(self)@.well_formed(),
            i < TRACKED,
        ensures
            final(self)@ == old(self)@.with_dirty(i, dirty),
            final(self)@.well_formed(),
    {
        self.dirty.set(i, dirty);
    }

    pub fn set_status(&mut self, i: usize, value: &str)
        requires
            old(self)@.well_formed(),
            i < WITH_STATUS,
        ensures
            final(self)@ == old(self)@.with_status(i, value@),
            final(self)@.well_formed(),
    {
        assert(self.statuses@.len() == WITH_STATUS);
        let v = value.to_owned();
        proof {
            lemma_views_set(self.statuses@, i as int, v);
        }
        self.statuses.set(i, v);
    }

    /// Counts which fields are changed.
    pub fn update_metadata_dirty_state(&mut self)
        requires
            old(self)@.well_formed(),
        ensures
            final(self)@ == old(self)@.counted(),
            final(self)@.well_formed(),
    {
        let ghost first = self@;
        let mut any = false;
        let mut i: usize = 0;
        while i < TRACKED
            invariant
                i <= TRACKED,
                first.well_formed(),
                self@.well_formed(),
                self@.values == first.values,
                self@.originals == first.originals,
                self@ == (FormModel { dirty: self@.dirty, ..first }),
                forall|k: int|
                    0 <= k < i ==> #[trigger] self@.dirty[k] == (first.values[k]
                        != first.originals[k]),
                any == exists|k: int|
                    0 <= k < i && #[trigger] first.values[k] != first.originals[k],
            decreases TRACKED - i,
        {
            let changed = !same_text(self.value(i), self.original(i));
            self.set_dirty(i, changed);
            any = any || changed;
            proof {
                if changed {
                    assert(first.values[i as int] != first.originals[i as int]);
                }
            }
            i += 1;
        }
        self.metadata_dirty = any;
        assert(self@.dirty =~= first.counted().dirty);
    }

    pub fn reset_metadata_dirty_flags(&mut self)
        requires
            old(self)@.well_formed(),
        ensures
            final(self)@ == old(self)@.unmarked(),
            final(self)@.well_formed(),
    {
        let ghost first = self@;
        let mut i: usize = 0;
        while i < TRACKED
            invariant
                i <= TRACKED,
                self@.well_formed(),
                self@ == (FormModel { dirty: self@.dirty, ..first }),
                forall|k: int| 0 <= k < i ==> !#[trigger] self@.dirty[k],
            decreases TRACKED - i,
        {
            self.set_dirty(i, false);
            i += 1;
        }
        assert(self@.dirty =~= first.unmarked().dirty);
    }

    /// Lets the texts count as the loaded ones.
    pub fn store_current_as_original(&mut self)
        requires
            old(self)@.well_formed(),
        ensures
            final(self)@ == old(self)@.settled(),
            final(self)@.well_formed(),
    {
        let ghost first = self@;
        let mut i: usize = 0;
        while i < TRACKED
            invariant
                i <= TRACKED,
                first.well_formed(),
                self@.well_formed(),
                self@ == (FormModel { originals: self@.originals, ..first }),
                forall|k: int| 0 <= k < i ==> #[trigger] self@.originals[k] == first.values[k],
            decreases TRACKED - i,
        {
            let v = self.value(i).to_owned();
            self.set_original(i, v.as_str());
            i += 1;
        }
        assert(self@.originals =~= first.settled().originals);
    }

    pub fn update_png_date_source_conflict(&mut self)
        requires
            old(self)@.well_formed(),
        ensures
            final(self)@ == old(self)@.with_conflict_shown(),
            final(self)@.well_formed(),
    {
        let creation = self.value(PNG_CREATION_TIME);
        let original = self.value(DATE_TIME_ORIGINAL);
        let conflict = trimmed(creation).unicode_len() > 0 && trimmed(original).unicode_len() > 0
            && !same_text(creation, original);
        self.png_date_sources_conflict = conflict;
    }

    /// Shows EXIF data.
    pub fn set_exif_metadata(&mut self, metadata: &ExifMetadata)
        requires
            old(self)@.well_formed(),
        ensures
            final(self)@ == old(self)@.showing(*metadata),
            final(self)@.well_formed(),
    {
        let ghost first = self@;
        let mut i: usize = TAKEN_DATE;
        while i < FIELDS
            invariant
                TAKEN_DATE <= i <= FIELDS,
                first.well_formed(),
                self@.well_formed(),
                self@ == (FormModel { values: self@.values, ..first }),
                forall|k: int|
                    0 <= k < TAKEN_DATE ==> #[trigger] self@.values[k] == first.values[k],
                forall|k: int|
                    TAKEN_DATE <= k < i ==> #[trigger] self@.values[k] == exif_value(*metadata, k),
            decreases FIELDS - i,
        {
            let v = find_exif_value(metadata, i);
            self.set_value(i, v.as_str());
            i += 1;
        }
        assert(self@.values =~= first.showing(*metadata).values);
        self.set_original(PNG_CREATION_TIME, "");
        self.set_original(DATE_TIME_ORIGINAL, "");
        proof {
            reveal_strlit("");
            assert(""@ =~= Seq::<char>::empty());
        }
        self.exif_available = metadata.has_exif;
        self.png_date_sources_conflict = false;
        self.exif_date_sources_visible = self.selected_file_count == 1 && check_dates_conflict(
            metadata.date_time_original.as_str(),
            metadata.date_time_digitized.as_str(),
            metadata.image_date_time.as_str(),
        );
    }

    /// Loads EXIF data.
    pub fn set_loaded_exif_metadata(&mut self, metadata: &ExifMetadata)
        requires
            old(self)@.well_formed(),
        ensures
            final(self)@ == old(self)@.loaded(*metadata),
            final(self)@.well_formed(),
    {
        let ghost first = self@;
        self.set_exif_metadata(metadata);
        let ghost shown = self@;
        let mut i: usize = TAKEN_DATE;
        proof {
            reveal_strlit("");
            assert(""@ =~= Seq::<char>::empty());
        }
        while i <= GPS_DATE_TIME
            invariant
                TAKEN_DATE <= i <= GPS_DATE_TIME + 1,
                ""@ == Seq::<char>::empty(),
                shown.well_formed(),
                self@.well_formed(),
                shown == first.showing(*metadata),
                self@ == (FormModel {
                    originals: self@.originals,
                    statuses: self@.statuses,
                    ..shown
                }),
                forall|k: int|
                    0 <= k < TRACKED && !(TAKEN_DATE <= k < i) ==> #[trigger] self@.originals[k]
                        == shown.originals[k],
                forall|k: int|
                    TAKEN_DATE <= k < i ==> #[trigger] self@.originals[k] == exif_value(
                        *metadata,
                        k,
                    ),
                forall|k: int|
                    0 <= k < TAKEN_DATE ==> #[trigger] self@.statuses[k] == first.statuses[k],
                forall|k: int|
                    TAKEN_DATE <= k < i ==> #[trigger] self@.statuses[k] == Seq::<char>::empty(),
            decreases GPS_DATE_TIME + 1 - i,
        {
            let v = find_exif_value(metadata, i);
            self.set_original(i, v.as_str());
            self.set_status(i, "");
            i += 1;
        }
        assert(self@.originals =~= first.loaded(*metadata).originals);
        assert(self@.statuses =~= first.loaded(*metadata).statuses);
        self.metadata_dirty = false;
        self.reset_metadata_dirty_flags();
        assert(self@ =~= first.loaded(*metadata));
    }

    /// Loads the date of a file without EXIF data; a dash stands for none.
    pub fn set_loaded_media_date(&mut self, media_date: &str)
        requires
            old(self)@.well_formed(),
        ensures
            final(self)@ == old(self)@.with_media_date(media_date@),
            final(self)@.well_formed(),
    {
        let value = if same_text(media_date, "-") {
            ""
        } else {
            media_date
        };
        proof {
            reveal_strlit("");
            assert(""@ =~= Seq::<char>::empty());
        }
        self.set_value(TAKEN_DATE, value);
        self.set_original(TAKEN_DATE, value);
        self.set_status(TAKEN_DATE, "");
        self.set_dirty(TAKEN_DATE, false);
        self.metadata_dirty = self.is_dirty(NAME) || self.is_dirty(CREATED) || self.is_dirty(
            MODIFIED,
        );
    }

    /// Loads the dates of a PNG file.
    pub fn set_loaded_png_date_sources(&mut self, sources: &PngDateSources)
        requires
            old(self)@.well_formed(),
        ensures
            final(self)@ == old(self)@.with_png_dates(
                sources.creation_time@,
                sources.date_time_original@,
                sources.date_time_digitized@,
                sources.image_date_time@,
            ).with_conflict_shown(),
            final(self)@.well_formed(),
    {
        self.set_value(PNG_CREATION_TIME, sources.creation_time.as_str());
        self.set_original(PNG_CREATION_TIME, sources.creation_time.as_str());
        self.set_value(DATE_TIME_ORIGINAL, sources.date_time_original.as_str());
        self.set_original(DATE_TIME_ORIGINAL, sources.date_time_original.as_str());
        self.set_value(DATE_TIME_DIGITIZED, sources.date_time_digitized.as_str());
        self.set_value(IMAGE_DATE_TIME, sources.image_date_time.as_str());
        self.set_dirty(PNG_CREATION_TIME, false);
        self.set_dirty(DATE_TIME_ORIGINAL, false);
        self.update_png_date_source_conflict();
    }

    /// Puts a date into the form; for a PNG file, into both of its dates.
    pub fn stage_taken_date(&mut self, value: &str, is_png: bool)
        requires
            old(self)@.well_formed(),
        ensures
            final(self)@ == old(self)@.with_staged_date(value@, is_png),
            final(self)@.well_formed(),
    {
        self.set_value(TAKEN_DATE, value);
        if is_png {
            self.set_value(PNG_CREATION_TIME, value);
            self.set_value(DATE_TIME_ORIGINAL, value);
            self.update_png_date_source_conflict();
        }
    }

    /// Cuts off white space and completes a date, before it is saved.
    pub fn trim_taken_date_before_save(&mut self)
        requires
            old(self)@.well_formed(),
        ensures
            ({
                let date = old(self)@.value(TAKEN_DATE);
                let trimmed_date = trimmed_input(date);
                final(self)@ == if trimmed_date != date {
                    old(self)@.with_value(TAKEN_DATE, trimmed_date).counted()
                } else {
                    old(self)@
                }
            }),
            final(self)@.well_formed(),
    {
        let current = self.value(TAKEN_DATE).to_owned();
        let normalized = normalize_date(current.as_str());
        if !same_text(normalized.as_str(), current.as_str()) {
            self.set_value(TAKEN_DATE, normalized.as_str());
            self.update_metadata_dirty_state();
        }
    }

    /// The same for the dates of a PNG file.
    pub fn trim_png_date_sources_before_save(&mut self)
        requires
            old(self)@.well_formed(),
        ensures
            final(self)@ == old(self)@.with_value(
                PNG_CREATION_TIME,
                trimmed_input(old(self)@.value(PNG_CREATION_TIME)),
            ).with_value(
                DATE_TIME_ORIGINAL,
                trimmed_input(old(self)@.value(DATE_TIME_ORIGINAL)),
            ).with_conflict_shown().counted(),
            final(self)@.well_formed(),
    {
        let creation = normalize_date(self.value(PNG_CREATION_TIME));
        let original = normalize_date(self.value(DATE_TIME_ORIGINAL));
        self.set_value(PNG_CREATION_TIME, creation.as_str());
        self.set_value(DATE_TIME_ORIGINAL, original.as_str());
        self.update_png_date_source_conflict();
        self.update_metadata_dirty_state();
    }

    /// Formats the date that is typed; gives where the cursor goes if the text
    /// was changed.
    pub fn taken_date_input_edited(&mut self, previous: &str) -> (r: Option<usize>)
        requires
            old(self)@.well_formed(),
        ensures
            ({
                let current = old(self)@.value(TAKEN_DATE);
                let formatted = date_input::formatted_edit(previous@, current);
                &&& final(self)@ == old(self)@.with_value(TAKEN_DATE, formatted)
                &&& r is Some == (formatted != current)
                &&& r matches Some(n) ==> n == vstd::utf8::encode_utf8(formatted).len()
            }),
            final(self)@.well_formed(),
    {
        let ghost first = self@;
        let current = self.value(TAKEN_DATE).to_owned();
        let formatted = auto_format_date_edit(previous, current.as_str());
        if same_text(formatted.as_str(), current.as_str()) {
            assert(self@ =~= first.with_value(TAKEN_DATE, formatted@));
            return None;
        }
        self.set_value(TAKEN_DATE, formatted.as_str());
        Some(formatted.as_str().as_bytes().len())
    }

    /// Formats one of the dates of a PNG file while it is typed. The other one
    /// follows as long as it has nothing of its own. Gives where the cursor
    /// goes if the text was changed, and whether the other date followed.
    pub fn png_date_input_edited(&mut self, field: usize, other: usize, previous: &str) -> (r: (
        Option<usize>,
        bool,
    ))
        requires
            old(self)@.well_formed(),
            field == PNG_CREATION_TIME && other == DATE_TIME_ORIGINAL || field
                == DATE_TIME_ORIGINAL && other == PNG_CREATION_TIME,
        ensures
            ({
                let current = old(self)@.value(field);
                let formatted = date_input::formatted_edit(previous@, current);
                let follows = text::trim(old(self)@.originals[other as int]).len() == 0 && (
                text::trim(old(self)@.value(other)).len() == 0 || old(self)@.value(other)
                    == previous@);
                let edited = old(self)@.with_value(field, formatted);
                &&& final(self)@ == (if follows {
                    edited.with_value(other, formatted)
                } else {
                    edited
                }).with_conflict_shown()
                &&& r.0 is Some == (formatted != current)
                &&& r.0 matches Some(n) ==> n == vstd::utf8::encode_utf8(formatted).len()
                &&& r.1 == follows
            }),
            final(self)@.well_formed(),
    {
        let ghost first = self@;
        let current = self.value(field).to_owned();
        let formatted = auto_format_date_edit(previous, current.as_str());
        let follows = should_mirror_png_date_source(
            self.original(other),
            self.value(other),
            previous,
        );
        let changed = !same_text(formatted.as_str(), current.as_str());
        if changed {
            self.set_value(field, formatted.as_str());
        }
        assert(self@ =~= first.with_value(field, formatted@));
        if follows {
            self.set_value(other, formatted.as_str());
        }
        self.update_png_date_source_conflict();
        if changed {
            (Some(formatted.as_str().as_bytes().len()), follows)
        } else {
            (None, follows)
        }
    }
}

/// A date that was entered, as it is saved.
pub open spec fn trimmed_input(value: Seq<char>) -> Seq<char> {
    datetime::normalized(datetime::parsed_date(text::trim(value), "%Y-%m-%d"@), value)
}

impl FormModel {
    pub open spec fn with_media_date(self, date: Seq<char>) -> FormModel {
        let value = if date == "-"@ {
            Seq::empty()
        } else {
            date
        };
        FormModel {
            metadata_dirty: self.dirty[NAME as int] || self.dirty[CREATED as int]
                || self.dirty[MODIFIED as int],
            ..self.with_value(TAKEN_DATE, value).with_original(TAKEN_DATE, value).with_status(
                TAKEN_DATE,
                Seq::empty(),
            ).with_dirty(TAKEN_DATE, false)
        }
    }

    pub open spec fn with_png_dates(
        self,
        creation: Seq<char>,
        original: Seq<char>,
        digitized: Seq<char>,
        image: Seq<char>,
    ) -> FormModel {
        self.with_value(PNG_CREATION_TIME, creation).with_original(
            PNG_CREATION_TIME,
            creation,
        ).with_value(DATE_TIME_ORIGINAL, original).with_original(
            DATE_TIME_ORIGINAL,
            original,
        ).with_value(DATE_TIME_DIGITIZED, digitized).with_value(IMAGE_DATE_TIME, image).with_dirty(
            PNG_CREATION_TIME,
            false,
        ).with_dirty(DATE_TIME_ORIGINAL, false)
    }

    pub open spec fn with_staged_date(self, value: Seq<char>, is_png: bool) -> FormModel {
        let staged = self.with_value(TAKEN_DATE, value);
        if is_png {
            staged.with_value(PNG_CREATION_TIME, value).with_value(
                DATE_TIME_ORIGINAL,
                value,
            ).with_conflict_shown()
        } else {
            staged
        }
    }
}

} // verus!
