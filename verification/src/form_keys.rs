//! The keys of the details form, their labels, and what can be copied, pasted
//! and taken away under them.
use crate::details_form::{DetailsForm, FormModel, APERTURE, ARTIST, CAMERA_MAKE, CAMERA_MODEL,
    COLOR_SPACE, COPYRIGHT, DATE_TIME_DIGITIZED, DATE_TIME_ORIGINAL, EXIF_VERSION, EXPOSURE_PROGRAM,
    FIELDS, FLASH_FIRED, FOCAL_LENGTH, FOCAL_LENGTH_35MM, GPS_ALTITUDE, GPS_DATE_STAMP,
    GPS_DATE_TIME, GPS_LATITUDE, GPS_LONGITUDE, GPS_TIME_STAMP, IMAGE_DATE_TIME, IMAGE_DESCRIPTION,
    IMAGE_HEIGHT, IMAGE_WIDTH, ISO_SPEED, LENS_MODEL, METERING_MODE, ORIENTATION, PNG_CREATION_TIME,
    SHUTTER_SPEED, SOFTWARE, TAKEN_DATE, WHITE_BALANCE};
use crate::text::{self, decimal_text, same_text, trimmed};
use vstd::prelude::*;

verus! {

/// The field of the form that a key stands for.
pub open spec fn key_field(key: Seq<char>) -> Option<usize> {
    if key == "taken_date"@ {
        Some(TAKEN_DATE)
    } else if key == "media_date"@ {
        Some(TAKEN_DATE)
    } else if key == "png_creation_time"@ {
        Some(PNG_CREATION_TIME)
    } else if key == "date_time_original"@ {
        Some(DATE_TIME_ORIGINAL)
    } else if key == "date_time_digitized"@ {
        Some(DATE_TIME_DIGITIZED)
    } else if key == "image_date_time"@ {
        Some(IMAGE_DATE_TIME)
    } else if key == "camera_make"@ {
        Some(CAMERA_MAKE)
    } else if key == "camera_model"@ {
        Some(CAMERA_MODEL)
    } else if key == "lens_model"@ {
        Some(LENS_MODEL)
    } else if key == "software"@ {
        Some(SOFTWARE)
    } else if key == "artist"@ {
        Some(ARTIST)
    } else if key == "image_description"@ {
        Some(IMAGE_DESCRIPTION)
    } else if key == "copyright"@ {
        Some(COPYRIGHT)
    } else if key == "exif_version"@ {
        Some(EXIF_VERSION)
    } else if key == "exposure_program"@ {
        Some(EXPOSURE_PROGRAM)
    } else if key == "white_balance"@ {
        Some(WHITE_BALANCE)
    } else if key == "focal_length_35mm"@ {
        Some(FOCAL_LENGTH_35MM)
    } else if key == "shutter_speed"@ {
        Some(SHUTTER_SPEED)
    } else if key == "aperture"@ {
        Some(APERTURE)
    } else if key == "iso_speed"@ {
        Some(ISO_SPEED)
    } else if key == "focal_length"@ {
        Some(FOCAL_LENGTH)
    } else if key == "flash_fired"@ {
        Some(FLASH_FIRED)
    } else if key == "metering_mode"@ {
        Some(METERING_MODE)
    } else if key == "image_width"@ {
        Some(IMAGE_WIDTH)
    } else if key == "image_height"@ {
        Some(IMAGE_HEIGHT)
    } else if key == "orientation"@ {
        Some(ORIENTATION)
    } else if key == "color_space"@ {
        Some(COLOR_SPACE)
    } else if key == "gps_latitude"@ {
        Some(GPS_LATITUDE)
    } else if key == "gps_longitude"@ {
        Some(GPS_LONGITUDE)
    } else if key == "gps_altitude"@ {
        Some(GPS_ALTITUDE)
    } else if key == "gps_date_stamp"@ {
        Some(GPS_DATE_STAMP)
    } else if key == "gps_time_stamp"@ {
        Some(GPS_TIME_STAMP)
    } else if key == "gps_date_time"@ {
        Some(GPS_DATE_TIME)
    } else {
        None
    }
}

fn find_key_field(key: &str) -> (r: Option<usize>)
    ensures
        r == key_field(key@),
        r matches Some(i) ==> i < FIELDS,
{
    if same_text(key, "taken_date") {
        Some(TAKEN_DATE)
    } else if same_text(key, "media_date") {
        Some(TAKEN_DATE)
    } else if same_text(key, "png_creation_time") {
        Some(PNG_CREATION_TIME)
    } else if same_text(key, "date_time_original") {
        Some(DATE_TIME_ORIGINAL)
    } else if same_text(key, "date_time_digitized") {
        Some(DATE_TIME_DIGITIZED)
    } else if same_text(key, "image_date_time") {
        Some(IMAGE_DATE_TIME)
    } else if same_text(key, "camera_make") {
        Some(CAMERA_MAKE)
    } else if same_text(key, "camera_model") {
        Some(CAMERA_MODEL)
    } else if same_text(key, "lens_model") {
        Some(LENS_MODEL)
    } else if same_text(key, "software") {
        Some(SOFTWARE)
    } else if same_text(key, "artist") {
        Some(ARTIST)
    } else if same_text(key, "image_description") {
        Some(IMAGE_DESCRIPTION)
    } else if same_text(key, "copyright") {
        Some(COPYRIGHT)
    } else if same_text(key, "exif_version") {
        Some(EXIF_VERSION)
    } else if same_text(key, "exposure_program") {
        Some(EXPOSURE_PROGRAM)
    } else if same_text(key, "white_balance") {
        Some(WHITE_BALANCE)
    } else if same_text(key, "focal_length_35mm") {
        Some(FOCAL_LENGTH_35MM)
    } else if same_text(key, "shutter_speed") {
        Some(SHUTTER_SPEED)
    } else if same_text(key, "aperture") {
        Some(APERTURE)
    } else if same_text(key, "iso_speed") {
        Some(ISO_SPEED)
    } else if same_text(key, "focal_length") {
        Some(FOCAL_LENGTH)
    } else if same_text(key, "flash_fired") {
        Some(FLASH_FIRED)
    } else if same_text(key, "metering_mode") {
        Some(METERING_MODE)
    } else if same_text(key, "image_width") {
        Some(IMAGE_WIDTH)
    } else if same_text(key, "image_height") {
        Some(IMAGE_HEIGHT)
    } else if same_text(key, "orientation") {
        Some(ORIENTATION)
    } else if same_text(key, "color_space") {
        Some(COLOR_SPACE)
    } else if same_text(key, "gps_latitude") {
        Some(GPS_LATITUDE)
    } else if same_text(key, "gps_longitude") {
        Some(GPS_LONGITUDE)
    } else if same_text(key, "gps_altitude") {
        Some(GPS_ALTITUDE)
    } else if same_text(key, "gps_date_stamp") {
        Some(GPS_DATE_STAMP)
    } else if same_text(key, "gps_time_stamp") {
        Some(GPS_TIME_STAMP)
    } else if same_text(key, "gps_date_time") {
        Some(GPS_DATE_TIME)
    } else {
        None
    }
}

/// The name that is shown for a key.
pub open spec fn key_label(key: Seq<char>) -> Seq<char> {
    if key == "taken_date"@ {
        "Taken Date"@
    } else if key == "media_date"@ {
        "Media Date"@
    } else if key == "png_creation_time"@ {
        "Creation Time"@
    } else if key == "date_time_original"@ {
        "DateTime Original"@
    } else if key == "date_time_digitized"@ {
        "DateTime Digitized"@
    } else if key == "image_date_time"@ {
        "Image Modified DateTime"@
    } else if key == "camera_make"@ {
        "Camera Make"@
    } else if key == "camera_model"@ {
        "Camera Model"@
    } else if key == "lens_model"@ {
        "Lens Model"@
    } else if key == "software"@ {
        "Software"@
    } else if key == "artist"@ {
        "Artist"@
    } else if key == "image_description"@ {
        "Image Description"@
    } else if key == "copyright"@ {
        "Copyright"@
    } else if key == "exif_version"@ {
        "EXIF Version"@
    } else if key == "exposure_program"@ {
        "Exposure Program"@
    } else if key == "white_balance"@ {
        "White Balance"@
    } else if key == "focal_length_35mm"@ {
        "35mm Focal Length"@
    } else if key == "shutter_speed"@ {
        "Shutter Speed"@
    } else if key == "aperture"@ {
        "Aperture"@
    } else if key == "iso_speed"@ {
        "ISO Speed"@
    } else if key == "focal_length"@ {
        "Focal Length"@
    } else if key == "flash_fired"@ {
        "Flash Fired"@
    } else if key == "metering_mode"@ {
        "Metering Mode"@
    } else if key == "orientation"@ {
        "Orientation"@
    } else if key == "color_space"@ {
        "Color Space"@
    } else if key == "gps_latitude"@ {
        "GPS Latitude"@
    } else if key == "gps_longitude"@ {
        "GPS Longitude"@
    } else if key == "gps_altitude"@ {
        "GPS Altitude"@
    } else if key == "gps_date_stamp"@ {
        "GPS Date Stamp"@
    } else if key == "gps_time_stamp"@ {
        "GPS Time Stamp (UTC)"@
    } else if key == "gps_date_time"@ {
        "GPS Date/Time (UTC)"@
    } else {
        "EXIF Tag"@
    }
}

pub fn exif_key_label(key: &str) -> (r: String)
    ensures
        r@ == key_label(key@),
{
    if same_text(key, "taken_date") {
        "Taken Date".to_owned()
    } else if same_text(key, "media_date") {
        "Media Date".to_owned()
    } else if same_text(key, "png_creation_time") {
        "Creation Time".to_owned()
    } else if same_text(key, "date_time_original") {
        "DateTime Original".to_owned()
    } else if same_text(key, "date_time_digitized") {
        "DateTime Digitized".to_owned()
    } else if same_text(key, "image_date_time") {
        "Image Modified DateTime".to_owned()
    } else if same_text(key, "camera_make") {
        "Camera Make".to_owned()
    } else if same_text(key, "camera_model") {
        "Camera Model".to_owned()
    } else if same_text(key, "lens_model") {
        "Lens Model".to_owned()
    } else if same_text(key, "software") {
        "Software".to_owned()
    } else if same_text(key, "artist") {
        "Artist".to_owned()
    } else if same_text(key, "image_description") {
        "Image Description".to_owned()
    } else if same_text(key, "copyright") {
        "Copyright".to_owned()
    } else if same_text(key, "exif_version") {
        "EXIF Version".to_owned()
    } else if same_text(key, "exposure_program") {
        "Exposure Program".to_owned()
    } else if same_text(key, "white_balance") {
        "White Balance".to_owned()
    } else if same_text(key, "focal_length_35mm") {
        "35mm Focal Length".to_owned()
    } else if same_text(key, "shutter_speed") {
        "Shutter Speed".to_owned()
    } else if same_text(key, "aperture") {
        "Aperture".to_owned()
    } else if same_text(key, "iso_speed") {
        "ISO Speed".to_owned()
    } else if same_text(key, "focal_length") {
        "Focal Length".to_owned()
    } else if same_text(key, "flash_fired") {
        "Flash Fired".to_owned()
    } else if same_text(key, "metering_mode") {
        "Metering Mode".to_owned()
    } else if same_text(key, "orientation") {
        "Orientation".to_owned()
    } else if same_text(key, "color_space") {
        "Color Space".to_owned()
    } else if same_text(key, "gps_latitude") {
        "GPS Latitude".to_owned()
    } else if same_text(key, "gps_longitude") {
        "GPS Longitude".to_owned()
    } else if same_text(key, "gps_altitude") {
        "GPS Altitude".to_owned()
    } else if same_text(key, "gps_date_stamp") {
        "GPS Date Stamp".to_owned()
    } else if same_text(key, "gps_time_stamp") {
        "GPS Time Stamp (UTC)".to_owned()
    } else if same_text(key, "gps_date_time") {
        "GPS Date/Time (UTC)".to_owned()
    } else {
        "EXIF Tag".to_owned()
    }
}

/// The keys of EXIF data that can be written.
pub open spec fn writable_key(key: Seq<char>) -> bool {
    key == "taken_date"@
        || key == "camera_make"@
        || key == "camera_model"@
        || key == "lens_model"@
        || key == "software"@
        || key == "artist"@
        || key == "shutter_speed"@
        || key == "aperture"@
        || key == "iso_speed"@
        || key == "focal_length"@
        || key == "flash_fired"@
        || key == "metering_mode"@
        || key == "gps_date_stamp"@
        || key == "gps_time_stamp"@
        || key == "gps_date_time"@
}

pub fn is_writable_exif_key(key: &str) -> (r: bool)
    ensures
        r == writable_key(key@),
{
    same_text(key, "taken_date")
        || same_text(key, "camera_make")
        || same_text(key, "camera_model")
        || same_text(key, "lens_model")
        || same_text(key, "software")
        || same_text(key, "artist")
        || same_text(key, "shutter_speed")
        || same_text(key, "aperture")
        || same_text(key, "iso_speed")
        || same_text(key, "focal_length")
        || same_text(key, "flash_fired")
        || same_text(key, "metering_mode")
        || same_text(key, "gps_date_stamp")
        || same_text(key, "gps_time_stamp")
        || same_text(key, "gps_date_time")
}

/// The keys of EXIF data that can be taken away.
pub open spec fn removable_key(key: Seq<char>) -> bool {
    key == "taken_date"@
        || key == "date_time_original"@
        || key == "date_time_digitized"@
        || key == "image_date_time"@
        || key == "camera_make"@
        || key == "camera_model"@
        || key == "lens_model"@
        || key == "software"@
        || key == "artist"@
        || key == "shutter_speed"@
        || key == "aperture"@
        || key == "iso_speed"@
        || key == "focal_length"@
        || key == "flash_fired"@
        || key == "metering_mode"@
        || key == "image_width"@
        || key == "image_height"@
        || key == "gps_latitude"@
        || key == "gps_longitude"@
        || key == "gps_altitude"@
        || key == "gps_date_stamp"@
        || key == "gps_time_stamp"@
        || key == "gps_date_time"@
        || key == "image_description"@
        || key == "copyright"@
        || key == "exif_version"@
        || key == "exposure_program"@
        || key == "white_balance"@
        || key == "focal_length_35mm"@
}

pub fn is_removable_exif_key(key: &str) -> (r: bool)
    ensures
        r == removable_key(key@),
{
    same_text(key, "taken_date")
        || same_text(key, "date_time_original")
        || same_text(key, "date_time_digitized")
        || same_text(key, "image_date_time")
        || same_text(key, "camera_make")
        || same_text(key, "camera_model")
        || same_text(key, "lens_model")
        || same_text(key, "software")
        || same_text(key, "artist")
        || same_text(key, "shutter_speed")
        || same_text(key, "aperture")
        || same_text(key, "iso_speed")
        || same_text(key, "focal_length")
        || same_text(key, "flash_fired")
        || same_text(key, "metering_mode")
        || same_text(key, "image_width")
        || same_text(key, "image_height")
        || same_text(key, "gps_latitude")
        || same_text(key, "gps_longitude")
        || same_text(key, "gps_altitude")
        || same_text(key, "gps_date_stamp")
        || same_text(key, "gps_time_stamp")
        || same_text(key, "gps_date_time")
        || same_text(key, "image_description")
        || same_text(key, "copyright")
        || same_text(key, "exif_version")
        || same_text(key, "exposure_program")
        || same_text(key, "white_balance")
        || same_text(key, "focal_length_35mm")
}

/// The keys of the dates of PNG files.
pub open spec fn writable_png_key(key: Seq<char>) -> bool {
    key == "png_creation_time"@
        || key == "date_time_original"@
}

pub fn is_writable_png_key(key: &str) -> (r: bool)
    ensures
        r == writable_png_key(key@),
{
    same_text(key, "png_creation_time")
        || same_text(key, "date_time_original")
}

/// The sections that can be written.
pub open spec fn writable_section(key: Seq<char>) -> bool {
    key == "camera"@
        || key == "exposure"@
}

pub fn is_writable_exif_section(key: &str) -> (r: bool)
    ensures
        r == writable_section(key@),
{
    same_text(key, "camera")
        || same_text(key, "exposure")
}

/// The section's title.
pub open spec fn section_label(section: Seq<char>) -> Seq<char> {
    if section == "camera"@ {
        "CAMERA"@
    } else if section == "exposure"@ {
        "EXPOSURE"@
    } else if section == "image"@ {
        "IMAGE"@
    } else if section == "location"@ {
        "LOCATION"@
    } else {
        "EXIF"@
    }
}

pub fn exif_section_label(section: &str) -> (r: String)
    ensures
        r@ == section_label(section@),
{
    if same_text(section, "camera") {
        "CAMERA".to_owned()
    } else if same_text(section, "exposure") {
        "EXPOSURE".to_owned()
    } else if same_text(section, "image") {
        "IMAGE".to_owned()
    } else if same_text(section, "location") {
        "LOCATION".to_owned()
    } else {
        "EXIF".to_owned()
    }
}

/// The keys of a section.
pub open spec fn section_keys(section: Seq<char>) -> Seq<Seq<char>> {
    if section == "camera"@ {
        seq!["taken_date"@, "camera_make"@, "camera_model"@, "lens_model"@, "software"@, "artist"@]
    } else if section == "exposure"@ {
        seq!["shutter_speed"@, "aperture"@, "iso_speed"@, "focal_length"@, "flash_fired"@, "metering_mode"@]
    } else if section == "image"@ {
        seq!["orientation"@, "color_space"@]
    } else if section == "location"@ {
        seq!["gps_latitude"@, "gps_longitude"@, "gps_altitude"@, "gps_date_time"@]
    } else {
        Seq::empty()
    }
}

fn list_section_keys(section: &str) -> (r: Vec<String>)
    ensures
        r@.len() == section_keys(section@).len(),
        forall|i: int| 0 <= i < r@.len() ==> (#[trigger] r@[i])@ == section_keys(section@)[i],
{
    let mut out: Vec<String> = Vec::new();
    if same_text(section, "camera") {
        out.push("taken_date".to_owned());
        out.push("camera_make".to_owned());
        out.push("camera_model".to_owned());
        out.push("lens_model".to_owned());
        out.push("software".to_owned());
        out.push("artist".to_owned());
    } else if same_text(section, "exposure") {
        out.push("shutter_speed".to_owned());
        out.push("aperture".to_owned());
        out.push("iso_speed".to_owned());
        out.push("focal_length".to_owned());
        out.push("flash_fired".to_owned());
        out.push("metering_mode".to_owned());
    } else if same_text(section, "image") {
        out.push("orientation".to_owned());
        out.push("color_space".to_owned());
    } else if same_text(section, "location") {
        out.push("gps_latitude".to_owned());
        out.push("gps_longitude".to_owned());
        out.push("gps_altitude".to_owned());
        out.push("gps_date_time".to_owned());
    }
    out
}

// Reading and writing by key.

/// The text under a key; none for a key that the form does not know.
pub open spec fn key_value(f: FormModel, key: Seq<char>) -> Seq<char> {
    match key_field(key) {
        Some(i) => f.value(i),
        None => Seq::empty(),
    }
}

/// The form with a text put under a key. Some keys are only shown.
pub open spec fn with_key(f: FormModel, key: Seq<char>, value: Seq<char>) -> FormModel {
    match key_field(key) {
        Some(i) => if i == DATE_TIME_DIGITIZED || i == IMAGE_DATE_TIME {
            f
        } else {
            f.with_value(i, value)
        },
        None => f,
    }
}

/// The form with the mark of a key's change set. The dates of PNG files, and
/// what is only shown, have no mark that can be set.
pub open spec fn with_key_mark(f: FormModel, key: Seq<char>, dirty: bool) -> FormModel {
    match key_field(key) {
        Some(i) => if i <= GPS_DATE_TIME {
            f.with_dirty(i, dirty)
        } else {
            f
        },
        None => f,
    }
}

/// A key and the text under it.
#[derive(Debug)]
pub struct KeyValue {
    pub key: String,
    pub value: String,
}

impl Clone for KeyValue {
    fn clone(&self) -> (r: Self)
        ensures
            r == *self,
    {
        KeyValue { key: self.key.clone(), value: self.value.clone() }
    }
}

/// The form after the first of some texts were put under their keys.
pub open spec fn pasted(f: FormModel, values: Seq<KeyValue>, n: int) -> FormModel
    decreases n,
{
    if n <= 0 {
        f
    } else {
        with_key(pasted(f, values, n - 1), values[n - 1].key@, values[n - 1].value@)
    }
}

impl DetailsForm {
    pub fn get_exif_value(&self, key: &str) -> (r: String)
        requires
            self@.well_formed(),
        ensures
            r@ == key_value(self@, key@),
    {
        match find_key_field(key) {
            Some(i) => self.value(i).to_owned(),
            None => String::new(),
        }
    }

    pub fn set_exif_value(&mut self, key: &str, value: &str)
        requires
            old(self)@.well_formed(),
        ensures
            final(self)@ == with_key(old(self)@, key@, value@),
            final(self)@.well_formed(),
    {
        match find_key_field(key) {
            Some(i) => {
                if i != DATE_TIME_DIGITIZED && i != IMAGE_DATE_TIME {
                    self.set_value(i, value);
                }
            },
            None => {},
        }
    }

    pub fn set_exif_key_dirty(&mut self, key: &str, dirty: bool)
        requires
            old(self)@.well_formed(),
        ensures
            final(self)@ == with_key_mark(old(self)@, key@, dirty),
            final(self)@.well_formed(),
    {
        match find_key_field(key) {
            Some(i) => {
                if i <= GPS_DATE_TIME {
                    self.set_dirty(i, dirty);
                }
            },
            None => {},
        }
    }

    /// The keys and texts of a section.
    pub fn collect_exif_section(&self, section: &str) -> (r: Vec<KeyValue>)
        requires
            self@.well_formed(),
        ensures
            r@.len() == section_keys(section@).len(),
            forall|i: int|
                0 <= i < r@.len() ==> (#[trigger] r@[i]).key@ == section_keys(section@)[i]
                    && r@[i].value@ == key_value(self@, r@[i].key@),
    {
        let keys = list_section_keys(section);
        let n: usize = keys.len();
        let mut out: Vec<KeyValue> = Vec::new();
        let mut i: usize = 0;
        while i < n
            invariant
                i <= n,
                n == keys@.len(),
                n == section_keys(section@).len(),
                self@.well_formed(),
                forall|k: int| 0 <= k < n ==> (#[trigger] keys@[k])@ == section_keys(section@)[k],
                out@.len() == i,
                forall|k: int|
                    0 <= k < i ==> (#[trigger] out@[k]).key@ == section_keys(section@)[k]
                        && out@[k].value@ == key_value(self@, out@[k].key@),
            decreases n - i,
        {
            let value = self.get_exif_value(keys[i].as_str());
            out.push(KeyValue { key: keys[i].clone(), value });
            i += 1;
        }
        out
    }

    /// Whether a paste would replace a text: then the user is asked first.
    pub fn paste_needs_confirmation(&self, values: &[KeyValue]) -> (r: bool)
        requires
            self@.well_formed(),
        ensures
            r == exists|i: int|
                0 <= i < values@.len() && text::trim(
                    key_value(self@, (#[trigger] values@[i]).key@),
                ).len() > 0,
    {
        let n: usize = values.len();
        let mut i: usize = 0;
        while i < n
            invariant
                i <= n,
                n == values@.len(),
                self@.well_formed(),
                forall|k: int|
                    0 <= k < i ==> text::trim(
                        key_value(self@, (#[trigger] values@[k]).key@),
                    ).len() == 0,
            decreases n - i,
        {
            let target = self.get_exif_value(values[i].key.as_str());
            if trimmed(target.as_str()).unicode_len() > 0 {
                return true;
            }
            i += 1;
        }
        false
    }

    pub fn apply_exif_paste(&mut self, values: &[KeyValue])
        requires
            old(self)@.well_formed(),
        ensures
            final(self)@ == pasted(old(self)@, values@, values@.len() as int).counted(),
            final(self)@.well_formed(),
    {
        let ghost first = self@;
        let n: usize = values.len();
        let mut i: usize = 0;
        while i < n
            invariant
                i <= n,
                n == values@.len(),
                self@.well_formed(),
                self@ == pasted(first, values@, i as int),
            decreases n - i,
        {
            self.set_exif_value(values[i].key.as_str(), values[i].value.as_str());
            i += 1;
        }
        self.update_metadata_dirty_state();
    }

    /// Marks a tag as one that is taken away on saving.
    pub fn stage_tag_removal(&mut self, key: &str) -> (r: String)
        requires
            old(self)@.well_formed(),
        ensures
            final(self)@ == (FormModel {
                metadata_dirty: true,
                ..with_key_mark(with_key(old(self)@, key@, ""@), key@, false)
            }),
            final(self)@.well_formed(),
            r@ == "Remove staged: '"@ + key_label(key@) + "'. Ctrl+S to save."@,
    {
        self.set_exif_value(key, "");
        self.set_exif_key_dirty(key, false);
        self.metadata_dirty = true;
        let mut out = "Remove staged: '".to_owned();
        out.append(exif_key_label(key).as_str());
        out.append("'. Ctrl+S to save.");
        out
    }
}

// Copying and pasting.

/// What was copied.
#[derive(Debug)]
pub enum ExifClipboard {
    Tag { value: String },
    Section { section: String, values: Vec<KeyValue> },
}

/// What was clicked on.
#[derive(Debug)]
pub enum ExifContextTarget {
    Tag { key: String, value: String },
    Section { section: String, values: Vec<KeyValue> },
}

/// Whether the text under a key can be written for the selected files.
pub open spec fn writable_metadata_key(kind: Seq<char>, file_count: i32, key: Seq<char>) -> bool {
    ||| writable_key(key)
    ||| kind == "mp4"@ && file_count == 1 && key == "media_date"@
    ||| kind == "png"@ && file_count == 1 && writable_png_key(key)
}

pub fn is_writable_metadata_key(kind: &str, file_count: i32, key: &str) -> (r: bool)
    ensures
        r == writable_metadata_key(kind@, file_count, key@),
{
    is_writable_exif_key(key) || (same_text(kind, "mp4") && file_count == 1 && same_text(
        key,
        "media_date",
    )) || (same_text(kind, "png") && file_count == 1 && is_writable_png_key(key))
}

/// Whether a tag of the selected kind of files can be taken away.
pub open spec fn removable_tag(kind: Seq<char>, key: Seq<char>) -> bool {
    (kind == "jpeg"@ && removable_key(key)) || (kind == "png"@ && writable_png_key(key))
}

pub fn is_removable_tag(kind: &str, key: &str) -> (r: bool)
    ensures
        r == removable_tag(kind@, key@),
{
    (same_text(kind, "jpeg") && is_removable_exif_key(key)) || (same_text(kind, "png")
        && is_writable_png_key(key))
}

/// Whether the menu offers to paste onto a tag.
pub fn tag_paste_enabled(
    kind: &str,
    file_count: i32,
    key: &str,
    clipboard: &Option<ExifClipboard>,
) -> (r: bool)
    ensures
        r == (writable_metadata_key(kind@, file_count, key@) && *clipboard matches Some(
            ExifClipboard::Tag { .. },
        )),
{
    let tag = match clipboard {
        Some(ExifClipboard::Tag { .. }) => true,
        _ => false,
    };
    tag && is_writable_metadata_key(kind, file_count, key)
}

/// Whether the menu offers to take a tag away.
pub fn tag_removal_enabled(kind: &str, file_count: i32, key: &str, value: &str) -> (r: bool)
    ensures
        r == (file_count == 1 && text::trim(value@).len() > 0 && text::trim(value@) != "-"@
            && removable_tag(kind@, key@)),
{
    let v = trimmed(value);
    file_count == 1 && v.unicode_len() > 0 && !same_text(v, "-") && is_removable_tag(kind, key)
}

/// Whether the menu offers to paste onto a section.
pub fn section_paste_enabled(section: &str, clipboard: &Option<ExifClipboard>) -> (r: bool)
    ensures
        r == (match *clipboard {
            Some(ExifClipboard::Section { section: s, .. }) => s@ == section@ && writable_section(
                section@,
            ),
            _ => false,
        }),
{
    match clipboard {
        Some(ExifClipboard::Section { section: s, .. }) => same_text(s.as_str(), section)
            && is_writable_exif_section(section),
        _ => false,
    }
}

fn clone_values(values: &Vec<KeyValue>) -> (r: Vec<KeyValue>)
    ensures
        r@ == values@,
{
    let n: usize = values.len();
    let mut out: Vec<KeyValue> = Vec::new();
    let mut i: usize = 0;
    while i < n
        invariant
            i <= n,
            n == values@.len(),
            out@ == values@.take(i as int),
        decreases n - i,
    {
        out.push(values[i].clone());
        i += 1;
        assert(out@ =~= values@.take(i as int));
    }
    assert(out@ =~= values@);
    out
}

/// What a copy puts on the clipboard, and what the user is told.
pub fn context_copy(target: &ExifContextTarget) -> (r: (ExifClipboard, String))
    ensures
        match *target {
            ExifContextTarget::Tag { key, value } => {
                &&& r.0 matches ExifClipboard::Tag { value: v } && v@ == value@
                &&& r.1@ == "Copied: '"@ + key_label(key@) + ": "@ + (if value@.len() == 0 {
                    "(empty)"@
                } else {
                    value@
                }) + "'"@
            },
            ExifContextTarget::Section { section, values } => {
                &&& r.0 matches ExifClipboard::Section { section: s, values: v } && s@ == section@
                    && v@ == values@
                &&& r.1@ == "Copied: '"@ + section_label(section@) + " section ("@ + text::decimal(
                    values@.len(),
                ) + " tags)'"@
            },
        },
{
    match target {
        ExifContextTarget::Tag { key, value } => {
            let mut message = "Copied: '".to_owned();
            message.append(exif_key_label(key.as_str()).as_str());
            message.append(": ");
            if value.as_str().unicode_len() == 0 {
                message.append("(empty)");
            } else {
                message.append(value.as_str());
            }
            message.append("'");
            (ExifClipboard::Tag { value: value.clone() }, message)
        },
        ExifContextTarget::Section { section, values } => {
            let mut message = "Copied: '".to_owned();
            message.append(exif_section_label(section.as_str()).as_str());
            message.append(" section (");
            message.append(decimal_text(values.len() as u64).as_str());
            message.append(" tags)'");
            (
                ExifClipboard::Section { section: section.clone(), values: clone_values(values) },
                message,
            )
        },
    }
}

/// The texts that a paste puts into the form.
pub fn context_paste(
    target: &ExifContextTarget,
    clipboard: &Option<ExifClipboard>,
    kind: &str,
    file_count: i32,
) -> (r: Option<Vec<KeyValue>>)
    ensures
        match (*target, *clipboard) {
            (
                ExifContextTarget::Tag { key, .. },
                Some(ExifClipboard::Tag { value }),
            ) => if writable_metadata_key(kind@, file_count, key@) {
                r matches Some(v) && v@.len() == 1 && v@[0].key@ == key@ && v@[0].value@ == value@
            } else {
                r is None
            },
            (
                ExifContextTarget::Section { section, .. },
                Some(ExifClipboard::Section { section: s, values }),
            ) => if section@ == s@ && writable_section(section@) {
                r matches Some(v) && v@ == values@
            } else {
                r is None
            },
            _ => r is None,
        },
{
    match (target, clipboard) {
        (ExifContextTarget::Tag { key, .. }, Some(ExifClipboard::Tag { value })) => {
            if is_writable_metadata_key(kind, file_count, key.as_str()) {
                let mut out: Vec<KeyValue> = Vec::new();
                out.push(KeyValue { key: key.clone(), value: value.clone() });
                Some(out)
            } else {
                None
            }
        },
        (
            ExifContextTarget::Section { section, .. },
            Some(ExifClipboard::Section { section: s, values }),
        ) => {
            if same_text(section.as_str(), s.as_str()) && is_writable_exif_section(
                section.as_str(),
            ) {
                Some(clone_values(values))
            } else {
                None
            }
        },
        _ => None,
    }
}

} // verus!
