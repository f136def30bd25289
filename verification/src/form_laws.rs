//! Which fields of the form the keys of tags stand for.
use crate::date_shift;
use crate::details_form::{self, FormModel};
use crate::exif::ExifMetadata;
use crate::form_keys;
use crate::text;
use vstd::prelude::*;

verus! {

// The letters by which the keys differ.

proof fn lemma_letters_0()
    ensures
        "taken_date"@.len() == 10 && "taken_date"@[0] == 't',
        "media_date"@.len() == 10 && "media_date"@[0] == 'm',
        "png_creation_time"@.len() == 17 && "png_creation_time"@[0] == 'p',
        "date_time_original"@.len() == 18,
        "date_time_digitized"@.len() == 19,
        "image_date_time"@.len() == 15,
{
    reveal_strlit("taken_date");
    reveal_strlit("media_date");
    reveal_strlit("png_creation_time");
    reveal_strlit("date_time_original");
    reveal_strlit("date_time_digitized");
    reveal_strlit("image_date_time");
}

proof fn lemma_letters_1()
    ensures
        "camera_make"@.len() == 11 && "camera_make"@[1] == 'a',
        "camera_model"@.len() == 12 && "camera_model"@[0] == 'c' && "camera_model"@[4] == 'r',
        "lens_model"@.len() == 10 && "lens_model"@[0] == 'l',
        "software"@.len() == 8 && "software"@[0] == 's',
        "artist"@.len() == 6,
        "image_description"@.len() == 17 && "image_description"@[0] == 'i',
{
    reveal_strlit("camera_make");
    reveal_strlit("camera_model");
    reveal_strlit("lens_model");
    reveal_strlit("software");
    reveal_strlit("artist");
    reveal_strlit("image_description");
}

proof fn lemma_letters_2()
    ensures
        "copyright"@.len() == 9 && "copyright"@[0] == 'c',
        "exif_version"@.len() == 12 && "exif_version"@[0] == 'e' && "exif_version"@[4] == '_',
        "exposure_program"@.len() == 16,
        "white_balance"@.len() == 13 && "white_balance"@[4] == 'e',
        "focal_length_35mm"@.len() == 17 && "focal_length_35mm"@[0] == 'f',
        "shutter_speed"@.len() == 13 && "shutter_speed"@[4] == 't',
{
    reveal_strlit("copyright");
    reveal_strlit("exif_version");
    reveal_strlit("exposure_program");
    reveal_strlit("white_balance");
    reveal_strlit("focal_length_35mm");
    reveal_strlit("shutter_speed");
}

proof fn lemma_letters_3()
    ensures
        "aperture"@.len() == 8 && "aperture"@[0] == 'a',
        "iso_speed"@.len() == 9 && "iso_speed"@[0] == 'i',
        "focal_length"@.len() == 12 && "focal_length"@[0] == 'f' && "focal_length"@[4] == 'l',
        "flash_fired"@.len() == 11 && "flash_fired"@[1] == 'l',
        "metering_mode"@.len() == 13 && "metering_mode"@[4] == 'r',
        "image_width"@.len() == 11 && "image_width"@[1] == 'm',
{
    reveal_strlit("aperture");
    reveal_strlit("iso_speed");
    reveal_strlit("focal_length");
    reveal_strlit("flash_fired");
    reveal_strlit("metering_mode");
    reveal_strlit("image_width");
}

proof fn lemma_letters_4()
    ensures
        "image_height"@.len() == 12 && "image_height"@[0] == 'i' && "image_height"@[4] == 'e',
        "orientation"@.len() == 11 && "orientation"@[1] == 'r',
        "color_space"@.len() == 11 && "color_space"@[1] == 'o',
        "gps_latitude"@.len() == 12 && "gps_latitude"@[0] == 'g' && "gps_latitude"@[4] == 'l',
        "gps_longitude"@.len() == 13 && "gps_longitude"@[4] == 'l',
        "gps_altitude"@.len() == 12 && "gps_altitude"@[0] == 'g' && "gps_altitude"@[4] == 'a',
{
    reveal_strlit("image_height");
    reveal_strlit("orientation");
    reveal_strlit("color_space");
    reveal_strlit("gps_latitude");
    reveal_strlit("gps_longitude");
    reveal_strlit("gps_altitude");
}

proof fn lemma_letters_5()
    ensures
        "gps_date_stamp"@.len() == 14 && "gps_date_stamp"@[4] == 'd',
        "gps_time_stamp"@.len() == 14 && "gps_time_stamp"@[4] == 't',
        "gps_date_time"@.len() == 13 && "gps_date_time"@[4] == 'd',
{
    reveal_strlit("gps_date_stamp");
    reveal_strlit("gps_time_stamp");
    reveal_strlit("gps_date_time");
}

pub proof fn lemma_letters()
    ensures
        "taken_date"@.len() == 10 && "taken_date"@[0] == 't',
        "media_date"@.len() == 10 && "media_date"@[0] == 'm',
        "png_creation_time"@.len() == 17 && "png_creation_time"@[0] == 'p',
        "date_time_original"@.len() == 18,
        "date_time_digitized"@.len() == 19,
        "image_date_time"@.len() == 15,
        "camera_make"@.len() == 11 && "camera_make"@[1] == 'a',
        "camera_model"@.len() == 12 && "camera_model"@[0] == 'c' && "camera_model"@[4] == 'r',
        "lens_model"@.len() == 10 && "lens_model"@[0] == 'l',
        "software"@.len() == 8 && "software"@[0] == 's',
        "artist"@.len() == 6,
        "image_description"@.len() == 17 && "image_description"@[0] == 'i',
        "copyright"@.len() == 9 && "copyright"@[0] == 'c',
        "exif_version"@.len() == 12 && "exif_version"@[0] == 'e' && "exif_version"@[4] == '_',
        "exposure_program"@.len() == 16,
        "white_balance"@.len() == 13 && "white_balance"@[4] == 'e',
        "focal_length_35mm"@.len() == 17 && "focal_length_35mm"@[0] == 'f',
        "shutter_speed"@.len() == 13 && "shutter_speed"@[4] == 't',
        "aperture"@.len() == 8 && "aperture"@[0] == 'a',
        "iso_speed"@.len() == 9 && "iso_speed"@[0] == 'i',
        "focal_length"@.len() == 12 && "focal_length"@[0] == 'f' && "focal_length"@[4] == 'l',
        "flash_fired"@.len() == 11 && "flash_fired"@[1] == 'l',
        "metering_mode"@.len() == 13 && "metering_mode"@[4] == 'r',
        "image_width"@.len() == 11 && "image_width"@[1] == 'm',
        "image_height"@.len() == 12 && "image_height"@[0] == 'i' && "image_height"@[4] == 'e',
        "orientation"@.len() == 11 && "orientation"@[1] == 'r',
        "color_space"@.len() == 11 && "color_space"@[1] == 'o',
        "gps_latitude"@.len() == 12 && "gps_latitude"@[0] == 'g' && "gps_latitude"@[4] == 'l',
        "gps_longitude"@.len() == 13 && "gps_longitude"@[4] == 'l',
        "gps_altitude"@.len() == 12 && "gps_altitude"@[0] == 'g' && "gps_altitude"@[4] == 'a',
        "gps_date_stamp"@.len() == 14 && "gps_date_stamp"@[4] == 'd',
        "gps_time_stamp"@.len() == 14 && "gps_time_stamp"@[4] == 't',
        "gps_date_time"@.len() == 13 && "gps_date_time"@[4] == 'd',
{
    lemma_letters_0();
    lemma_letters_1();
    lemma_letters_2();
    lemma_letters_3();
    lemma_letters_4();
    lemma_letters_5();
}

/// A form into which EXIF data were loaded shows under each key what the data have under
/// its name; the date of movies and PNG files stands where the date taken does, and the
/// date and the time of the GPS data stand together.
pub proof fn keys_show_what_was_loaded(f: FormModel, m: ExifMetadata)
    ensures
        ({
            let g = f.loaded(m);
            &&& form_keys::key_value(g, "taken_date"@) == m.taken_date@
            &&& form_keys::key_value(g, "media_date"@) == m.taken_date@
            &&& form_keys::key_value(g, "date_time_original"@) == m.date_time_original@
            &&& form_keys::key_value(g, "date_time_digitized"@) == m.date_time_digitized@
            &&& form_keys::key_value(g, "image_date_time"@) == m.image_date_time@
            &&& form_keys::key_value(g, "camera_make"@) == m.camera_make@
            &&& form_keys::key_value(g, "camera_model"@) == m.camera_model@
            &&& form_keys::key_value(g, "lens_model"@) == m.lens_model@
            &&& form_keys::key_value(g, "software"@) == m.software@
            &&& form_keys::key_value(g, "artist"@) == m.artist@
            &&& form_keys::key_value(g, "image_description"@) == m.image_description@
            &&& form_keys::key_value(g, "copyright"@) == m.copyright@
            &&& form_keys::key_value(g, "exif_version"@) == m.exif_version@
            &&& form_keys::key_value(g, "exposure_program"@) == m.exposure_program@
            &&& form_keys::key_value(g, "white_balance"@) == m.white_balance@
            &&& form_keys::key_value(g, "focal_length_35mm"@) == m.focal_length_35mm@
            &&& form_keys::key_value(g, "shutter_speed"@) == m.shutter_speed@
            &&& form_keys::key_value(g, "aperture"@) == m.aperture@
            &&& form_keys::key_value(g, "iso_speed"@) == m.iso_speed@
            &&& form_keys::key_value(g, "focal_length"@) == m.focal_length@
            &&& form_keys::key_value(g, "flash_fired"@) == m.flash_fired@
            &&& form_keys::key_value(g, "metering_mode"@) == m.metering_mode@
            &&& form_keys::key_value(g, "image_width"@) == m.image_width@
            &&& form_keys::key_value(g, "image_height"@) == m.image_height@
            &&& form_keys::key_value(g, "orientation"@) == m.orientation@
            &&& form_keys::key_value(g, "color_space"@) == m.color_space@
            &&& form_keys::key_value(g, "gps_latitude"@) == m.gps_latitude@
            &&& form_keys::key_value(g, "gps_longitude"@) == m.gps_longitude@
            &&& form_keys::key_value(g, "gps_altitude"@) == m.gps_altitude@
            &&& form_keys::key_value(g, "gps_date_stamp"@) == m.gps_date_stamp@
            &&& form_keys::key_value(g, "gps_time_stamp"@) == m.gps_time_stamp@
            &&& form_keys::key_value(g, "gps_date_time"@) == date_shift::combined(
                m.gps_date_stamp@,
                m.gps_time_stamp@,
            )
            &&& form_keys::key_value(g, "png_creation_time"@).len() == 0
        }),
{
    lemma_shown_0(f, m);
    lemma_shown_1(f, m);
    lemma_shown_2(f, m);
}

proof fn lemma_shown_0(f: FormModel, m: ExifMetadata)
    ensures
        form_keys::key_value(f.loaded(m), "taken_date"@) == m.taken_date@,
        form_keys::key_value(f.loaded(m), "media_date"@) == m.taken_date@,
        form_keys::key_value(f.loaded(m), "png_creation_time"@).len() == 0,
        form_keys::key_value(f.loaded(m), "date_time_original"@) == m.date_time_original@,
        form_keys::key_value(f.loaded(m), "date_time_digitized"@) == m.date_time_digitized@,
        form_keys::key_value(f.loaded(m), "image_date_time"@) == m.image_date_time@,
        form_keys::key_value(f.loaded(m), "camera_make"@) == m.camera_make@,
        form_keys::key_value(f.loaded(m), "camera_model"@) == m.camera_model@,
        form_keys::key_value(f.loaded(m), "lens_model"@) == m.lens_model@,
        form_keys::key_value(f.loaded(m), "software"@) == m.software@,
        form_keys::key_value(f.loaded(m), "artist"@) == m.artist@,
{
    lemma_letters();
}

proof fn lemma_shown_1(f: FormModel, m: ExifMetadata)
    ensures
        form_keys::key_value(f.loaded(m), "image_description"@) == m.image_description@,
        form_keys::key_value(f.loaded(m), "copyright"@) == m.copyright@,
        form_keys::key_value(f.loaded(m), "exif_version"@) == m.exif_version@,
        form_keys::key_value(f.loaded(m), "exposure_program"@) == m.exposure_program@,
        form_keys::key_value(f.loaded(m), "white_balance"@) == m.white_balance@,
        form_keys::key_value(f.loaded(m), "focal_length_35mm"@) == m.focal_length_35mm@,
        form_keys::key_value(f.loaded(m), "shutter_speed"@) == m.shutter_speed@,
        form_keys::key_value(f.loaded(m), "aperture"@) == m.aperture@,
        form_keys::key_value(f.loaded(m), "iso_speed"@) == m.iso_speed@,
        form_keys::key_value(f.loaded(m), "focal_length"@) == m.focal_length@,
        form_keys::key_value(f.loaded(m), "flash_fired"@) == m.flash_fired@,
{
    lemma_letters();
}

proof fn lemma_shown_2(f: FormModel, m: ExifMetadata)
    ensures
        form_keys::key_value(f.loaded(m), "metering_mode"@) == m.metering_mode@,
        form_keys::key_value(f.loaded(m), "image_width"@) == m.image_width@,
        form_keys::key_value(f.loaded(m), "image_height"@) == m.image_height@,
        form_keys::key_value(f.loaded(m), "orientation"@) == m.orientation@,
        form_keys::key_value(f.loaded(m), "color_space"@) == m.color_space@,
        form_keys::key_value(f.loaded(m), "gps_latitude"@) == m.gps_latitude@,
        form_keys::key_value(f.loaded(m), "gps_longitude"@) == m.gps_longitude@,
        form_keys::key_value(f.loaded(m), "gps_altitude"@) == m.gps_altitude@,
        form_keys::key_value(f.loaded(m), "gps_date_stamp"@) == m.gps_date_stamp@,
        form_keys::key_value(f.loaded(m), "gps_time_stamp"@) == m.gps_time_stamp@,
        form_keys::key_value(f.loaded(m), "gps_date_time"@) == date_shift::combined(
            m.gps_date_stamp@,
            m.gps_time_stamp@,
        ),
{
    lemma_letters();
}

/// A text that was put under a key stands there, and the texts under keys that stand for
/// other fields stay.
pub proof fn texts_stand_under_their_keys(
    f: FormModel,
    key: Seq<char>,
    other: Seq<char>,
    value: Seq<char>,
)
    requires
        f.well_formed(),
        form_keys::writable_key(key) || key == "media_date"@ || key == "png_creation_time"@ || key
            == "date_time_original"@,
    ensures
        form_keys::key_value(form_keys::with_key(f, key, value), key) == value,
        form_keys::key_field(other) != form_keys::key_field(key) ==> form_keys::key_value(
            form_keys::with_key(f, key, value),
            other,
        ) == form_keys::key_value(f, other),
{
    lemma_letters();
    lemma_fields_lie_within(other);
    lemma_fields_lie_within(key);
}

proof fn lemma_fields_lie_within(key: Seq<char>)
    ensures
        form_keys::key_field(key) matches Some(i) ==> i < 35,
{
}

/// Dates that are only shown stay when a text is put under their keys.
pub proof fn dates_that_are_only_shown_stay(f: FormModel, value: Seq<char>)
    ensures
        form_keys::with_key(f, "date_time_digitized"@, value) == f,
        form_keys::with_key(f, "image_date_time"@, value) == f,
{
    lemma_letters();
}

/// The names of the keys.
pub proof fn keys_have_their_names()
    ensures
        form_keys::key_label("taken_date"@) == "Taken Date"@,
        form_keys::key_label("media_date"@) == "Media Date"@,
        form_keys::key_label("png_creation_time"@) == "Creation Time"@,
        form_keys::key_label("date_time_original"@) == "DateTime Original"@,
        form_keys::key_label("date_time_digitized"@) == "DateTime Digitized"@,
        form_keys::key_label("image_date_time"@) == "Image Modified DateTime"@,
        form_keys::key_label("camera_make"@) == "Camera Make"@,
        form_keys::key_label("camera_model"@) == "Camera Model"@,
        form_keys::key_label("lens_model"@) == "Lens Model"@,
        form_keys::key_label("software"@) == "Software"@,
        form_keys::key_label("artist"@) == "Artist"@,
        form_keys::key_label("image_description"@) == "Image Description"@,
        form_keys::key_label("copyright"@) == "Copyright"@,
        form_keys::key_label("exif_version"@) == "EXIF Version"@,
        form_keys::key_label("exposure_program"@) == "Exposure Program"@,
        form_keys::key_label("white_balance"@) == "White Balance"@,
        form_keys::key_label("focal_length_35mm"@) == "35mm Focal Length"@,
        form_keys::key_label("shutter_speed"@) == "Shutter Speed"@,
        form_keys::key_label("aperture"@) == "Aperture"@,
        form_keys::key_label("iso_speed"@) == "ISO Speed"@,
        form_keys::key_label("focal_length"@) == "Focal Length"@,
        form_keys::key_label("flash_fired"@) == "Flash Fired"@,
        form_keys::key_label("metering_mode"@) == "Metering Mode"@,
        form_keys::key_label("orientation"@) == "Orientation"@,
        form_keys::key_label("color_space"@) == "Color Space"@,
        form_keys::key_label("gps_latitude"@) == "GPS Latitude"@,
        form_keys::key_label("gps_longitude"@) == "GPS Longitude"@,
        form_keys::key_label("gps_altitude"@) == "GPS Altitude"@,
        form_keys::key_label("gps_date_stamp"@) == "GPS Date Stamp"@,
        form_keys::key_label("gps_time_stamp"@) == "GPS Time Stamp (UTC)"@,
        form_keys::key_label("gps_date_time"@) == "GPS Date/Time (UTC)"@,
{
    lemma_letters();
}

/// Sections hold the keys of the camera, of the exposure, of the image and of the place.
pub proof fn sections_hold_their_keys()
    ensures
        form_keys::section_keys("camera"@) == seq![
            "taken_date"@,
            "camera_make"@,
            "camera_model"@,
            "lens_model"@,
            "software"@,
            "artist"@,
        ],
        form_keys::section_keys("exposure"@) == seq![
            "shutter_speed"@,
            "aperture"@,
            "iso_speed"@,
            "focal_length"@,
            "flash_fired"@,
            "metering_mode"@,
        ],
        form_keys::section_keys("image"@) == seq!["orientation"@, "color_space"@],
        form_keys::section_keys("location"@) == seq![
            "gps_latitude"@,
            "gps_longitude"@,
            "gps_altitude"@,
            "gps_date_time"@,
        ],
        form_keys::section_label("camera"@) == "CAMERA"@,
        form_keys::section_label("exposure"@) == "EXPOSURE"@,
        form_keys::section_label("image"@) == "IMAGE"@,
        form_keys::section_label("location"@) == "LOCATION"@,
        form_keys::writable_section("camera"@) && form_keys::writable_section("exposure"@),
        !form_keys::writable_section("image"@) && !form_keys::writable_section("location"@),
{
    reveal_strlit("camera");
    reveal_strlit("exposure");
    reveal_strlit("image");
    reveal_strlit("location");
    assert("camera"@.len() == 6 && "image"@.len() == 5);
    assert("exposure"@.len() == 8 && "location"@.len() == 8);
    assert("exposure"@[0] != "location"@[0]);
}

/// What can be written can be taken away, and so can what is only shown of the camera,
/// the image and the place; the orientation and the color space can be neither.
pub proof fn written_tags_can_be_taken_away(key: Seq<char>)
    ensures
        form_keys::writable_key(key) ==> form_keys::removable_key(key),
        key == "image_width"@ || key == "image_height"@ || key == "gps_latitude"@ || key
            == "gps_longitude"@ || key == "gps_altitude"@ || key == "image_description"@ || key
            == "copyright"@ || key == "exif_version"@ || key == "exposure_program"@ || key
            == "white_balance"@ || key == "focal_length_35mm"@ || key == "date_time_original"@
            || key == "date_time_digitized"@ || key == "image_date_time"@
            ==> form_keys::removable_key(key) && !form_keys::writable_key(key),
        key == "orientation"@ || key == "color_space"@ || key == "media_date"@ || key
            == "png_creation_time"@ ==> !form_keys::removable_key(key) && !form_keys::writable_key(
            key,
        ),
{
    lemma_letters();
}

/// Which tags can be written and taken away depends on the kind of the selected files.
pub proof fn tags_go_by_the_kind(kind: Seq<char>, count: i32, key: Seq<char>)
    ensures
        form_keys::writable_key(key) ==> form_keys::writable_metadata_key(kind, count, key),
        form_keys::writable_metadata_key("mp4"@, 1, "media_date"@),
        form_keys::writable_metadata_key("png"@, 1, "png_creation_time"@),
        form_keys::writable_metadata_key("png"@, 1, "date_time_original"@),
        count != 1 && !form_keys::writable_key(key) ==> !form_keys::writable_metadata_key(
            kind,
            count,
            key,
        ),
        form_keys::removable_tag("jpeg"@, key) == form_keys::removable_key(key),
        form_keys::removable_tag("png"@, key) == (key == "png_creation_time"@ || key
            == "date_time_original"@),
        kind != "jpeg"@ && kind != "png"@ ==> !form_keys::removable_tag(kind, key),
{
    reveal_strlit("jpeg");
    reveal_strlit("png");
    assert("jpeg"@.len() == 4 && "png"@.len() == 3);
}

/// Texts that are pasted stand under their keys; the last one counts where a key stands
/// twice.
pub proof fn pasted_texts_stand_under_their_keys(
    f: FormModel,
    values: Seq<form_keys::KeyValue>,
    n: int,
)
    requires
        f.well_formed(),
        0 < n <= values.len(),
        form_keys::writable_key(values[n - 1].key@),
    ensures
        form_keys::key_value(form_keys::pasted(f, values, n), values[n - 1].key@)
            == values[n - 1].value@,
{
    lemma_pasted_form(f, values, n - 1);
    texts_stand_under_their_keys(
        form_keys::pasted(f, values, n - 1),
        values[n - 1].key@,
        values[n - 1].key@,
        values[n - 1].value@,
    );
}

proof fn lemma_pasted_form(f: FormModel, values: Seq<form_keys::KeyValue>, n: int)
    requires
        f.well_formed(),
    ensures
        form_keys::pasted(f, values, n).well_formed(),
    decreases n,
{
    if n > 0 {
        lemma_pasted_form(f, values, n - 1);
    }
}

// Changes.

/// A field is changed if its text is not the one that was loaded, and the form is if one
/// of its fields is.
pub proof fn changed_texts_are_changes(f: FormModel, i: int)
    requires
        f.well_formed(),
        0 <= i < 27,
    ensures
        f.counted().dirty[i] == (f.values[i] != f.originals[i]),
        f.values[i] != f.originals[i] ==> f.counted().metadata_dirty,
        (forall|k: int| 0 <= k < 27 ==> #[trigger] f.values[k] == f.originals[k])
            ==> !f.counted().metadata_dirty,
        f.counted().values == f.values,
        f.settled().counted().metadata_dirty == false,
        !f.unmarked().dirty[i],
{
}

/// Two dates of a PNG file contradict each other if both are there and differ.
pub proof fn differing_dates_contradict(f: FormModel)
    requires
        f.well_formed(),
    ensures
        ({
            let a = form_keys::key_value(f, "png_creation_time"@);
            let b = form_keys::key_value(f, "date_time_original"@);
            f.with_conflict_shown().png_date_sources_conflict == (text::trim(a).len() > 0
                && text::trim(b).len() > 0 && a != b)
        }),
{
    lemma_letters();
}

/// The dates of EXIF data contradict each other exactly if two of them are there and
/// differ.
pub proof fn exif_dates_contradict_if_two_differ(a: Seq<char>, b: Seq<char>, c: Seq<char>)
    ensures
        details_form::dates_conflict(a, b, c) == ((a.len() > 0 && b.len() > 0 && a != b) || (a.len()
            > 0 && c.len() > 0 && a != c) || (b.len() > 0 && c.len() > 0 && b != c)),
{
}

} // verus!
