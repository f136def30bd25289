//! Which texts of the form are saved, and where.
use crate::details_form::FormModel;
use crate::exif::{ExifMetadata, Field};
use crate::exif_edit;
use crate::exif_values::{self, DecimalReading};
use crate::exif_write::{self, ValueModel};
use crate::form_keys;
use crate::form_laws;
use crate::media;
use crate::rename_name_laws;
use crate::save_plan::{self, FileToSave, MetadataChange, PendingDate, PendingTime, TimeModel,
    WriteModel};
use crate::tag_saving;
use vstd::prelude::*;

verus! {

/// The mark of the field under a key is set: its text was changed.
pub open spec fn is_changed(f: FormModel, key: Seq<char>) -> bool {
    form_keys::key_field(key) matches Some(i) && f.dirty[i as int]
}

/// What a field of the metadata is saved as: the text of the form where it was changed,
/// and otherwise what the file has.
pub open spec fn saved_text(f: FormModel, key: Seq<char>, present: Seq<char>) -> Seq<char> {
    if is_changed(f, key) {
        form_keys::key_value(f, key)
    } else {
        present
    }
}

/// Each text that was changed is saved in the field of its own name, and the others stay
/// as the file has them.
pub proof fn changed_texts_are_saved(
    r: ExifMetadata,
    m: ExifMetadata,
    f: FormModel,
    pending: PendingDate,
    parsed: Result<(Option<Seq<char>>, Option<Seq<char>>), Seq<char>>,
)
    requires
        f.well_formed(),
        save_plan::has_changes(r, m, f, pending, parsed),
    ensures
        r.has_exif,
        r.camera_make@ == saved_text(f, "camera_make"@, m.camera_make@),
        r.camera_model@ == saved_text(f, "camera_model"@, m.camera_model@),
        r.lens_model@ == saved_text(f, "lens_model"@, m.lens_model@),
        r.software@ == saved_text(f, "software"@, m.software@),
        r.artist@ == saved_text(f, "artist"@, m.artist@),
        r.shutter_speed@ == saved_text(f, "shutter_speed"@, m.shutter_speed@),
        r.aperture@ == saved_text(f, "aperture"@, m.aperture@),
        r.iso_speed@ == saved_text(f, "iso_speed"@, m.iso_speed@),
        r.focal_length@ == saved_text(f, "focal_length"@, m.focal_length@),
        r.flash_fired@ == saved_text(f, "flash_fired"@, m.flash_fired@),
        r.metering_mode@ == saved_text(f, "metering_mode"@, m.metering_mode@),
        r.orientation@ == saved_text(f, "orientation"@, m.orientation@),
        r.color_space@ == saved_text(f, "color_space"@, m.color_space@),
        r.gps_latitude@ == saved_text(f, "gps_latitude"@, m.gps_latitude@),
        r.gps_longitude@ == saved_text(f, "gps_longitude"@, m.gps_longitude@),
        r.gps_altitude@ == saved_text(f, "gps_altitude"@, m.gps_altitude@),
        r.date_time_original@ == m.date_time_original@,
        r.date_time_digitized@ == m.date_time_digitized@,
        r.image_date_time@ == m.image_date_time@,
        r.image_description@ == m.image_description@,
        r.copyright@ == m.copyright@,
        r.exif_version@ == m.exif_version@,
        r.exposure_program@ == m.exposure_program@,
        r.white_balance@ == m.white_balance@,
        r.focal_length_35mm@ == m.focal_length_35mm@,
        r.image_width@ == m.image_width@,
        r.image_height@ == m.image_height@,
{
    form_laws::lemma_letters();
    assert(r.field(Field::CameraMake) == r.camera_make@);
    assert(r.field(Field::CameraModel) == r.camera_model@);
    assert(r.field(Field::LensModel) == r.lens_model@);
    assert(r.field(Field::Software) == r.software@);
    assert(r.field(Field::Artist) == r.artist@);
    assert(r.field(Field::ShutterSpeed) == r.shutter_speed@);
    assert(r.field(Field::Aperture) == r.aperture@);
    assert(r.field(Field::IsoSpeed) == r.iso_speed@);
    assert(r.field(Field::FocalLength) == r.focal_length@);
    assert(r.field(Field::FlashFired) == r.flash_fired@);
    assert(r.field(Field::MeteringMode) == r.metering_mode@);
    assert(r.field(Field::Orientation) == r.orientation@);
    assert(r.field(Field::ColorSpace) == r.color_space@);
    assert(r.field(Field::GpsLatitude) == r.gps_latitude@);
    assert(r.field(Field::GpsLongitude) == r.gps_longitude@);
    assert(r.field(Field::GpsAltitude) == r.gps_altitude@);
    assert(r.field(Field::DateTimeOriginal) == r.date_time_original@);
    assert(r.field(Field::DateTimeDigitized) == r.date_time_digitized@);
    assert(r.field(Field::ImageDateTime) == r.image_date_time@);
    assert(r.field(Field::ImageDescription) == r.image_description@);
    assert(r.field(Field::Copyright) == r.copyright@);
    assert(r.field(Field::ExifVersion) == r.exif_version@);
    assert(r.field(Field::ExposureProgram) == r.exposure_program@);
    assert(r.field(Field::WhiteBalance) == r.white_balance@);
    assert(r.field(Field::FocalLength35mm) == r.focal_length_35mm@);
    assert(r.field(Field::ImageWidth) == r.image_width@);
    assert(r.field(Field::ImageHeight) == r.image_height@);
}

/// The date taken is the one that waits for the file, or else the one that was typed; a
/// file for which none waits while others have one keeps its own.
pub proof fn the_date_taken_is_saved(
    r: ExifMetadata,
    m: ExifMetadata,
    f: FormModel,
    pending: PendingDate,
    parsed: Result<(Option<Seq<char>>, Option<Seq<char>>), Seq<char>>,
)
    requires
        f.well_formed(),
        save_plan::has_changes(r, m, f, pending, parsed),
    ensures
        pending matches PendingDate::Date(d) ==> r.taken_date@ == d@,
        pending is Missing ==> r.taken_date@ == m.taken_date@,
        pending is NotUsed ==> r.taken_date@ == saved_text(f, "taken_date"@, m.taken_date@),
{
    form_laws::lemma_letters();
    assert(r.field(Field::TakenDate) == r.taken_date@);
}

/// The date and the time of the GPS data are those of the common field where that was
/// changed and holds them, and otherwise those of their own fields.
pub proof fn gps_dates_are_saved(
    r: ExifMetadata,
    m: ExifMetadata,
    f: FormModel,
    pending: PendingDate,
    date: Option<Seq<char>>,
    time: Option<Seq<char>>,
)
    requires
        f.well_formed(),
        save_plan::has_changes(r, m, f, pending, Ok((date, time))),
    ensures
        is_changed(f, "gps_date_time"@) && date is Some ==> r.gps_date_stamp@ == date->0,
        is_changed(f, "gps_date_time"@) && time is Some ==> r.gps_time_stamp@ == time->0,
        !is_changed(f, "gps_date_time"@) || date is None ==> r.gps_date_stamp@ == saved_text(
            f,
            "gps_date_stamp"@,
            m.gps_date_stamp@,
        ),
        !is_changed(f, "gps_date_time"@) || time is None ==> r.gps_time_stamp@ == saved_text(
            f,
            "gps_time_stamp"@,
            m.gps_time_stamp@,
        ),
{
    form_laws::lemma_letters();
    assert(r.field(Field::GpsDateStamp) == r.gps_date_stamp@);
    assert(r.field(Field::GpsTimeStamp) == r.gps_time_stamp@);
}

/// A text is written over the entry with the tag of its field.
pub proof fn texts_are_written_over_their_tags(
    bytes: Seq<u8>,
    value: Seq<char>,
    readings: crate::exif_build::DecimalReadings,
)
    ensures
        exif_write::text_fits(bytes, seq![0x010fu16], value) ==> written_under(
            bytes,
            "camera_make"@,
            value,
            readings,
        ) == Some(exif_write::tag_written(bytes, seq![0x010fu16], exif_write::text_model(value))),
        exif_write::text_fits(bytes, seq![0x0110u16], value) ==> written_under(
            bytes,
            "camera_model"@,
            value,
            readings,
        ) == Some(exif_write::tag_written(bytes, seq![0x0110u16], exif_write::text_model(value))),
        exif_write::text_fits(bytes, seq![0xa434u16], value) ==> written_under(
            bytes,
            "lens_model"@,
            value,
            readings,
        ) == Some(exif_write::tag_written(bytes, seq![0xa434u16], exif_write::text_model(value))),
        exif_write::text_fits(bytes, seq![0x0131u16], value) ==> written_under(
            bytes,
            "software"@,
            value,
            readings,
        ) == Some(exif_write::tag_written(bytes, seq![0x0131u16], exif_write::text_model(value))),
        exif_write::text_fits(bytes, seq![0x013bu16], value) ==> written_under(
            bytes,
            "artist"@,
            value,
            readings,
        ) == Some(exif_write::tag_written(bytes, seq![0x013bu16], exif_write::text_model(value))),
{
    form_laws::lemma_letters();
    reveal(tag_saving::value_written);
}

/// What becomes of a file when the text under a key is written.
pub open spec fn written_under(
    bytes: Seq<u8>,
    key: Seq<char>,
    value: Seq<char>,
    readings: crate::exif_build::DecimalReadings,
) -> Option<Result<Seq<u8>, Seq<char>>> {
    tag_saving::value_written(bytes, form_keys::key_field(key)->0 as int, value, readings)
}

/// A number is written over the entry with the tag of its field: whole numbers as they
/// were entered or are called, and times, apertures and lengths as fractions.
pub proof fn numbers_are_written_over_their_tags(
    bytes: Seq<u8>,
    value: Seq<char>,
    readings: crate::exif_build::DecimalReadings,
    v: u16,
    q: (u32, u32),
)
    ensures
        exif_values::u16_value(value) == Ok::<u16, Seq<char>>(v) ==> written_under(
            bytes,
            "iso_speed"@,
            value,
            readings,
        ) == Some(exif_write::tag_written(bytes, seq![0x8827u16], ValueModel::Short(v))),
        exif_values::u16_value(value) == Ok::<u16, Seq<char>>(v) ==> written_under(
            bytes,
            "orientation"@,
            value,
            readings,
        ) == Some(exif_write::tag_written(bytes, seq![0x0112u16], ValueModel::Short(v))),
        exif_values::flash_value(value) == Ok::<u16, Seq<char>>(v) ==> written_under(
            bytes,
            "flash_fired"@,
            value,
            readings,
        ) == Some(exif_write::tag_written(bytes, seq![0x9209u16], ValueModel::Short(v))),
        exif_values::metering_value(value) == Ok::<u16, Seq<char>>(v) ==> written_under(
            bytes,
            "metering_mode"@,
            value,
            readings,
        ) == Some(exif_write::tag_written(bytes, seq![0x9207u16], ValueModel::Short(v))),
        exif_values::color_space_value(value) == Ok::<u16, Seq<char>>(v) ==> written_under(
            bytes,
            "color_space"@,
            value,
            readings,
        ) == Some(exif_write::tag_written(bytes, seq![0xa001u16], ValueModel::Short(v))),
        exif_values::rational_value_of(value, readings.shutter_speed) == Ok::<
            (u32, u32),
            Seq<char>,
        >(q) ==> written_under(bytes, "shutter_speed"@, value, readings) == Some(
            exif_write::tag_written(bytes, seq![0x829au16], ValueModel::Rational(q.0, q.1)),
        ),
        readings.aperture == DecimalReading::Scaled(q.0) ==> written_under(
            bytes,
            "aperture"@,
            value,
            readings,
        ) == Some(exif_write::tag_written(bytes, seq![0x829du16], ValueModel::Rational(q.0, 10))),
        exif_values::rational_value_of(value, readings.focal_length) == Ok::<
            (u32, u32),
            Seq<char>,
        >(q) ==> written_under(bytes, "focal_length"@, value, readings) == Some(
            exif_write::tag_written(bytes, seq![0x920au16], ValueModel::Rational(q.0, q.1)),
        ),
{
    form_laws::lemma_letters();
    reveal(tag_saving::value_written);
}

/// A date taken is written over all three dates of a file: that of the image, that on
/// which it was taken and that on which it was stored.
pub proof fn dates_are_written_over_all_dates(tag: u16)
    ensures
        exif_write::date_tags().contains(tag) <==> tag == 0x0132 || tag == 0x9003 || tag == 0x9004,
{
    let t = exif_write::date_tags();
    assert(t[0] == 0x0132 && t[1] == 0x9003 && t[2] == 0x9004);
}

// What is taken out.

/// The tags that are taken out with a row are those under which the reader finds what the
/// row shows: in the first directory, in the EXIF directory or in the GPS directory.
pub proof fn rows_are_taken_out_with_their_tags()
    ensures
        takes_out("image_date_time"@, seq![0x0132u16], Seq::empty(), Seq::empty()),
        takes_out("camera_make"@, seq![0x010fu16], Seq::empty(), Seq::empty()),
        takes_out("image_description"@, seq![0x010eu16], Seq::empty(), Seq::empty()),
        takes_out("copyright"@, seq![0x8298u16], Seq::empty(), Seq::empty()),
        takes_out("camera_model"@, seq![0x0110u16], Seq::empty(), Seq::empty()),
        takes_out("orientation"@, seq![0x0112u16], Seq::empty(), Seq::empty()),
        takes_out("software"@, seq![0x0131u16], Seq::empty(), Seq::empty()),
        takes_out("artist"@, seq![0x013bu16], Seq::empty(), Seq::empty()),
        takes_out("date_time_original"@, Seq::empty(), seq![0x9003u16], Seq::empty()),
        takes_out("date_time_digitized"@, Seq::empty(), seq![0x9004u16], Seq::empty()),
        takes_out("shutter_speed"@, Seq::empty(), seq![0x829au16], Seq::empty()),
        takes_out("exposure_program"@, Seq::empty(), seq![0x8822u16], Seq::empty()),
        takes_out("exif_version"@, Seq::empty(), seq![0x9000u16], Seq::empty()),
        takes_out("aperture"@, Seq::empty(), seq![0x829du16], Seq::empty()),
        takes_out("iso_speed"@, Seq::empty(), seq![0x8827u16], Seq::empty()),
        takes_out("focal_length"@, Seq::empty(), seq![0x920au16], Seq::empty()),
        takes_out("flash_fired"@, Seq::empty(), seq![0x9209u16], Seq::empty()),
        takes_out("metering_mode"@, Seq::empty(), seq![0x9207u16], Seq::empty()),
        takes_out("image_width"@, Seq::empty(), seq![0xa002u16], Seq::empty()),
        takes_out("image_height"@, Seq::empty(), seq![0xa003u16], Seq::empty()),
        takes_out("color_space"@, Seq::empty(), seq![0xa001u16], Seq::empty()),
        takes_out("lens_model"@, Seq::empty(), seq![0xa434u16], Seq::empty()),
        takes_out("white_balance"@, Seq::empty(), seq![0xa403u16], Seq::empty()),
        takes_out("focal_length_35mm"@, Seq::empty(), seq![0xa405u16], Seq::empty()),
        takes_out("gps_latitude"@, Seq::empty(), Seq::empty(), seq![1u16, 2u16]),
        takes_out("gps_longitude"@, Seq::empty(), Seq::empty(), seq![3u16, 4u16]),
        takes_out("gps_altitude"@, Seq::empty(), Seq::empty(), seq![5u16, 6u16]),
        takes_out("taken_date"@, seq![0x0132u16], seq![0x9003u16, 0x9004u16], Seq::empty()),
        exif_edit::tags_of_key("media_date"@) is None,
        exif_edit::tags_of_key("png_creation_time"@) is None,
{
    form_laws::lemma_letters();
}

/// With the row of a key so many tags are taken out of the three directories.
pub open spec fn takes_out(
    key: Seq<char>,
    first: Seq<u16>,
    exif: Seq<u16>,
    gps: Seq<u16>,
) -> bool {
    exif_edit::tags_of_key(key) == Some((first, exif, gps))
}

/// The copy that is kept before EXIF data change has the stem of the file.
pub proof fn backups_have_the_stem(stem: Seq<char>, tail: Seq<char>)
    requires
        stem.len() > 0,
        rename_name_laws::is_tail(stem, tail),
    ensures
        exif_edit::backup_name(stem + tail) == stem + ".bak_exif"@,
{
    rename_name_laws::name_splits_into_its_parts(stem, tail);
}

// GPS data.

/// Coordinates are taken out when all of them were cleared, and cannot be changed
/// otherwise.
pub proof fn coordinates_can_only_be_cleared(
    f: FormModel,
    parsed: Result<(Option<Seq<char>>, Option<Seq<char>>), Seq<char>>,
)
    requires
        f.well_formed(),
        is_changed(f, "gps_latitude"@) || is_changed(f, "gps_longitude"@) || is_changed(
            f,
            "gps_altitude"@,
        ),
    ensures
        form_keys::key_value(f, "gps_latitude"@).len() == 0 && form_keys::key_value(
            f,
            "gps_longitude"@,
        ).len() == 0 && form_keys::key_value(f, "gps_altitude"@).len() == 0
            ==> save_plan::gps_writes(f, parsed) == seq![WriteModel::RemoveGps],
        form_keys::key_value(f, "gps_latitude"@).len() > 0 || form_keys::key_value(
            f,
            "gps_longitude"@,
        ).len() > 0 || form_keys::key_value(f, "gps_altitude"@).len() > 0 ==> (
        save_plan::gps_writes(f, parsed).len() == 1 && save_plan::gps_writes(f, parsed)[0]
            is Refuse),
{
    form_laws::lemma_letters();
}

/// The date and the time of the GPS data are written as they stand in the common field,
/// or, where only their own fields were changed, as they stand there.
pub proof fn gps_dates_are_written_as_they_stand(
    f: FormModel,
    date: Option<Seq<char>>,
    time: Option<Seq<char>>,
)
    requires
        f.well_formed(),
        !is_changed(f, "gps_latitude"@),
        !is_changed(f, "gps_longitude"@),
        !is_changed(f, "gps_altitude"@),
    ensures
        ({
            let w = save_plan::gps_writes(f, Ok((date, time)));
            let common = is_changed(f, "gps_date_time"@);
            let d = is_changed(f, "gps_date_stamp"@);
            let t = is_changed(f, "gps_time_stamp"@);
            let own_d = form_keys::key_value(f, "gps_date_stamp"@);
            let own_t = form_keys::key_value(f, "gps_time_stamp"@);
            &&& common && date is Some && time is Some ==> w == seq![
                WriteModel::GpsDateTime(date->0, time->0),
            ]
            &&& common && date is Some && time is None ==> w == seq![WriteModel::GpsDate(date->0)]
            &&& common && date is None && time is Some ==> w == seq![WriteModel::GpsTime(time->0)]
            &&& common && date is None && time is None ==> w == seq![
                WriteModel::Refuse("GPS Date/Time cannot be empty."@),
            ]
            &&& !common && d && t ==> w == seq![WriteModel::GpsDateTime(own_d, own_t)]
            &&& !common && d && !t ==> w == seq![WriteModel::GpsDate(own_d)]
            &&& !common && !d && t ==> w == seq![WriteModel::GpsTime(own_t)]
            &&& !common && !d && !t ==> w.len() == 0
        }),
{
    form_laws::lemma_letters();
}

// Writes.

/// A field whose changes are written by themselves: those from the camera's maker to the
/// color space, without the size of the image.
pub open spec fn written_alone(i: int) -> bool {
    4 <= i <= 14 || 17 <= i <= 18
}

/// Among the writes each changed field stands once with its text, and no other.
pub proof fn each_changed_field_is_written(f: FormModel, n: int, i: int, v: Seq<char>)
    requires
        f.well_formed(),
        n <= 19,
    ensures
        save_plan::value_writes(f, n).contains(WriteModel::Value(i, v)) <==> written_alone(i) && i
            < n && f.dirty[i] && v == f.values[i],
        save_plan::value_writes(f, n).no_duplicates(),
    decreases n,
{
    if n > 4 {
        let before = save_plan::value_writes(f, n - 1);
        each_changed_field_is_written(f, n - 1, i, v);
        each_changed_field_is_written(f, n - 1, n - 1, f.values[n - 1]);
        let w = WriteModel::Value(n - 1, f.values[n - 1]);
        if written_alone(n - 1) && f.dirty[n - 1] {
            let all = before.push(w);
            assert(save_plan::value_writes(f, n) == all);
            assert(all[all.len() - 1] == w);
            if before.contains(WriteModel::Value(i, v)) {
                let k = choose|k: int|
                    0 <= k < before.len() && before[k] == WriteModel::Value(i, v);
                assert(all[k] == WriteModel::Value(i, v));
            }
            if all.contains(WriteModel::Value(i, v)) {
                let k = choose|k: int| 0 <= k < all.len() && all[k] == WriteModel::Value(i, v);
                if k < before.len() {
                    assert(before[k] == WriteModel::Value(i, v));
                }
            }
            assert(!before.contains(w));
            assert forall|a: int, b: int|
                0 <= a < all.len() && 0 <= b < all.len() && a != b implies all[a] != all[b] by {
                if a < before.len() && b < before.len() {
                } else if a < before.len() {
                    assert(before[a] == all[a]);
                } else {
                    assert(before[b] == all[b]);
                }
            }
        }
    }
}

/// Movies and PNG files take a date and nothing else, and transport streams take nothing;
/// JPEG files take everything.
pub proof fn kinds_take_what_they_can_hold(
    f: FormModel,
    stem: Seq<char>,
    e: Seq<char>,
    pending: PendingDate,
    key: Seq<char>,
)
    requires
        f.well_formed(),
        stem.len() > 0,
        forall|k: int| 0 <= k < e.len() ==> #[trigger] e[k] != '.',
        is_changed(f, key),
        form_keys::writable_key(key),
        key != "taken_date"@,
    ensures
        ({
            let name = stem + seq!['.'] + e;
            &&& media::mp4_name(name) ==> save_plan::refusal(f, name, pending) == Some(
                "Only Media Date can be written to MP4/MOV/M4V/3GP/3G2 files."@,
            )
            &&& media::png_name(name) && !media::mp4_name(name) && !media::transport_name(name)
                ==> save_plan::refusal(f, name, pending) == Some(
                "Only Media Date can be written to PNG files."@,
            )
            &&& media::transport_name(name) && !media::mp4_name(name) ==> save_plan::refusal(
                f,
                name,
                pending,
            ) == Some("Embedded Media Date writing is not supported for MTS/M2TS files."@)
            &&& !media::mp4_name(name) && !media::png_name(name) && !media::transport_name(name)
                ==> save_plan::refusal(f, name, pending) is None
        }),
{
    form_laws::lemma_letters();
    let i = form_keys::key_field(key)->0 as int;
    assert(f.dirty[i]);
    assert(save_plan::other_exif_changed(f));
}

/// The date of a movie or a PNG file is written to it, and a JPEG file gets its changes in
/// its tags, or as new EXIF data where it has none.
pub proof fn changes_go_by_the_kind(
    change: MetadataChange,
    f: FormModel,
    file: FileToSave,
    date: String,
    parsed: Result<(Option<Seq<char>>, Option<Seq<char>>), Seq<char>>,
)
    requires
        f.well_formed(),
        save_plan::is_change(change, f, ""@, file, PendingDate::Date(date), parsed),
    ensures
        ({
            let name = file.name@;
            &&& media::mp4_name(name) ==> (change matches MetadataChange::Mp4Date(d) && d@ == date@)
            &&& media::png_name(name) && !media::mp4_name(name) && !media::transport_name(name)
                ==> (change matches MetadataChange::PngDate(d) && d@ == date@)
            &&& !media::png_name(name) && !media::mp4_name(name) && !media::transport_name(name)
                && !file.metadata.has_exif ==> (change matches MetadataChange::NewExif(m)
                && m.taken_date@ == date@)
            &&& !media::png_name(name) && !media::mp4_name(name) && !media::transport_name(name)
                && file.metadata.has_exif && !file.generated ==> (
            change matches MetadataChange::Tags(w) && w@.len() > 0 && w@[0]@ == WriteModel::Value(
                3,
                date@,
            ))
        }),
{
    let name = file.name@;
    match change {
        MetadataChange::NewExif(m) => {
            assert(m.field(Field::TakenDate) == m.taken_date@);
        },
        MetadataChange::Tags(w) => {
            let all = save_plan::write_models(w@);
            if all.len() > 0 {
                assert(all[0] == w@[0]@);
            }
        },
        _ => {},
    }
}

/// The times of a file are those that wait for it, or else those that were typed.
pub proof fn times_are_those_that_wait(f: FormModel, created: PendingTime, modified: PendingTime)
    requires
        f.well_formed(),
    ensures
        created == PendingTime::Missing || modified == PendingTime::Missing ==> save_plan::new_times(
            f,
            created,
            modified,
        ) is None,
        created == PendingTime::Known && modified == PendingTime::NotUsed && !f.dirty[2]
            ==> save_plan::new_times(f, created, modified) == Some(
            (TimeModel::Pending, TimeModel::Keep),
        ),
        created == PendingTime::NotUsed && modified == PendingTime::Known && !f.dirty[1]
            ==> save_plan::new_times(f, created, modified) == Some(
            (TimeModel::Keep, TimeModel::Pending),
        ),
        created == PendingTime::NotUsed && modified == PendingTime::NotUsed && f.dirty[1]
            && !f.dirty[2] ==> save_plan::new_times(f, created, modified) == Some(
            (TimeModel::Typed(f.values[1]), TimeModel::Keep),
        ),
        created == PendingTime::NotUsed && modified == PendingTime::NotUsed && !f.dirty[1]
            && f.dirty[2] ==> save_plan::new_times(f, created, modified) == Some(
            (TimeModel::Keep, TimeModel::Typed(f.values[2])),
        ),
        created == PendingTime::NotUsed && modified == PendingTime::NotUsed && !f.dirty[1]
            && !f.dirty[2] ==> save_plan::new_times(f, created, modified) is None,
{
}

} // verus!
