//! Which way changes are saved, and what stands against commands.
use crate::details_form::{FormModel, APERTURE, ARTIST, CAMERA_MAKE, CAMERA_MODEL, COLOR_SPACE,
    CREATED, DATE_TIME_ORIGINAL, FLASH_FIRED, FOCAL_LENGTH, GPS_ALTITUDE, GPS_DATE_STAMP,
    GPS_DATE_TIME, GPS_LATITUDE, GPS_LONGITUDE, GPS_TIME_STAMP, IMAGE_HEIGHT, IMAGE_WIDTH,
    ISO_SPEED, LENS_MODEL, METERING_MODE, MODIFIED, NAME, ORIENTATION, PNG_CREATION_TIME,
    SHUTTER_SPEED, SOFTWARE, TAKEN_DATE};
use crate::media;
use crate::notices;
use crate::save_plan::{self, DatedFile, PendingDate, SaveRoute, SingleFile, SingleModel,
    WaitingChanges, WriteModel};
use vstd::prelude::*;

verus! {

// Which fields were changed.

/// A text of the camera or the photograph was changed; the width and the height are not
/// among them.
pub open spec fn camera_changed(f: FormModel) -> bool {
    ||| f.dirty[CAMERA_MAKE as int]
    ||| f.dirty[CAMERA_MODEL as int]
    ||| f.dirty[LENS_MODEL as int]
    ||| f.dirty[SOFTWARE as int]
    ||| f.dirty[ARTIST as int]
    ||| f.dirty[SHUTTER_SPEED as int]
    ||| f.dirty[APERTURE as int]
    ||| f.dirty[ISO_SPEED as int]
    ||| f.dirty[FOCAL_LENGTH as int]
    ||| f.dirty[FLASH_FIRED as int]
    ||| f.dirty[METERING_MODE as int]
    ||| f.dirty[ORIENTATION as int]
    ||| f.dirty[COLOR_SPACE as int]
}

/// A text of the GPS data was changed.
pub open spec fn position_changed(f: FormModel) -> bool {
    ||| f.dirty[GPS_LATITUDE as int]
    ||| f.dirty[GPS_LONGITUDE as int]
    ||| f.dirty[GPS_ALTITUDE as int]
    ||| f.dirty[GPS_DATE_STAMP as int]
    ||| f.dirty[GPS_TIME_STAMP as int]
    ||| f.dirty[GPS_DATE_TIME as int]
}

/// The changes of EXIF data are those of the camera and of the GPS data, and that of the
/// media date; the changes without GPS data are those of the camera, of the name, the
/// times and the dates.
pub proof fn changes_belong_to_their_groups(f: FormModel)
    ensures
        save_plan::gps_changed(f) <==> position_changed(f),
        save_plan::coordinates_changed(f) <==> f.dirty[GPS_LATITUDE as int]
            || f.dirty[GPS_LONGITUDE as int] || f.dirty[GPS_ALTITUDE as int],
        save_plan::other_exif_changed(f) <==> camera_changed(f) || position_changed(f),
        save_plan::exif_changed(f) <==> f.dirty[TAKEN_DATE as int] || camera_changed(f)
            || position_changed(f),
        save_plan::non_gps_changed(f) <==> camera_changed(f) || f.dirty[NAME as int]
            || f.dirty[CREATED as int] || f.dirty[MODIFIED as int] || f.dirty[TAKEN_DATE as int]
            || f.dirty[PNG_CREATION_TIME as int] || f.dirty[DATE_TIME_ORIGINAL as int],
{
    if save_plan::gps_changed(f) {
        let i = choose|i: int| GPS_LATITUDE <= i <= GPS_DATE_TIME && #[trigger] f.dirty[i];
        assert(f.dirty[i]);
    }
    if save_plan::other_exif_changed(f) {
        let i = choose|i: int|
            (save_plan::is_written_field(i) || GPS_LATITUDE <= i <= GPS_DATE_TIME)
                && #[trigger] f.dirty[i];
        assert(f.dirty[i]);
        assert(i != IMAGE_WIDTH && i != IMAGE_HEIGHT);
    }
    if save_plan::non_gps_changed(f) {
        let i = choose|i: int|
            (NAME <= i <= TAKEN_DATE || save_plan::is_written_field(i) || PNG_CREATION_TIME <= i
                <= DATE_TIME_ORIGINAL) && #[trigger] f.dirty[i];
        assert(f.dirty[i]);
    }
}

// The way of a save.

/// After new names alone the folder is only read again.
pub proof fn new_names_alone_need_no_save(
    f: FormModel,
    waiting: WaitingChanges,
    selected: int,
    overwrites: bool,
    confirmed: bool,
)
    requires
        !f.metadata_dirty,
        !waiting.taken_dates,
        !waiting.gps_date_times,
        !waiting.created_dates,
        !waiting.modified_dates,
        !waiting.removals,
        !waiting.tag_removals,
    ensures
        save_plan::route(f, true, waiting, selected, overwrites, confirmed)
            == SaveRoute::ReloadOnly,
        save_plan::route(f, false, waiting, selected, overwrites, confirmed)
            != SaveRoute::ReloadOnly,
{
}

/// GPS times that wait alone are saved by themselves; otherwise dates that would be
/// overwritten are asked for first, and then one file or many are saved.
pub proof fn saves_go_their_way(
    f: FormModel,
    renamed: bool,
    waiting: WaitingChanges,
    selected: int,
    overwrites: bool,
    confirmed: bool,
)
    requires
        f.metadata_dirty || !renamed,
    ensures
        ({
            let r = save_plan::route(f, renamed, waiting, selected, overwrites, confirmed);
            let gps_alone = waiting.gps_date_times && !waiting.taken_dates && !waiting.removals
                && !waiting.tag_removals && !(camera_changed(f) || f.dirty[NAME as int]
                || f.dirty[CREATED as int] || f.dirty[MODIFIED as int]
                || f.dirty[TAKEN_DATE as int] || f.dirty[PNG_CREATION_TIME as int]
                || f.dirty[DATE_TIME_ORIGINAL as int]);
            &&& r == SaveRoute::SaveGps <==> gps_alone
            &&& r == SaveRoute::ConfirmOverwrite <==> !gps_alone && overwrites && !confirmed
            &&& r == SaveRoute::SaveMany <==> !gps_alone && (!overwrites || confirmed) && selected
                > 1
            &&& r == SaveRoute::SaveOne <==> !gps_alone && (!overwrites || confirmed) && selected
                <= 1
        }),
{
    changes_belong_to_their_groups(f);
}

/// A date of a PNG file is overwritten where one waits or is entered and the file has
/// one; an entered source of the date where the file has that source.
pub proof fn png_dates_are_overwritten(f: FormModel, file: DatedFile, alone: bool)
    ensures
        !media::png_name(file.name@) ==> !save_plan::overwrites(f, file, alone),
        media::png_name(file.name@) && file.has_waiting_date
            && file.sources.creation_time@.len() > 0 ==> save_plan::overwrites(f, file, alone),
        media::png_name(file.name@) && file.has_waiting_date
            && file.sources.date_time_original@.len() > 0 ==> save_plan::overwrites(f, file, alone),
        media::png_name(file.name@) && alone && f.dirty[PNG_CREATION_TIME as int] ==> (
        file.sources.creation_time@.len() > 0 ==> save_plan::overwrites(f, file, alone)),
        media::png_name(file.name@) && alone && f.dirty[DATE_TIME_ORIGINAL as int] ==> (
        file.sources.date_time_original@.len() > 0 ==> save_plan::overwrites(f, file, alone)),
        !file.has_waiting_date && !alone ==> !save_plan::overwrites(f, file, alone),
        !file.has_waiting_date && !f.dirty[TAKEN_DATE as int] && !f.dirty[PNG_CREATION_TIME as int]
            && !f.dirty[DATE_TIME_ORIGINAL as int] ==> !save_plan::overwrites(f, file, alone),
{
}

/// The date of a movie or of a PNG file is written by itself; EXIF data are made where a
/// file has none, and made anew where they were made before.
pub proof fn a_single_file_is_saved_by_its_kind(f: FormModel, file: SingleFile)
    requires
        !file.removed_tags,
        !file.remove_metadata,
    ensures
        ({
            let r = save_plan::single_route(f, Some(file));
            let movie = media::mp4_name(file.name@);
            let png = media::png_name(file.name@);
            let date = f.dirty[TAKEN_DATE as int];
            &&& movie && date ==> r == SingleModel::Mp4Date(f.value(TAKEN_DATE))
            &&& png && !movie && date ==> r == SingleModel::PngDate(f.value(TAKEN_DATE))
            &&& !movie && !png && save_plan::exif_changed(f) && !file.has_exif ==> r
                == SingleModel::NewExif
            &&& !movie && !png && save_plan::exif_changed(f) && file.has_exif && file.generated
                ==> r == SingleModel::GeneratedExif
            &&& !movie && !png && save_plan::exif_changed(f) && file.has_exif && !file.generated
                && f.metadata_dirty ==> r == SingleModel::Changes
            &&& !movie && !png && !save_plan::exif_changed(f) && !f.metadata_dirty ==> r
                == SingleModel::Finish
            &&& png && !movie && !date && f.dirty[PNG_CREATION_TIME as int]
                && !f.dirty[DATE_TIME_ORIGINAL as int] ==> r == SingleModel::PngSources(
                Some(f.value(PNG_CREATION_TIME)),
                None,
            )
            &&& png && !movie && !date && !f.dirty[PNG_CREATION_TIME as int]
                && f.dirty[DATE_TIME_ORIGINAL as int] ==> r == SingleModel::PngSources(
                None,
                Some(f.value(DATE_TIME_ORIGINAL)),
            )
        }),
{
}

/// Metadata that are to be removed are removed before anything is written, and nothing
/// is left to do where tags were removed and nothing else was changed.
pub proof fn removals_go_first(f: FormModel, file: SingleFile)
    ensures
        file.remove_metadata && !file.removed_tags ==> save_plan::single_route(f, Some(file))
            == SingleModel::RemoveMetadata,
        file.removed_tags && !save_plan::exif_changed(f) && !f.dirty[CREATED as int]
            && !f.dirty[MODIFIED as int] ==> save_plan::single_route(f, Some(file))
            == SingleModel::TagsRemoved,
        file.removed_tags && (save_plan::exif_changed(f) || f.dirty[CREATED as int]
            || f.dirty[MODIFIED as int]) ==> save_plan::single_route(f, Some(file))
            != SingleModel::TagsRemoved,
        save_plan::exif_changed(f) ==> save_plan::single_route(f, None) == SingleModel::Unresolved,
        !save_plan::exif_changed(f) && !f.metadata_dirty ==> save_plan::single_route(f, None)
            == SingleModel::Finish,
{
}

/// Of the changes of a file the media date is written first and the GPS data last; EXIF
/// data are written where a date waits or something else was changed.
pub proof fn the_date_is_written_first(
    f: FormModel,
    d: String,
    parsed: Result<(Option<Seq<char>>, Option<Seq<char>>), Seq<char>>,
)
    ensures
        ({
            let w = save_plan::tag_writes(f, PendingDate::Date(d), parsed);
            let gps = save_plan::gps_writes(f, parsed);
            &&& w.len() > gps.len()
            &&& w[0] == WriteModel::Value(TAKEN_DATE as int, d@)
            &&& w.skip(w.len() - gps.len()) == gps
        }),
        save_plan::date_for(f, PendingDate::Missing) is None,
        f.dirty[TAKEN_DATE as int] ==> save_plan::date_for(f, PendingDate::NotUsed) == Some(
            f.value(TAKEN_DATE),
        ),
        !f.dirty[TAKEN_DATE as int] ==> save_plan::date_for(f, PendingDate::NotUsed) is None,
        save_plan::writes_exif(f, PendingDate::Date(d)),
        save_plan::writes_exif(f, PendingDate::Missing) <==> camera_changed(f) || position_changed(
            f,
        ),
        save_plan::writes_exif(f, PendingDate::NotUsed) <==> f.dirty[TAKEN_DATE as int]
            || camera_changed(f) || position_changed(f),
{
    changes_belong_to_their_groups(f);
    let w = save_plan::tag_writes(f, PendingDate::Date(d), parsed);
    let gps = save_plan::gps_writes(f, parsed);
    assert(w.skip(w.len() - gps.len()) =~= gps);
}

// What stands against commands.

/// Files alone can be copied or get times: no folder may be selected, and the files must
/// be found.
pub proof fn only_files_are_copied_and_dated(a: int, b: int, c: int, nothing: Seq<char>)
    requires
        0 <= a,
        0 <= b,
        0 <= c,
    ensures
        notices::copy_refusal(a, b, c) is None <==> a > 0 && a == b && c > 0,
        notices::times_refusal(b, a, c, nothing) is None <==> b > 0 && a == b && c > 0,
        notices::delete_refusal(a, c) is None <==> a > 0 && c > 0,
        a > 0 && a != b ==> notices::copy_refusal(a, b, c) == Some("Please select files only."@),
        b > 0 && a != b ==> notices::times_refusal(b, a, c, nothing) == Some(
            "Please select files only."@,
        ),
        notices::times_refusal(0, a, c, nothing) == Some(nothing),
{
}

/// EXIF data can be made for JPEG files alone.
pub proof fn exif_data_are_made_for_jpeg_files(selected: int, names: Seq<String>, i: int)
    requires
        0 <= i < names.len(),
    ensures
        !media::jpeg_name(names[i]@) ==> notices::creation_refusal(selected, names) is Some,
        selected != 0 && (forall|k: int|
            0 <= k < names.len() ==> media::jpeg_name((#[trigger] names[k])@))
            ==> notices::creation_refusal(selected, names) is None,
        notices::creation_refusal(0, names) is Some,
        notices::creation_refusal(selected, Seq::empty()) is Some,
{
}

} // verus!
