//! What the details form shows for one or for several selected files.
use crate::date_input::{self, delete_confirmation_message};
use crate::details_form::{self, find_exif_value, DetailsForm, FormModel, CREATED,
    DATE_TIME_DIGITIZED, DATE_TIME_ORIGINAL, IMAGE_DATE_TIME, MODIFIED, NAME, PNG_CREATION_TIME,
    TAKEN_DATE, WITH_STATUS};
use crate::exif::{ExifMetadata, Field};
use crate::file_list::{self, SlintApp};
use crate::file_rows::{self, FileRow, SelectedEntryDetails};
use crate::file_selection;
use crate::media_names::{self, display_file_name};
use crate::png::PngDateSources;
use crate::text::{self, decimal_text, joined_text, same_text};
use vstd::prelude::*;

verus! {

// One text for several files.

/// The texts are all the same.
pub open spec fn all_same(values: Seq<Seq<char>>) -> bool {
    forall|i: int| 0 <= i < values.len() ==> #[trigger] values[i] == values[0]
}

/// The text that stands for several: theirs, if it is the same for all.
pub open spec fn common_value(values: Seq<Seq<char>>) -> Seq<char> {
    if values.len() > 0 && all_same(values) {
        values[0]
    } else {
        Seq::empty()
    }
}

pub open spec fn common_status(values: Seq<Seq<char>>) -> Seq<char> {
    if all_same(values) {
        Seq::empty()
    } else {
        "Mixed"@
    }
}

/// A text for several files, and whether they differ in it.
#[derive(Debug)]
pub struct SelectionDisplay {
    pub value: String,
    pub status: String,
}

fn check_all_same(values: &Vec<String>) -> (r: bool)
    ensures
        r == all_same(file_selection::text_views(values@)),
{
    let ghost views = file_selection::text_views(values@);
    let n: usize = values.len();
    let mut i: usize = 1;
    while i < n
        invariant
            1 <= i,
            i <= n || n == 0,
            n == values@.len(),
            views == file_selection::text_views(values@),
            forall|k: int| 0 <= k < i && k < n ==> #[trigger] views[k] == views[0],
        decreases n - i,
    {
        assert(views[i as int] == values@[i as int]@);
        assert(views[0] == values@[0]@);
        if !same_text(values[i].as_str(), values[0].as_str()) {
            return false;
        }
        i += 1;
    }
    true
}

pub fn selection_display(values: &Vec<String>) -> (r: SelectionDisplay)
    ensures
        r.value@ == common_value(file_selection::text_views(values@)),
        r.status@ == common_status(file_selection::text_views(values@)),
{
    if !check_all_same(values) {
        return SelectionDisplay { value: String::new(), status: "Mixed".to_owned() };
    }
    let value = if values.len() > 0 {
        assert(file_selection::text_views(values@)[0] == values@[0]@);
        values[0].clone()
    } else {
        String::new()
    };
    SelectionDisplay { value, status: String::new() }
}

/// The text for several files, or a word for texts that differ.
pub fn selection_summary(values: &Vec<String>) -> (r: String)
    ensures
        r@ == summary(file_selection::text_views(values@)),
{
    if !check_all_same(values) {
        return "Mixed".to_owned();
    }
    selection_display(values).value
}

pub open spec fn summary(values: Seq<Seq<char>>) -> Seq<char> {
    if all_same(values) {
        common_value(values)
    } else {
        "Mixed"@
    }
}

/// EXIF data are shown for many JPEG files unless none has any.
pub open spec fn exif_shown(media_kind: Seq<char>, metadata_status: Seq<char>) -> bool {
    media_kind == "jpeg"@ && metadata_status != "Not Found"@
}

/// Whether EXIF data are shown for many selected files.
pub fn large_selection_exif_available(media_kind: &str, metadata_status: &str) -> (r: bool)
    ensures
        r == exif_shown(media_kind@, metadata_status@),
{
    same_text(media_kind, "jpeg") && !same_text(metadata_status, "Not Found")
}

// EXIF data of several files.

/// What several files have in one field of the form.
pub open spec fn column(values: Seq<ExifMetadata>, i: int) -> Seq<Seq<char>> {
    Seq::new(values.len(), |k: int| details_form::exif_value(values[k], i))
}

fn collect_column(values: &Vec<ExifMetadata>, i: usize) -> (r: Vec<String>)
    ensures
        file_selection::text_views(r@) == column(values@, i as int),
{
    let n: usize = values.len();
    let mut out: Vec<String> = Vec::new();
    let mut k: usize = 0;
    while k < n
        invariant
            k <= n,
            n == values@.len(),
            out@.len() == k,
            forall|j: int|
                0 <= j < k ==> (#[trigger] out@[j])@ == details_form::exif_value(
                    values@[j],
                    i as int,
                ),
        decreases n - k,
    {
        out.push(find_exif_value(&values[k], i));
        k += 1;
    }
    assert(file_selection::text_views(out@) =~= column(values@, i as int));
    out
}

pub open spec fn field_column(values: Seq<ExifMetadata>, f: Field) -> Seq<Seq<char>> {
    Seq::new(values.len(), |k: int| values[k].field(f))
}

/// The text that stands for one field of several files.
#[verifier::opaque]
pub open spec fn common_field(values: Seq<ExifMetadata>, f: Field) -> Seq<char> {
    common_value(field_column(values, f))
}

fn joined_field(values: &[ExifMetadata], f: Field) -> (r: String)
    ensures
        r@ == common_field(values@, f),
{
    proof {
        reveal(common_field);
    }
    let n: usize = values.len();
    let ghost all = field_column(values@, f);
    if n == 0 {
        return String::new();
    }
    let first = values[0].get(f);
    let mut i: usize = 1;
    assert(all[0] == first@);
    while i < n
        invariant
            1 <= i <= n,
            n == values@.len(),
            all == field_column(values@, f),
            first@ == all[0],
            forall|k: int| 0 <= k < i ==> #[trigger] all[k] == all[0],
        decreases n - i,
    {
        assert(all[i as int] == values@[i as int].field(f));
        if !same_text(values[i].get(f).as_str(), first.as_str()) {
            proof {
                reveal(common_field);
            }
            return String::new();
        }
        i += 1;
    }
    first.clone()
}

/// EXIF data that stand for those of several files.
pub open spec fn is_join(r: ExifMetadata, values: Seq<ExifMetadata>) -> bool {
    &&& r.has_exif == exists|i: int| 0 <= i < values.len() && (#[trigger] values[i]).has_exif
    &&& forall|f: Field| #[trigger] r.field(f) == common_field(values, f)
}

pub fn join_metadata(values: &[ExifMetadata]) -> (r: ExifMetadata)
    ensures
        is_join(r, values@),
{
    let n: usize = values.len();
    let mut has_exif = false;
    let mut i: usize = 0;
    while i < n
        invariant
            i <= n,
            n == values@.len(),
            has_exif == exists|k: int| 0 <= k < i && (#[trigger] values@[k]).has_exif,
        decreases n - i,
    {
        if values[i].has_exif {
            has_exif = true;
        }
        i += 1;
    }
    ExifMetadata {
        has_exif,
        taken_date: joined_field(values, Field::TakenDate),
        date_time_original: joined_field(values, Field::DateTimeOriginal),
        date_time_digitized: joined_field(values, Field::DateTimeDigitized),
        image_date_time: joined_field(values, Field::ImageDateTime),
        camera_make: joined_field(values, Field::CameraMake),
        camera_model: joined_field(values, Field::CameraModel),
        lens_model: joined_field(values, Field::LensModel),
        software: joined_field(values, Field::Software),
        artist: joined_field(values, Field::Artist),
        image_description: joined_field(values, Field::ImageDescription),
        copyright: joined_field(values, Field::Copyright),
        exif_version: joined_field(values, Field::ExifVersion),
        exposure_program: joined_field(values, Field::ExposureProgram),
        white_balance: joined_field(values, Field::WhiteBalance),
        focal_length_35mm: joined_field(values, Field::FocalLength35mm),
        shutter_speed: joined_field(values, Field::ShutterSpeed),
        aperture: joined_field(values, Field::Aperture),
        iso_speed: joined_field(values, Field::IsoSpeed),
        focal_length: joined_field(values, Field::FocalLength),
        flash_fired: joined_field(values, Field::FlashFired),
        metering_mode: joined_field(values, Field::MeteringMode),
        image_width: joined_field(values, Field::ImageWidth),
        image_height: joined_field(values, Field::ImageHeight),
        orientation: joined_field(values, Field::Orientation),
        color_space: joined_field(values, Field::ColorSpace),
        gps_latitude: joined_field(values, Field::GpsLatitude),
        gps_longitude: joined_field(values, Field::GpsLongitude),
        gps_altitude: joined_field(values, Field::GpsAltitude),
        gps_date_stamp: joined_field(values, Field::GpsDateStamp),
        gps_time_stamp: joined_field(values, Field::GpsTimeStamp),
    }
}

/// The data of one file stand for themselves.
pub proof fn joining_one_keeps_it(r: ExifMetadata, m: ExifMetadata)
    requires
        is_join(r, seq![m]),
    ensures
        r.has_exif == m.has_exif,
        forall|f: Field| #[trigger] r.field(f) == m.field(f),
{
    reveal(common_field);
    let values = seq![m];
    assert(values[0] == m);
    assert forall|f: Field| #[trigger] r.field(f) == m.field(f) by {
        assert(field_column(values, f)[0] == m.field(f));
        assert(all_same(field_column(values, f)));
    }
}

/// The statuses of several files: whether they differ in a field.
pub open spec fn joined_statuses(f: FormModel, values: Seq<ExifMetadata>) -> FormModel {
    FormModel {
        statuses: Seq::new(
            WITH_STATUS as nat,
            |i: int|
                if i < TAKEN_DATE {
                    f.statuses[i]
                } else {
                    common_status(column(values, i))
                },
        ),
        ..f
    }
}

fn set_joined_metadata_statuses(form: &mut DetailsForm, values: &Vec<ExifMetadata>)
    requires
        old(form)@.well_formed(),
    ensures
        final(form)@ == joined_statuses(old(form)@, values@),
        final(form)@.well_formed(),
{
    let ghost first = form@;
    let mut i: usize = TAKEN_DATE;
    while i < WITH_STATUS
        invariant
            TAKEN_DATE <= i <= WITH_STATUS,
            form@.well_formed(),
            form@ == (FormModel { statuses: form@.statuses, ..first }),
            forall|k: int|
                0 <= k < TAKEN_DATE ==> #[trigger] form@.statuses[k] == first.statuses[k],
            forall|k: int|
                TAKEN_DATE <= k < i ==> #[trigger] form@.statuses[k] == common_status(
                    column(values@, k),
                ),
        decreases WITH_STATUS - i,
    {
        let texts = collect_column(values, i);
        let display = selection_display(&texts);
        form.set_status(i, display.status.as_str());
        i += 1;
    }
    assert(form@.statuses =~= joined_statuses(first, values@).statuses);
}

/// For many files every field counts as mixed.
pub open spec fn mixed_statuses(f: FormModel) -> FormModel {
    FormModel {
        statuses: Seq::new(
            WITH_STATUS as nat,
            |i: int|
                if i < TAKEN_DATE {
                    f.statuses[i]
                } else {
                    "Mixed"@
                },
        ),
        ..f
    }
}

fn set_large_selection_metadata_statuses(form: &mut DetailsForm)
    requires
        old(form)@.well_formed(),
    ensures
        final(form)@ == mixed_statuses(old(form)@),
        final(form)@.well_formed(),
{
    let ghost first = form@;
    let mut i: usize = TAKEN_DATE;
    while i < WITH_STATUS
        invariant
            TAKEN_DATE <= i <= WITH_STATUS,
            form@.well_formed(),
            form@ == (FormModel { statuses: form@.statuses, ..first }),
            forall|k: int|
                0 <= k < TAKEN_DATE ==> #[trigger] form@.statuses[k] == first.statuses[k],
            forall|k: int| TAKEN_DATE <= k < i ==> #[trigger] form@.statuses[k] == "Mixed"@,
        decreases WITH_STATUS - i,
    {
        form.set_status(i, "Mixed");
        i += 1;
    }
    assert(form@.statuses =~= mixed_statuses(first).statuses);
}

// What is shown beside the form.

/// What is shown of the selection beside the fields of the form.
#[derive(Debug)]
pub struct SelectionInfo {
    pub index: i32,
    pub size: String,
    pub is_dir: bool,
    pub recyclable_count: i32,
    pub delete_message: String,
    pub time_interpretation: String,
    pub media_kind: String,
    pub media_type: String,
    pub media_date: String,
    pub metadata_status: String,
}

/// The kind, the type, the date and the state that are shown.
pub open spec fn info_media(i: SelectionInfo) -> (Seq<char>, Seq<char>, Seq<char>, Seq<char>) {
    (i.media_kind@, i.media_type@, i.media_date@, i.metadata_status@)
}

/// Names, times and statuses of the selection.
pub open spec fn with_heading(
    f: FormModel,
    name: Seq<char>,
    created: Seq<char>,
    modified: Seq<char>,
    statuses: (Seq<char>, Seq<char>, Seq<char>),
    file_count: i32,
) -> FormModel {
    FormModel {
        selected_file_count: file_count,
        ..f.with_value(NAME, name).with_value(CREATED, created).with_value(
            MODIFIED,
            modified,
        ).with_original(NAME, name).with_original(CREATED, created).with_original(
            MODIFIED,
            modified,
        ).with_status(NAME, statuses.0).with_status(CREATED, statuses.1).with_status(
            MODIFIED,
            statuses.2,
        )
    }
}

fn set_heading(
    form: &mut DetailsForm,
    name: &str,
    created: &str,
    modified: &str,
    statuses: (&str, &str, &str),
    file_count: i32,
)
    requires
        old(form)@.well_formed(),
    ensures
        final(form)@ == with_heading(
            old(form)@,
            name@,
            created@,
            modified@,
            (statuses.0@, statuses.1@, statuses.2@),
            file_count,
        ),
        final(form)@.well_formed(),
{
    form.set_value(NAME, name);
    form.set_value(CREATED, created);
    form.set_value(MODIFIED, modified);
    form.set_original(NAME, name);
    form.set_original(CREATED, created);
    form.set_original(MODIFIED, modified);
    form.set_status(NAME, statuses.0);
    form.set_status(CREATED, statuses.1);
    form.set_status(MODIFIED, statuses.2);
    form.selected_file_count = file_count;
}

/// EXIF data without a text.
pub open spec fn blank(m: ExifMetadata, has_exif: bool) -> bool {
    m.has_exif == has_exif && forall|f: Field| #[trigger] m.field(f) == Seq::<char>::empty()
}

/// The same texts are shown for the same data.
proof fn lemma_same_loaded(f: FormModel, a: ExifMetadata, b: ExifMetadata)
    requires
        a.has_exif == b.has_exif,
        forall|x: Field| #[trigger] a.field(x) == b.field(x),
    ensures
        f.loaded(a) == f.loaded(b),
{
    assert(a.field(Field::GpsDateStamp) == b.field(Field::GpsDateStamp));
    assert(a.field(Field::GpsTimeStamp) == b.field(Field::GpsTimeStamp));
    assert(a.field(Field::DateTimeOriginal) == b.field(Field::DateTimeOriginal));
    assert(a.field(Field::DateTimeDigitized) == b.field(Field::DateTimeDigitized));
    assert(a.field(Field::ImageDateTime) == b.field(Field::ImageDateTime));
    assert forall|i: int| details_form::exif_value(a, i) == details_form::exif_value(b, i) by {
        match details_form::exif_field(i) {
            Some(x) => assert(a.field(x) == b.field(x)),
            None => {},
        }
    }
    assert(f.loaded(a) =~= f.loaded(b));
}

/// What is shown when nothing is selected.
pub open spec fn shows_nothing(before: FormModel, after: FormModel, r: SelectionInfo) -> bool {
    &&& forall|m: ExifMetadata|
        #[trigger] blank(m, false) ==> after == with_heading(
            before,
            "N/A"@,
            "N/A"@,
            "N/A"@,
            (""@, ""@, ""@),
            0,
        ).loaded(m)
    &&& r.index == -1
    &&& r.size@ == "N/A"@
    &&& !r.is_dir
    &&& r.recyclable_count == 0
    &&& r.delete_message@ == ""@
    &&& r.time_interpretation@ == ""@
    &&& info_media(r) == (""@, ""@, ""@, ""@)
}

/// The form when nothing is selected.
pub fn clear_selected_file(form: &mut DetailsForm) -> (r: SelectionInfo)
    requires
        old(form)@.well_formed(),
    ensures
        shows_nothing(old(form)@, final(form)@, r),
        final(form)@.well_formed(),
{
    set_heading(form, "N/A", "N/A", "N/A", ("", "", ""), 0);
    let ghost head = form@;
    let none = ExifMetadata::default();
    form.set_loaded_exif_metadata(&none);
    proof {
        assert forall|m: ExifMetadata| #[trigger] blank(m, false) implies form@ == head.loaded(m) by {
            lemma_same_loaded(head, none, m);
        }
    }
    SelectionInfo {
        index: -1,
        size: "N/A".to_owned(),
        is_dir: false,
        recyclable_count: 0,
        delete_message: "".to_owned(),
        time_interpretation: "".to_owned(),
        media_kind: "".to_owned(),
        media_type: "".to_owned(),
        media_date: "".to_owned(),
        metadata_status: "".to_owned(),
    }
}

/// What a row shows: the name, the time of creation and the time of the last
/// change.
pub open spec fn heading_view(
    details: Option<(String, String, String, bool)>,
    file_name: Option<&str>,
    show_extension: bool,
) -> Option<(Seq<char>, Seq<char>, Seq<char>)> {
    match (details, file_name) {
        (Some(d), Some(name)) => Some(
            (media_names::shown_name(Some(name@), d.0@, d.3, show_extension), d.1@, d.2@),
        ),
        (Some(d), None) => Some((d.0@, d.1@, d.2@)),
        (None, _) => None,
    }
}

/// The form without the changes that were made to it.
pub open spec fn reverted(
    f: FormModel,
    heading: Option<(Seq<char>, Seq<char>, Seq<char>)>,
    m: ExifMetadata,
) -> FormModel {
    match heading {
        Some((name, created, modified)) => f.with_value(NAME, name).with_value(
            CREATED,
            created,
        ).with_value(MODIFIED, modified).loaded(m),
        None => f.loaded(m),
    }
}

/// Takes back the changes to the form: the selected row's texts and its file's EXIF
/// data stand there again.
pub fn revert_changes(
    form: &mut DetailsForm,
    details: &Option<(String, String, String, bool)>,
    file_name: Option<&str>,
    show_extension: bool,
    metadata: &ExifMetadata,
)
    requires
        old(form)@.well_formed(),
    ensures
        final(form)@ == reverted(
            old(form)@,
            heading_view(*details, file_name, show_extension),
            *metadata,
        ),
        final(form)@.well_formed(),
        !final(form)@.metadata_dirty,
{
    match details {
        Some(d) => {
            let name = match file_name {
                Some(n) => display_file_name(Some(n), d.0.as_str(), d.3, show_extension),
                None => d.0.clone(),
            };
            form.set_value(NAME, name.as_str());
            form.set_value(CREATED, d.1.as_str());
            form.set_value(MODIFIED, d.2.as_str());
        },
        None => {},
    }
    form.set_loaded_exif_metadata(metadata);
}

/// The name that is shown for a selected entry.
pub open spec fn entry_name(entry: SelectedEntryDetails, show_extension: bool) -> Seq<char> {
    if entry.path is Some {
        media_names::shown_name(Some(entry.name@), entry.name@, entry.is_dir, show_extension)
    } else {
        entry.name@
    }
}

fn name_of_entry(entry: &SelectedEntryDetails, show_extension: bool) -> (r: String)
    ensures
        r@ == entry_name(*entry, show_extension),
{
    if entry.path.is_some() {
        display_file_name(
            Some(entry.name.as_str()),
            entry.name.as_str(),
            entry.is_dir,
            show_extension,
        )
    } else {
        entry.name.clone()
    }
}

/// The EXIF data of an entry. While a JPEG file is scanned it counts as one
/// that has some.
pub open spec fn is_entry_metadata(m: ExifMetadata, entry: SelectedEntryDetails, single: bool) -> bool {
    let waits = single && entry.media_kind@ == "jpeg"@ && entry.metadata_status@ == "Scanning..."@;
    match entry.exif_metadata {
        Some(x) => m.has_exif == (waits || x.has_exif) && forall|f: Field| #[trigger]
            m.field(f) == x.field(f),
        None => blank(m, waits),
    }
}

fn entry_metadata(entry: &SelectedEntryDetails, single: bool) -> (r: ExifMetadata)
    ensures
        is_entry_metadata(r, *entry, single),
{
    let mut m = match &entry.exif_metadata {
        Some(x) => x.clone(),
        None => ExifMetadata::default(),
    };
    let ghost before = m;
    if single && same_text(entry.media_kind.as_str(), "jpeg") && same_text(
        entry.metadata_status.as_str(),
        "Scanning...",
    ) {
        m.has_exif = true;
    }
    assert(forall|f: Field| #[trigger] m.field(f) == before.field(f));
    m
}

/// The form for one selected entry.
pub open spec fn single_form(
    f: FormModel,
    entry: SelectedEntryDetails,
    m: ExifMetadata,
    show_extension: bool,
    png: Option<PngDateSources>,
) -> FormModel {
    let head = with_heading(
        f,
        entry_name(entry, show_extension),
        entry.created@,
        entry.modified@,
        (""@, ""@, ""@),
        if entry.is_dir {
            0
        } else {
            1
        },
    ).loaded(m);
    if entry.media_kind@ == "mp4"@ {
        head.with_media_date(entry.media_date@)
    } else if entry.media_kind@ == "png"@ {
        let dated = head.with_media_date(entry.media_date@);
        match png {
            Some(s) => dated.with_png_dates(
                s.creation_time@,
                s.date_time_original@,
                s.date_time_digitized@,
                s.image_date_time@,
            ).with_conflict_shown(),
            None => dated,
        }
    } else {
        head
    }
}

/// What is shown of one selected entry.
pub open spec fn shows_entry(
    before: FormModel,
    after: FormModel,
    r: SelectionInfo,
    entry: SelectedEntryDetails,
    index: i32,
    show_extension: bool,
    png: Option<PngDateSources>,
) -> bool {
    &&& forall|m: ExifMetadata|
        #[trigger] is_entry_metadata(m, entry, true) ==> after == single_form(
            before,
            entry,
            m,
            show_extension,
            png,
        )
    &&& r.index == index
    &&& r.size@ == entry.exact_size@
    &&& r.is_dir == entry.is_dir
    &&& r.recyclable_count == if index > 0 {
        1int
    } else {
        0
    }
    &&& r.delete_message@ == date_input::delete_question(r.recyclable_count)
    &&& r.time_interpretation@ == entry.time_interpretation@
    &&& info_media(r) == (
        entry.media_kind@,
        entry.media_type@,
        entry.media_date@,
        entry.metadata_status@,
    )
}

/// Shows one selected entry; the dates of a PNG file are given.
pub fn set_selected_file(
    form: &mut DetailsForm,
    entry: &SelectedEntryDetails,
    index: i32,
    show_extension: bool,
    png: &Option<PngDateSources>,
) -> (r: SelectionInfo)
    requires
        old(form)@.well_formed(),
    ensures
        shows_entry(old(form)@, final(form)@, r, *entry, index, show_extension, *png),
        final(form)@.well_formed(),
{
    let ghost first = form@;
    let name = name_of_entry(entry, show_extension);
    set_heading(
        form,
        name.as_str(),
        entry.created.as_str(),
        entry.modified.as_str(),
        ("", "", ""),
        if entry.is_dir {
            0
        } else {
            1
        },
    );
    let ghost head = form@;
    let metadata = entry_metadata(entry, true);
    form.set_loaded_exif_metadata(&metadata);
    if same_text(entry.media_kind.as_str(), "mp4") {
        form.set_loaded_media_date(entry.media_date.as_str());
    } else if same_text(entry.media_kind.as_str(), "png") {
        form.set_loaded_media_date(entry.media_date.as_str());
        match png {
            Some(s) => {
                form.set_loaded_png_date_sources(s);
            },
            None => {},
        }
    }
    proof {
        assert forall|m: ExifMetadata| #[trigger] is_entry_metadata(m, *entry, true) implies form@
            == single_form(first, *entry, m, show_extension, *png) by {
            lemma_same_metadata(*entry, metadata, m, true);
            lemma_same_loaded(head, metadata, m);
        }
    }
    let recyclable_count: i32 = if index > 0 {
        1
    } else {
        0
    };
    SelectionInfo {
        index,
        size: entry.exact_size.clone(),
        is_dir: entry.is_dir,
        recyclable_count,
        delete_message: delete_confirmation_message(recyclable_count),
        time_interpretation: entry.time_interpretation.clone(),
        media_kind: entry.media_kind.clone(),
        media_type: entry.media_type.clone(),
        media_date: entry.media_date.clone(),
        metadata_status: entry.metadata_status.clone(),
    }
}

proof fn lemma_same_metadata(
    entry: SelectedEntryDetails,
    a: ExifMetadata,
    b: ExifMetadata,
    single: bool,
)
    requires
        is_entry_metadata(a, entry, single),
        is_entry_metadata(b, entry, single),
    ensures
        a.has_exif == b.has_exif,
        forall|x: Field| #[trigger] a.field(x) == b.field(x),
{
    assert forall|x: Field| #[trigger] a.field(x) == b.field(x) by {
        match entry.exif_metadata {
            Some(e) => {
                assert(a.field(x) == e.field(x));
                assert(b.field(x) == e.field(x));
            },
            None => {
                assert(b.field(x) == Seq::<char>::empty());
            },
        }
    }
}

// Several files.

/// The only kind among some.
pub open spec fn only_kind(kinds: Seq<Seq<char>>) -> Option<Seq<char>> {
    if kinds.len() > 0 && all_same(kinds) {
        Some(kinds[0])
    } else {
        None
    }
}

/// What is shown for several files of one kind, or of several.
pub open spec fn kinds_summary(kind: Option<Seq<char>>, jpeg_status: Seq<char>) -> (
    Seq<char>,
    Seq<char>,
    Seq<char>,
    Seq<char>,
) {
    match kind {
        Some(k) => if k == "jpeg"@ {
            ("jpeg"@, ""@, ""@, jpeg_status)
        } else if k == "mp4"@ {
            ("mp4"@, "Multiple videos"@, "Mixed"@, "Mixed"@)
        } else if k == "mts"@ {
            ("mts"@, "Multiple AVCHD videos"@, "-"@, "Not Found"@)
        } else if k == "png"@ {
            ("png"@, "Multiple PNG images"@, "Mixed"@, "Mixed"@)
        } else {
            ("mixed"@, ""@, ""@, ""@)
        },
        None => ("mixed"@, ""@, ""@, ""@),
    }
}

fn summarize_kinds(kinds: &Vec<String>, jpeg_statuses: &Vec<String>) -> (r: (
    String,
    String,
    String,
    String,
))
    ensures
        (r.0@, r.1@, r.2@, r.3@) == kinds_summary(
            only_kind(file_selection::text_views(kinds@)),
            summary(file_selection::text_views(jpeg_statuses@)),
        ),
{
    if kinds.len() > 0 && check_all_same(kinds) {
        assert(file_selection::text_views(kinds@)[0] == kinds@[0]@);
        let kind = kinds[0].as_str();
        if same_text(kind, "jpeg") {
            return (
                "jpeg".to_owned(),
                "".to_owned(),
                "".to_owned(),
                selection_summary(jpeg_statuses),
            );
        }
        if same_text(kind, "mp4") {
            return (
                "mp4".to_owned(),
                "Multiple videos".to_owned(),
                "Mixed".to_owned(),
                "Mixed".to_owned(),
            );
        }
        if same_text(kind, "mts") {
            return (
                "mts".to_owned(),
                "Multiple AVCHD videos".to_owned(),
                "-".to_owned(),
                "Not Found".to_owned(),
            );
        }
        if same_text(kind, "png") {
            return (
                "png".to_owned(),
                "Multiple PNG images".to_owned(),
                "Mixed".to_owned(),
                "Mixed".to_owned(),
            );
        }
    }
    ("mixed".to_owned(), "".to_owned(), "".to_owned(), "".to_owned())
}

/// The kinds of the files among the first entries.
pub open spec fn entry_kinds(entries: Seq<SelectedEntryDetails>, n: int) -> Seq<Seq<char>>
    decreases n,
{
    if n <= 0 {
        Seq::empty()
    } else {
        let before = entry_kinds(entries, n - 1);
        let kind = entries[n - 1].media_kind@;
        if kind == ""@ || kind == "folder"@ {
            before
        } else {
            before.push(kind)
        }
    }
}

/// The states of the JPEG files among the first entries.
pub open spec fn jpeg_states(entries: Seq<SelectedEntryDetails>, n: int) -> Seq<Seq<char>>
    decreases n,
{
    if n <= 0 {
        Seq::empty()
    } else {
        let before = jpeg_states(entries, n - 1);
        if entries[n - 1].media_kind@ == "jpeg"@ {
            before.push(entries[n - 1].metadata_status@)
        } else {
            before
        }
    }
}

/// How many of the first entries are files.
pub open spec fn files_in(entries: Seq<SelectedEntryDetails>, n: int) -> int
    decreases n,
{
    if n <= 0 {
        0
    } else {
        files_in(entries, n - 1) + if entries[n - 1].is_dir {
            0int
        } else {
            1
        }
    }
}

/// How many of the first entries have a path.
pub open spec fn paths_in(entries: Seq<SelectedEntryDetails>, n: int) -> int
    decreases n,
{
    if n <= 0 {
        0
    } else {
        paths_in(entries, n - 1) + if entries[n - 1].path is Some {
            1int
        } else {
            0
        }
    }
}

/// What several PNG files have as a date.
pub open spec fn several_dates(values: Seq<Seq<char>>) -> Seq<char> {
    if !all_same(values) {
        "<Multiple values>"@
    } else if common_value(values).len() == 0 {
        "-"@
    } else {
        common_value(values)
    }
}

fn multiple_value(values: &Vec<String>) -> (r: String)
    ensures
        r@ == several_dates(file_selection::text_views(values@)),
{
    if !check_all_same(values) {
        return "<Multiple values>".to_owned();
    }
    let value = selection_display(values).value;
    if value.as_str().unicode_len() == 0 {
        "-".to_owned()
    } else {
        value
    }
}

pub open spec fn creation_times(s: Seq<PngDateSources>) -> Seq<Seq<char>> {
    Seq::new(s.len(), |i: int| s[i].creation_time@)
}

pub open spec fn original_times(s: Seq<PngDateSources>) -> Seq<Seq<char>> {
    Seq::new(s.len(), |i: int| s[i].date_time_original@)
}

pub open spec fn digitized_times(s: Seq<PngDateSources>) -> Seq<Seq<char>> {
    Seq::new(s.len(), |i: int| s[i].date_time_digitized@)
}

pub open spec fn image_times(s: Seq<PngDateSources>) -> Seq<Seq<char>> {
    Seq::new(s.len(), |i: int| s[i].image_date_time@)
}

/// The form with the dates of several PNG files.
pub open spec fn joined_png(f: FormModel, s: Seq<PngDateSources>) -> FormModel {
    FormModel {
        png_date_sources_conflict: false,
        ..f.with_png_dates(
            several_dates(creation_times(s)),
            several_dates(original_times(s)),
            several_dates(digitized_times(s)),
            several_dates(image_times(s)),
        )
    }
}

fn set_joined_png_date_sources(form: &mut DetailsForm, sources: &Vec<PngDateSources>)
    requires
        old(form)@.well_formed(),
    ensures
        final(form)@ == joined_png(old(form)@, sources@),
        final(form)@.well_formed(),
{
    let n: usize = sources.len();
    let mut creation: Vec<String> = Vec::new();
    let mut original: Vec<String> = Vec::new();
    let mut digitized: Vec<String> = Vec::new();
    let mut image: Vec<String> = Vec::new();
    let mut i: usize = 0;
    while i < n
        invariant
            i <= n,
            n == sources@.len(),
            creation@.len() == i,
            original@.len() == i,
            digitized@.len() == i,
            image@.len() == i,
            forall|k: int| 0 <= k < i ==> (#[trigger] creation@[k])@ == sources@[k].creation_time@,
            forall|k: int|
                0 <= k < i ==> (#[trigger] original@[k])@ == sources@[k].date_time_original@,
            forall|k: int|
                0 <= k < i ==> (#[trigger] digitized@[k])@ == sources@[k].date_time_digitized@,
            forall|k: int| 0 <= k < i ==> (#[trigger] image@[k])@ == sources@[k].image_date_time@,
        decreases n - i,
    {
        creation.push(sources[i].creation_time.clone());
        original.push(sources[i].date_time_original.clone());
        digitized.push(sources[i].date_time_digitized.clone());
        image.push(sources[i].image_date_time.clone());
        i += 1;
    }
    proof {
        assert(file_selection::text_views(creation@) =~= creation_times(sources@));
        assert(file_selection::text_views(original@) =~= original_times(sources@));
        assert(file_selection::text_views(digitized@) =~= digitized_times(sources@));
        assert(file_selection::text_views(image@) =~= image_times(sources@));
    }
    let c = multiple_value(&creation);
    let o = multiple_value(&original);
    form.set_value(PNG_CREATION_TIME, c.as_str());
    form.set_original(PNG_CREATION_TIME, c.as_str());
    form.set_value(DATE_TIME_ORIGINAL, o.as_str());
    form.set_original(DATE_TIME_ORIGINAL, o.as_str());
    form.set_value(DATE_TIME_DIGITIZED, multiple_value(&digitized).as_str());
    form.set_value(IMAGE_DATE_TIME, multiple_value(&image).as_str());
    form.set_dirty(PNG_CREATION_TIME, false);
    form.set_dirty(DATE_TIME_ORIGINAL, false);
    form.png_date_sources_conflict = false;
}

/// The names, the sizes and the times of several entries.
pub open spec fn names_of(entries: Seq<SelectedEntryDetails>, show_extension: bool) -> Seq<Seq<char>> {
    Seq::new(entries.len(), |i: int| entry_name(entries[i], show_extension))
}

pub open spec fn sizes_of(entries: Seq<SelectedEntryDetails>) -> Seq<Seq<char>> {
    Seq::new(entries.len(), |i: int| entries[i].exact_size@)
}

pub open spec fn created_of(entries: Seq<SelectedEntryDetails>) -> Seq<Seq<char>> {
    Seq::new(entries.len(), |i: int| entries[i].created@)
}

pub open spec fn modified_of(entries: Seq<SelectedEntryDetails>) -> Seq<Seq<char>> {
    Seq::new(entries.len(), |i: int| entries[i].modified@)
}

/// The heading for several entries.
pub open spec fn several_heading(
    f: FormModel,
    entries: Seq<SelectedEntryDetails>,
    show_extension: bool,
) -> FormModel {
    with_heading(
        f,
        common_value(names_of(entries, show_extension)),
        common_value(created_of(entries)),
        common_value(modified_of(entries)),
        (
            common_status(names_of(entries, show_extension)),
            common_status(created_of(entries)),
            common_status(modified_of(entries)),
        ),
        files_in(entries, entries.len() as int) as i32,
    )
}

/// The form for several entries.
pub open spec fn several_form(
    f: FormModel,
    entries: Seq<SelectedEntryDetails>,
    values: Seq<ExifMetadata>,
    join: ExifMetadata,
    show_extension: bool,
    png: Seq<PngDateSources>,
) -> FormModel {
    let head = joined_statuses(
        several_heading(f, entries, show_extension).loaded(join),
        values,
    );
    if kinds_summary(
        only_kind(entry_kinds(entries, entries.len() as int)),
        summary(jpeg_states(entries, entries.len() as int)),
    ).0 == "png"@ {
        joined_png(head, png)
    } else {
        head
    }
}

/// The EXIF data of several entries.
pub open spec fn are_entry_metadata(
    values: Seq<ExifMetadata>,
    entries: Seq<SelectedEntryDetails>,
) -> bool {
    &&& values.len() == entries.len()
    &&& forall|i: int|
        0 <= i < values.len() ==> is_entry_metadata(#[trigger] values[i], entries[i], false)
}

/// The last of the selected rows.
pub open spec fn last_index(indices: Seq<i32>) -> i32 {
    if indices.len() > 0 {
        indices.last()
    } else {
        (-1) as i32
    }
}

fn find_last_index(indices: &[i32]) -> (r: i32)
    ensures
        r == last_index(indices@),
{
    let n: usize = indices.len();
    if n > 0 {
        indices[n - 1]
    } else {
        -1
    }
}

/// What is shown of several selected entries.
pub open spec fn shows_several(
    before: FormModel,
    after: FormModel,
    r: SelectionInfo,
    indices: Seq<i32>,
    entries: Seq<SelectedEntryDetails>,
    show_extension: bool,
    png: Seq<PngDateSources>,
) -> bool {
    &&& exists|values: Seq<ExifMetadata>, join: ExifMetadata| #[trigger]
        are_entry_metadata(values, entries) && #[trigger] is_join(join, values) && after
            == several_form(before, entries, values, join, show_extension, png)
    &&& r.index == last_index(indices)
    &&& r.size@ == if all_same(sizes_of(entries)) {
        common_value(sizes_of(entries))
    } else {
        "<Multiple values>"@
    }
    &&& r.is_dir == exists|i: int| 0 <= i < entries.len() && (#[trigger] entries[i]).is_dir
    &&& r.recyclable_count == paths_in(entries, entries.len() as int)
    &&& r.delete_message@ == date_input::delete_question(r.recyclable_count)
    &&& r.time_interpretation@ == "Mixed"@
    &&& info_media(r) == kinds_summary(
        only_kind(entry_kinds(entries, entries.len() as int)),
        summary(jpeg_states(entries, entries.len() as int)),
    )
}

/// Shows several selected entries; the dates of the PNG files among them are
/// given.
pub fn set_selected_entries(
    form: &mut DetailsForm,
    indices: &[i32],
    entries: &Vec<SelectedEntryDetails>,
    show_extension: bool,
    png: &Vec<PngDateSources>,
) -> (r: SelectionInfo)
    requires
        old(form)@.well_formed(),
        entries@.len() <= i32::MAX,
    ensures
        shows_several(old(form)@, final(form)@, r, indices@, entries@, show_extension, png@),
        final(form)@.well_formed(),
{
    let n: usize = entries.len();
    let mut names: Vec<String> = Vec::new();
    let mut sizes: Vec<String> = Vec::new();
    let mut created: Vec<String> = Vec::new();
    let mut modified: Vec<String> = Vec::new();
    let mut values: Vec<ExifMetadata> = Vec::new();
    let mut kinds: Vec<String> = Vec::new();
    let mut states: Vec<String> = Vec::new();
    let mut files: i32 = 0;
    let mut paths: i32 = 0;
    let mut has_dir = false;
    let mut i: usize = 0;
    proof {
        assert(file_selection::text_views(kinds@) =~= entry_kinds(entries@, 0));
        assert(file_selection::text_views(states@) =~= jpeg_states(entries@, 0));
    }
    while i < n
        invariant
            i <= n,
            n == entries@.len(),
            n <= i32::MAX,
            names@.len() == i,
            sizes@.len() == i,
            created@.len() == i,
            modified@.len() == i,
            values@.len() == i,
            forall|k: int|
                0 <= k < i ==> (#[trigger] names@[k])@ == entry_name(entries@[k], show_extension),
            forall|k: int| 0 <= k < i ==> (#[trigger] sizes@[k])@ == entries@[k].exact_size@,
            forall|k: int| 0 <= k < i ==> (#[trigger] created@[k])@ == entries@[k].created@,
            forall|k: int| 0 <= k < i ==> (#[trigger] modified@[k])@ == entries@[k].modified@,
            forall|k: int|
                0 <= k < i ==> is_entry_metadata(#[trigger] values@[k], entries@[k], false),
            file_selection::text_views(kinds@) == entry_kinds(entries@, i as int),
            file_selection::text_views(states@) == jpeg_states(entries@, i as int),
            0 <= files <= i,
            files == files_in(entries@, i as int),
            0 <= paths <= i,
            paths == paths_in(entries@, i as int),
            has_dir == exists|k: int| 0 <= k < i && (#[trigger] entries@[k]).is_dir,
        decreases n - i,
    {
        let entry = &entries[i];
        names.push(name_of_entry(entry, show_extension));
        sizes.push(entry.exact_size.clone());
        created.push(entry.created.clone());
        modified.push(entry.modified.clone());
        values.push(entry_metadata(entry, false));
        let kind = entry.media_kind.as_str();
        if !same_text(kind, "") && !same_text(kind, "folder") {
            let ghost before = kinds@;
            let k = entry.media_kind.clone();
            kinds.push(k);
            assert(file_selection::text_views(kinds@) =~= file_selection::text_views(before).push(
                k@,
            ));
        }
        if same_text(kind, "jpeg") {
            let ghost before = states@;
            let s = entry.metadata_status.clone();
            states.push(s);
            assert(file_selection::text_views(states@) =~= file_selection::text_views(before).push(
                s@,
            ));
        }
        if entry.is_dir {
            has_dir = true;
        } else {
            files += 1;
        }
        if entry.path.is_some() {
            paths += 1;
        }
        i += 1;
    }
    proof {
        assert(file_selection::text_views(names@) =~= names_of(entries@, show_extension));
        assert(file_selection::text_views(sizes@) =~= sizes_of(entries@));
        assert(file_selection::text_views(created@) =~= created_of(entries@));
        assert(file_selection::text_views(modified@) =~= modified_of(entries@));
    }
    let name_display = selection_display(&names);
    let created_display = selection_display(&created);
    let modified_display = selection_display(&modified);
    set_heading(
        form,
        name_display.value.as_str(),
        created_display.value.as_str(),
        modified_display.value.as_str(),
        (
            name_display.status.as_str(),
            created_display.status.as_str(),
            modified_display.status.as_str(),
        ),
        files,
    );
    let (media_kind, media_type, media_date, metadata_status) = summarize_kinds(&kinds, &states);
    let join = join_metadata(values.as_slice());
    form.set_loaded_exif_metadata(&join);
    set_joined_metadata_statuses(form, &values);
    if same_text(media_kind.as_str(), "png") {
        set_joined_png_date_sources(form, png);
    }
    assert(are_entry_metadata(values@, entries@) && is_join(join, values@));
    let size = if check_all_same(&sizes) {
        selection_display(&sizes).value
    } else {
        "<Multiple values>".to_owned()
    };
    SelectionInfo {
        index: find_last_index(indices),
        size,
        is_dir: has_dir,
        recyclable_count: paths,
        delete_message: delete_confirmation_message(paths),
        time_interpretation: "Mixed".to_owned(),
        media_kind,
        media_type,
        media_date,
        metadata_status,
    }
}

// Many files.

/// The rows that are selected and exist, among the first selected ones.
pub open spec fn rows_taken(indices: Seq<i32>, rows: Seq<FileRow>, n: int) -> Seq<int>
    decreases n,
{
    if n <= 0 {
        Seq::empty()
    } else {
        let before = rows_taken(indices, rows, n - 1);
        let index = indices[n - 1];
        if 0 <= index < rows.len() {
            before.push(index as int)
        } else {
            before
        }
    }
}

/// Counts over the first of some rows.
pub open spec fn large_files(taken: Seq<int>, rows: Seq<FileRow>, n: int) -> int
    decreases n,
{
    if n <= 0 {
        0
    } else {
        large_files(taken, rows, n - 1) + if rows[taken[n - 1]].is_dir {
            0int
        } else {
            1
        }
    }
}

pub open spec fn large_recyclable(taken: Seq<int>, n: int) -> int
    decreases n,
{
    if n <= 0 {
        0
    } else {
        large_recyclable(taken, n - 1) + if taken[n - 1] > 0 {
            1int
        } else {
            0
        }
    }
}

/// A file of a known kind.
pub open spec fn known_kind(row: FileRow) -> bool {
    !row.is_dir && row.media_kind@.len() > 0 && row.media_kind@ != "pending"@
}

pub open spec fn large_kinds(taken: Seq<int>, rows: Seq<FileRow>, n: int) -> Seq<Seq<char>>
    decreases n,
{
    if n <= 0 {
        Seq::empty()
    } else {
        let before = large_kinds(taken, rows, n - 1);
        let row = rows[taken[n - 1]];
        if known_kind(row) {
            before.push(row.media_kind@)
        } else {
            before
        }
    }
}

pub open spec fn large_states(taken: Seq<int>, rows: Seq<FileRow>, n: int) -> Seq<Seq<char>>
    decreases n,
{
    if n <= 0 {
        Seq::empty()
    } else {
        let before = large_states(taken, rows, n - 1);
        let row = rows[taken[n - 1]];
        if known_kind(row) && row.media_kind@ == "jpeg"@ {
            before.push(row.metadata_status@)
        } else {
            before
        }
    }
}

/// What is shown of the kinds of many files.
pub open spec fn large_summary(taken: Seq<int>, rows: Seq<FileRow>) -> (
    Seq<char>,
    Seq<char>,
    Seq<char>,
    Seq<char>,
) {
    kinds_summary(
        only_kind(large_kinds(taken, rows, taken.len() as int)),
        summary(large_states(taken, rows, taken.len() as int)),
    )
}

/// The form for many files: their data are not read.
pub open spec fn large_form(
    f: FormModel,
    count: int,
    taken: Seq<int>,
    rows: Seq<FileRow>,
    m: ExifMetadata,
) -> FormModel {
    let head = with_heading(
        f,
        text::decimal(count as nat) + " items selected"@,
        ""@,
        ""@,
        (""@, "Mixed"@, "Mixed"@),
        large_files(taken, rows, taken.len() as int) as i32,
    ).loaded(m);
    if m.has_exif {
        mixed_statuses(head)
    } else {
        head
    }
}

/// What is shown of many selected rows.
pub open spec fn shows_many(
    before: FormModel,
    after: FormModel,
    r: SelectionInfo,
    indices: Seq<i32>,
    rows: Seq<FileRow>,
) -> bool {
    let taken = rows_taken(indices, rows, indices.len() as int);
    let media = large_summary(taken, rows);
    &&& forall|m: ExifMetadata|
        #[trigger] blank(m, exif_shown(media.0, media.3)) ==> after == large_form(
            before,
            indices.len() as int,
            taken,
            rows,
            m,
        )
    &&& r.index == last_index(indices)
    &&& r.size@ == "<Multiple values>"@
    &&& r.is_dir == exists|i: int| 0 <= i < taken.len() && rows[#[trigger] taken[i]].is_dir
    &&& r.recyclable_count == large_recyclable(taken, taken.len() as int)
    &&& r.delete_message@ == date_input::delete_question(r.recyclable_count)
    &&& r.time_interpretation@ == "Mixed"@
    &&& info_media(r) == media
}

/// Shows many selected rows.
pub fn set_large_selection(form: &mut DetailsForm, indices: &[i32], rows: &Vec<FileRow>) -> (r:
    SelectionInfo)
    requires
        old(form)@.well_formed(),
        indices@.len() <= i32::MAX,
    ensures
        shows_many(old(form)@, final(form)@, r, indices@, rows@),
        final(form)@.well_formed(),
{
    let ghost first = form@;
    let n: usize = indices.len();
    let count: usize = rows.len();
    let mut kinds: Vec<String> = Vec::new();
    let mut states: Vec<String> = Vec::new();
    let mut files: i32 = 0;
    let mut recyclable: i32 = 0;
    let mut has_dir = false;
    let ghost mut taken: Seq<int> = Seq::empty();
    let mut i: usize = 0;
    proof {
        assert(file_selection::text_views(kinds@) =~= large_kinds(taken, rows@, 0));
        assert(file_selection::text_views(states@) =~= large_states(taken, rows@, 0));
    }
    while i < n
        invariant
            i <= n,
            n == indices@.len(),
            n <= i32::MAX,
            count == rows@.len(),
            taken == rows_taken(indices@, rows@, i as int),
            taken.len() <= i,
            file_selection::text_views(kinds@) == large_kinds(taken, rows@, taken.len() as int),
            file_selection::text_views(states@) == large_states(taken, rows@, taken.len() as int),
            0 <= files <= i,
            files == large_files(taken, rows@, taken.len() as int),
            0 <= recyclable <= i,
            recyclable == large_recyclable(taken, taken.len() as int),
            has_dir == exists|k: int|
                0 <= k < taken.len() && rows@[#[trigger] taken[k]].is_dir,
        decreases n - i,
    {
        let index: i32 = indices[i];
        if index >= 0 && (index as usize) < count {
            let row = &rows[index as usize];
            let ghost before = taken;
            proof {
                taken = taken.push(index as int);
                lemma_large_push(before, rows@, index as int, before.len() as int);
                assert(taken.last() == index as int);
                assert(forall|k: int| 0 <= k < before.len() ==> taken[k] == before[k]);
            }
            if index > 0 {
                recyclable += 1;
            }
            if row.is_dir {
                has_dir = true;
                assert(rows@[taken[before.len() as int]].is_dir);
            } else {
                files += 1;
                let kind = row.media_kind.as_str();
                if kind.unicode_len() > 0 && !same_text(kind, "pending") {
                    if same_text(kind, "jpeg") {
                        let ghost was = states@;
                        let s = row.metadata_status.clone();
                        states.push(s);
                        assert(file_selection::text_views(states@)
                            =~= file_selection::text_views(was).push(s@));
                    }
                    let ghost was = kinds@;
                    let k = row.media_kind.clone();
                    kinds.push(k);
                    assert(file_selection::text_views(kinds@) =~= file_selection::text_views(
                        was,
                    ).push(k@));
                }
            }
        }
        i += 1;
    }
    let (media_kind, media_type, media_date, metadata_status) = summarize_kinds(&kinds, &states);
    let name = joined_text(decimal_text(n as u64).as_str(), " items selected");
    set_heading(form, name.as_str(), "", "", ("", "Mixed", "Mixed"), files);
    let ghost head = form@;
    let mut metadata = ExifMetadata::default();
    let ghost none = metadata;
    metadata.has_exif = large_selection_exif_available(
        media_kind.as_str(),
        metadata_status.as_str(),
    );
    assert(forall|f: Field| #[trigger] metadata.field(f) == none.field(f));
    form.set_loaded_exif_metadata(&metadata);
    if form.exif_available {
        set_large_selection_metadata_statuses(form);
    }
    proof {
        let media = large_summary(taken, rows@);
        assert forall|m: ExifMetadata| #[trigger]
            blank(m, exif_shown(media.0, media.3)) implies form@ == large_form(
            first,
            n as int,
            taken,
            rows@,
            m,
        ) by {
            lemma_same_loaded(head, metadata, m);
        }
    }
    SelectionInfo {
        index: find_last_index(indices),
        size: "<Multiple values>".to_owned(),
        is_dir: has_dir,
        recyclable_count: recyclable,
        delete_message: delete_confirmation_message(recyclable),
        time_interpretation: "Mixed".to_owned(),
        media_kind,
        media_type,
        media_date,
        metadata_status,
    }
}

proof fn lemma_large_push(taken: Seq<int>, rows: Seq<FileRow>, x: int, n: int)
    requires
        0 <= n <= taken.len(),
    ensures
        large_files(taken.push(x), rows, n) == large_files(taken, rows, n),
        large_recyclable(taken.push(x), n) == large_recyclable(taken, n),
        large_kinds(taken.push(x), rows, n) == large_kinds(taken, rows, n),
        large_states(taken.push(x), rows, n) == large_states(taken, rows, n),
    decreases n,
{
    if n > 0 {
        lemma_large_push(taken, rows, x, n - 1);
    }
}

// Any selection.

/// The most rows of which the details are read.
pub const MOST_READ: usize = 5;

/// The details of the selected rows that exist, in their order.
pub open spec fn are_selected_details(entries: Seq<SelectedEntryDetails>, app: SlintApp) -> bool {
    let rows = file_rows::selected_rows(app, app.selected_indices@.len() as int);
    &&& entries.len() == rows.len()
    &&& forall|i: int|
        0 <= i < entries.len() ==> file_rows::shows_details(#[trigger] entries[i], app, rows[i])
}

/// What is shown of a selection, by the number of selected rows: nothing of
/// none, the entry of one, what several have in common up to five, and of more
/// only what their rows show. A single row that does not exist counts as none.
pub open spec fn shows_selection(
    before: FormModel,
    after: FormModel,
    r: SelectionInfo,
    indices: Seq<i32>,
    entries: Seq<SelectedEntryDetails>,
    rows: Seq<FileRow>,
    show_extension: bool,
    png: Option<PngDateSources>,
    pngs: Seq<PngDateSources>,
) -> bool {
    if indices.len() == 0 {
        shows_nothing(before, after, r)
    } else if indices.len() == 1 {
        if entries.len() == 0 {
            shows_nothing(before, after, r)
        } else {
            shows_entry(before, after, r, entries[0], indices[0], show_extension, png)
        }
    } else if indices.len() <= MOST_READ {
        shows_several(before, after, r, indices, entries, show_extension, pngs)
    } else {
        shows_many(before, after, r, indices, rows)
    }
}

/// Shows the selected rows of a list. The dates of a PNG file that is selected
/// alone are given, and those of the PNG files among several.
pub fn set_selected_files(
    form: &mut DetailsForm,
    app: &SlintApp,
    rows: &Vec<FileRow>,
    show_extension: bool,
    png: &Option<PngDateSources>,
    pngs: &Vec<PngDateSources>,
) -> (r: SelectionInfo)
    requires
        old(form)@.well_formed(),
        file_list::all_plausible(app.scan_results@),
        app.selected_indices@.len() <= i32::MAX,
    ensures
        exists|entries: Seq<SelectedEntryDetails>| #[trigger]
            are_selected_details(entries, *app) && shows_selection(
                old(form)@,
                final(form)@,
                r,
                app.selected_indices@,
                entries,
                rows@,
                show_extension,
                *png,
                pngs@,
            ),
        final(form)@.well_formed(),
{
    let entries = app.selected_entry_details();
    let indices = app.selected_indices.as_slice();
    proof {
        lemma_details_count(*app, indices@.len() as int);
        assert(are_selected_details(entries@, *app));
    }
    if indices.len() == 0 {
        clear_selected_file(form)
    } else if indices.len() == 1 {
        if entries.len() == 0 {
            clear_selected_file(form)
        } else {
            set_selected_file(form, &entries[0], indices[0], show_extension, png)
        }
    } else if indices.len() <= MOST_READ {
        set_selected_entries(form, indices, &entries, show_extension, pngs)
    } else {
        set_large_selection(form, indices, rows)
    }
}

proof fn lemma_details_count(app: SlintApp, n: int)
    requires
        0 <= n,
    ensures
        file_rows::selected_rows(app, n).len() <= n,
    decreases n,
{
    if n > 0 {
        lemma_details_count(app, n - 1);
    }
}

} // verus!
