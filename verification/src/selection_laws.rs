//! What is selected, searched for, marked and shown of several files.
use crate::details_selection;
use crate::entries::FileSystemEntry;
use crate::exif::{ExifMetadata, Field};
use crate::exif_values;
use crate::file_list::{self, SlintApp};
use crate::file_rows;
use crate::file_selection;
use crate::media;
use crate::paths;
use crate::preview;
use crate::text;
use vstd::prelude::*;

verus! {

// Sorting by clicks.

/// A click on another column, or on one that the list is not sorted by, sorts by it
/// upward; a second click sorts downward, and a third not at all.
pub proof fn clicks_turn_the_order(column: i32, direction: i32, clicked: i32)
    ensures
        column != clicked ==> file_selection::next_sort(column, direction, clicked) == (
            clicked,
            1i32,
        ),
        file_selection::next_sort(clicked, 0, clicked) == (clicked, 1i32),
        file_selection::next_sort(clicked, 1, clicked) == (clicked, 2i32),
        file_selection::next_sort(clicked, 2, clicked) == (0i32, 0i32),
{
}

// Searching.

/// The name in a row begins with a text, in small letters.
pub open spec fn begins_with(app: SlintApp, row: int, query: Seq<char>) -> bool {
    &&& app.files@[row].name is Some
    &&& text::starts_with(text::lowercased((app.files@[row].name->0)@), query)
}

proof fn lemma_search(
    app: SlintApp,
    rows: Seq<int>,
    query: Seq<char>,
    start: int,
    offset: int,
    hit: int,
)
    requires
        0 <= offset <= hit < rows.len() <= i32::MAX,
        0 <= start < rows.len(),
        begins_with(app, rows[all_round(start + hit, rows.len() as int)], query),
        forall|k: int|
            offset <= k < hit ==> !begins_with(
                app,
                rows[#[trigger] all_round(start + k, rows.len() as int)],
                query,
            ),
    ensures
        file_selection::search_from(app, rows, query, start, offset) == Some(
            all_round(start + hit, rows.len() as int) + 1,
        ),
    decreases hit - offset,
{
    let n = rows.len() as int;
    assert((start + offset) % n == all_round(start + offset, n)) by {
        if start + offset < n {
            vstd::arithmetic::div_mod::lemma_small_mod((start + offset) as nat, n as nat);
        } else {
            vstd::arithmetic::div_mod::lemma_mod_add_multiples_vanish(start + offset - n, n);
            vstd::arithmetic::div_mod::lemma_small_mod((start + offset - n) as nat, n as nat);
        }
    }
    if offset < hit {
        assert(!begins_with(app, rows[all_round(start + offset, n)], query));
        lemma_search(app, rows, query, start, offset + 1, hit);
    }
}

/// A place in a list of a length, counted on from the top behind the last one.
pub open spec fn all_round(place: int, n: int) -> int {
    if place < n {
        place
    } else {
        place - n
    }
}

/// A search leads to the first row whose name begins with what was typed, counted from
/// where it starts and on from the top behind the last row. A single letter starts at
/// the row behind the current one, and a longer text at the current one.
pub proof fn searches_lead_to_the_next_match(
    app: SlintApp,
    query: Seq<char>,
    current: i32,
    start: int,
    hit: int,
)
    requires
        query.len() > 0,
        0 < file_list::visible(app).len() <= i32::MAX,
        1 <= current <= file_list::visible(app).len(),
        query.len() == 1 ==> start == all_round(
            current as int,
            file_list::visible(app).len() as int,
        ),
        query.len() > 1 ==> start == current - 1,
        0 <= hit < file_list::visible(app).len(),
        begins_with(
            app,
            file_list::visible(app)[all_round(start + hit, file_list::visible(app).len() as int)],
            query,
        ),
        forall|k: int|
            0 <= k < hit ==> !begins_with(
                app,
                file_list::visible(app)[#[trigger] all_round(
                    start + k,
                    file_list::visible(app).len() as int,
                )],
                query,
            ),
    ensures
        file_selection::searched_row(app, query, current) == Some(
            all_round(start + hit, file_list::visible(app).len() as int) + 1,
        ),
{
    let rows = file_list::visible(app);
    let n = rows.len() as int;
    if query.len() == 1 {
        if current < n {
            vstd::arithmetic::div_mod::lemma_small_mod(current as nat, n as nat);
        } else {
            vstd::arithmetic::div_mod::lemma_mod_self_0(n);
        }
    }
    assert(file_selection::search_start(query, current, n) == start);
    lemma_search(app, rows, query, start, 0, hit);
}

/// A search without letters, or in an empty list, leads nowhere.
pub proof fn searches_without_letters_lead_nowhere(app: SlintApp, query: Seq<char>, current: i32)
    ensures
        query.len() == 0 ==> file_selection::searched_row(app, query, current) is None,
        file_list::visible(app).len() == 0 ==> file_selection::searched_row(app, query, current)
            is None,
{
}

// Rows and paths.

/// Row zero leads to the folder above, and each other row to its file; a path leads back
/// to the first row that shows it.
pub proof fn rows_and_paths_belong_together(app: SlintApp, k: int)
    requires
        file_selection::distinct_paths(app.files@, app.windows),
        1 <= k <= file_list::visible(app).len(),
        k <= i32::MAX,
    ensures
        file_selection::row_path(app, k) == Some(
            app.files@[file_list::visible(app)[k - 1]].path@,
        ),
        file_selection::row_of_path(app, app.files@[file_list::visible(app)[k - 1]].path@) == Some(
            k,
        ),
        app.parent_path matches Some(p) ==> file_selection::row_path(app, 0) == Some(p@),
        app.parent_path is None ==> file_selection::row_path(app, 0) is None,
        file_selection::row_path(app, file_list::visible(app).len() as int + 1) is None,
        file_selection::row_path(app, -1) is None,
{
    lemma_place(app, k - 1, 0);
}

proof fn lemma_place(app: SlintApp, k: int, from: int)
    requires
        file_selection::distinct_paths(app.files@, app.windows),
        0 <= from <= k < file_list::visible(app).len(),
    ensures
        file_selection::place_of(
            app,
            file_list::visible(app),
            app.files@[file_list::visible(app)[k]].path@,
            from,
        ) == Some(k),
    decreases k - from,
{
    let rows = file_list::visible(app);
    crate::list_laws::rows_are_the_shown_files(app, rows[from]);
    crate::list_laws::rows_are_the_shown_files(app, rows[k]);
    assert(rows.contains(rows[from]) && rows.contains(rows[k]));
    if from < k {
        assert(rows[from] != rows[k]);
        let (a, b) = (rows[from], rows[k]);
        if a < b {
            assert(!paths::same(app.files@[a].path@, app.files@[b].path@, app.windows));
        } else {
            assert(!paths::same(app.files@[b].path@, app.files@[a].path@, app.windows));
        }
        lemma_place(app, k, from + 1);
    } else {
        assert(paths::same(app.files@[rows[k]].path@, app.files@[rows[k]].path@, app.windows));
    }
}

/// One more row makes one more file, unless it is a folder.
pub proof fn each_file_counts_once(app: SlintApp, rows: Seq<int>, n: int)
    requires
        0 <= n <= rows.len(),
    ensures
        file_selection::files_among(app, rows, n) == rows.take(n).filter(
            |k: int| !app.files@[k].is_dir,
        ).len(),
    decreases n,
{
    reveal(Seq::filter);
    let keep = |k: int| !app.files@[k].is_dir;
    if n > 0 {
        each_file_counts_once(app, rows, n - 1);
        assert(rows.take(n).drop_last() =~= rows.take(n - 1));
        assert(rows.take(n).last() == rows[n - 1]);
    } else {
        assert(rows.take(0) =~= Seq::<int>::empty());
    }
}

/// The files of a folder that a filter takes are counted, each once.
pub proof fn each_taken_file_counts_once(files: Seq<FileSystemEntry>, filter: i32, n: int)
    requires
        0 <= n <= files.len(),
    ensures
        file_selection::taken_among(files, filter, n) == files.take(n).filter(
            |e: FileSystemEntry| !e.is_dir && media::filter_takes(filter, e.kind_name()),
        ).len(),
    decreases n,
{
    reveal(Seq::filter);
    if n > 0 {
        each_taken_file_counts_once(files, filter, n - 1);
        assert(files.take(n).drop_last() =~= files.take(n - 1));
        assert(files.take(n).last() == files[n - 1]);
    } else {
        assert(files.take(0) =~= Seq::<FileSystemEntry>::empty());
    }
}

/// The rows from one to another are selected, both with them.
pub proof fn spans_hold_their_ends(from: i32, to: i32, x: i32)
    requires
        from <= to,
    ensures
        file_selection::span(from as int, to as int).contains(x) <==> from <= x <= to,
{
    let s = file_selection::span(from as int, to as int);
    if from <= x <= to {
        assert(s[x - from] == x);
    }
}

/// The rows that are selected after a click: those from the anchor to the row with the
/// shift key, that row added or taken away with the control key, and else that row alone.
pub open spec fn selected_by_a_click(
    before: Seq<i32>,
    anchor: Option<i32>,
    after: Seq<i32>,
    index: i32,
    ctrl: bool,
    shift: bool,
) -> bool {
    forall|x: i32| #[trigger]
        after.contains(x) <==> if shift {
            match anchor {
                Some(a) => a <= x <= index || index <= x <= a,
                None => x == index,
            }
        } else if ctrl {
            (x == index) != before.contains(x)
        } else {
            x == index
        }
}

/// A second click with the control key takes the first one back.
pub proof fn two_clicks_change_nothing(
    a: Seq<i32>,
    b: Seq<i32>,
    c: Seq<i32>,
    anchor: Option<i32>,
    later: Option<i32>,
    index: i32,
    x: i32,
)
    requires
        selected_by_a_click(a, anchor, b, index, true, false),
        selected_by_a_click(b, later, c, index, true, false),
    ensures
        c.contains(x) <==> a.contains(x),
{
    assert(b.contains(x) <==> (x == index) != a.contains(x));
    assert(c.contains(x) <==> (x == index) != b.contains(x));
}

// Marks of equal values.

/// Two rows with one value in the sorted column and one in another are marked both.
pub proof fn equal_rows_are_marked_both(app: SlintApp, a: int, b: int, column: int)
    requires
        0 <= a < file_list::visible(app).len(),
        0 <= b < file_list::visible(app).len(),
        a != b,
        app.sort_direction == 1 || app.sort_direction == 2,
        1 <= app.sort_column <= 3 || (app.sort_column == 4 && app.dynamic_sort_ready),
        ({
            let x = app.files@[file_list::visible(app)[a]];
            let y = app.files@[file_list::visible(app)[b]];
            let c = app.sort_column as int;
            &&& file_rows::sort_value(app, x, c) is Some
            &&& file_rows::sort_value(app, x, c) == file_rows::sort_value(app, y, c)
            &&& file_rows::sort_value(app, x, column) is Some
            &&& file_rows::sort_value(app, x, column) == file_rows::sort_value(app, y, column)
        }),
    ensures
        file_rows::is_marked(app, a, column),
        file_rows::is_marked(app, b, column),
{
    let rows = file_list::visible(app);
    assert(file_rows::equal_in(app, app.files@[rows[a]], app.files@[rows[b]], column));
    assert(file_rows::equal_in(app, app.files@[rows[b]], app.files@[rows[a]], column));
}

/// Nothing is marked in a list that is not sorted, and no folder is.
pub proof fn unsorted_lists_have_no_marks(app: SlintApp, place: int, column: int)
    requires
        0 <= place < file_list::visible(app).len(),
    ensures
        app.sort_direction == 0 ==> !file_rows::is_marked(app, place, column),
        app.sort_column == 5 ==> !file_rows::is_marked(app, place, column),
        app.files@[file_list::visible(app)[place]].is_dir ==> !file_rows::is_marked(
            app,
            place,
            column,
        ),
{
}

/// Files are compared by their names in small letters, their sizes, the times of their
/// last change and the dates that are shown for them.
pub proof fn values_are_those_of_their_columns(app: SlintApp, e: FileSystemEntry)
    requires
        !e.is_dir,
    ensures
        file_rows::sort_value(app, e, 1) == Some(text::lowercased(e.sort_name())),
        file_rows::sort_value(app, e, 2) == Some(text::decimal(e.size as nat)),
        e.modified matches Some(t) ==> file_rows::sort_value(app, e, 3) == Some(t.shown@),
        e.modified is None ==> file_rows::sort_value(app, e, 3) is None,
        file_list::scan_of(app, e) is None ==> file_rows::sort_value(app, e, 4) is None,
        file_list::scan_of(app, e) matches Some(s) ==> {
            let date = file_list::shown_date(s, app.time_display_mode);
            &&& date == "-"@ ==> file_rows::sort_value(app, e, 4) is None
            &&& date != "-"@ && date != "…"@ && text::trim(date).len() > 0
                ==> file_rows::sort_value(app, e, 4) == Some(date)
        },
{
}

// What rows show.

/// A comma stands before each three digits of a number, counted from its end, but not at
/// its front.
pub proof fn commas_stand_before_three_digits(d: Seq<char>)
    ensures
        d.len() <= 3 ==> file_rows::grouped(d) == d,
        d.len() > 3 ==> {
            let s = file_rows::grouped(d);
            let n = s.len() as int;
            &&& n > 4
            &&& s[n - 4] == ','
            &&& s.skip(n - 3) == d.skip(d.len() - 3)
            &&& s.take(n - 4) == file_rows::grouped(d.take(d.len() - 3))
        },
    decreases d.len(),
{
    if d.len() > 3 {
        let front = file_rows::grouped(d.take(d.len() - 3));
        let s = file_rows::grouped(d);
        let n = s.len() as int;
        commas_stand_before_three_digits(d.take(d.len() - 3));
        assert(s.skip(n - 3) =~= d.skip(d.len() - 3));
        assert(s.take(n - 4) =~= front);
    }
}

/// The words for the states of metadata.
pub proof fn states_have_their_words()
    ensures
        file_rows::metadata_label("O"@) == "Available"@,
        file_rows::metadata_label("X"@) == "Not Found"@,
        file_rows::metadata_label("!"@) == "Read Error"@,
        file_rows::metadata_label("…"@) == "Scanning..."@,
        file_rows::metadata_label("-"@) == "-"@,
{
    reveal_strlit("O");
    reveal_strlit("X");
    reveal_strlit("!");
    reveal_strlit("…");
    reveal_strlit("-");
    assert("O"@[0] == 'O' && "X"@[0] == 'X' && "!"@[0] == '!' && "…"@[0] == '…' && "-"@[0] == '-');
}

// Several files.

/// A text that all files have is shown for them; where two differ, none is, and the
/// status says so.
pub proof fn common_texts_are_shown(values: Seq<Seq<char>>, i: int, j: int)
    requires
        0 <= i < values.len(),
        0 <= j < values.len(),
    ensures
        values[i] != values[j] ==> {
            &&& details_selection::common_value(values).len() == 0
            &&& details_selection::common_status(values) == "Mixed"@
            &&& details_selection::summary(values) == "Mixed"@
        },
        (forall|k: int| 0 <= k < values.len() ==> #[trigger] values[k] == values[i]) ==> {
            &&& details_selection::common_value(values) == values[i]
            &&& details_selection::common_status(values).len() == 0
            &&& details_selection::summary(values) == values[i]
        },
{
    if values[i] != values[j] {
        assert(!details_selection::all_same(values));
    }
}

/// Joined EXIF data have in each field what all files have there, and nothing where two
/// of them differ; they are there if one of the files has some.
pub proof fn joined_fields_are_common(
    r: ExifMetadata,
    values: Seq<ExifMetadata>,
    f: Field,
    i: int,
    j: int,
)
    requires
        details_selection::is_join(r, values),
        0 <= i < values.len(),
        0 <= j < values.len(),
    ensures
        values[i].field(f) != values[j].field(f) ==> r.field(f).len() == 0,
        (forall|k: int| 0 <= k < values.len() ==> (#[trigger] values[k]).field(f)
            == values[i].field(f)) ==> r.field(f) == values[i].field(f),
        values[i].has_exif ==> r.has_exif,
        (forall|k: int| 0 <= k < values.len() ==> !(#[trigger] values[k]).has_exif) ==> !r.has_exif,
{
    reveal(details_selection::common_field);
    let column = details_selection::field_column(values, f);
    common_texts_are_shown(column, i, j);
    assert(column[i] == values[i].field(f) && column[j] == values[j].field(f));
    if forall|k: int| 0 <= k < values.len() ==> (#[trigger] values[k]).field(f) == values[i].field(
        f,
    ) {
        assert forall|k: int| 0 <= k < column.len() implies #[trigger] column[k] == column[i] by {
            assert(values[k].field(f) == values[i].field(f));
        }
    }
}

/// The fields of EXIF data are those of their names.
pub proof fn fields_have_their_names(m: ExifMetadata)
    ensures
        m.field(Field::TakenDate) == m.taken_date@,
        m.field(Field::DateTimeOriginal) == m.date_time_original@,
        m.field(Field::DateTimeDigitized) == m.date_time_digitized@,
        m.field(Field::ImageDateTime) == m.image_date_time@,
        m.field(Field::CameraMake) == m.camera_make@,
        m.field(Field::CameraModel) == m.camera_model@,
        m.field(Field::LensModel) == m.lens_model@,
        m.field(Field::Software) == m.software@,
        m.field(Field::Artist) == m.artist@,
        m.field(Field::ImageDescription) == m.image_description@,
        m.field(Field::Copyright) == m.copyright@,
        m.field(Field::ExifVersion) == m.exif_version@,
        m.field(Field::ExposureProgram) == m.exposure_program@,
        m.field(Field::WhiteBalance) == m.white_balance@,
        m.field(Field::FocalLength35mm) == m.focal_length_35mm@,
        m.field(Field::ShutterSpeed) == m.shutter_speed@,
        m.field(Field::Aperture) == m.aperture@,
        m.field(Field::IsoSpeed) == m.iso_speed@,
        m.field(Field::FocalLength) == m.focal_length@,
        m.field(Field::FlashFired) == m.flash_fired@,
        m.field(Field::MeteringMode) == m.metering_mode@,
        m.field(Field::ImageWidth) == m.image_width@,
        m.field(Field::ImageHeight) == m.image_height@,
        m.field(Field::Orientation) == m.orientation@,
        m.field(Field::ColorSpace) == m.color_space@,
        m.field(Field::GpsLatitude) == m.gps_latitude@,
        m.field(Field::GpsLongitude) == m.gps_longitude@,
        m.field(Field::GpsAltitude) == m.gps_altitude@,
        m.field(Field::GpsDateStamp) == m.gps_date_stamp@,
        m.field(Field::GpsTimeStamp) == m.gps_time_stamp@,
{
}

/// What is shown for several files of one kind.
pub proof fn kinds_are_summed_up(state: Seq<char>)
    ensures
        details_selection::kinds_summary(Some("jpeg"@), state) == ("jpeg"@, ""@, ""@, state),
        details_selection::kinds_summary(Some("mp4"@), state) == (
            "mp4"@,
            "Multiple videos"@,
            "Mixed"@,
            "Mixed"@,
        ),
        details_selection::kinds_summary(Some("mts"@), state) == (
            "mts"@,
            "Multiple AVCHD videos"@,
            "-"@,
            "Not Found"@,
        ),
        details_selection::kinds_summary(Some("png"@), state) == (
            "png"@,
            "Multiple PNG images"@,
            "Mixed"@,
            "Mixed"@,
        ),
        details_selection::kinds_summary(None, state) == ("mixed"@, ""@, ""@, ""@),
{
    reveal_strlit("jpeg");
    reveal_strlit("mp4");
    reveal_strlit("mts");
    reveal_strlit("png");
    assert("jpeg"@.len() == 4 && "mp4"@.len() == 3 && "mts"@.len() == 3 && "png"@.len() == 3);
    assert("mp4"@[1] == 'p' && "mts"@[1] == 't' && "png"@[0] == 'p' && "mp4"@[0] == 'm' && "mts"@[0]
        == 'm');
}

/// The dates of several PNG files: the one that all have, a dash where none has any, and
/// a word where they differ.
pub proof fn several_png_dates(values: Seq<Seq<char>>, i: int, j: int)
    requires
        0 <= i < values.len(),
        0 <= j < values.len(),
    ensures
        values[i] != values[j] ==> details_selection::several_dates(values)
            == "<Multiple values>"@,
        (forall|k: int| 0 <= k < values.len() ==> #[trigger] values[k] == values[i]) ==> {
            &&& values[i].len() > 0 ==> details_selection::several_dates(values) == values[i]
            &&& values[i].len() == 0 ==> details_selection::several_dates(values) == "-"@
        },
{
    common_texts_are_shown(values, i, j);
    if values[i] != values[j] {
        assert(!details_selection::all_same(values));
    }
}

// Previews.

/// A picture that lies on its side, as the orientations from 5 to 8 say, is shown with
/// its sides exchanged; others are shown as they are.
pub proof fn lying_pictures_are_turned(width: u32, height: u32, orientation: u8)
    ensures
        preview::turned_size(width, height, orientation) == if orientation == 5 || orientation == 6
            || orientation == 7 || orientation == 8 {
            (height, width)
        } else {
            (width, height)
        },
{
}

/// The orientation that is shown for a file is the one by which its thumbnail is turned.
pub proof fn shown_orientations_turn_thumbnails(v: u16)
    requires
        1 <= v <= 8,
    ensures
        preview::orientation_number(exif_values::orientation_text(v)) == Some(v as u8),
        preview::thumbnail_turn(exif_values::orientation_text(v)) == v,
{
    reveal_strlit("Normal");
    reveal_strlit("Mirrored horizontal");
    reveal_strlit("Rotated 180");
    reveal_strlit("Mirrored vertical");
    reveal_strlit("Mirrored horizontal rotated 270");
    reveal_strlit("Rotated 90");
    reveal_strlit("Mirrored horizontal rotated 90");
    reveal_strlit("Rotated 270");
    lemma_numbers();
    assert("Rotated 180"@[8] == '1' && "Rotated 270"@[8] == '2');
    assert("Normal"@.len() == 6 && "Mirrored horizontal"@.len() == 19 && "Rotated 180"@.len() == 11
        && "Mirrored vertical"@.len() == 17 && "Mirrored horizontal rotated 270"@.len() == 31
        && "Rotated 90"@.len() == 10 && "Mirrored horizontal rotated 90"@.len() == 30
        && "Rotated 270"@.len() == 11);
}

proof fn lemma_numbers()
    ensures
        "1"@.len() == 1 && "2"@.len() == 1 && "3"@.len() == 1 && "4"@.len() == 1,
        "5"@.len() == 1 && "6"@.len() == 1 && "7"@.len() == 1 && "8"@.len() == 1,
{
    reveal_strlit("1");
    reveal_strlit("2");
    reveal_strlit("3");
    reveal_strlit("4");
    reveal_strlit("5");
    reveal_strlit("6");
    reveal_strlit("7");
    reveal_strlit("8");
}

/// The preview of a picture that was decoded is its own; the thumbnail takes its place in
/// JPEG files only.
pub proof fn thumbnails_stand_in_for_jpeg_files(
    full: preview::PictureModel,
    thumbnail: preview::PictureModel,
    size: Option<(u32, u32)>,
)
    ensures
        preview::chosen_preview(
            preview::PreviewMediaKind::Jpeg,
            Some(full),
            Some(thumbnail),
            size,
        ) == Some(preview::preview_of(full, ""@, size)),
        preview::chosen_preview(preview::PreviewMediaKind::Jpeg, None, Some(thumbnail), size)
            == Some(
            preview::preview_of(
                thumbnail,
                "EXIF Thumbnail — full image could not be decoded"@,
                size,
            ),
        ),
        preview::chosen_preview(preview::PreviewMediaKind::Png, None, Some(thumbnail), size) is None,
        preview::chosen_preview(preview::PreviewMediaKind::Jpeg, None, None, size) is None,
        size matches Some((w, h)) ==> preview::preview_of(full, ""@, size).pixel_width == w
            && preview::preview_of(full, ""@, size).pixel_height == h,
        size is None ==> preview::preview_of(full, ""@, size).pixel_width == full.source_width
            && preview::preview_of(full, ""@, size).pixel_height == full.source_height,
        preview::preview_of(full, ""@, size).width == full.width,
        preview::preview_of(full, ""@, size).height == full.height,
        preview::preview_of(full, ""@, size).pixels == full.pixels,
{
}

} // verus!
