//! What the form shows of the selected entries.
use crate::details_form::{self, FormModel, CREATED, DATE_TIME_DIGITIZED, DATE_TIME_ORIGINAL,
    IMAGE_DATE_TIME, MODIFIED, NAME, PNG_CREATION_TIME, TAKEN_DATE};
use crate::details_selection;
use crate::exif::ExifMetadata;
use crate::file_path;
use crate::file_rows::SelectedEntryDetails;
use crate::png::PngDateSources;
use crate::rename_batch;
use crate::text;
use vstd::prelude::*;

verus! {

/// The heading of the form holds the name and the two times, and none of them counts as
/// changed.
pub proof fn headings_hold_name_and_times(
    f: FormModel,
    name: Seq<char>,
    created: Seq<char>,
    modified: Seq<char>,
    statuses: (Seq<char>, Seq<char>, Seq<char>),
    count: i32,
    m: ExifMetadata,
)
    requires
        f.well_formed(),
    ensures
        ({
            let h = details_selection::with_heading(f, name, created, modified, statuses, count);
            &&& h.value(NAME) == name && h.originals[NAME as int] == name
            &&& h.value(CREATED) == created && h.originals[CREATED as int] == created
            &&& h.value(MODIFIED) == modified && h.originals[MODIFIED as int] == modified
            &&& h.statuses[NAME as int] == statuses.0
            &&& h.statuses[CREATED as int] == statuses.1
            &&& h.statuses[MODIFIED as int] == statuses.2
            &&& h.selected_file_count == count
            &&& h.loaded(m).value(NAME) == name
            &&& h.loaded(m).value(CREATED) == created
            &&& h.loaded(m).value(MODIFIED) == modified
            &&& !h.loaded(m).metadata_dirty
            &&& forall|i: int| 0 <= i < 27 ==> !#[trigger] h.loaded(m).dirty[i]
        }),
{
}

/// One selected file shows its name, its times and its EXIF data; a movie the date of
/// its scan, and a PNG file its dates where they were read. Nothing counts as changed.
pub proof fn a_selected_file_is_shown(
    f: FormModel,
    entry: SelectedEntryDetails,
    m: ExifMetadata,
    png: PngDateSources,
)
    requires
        f.well_formed(),
        entry.path is Some,
        !entry.is_dir,
        entry.media_date@ != "-"@,
    ensures
        ({
            let g = details_selection::single_form(f, entry, m, true, Some(png));
            &&& g.value(NAME) == entry.name@
            &&& g.value(CREATED) == entry.created@
            &&& g.value(MODIFIED) == entry.modified@
            &&& g.selected_file_count == 1
            &&& !g.metadata_dirty
            &&& entry.media_kind@ == "jpeg"@ ==> g.value(TAKEN_DATE) == m.taken_date@
            &&& entry.media_kind@ == "mp4"@ ==> g.value(TAKEN_DATE) == entry.media_date@
            &&& entry.media_kind@ == "png"@ ==> {
                &&& g.value(TAKEN_DATE) == entry.media_date@
                &&& g.value(PNG_CREATION_TIME) == png.creation_time@
                &&& g.value(DATE_TIME_ORIGINAL) == png.date_time_original@
                &&& g.value(DATE_TIME_DIGITIZED) == png.date_time_digitized@
                &&& g.value(IMAGE_DATE_TIME) == png.image_date_time@
            }
        }),
{
    reveal_strlit("jpeg");
    reveal_strlit("mp4");
    reveal_strlit("png");
    assert("jpeg"@.len() == 4 && "mp4"@.len() == 3 && "png"@.len() == 3);
    assert("mp4"@[0] == 'm' && "png"@[0] == 'p');
    assert(details_form::exif_value(m, TAKEN_DATE as int) == m.taken_date@) by {
        assert(m.field(crate::exif::Field::TakenDate) == m.taken_date@);
    }
}

/// A folder counts as no file, and a date that is missing is not shown.
pub proof fn folders_and_missing_dates(
    f: FormModel,
    entry: SelectedEntryDetails,
    m: ExifMetadata,
    show_extension: bool,
)
    requires
        f.well_formed(),
    ensures
        ({
            let g = details_selection::single_form(f, entry, m, show_extension, None);
            &&& entry.is_dir ==> g.selected_file_count == 0
            &&& entry.is_dir ==> g.value(NAME) == entry.name@
            &&& entry.media_kind@ == "mp4"@ && entry.media_date@ == "-"@ ==> g.value(
                TAKEN_DATE,
            ).len() == 0
        }),
{
}

/// What several entries have in common stands in the heading; where they differ it is
/// empty and says so.
pub proof fn common_names_and_times_are_shown(
    f: FormModel,
    entries: Seq<SelectedEntryDetails>,
    show_extension: bool,
)
    requires
        f.well_formed(),
        entries.len() > 0,
    ensures
        ({
            let g = details_selection::several_heading(f, entries, show_extension);
            let same_created = forall|i: int|
                0 <= i < entries.len() ==> (#[trigger] entries[i]).created@ == entries[0].created@;
            let same_modified = forall|i: int|
                0 <= i < entries.len() ==> (#[trigger] entries[i]).modified@
                    == entries[0].modified@;
            &&& same_created ==> g.value(CREATED) == entries[0].created@
                && g.statuses[CREATED as int].len() == 0
            &&& !same_created ==> g.value(CREATED).len() == 0 && g.statuses[CREATED as int]
                == "Mixed"@
            &&& same_modified ==> g.value(MODIFIED) == entries[0].modified@
                && g.statuses[MODIFIED as int].len() == 0
            &&& !same_modified ==> g.value(MODIFIED).len() == 0 && g.statuses[MODIFIED as int]
                == "Mixed"@
        }),
{
    let c = details_selection::created_of(entries);
    let m = details_selection::modified_of(entries);
    if details_selection::all_same(c) {
        assert forall|i: int| 0 <= i < entries.len() implies (#[trigger] entries[i]).created@
            == entries[0].created@ by {
            assert(c[i] == c[0]);
        }
    }
    if details_selection::all_same(m) {
        assert forall|i: int| 0 <= i < entries.len() implies (#[trigger] entries[i]).modified@
            == entries[0].modified@ by {
            assert(m[i] == m[0]);
        }
    }
}

/// Among several entries the files are counted, and those that have a path.
pub proof fn selected_files_are_counted(entries: Seq<SelectedEntryDetails>, n: int)
    requires
        0 <= n < entries.len(),
    ensures
        details_selection::files_in(entries, 0) == 0,
        details_selection::paths_in(entries, 0) == 0,
        details_selection::files_in(entries, n + 1) == details_selection::files_in(entries, n) + (
        if entries[n].is_dir {
            0int
        } else {
            1
        }),
        details_selection::paths_in(entries, n + 1) == details_selection::paths_in(entries, n) + (
        if entries[n].path is Some {
            1int
        } else {
            0
        }),
{
}

/// Several files have one kind where all that have a kind have the same.
pub proof fn one_kind_is_the_only_one(kinds: Seq<Seq<char>>, i: int, j: int)
    requires
        0 <= i < kinds.len(),
        0 <= j < kinds.len(),
    ensures
        kinds[i] != kinds[j] ==> details_selection::only_kind(kinds) is None,
        (forall|k: int| 0 <= k < kinds.len() ==> #[trigger] kinds[k] == kinds[i])
            ==> details_selection::only_kind(kinds) == Some(kinds[i]),
        details_selection::only_kind(Seq::empty()) is None,
{
}

/// For many JPEG files EXIF data are shown unless none has any.
pub proof fn exif_data_of_many_are_shown(status: Seq<char>, kind: Seq<char>)
    ensures
        details_selection::exif_shown("jpeg"@, status) <==> status != "Not Found"@,
        kind != "jpeg"@ ==> !details_selection::exif_shown(kind, status),
{
}

/// A reverted form shows what was loaded, with no change left.
pub proof fn reverted_forms_show_what_was_loaded(
    f: FormModel,
    name: Seq<char>,
    created: Seq<char>,
    modified: Seq<char>,
    m: ExifMetadata,
)
    requires
        f.well_formed(),
    ensures
        ({
            let g = details_selection::reverted(f, Some((name, created, modified)), m);
            &&& g.value(NAME) == name
            &&& g.value(CREATED) == created
            &&& g.value(MODIFIED) == modified
            &&& g.value(TAKEN_DATE) == m.taken_date@
            &&& !g.metadata_dirty
            &&& g.exif_available == m.has_exif
        }),
{
    assert(details_form::exif_value(m, TAKEN_DATE as int) == m.taken_date@) by {
        assert(m.field(crate::exif::Field::TakenDate) == m.taken_date@);
    }
}

// Files that are moved.

/// A file that is moved stands at its new path with what it holds, and no longer at the
/// old one; no other file changes.
pub proof fn moved_files_change_their_path_alone(
    disk: Map<Seq<char>, int>,
    from: Seq<char>,
    to: Seq<char>,
    other: Seq<char>,
)
    requires
        disk.dom().contains(from),
        other != from,
        other != to,
    ensures
        ({
            let after = rename_batch::moved(disk, from, to);
            &&& after.dom().contains(to) && after[to] == disk[from]
            &&& from != to ==> !after.dom().contains(from)
            &&& after.dom().contains(other) == disk.dom().contains(other)
            &&& disk.dom().contains(other) ==> after[other] == disk[other]
        }),
{
}

/// The name under which a file is out of the way is hidden, and tells the process, the
/// file and the attempt.
pub proof fn temporary_names_tell_file_and_attempt(process: nat, index: nat, attempt: nat)
    ensures
        ({
            let t = rename_batch::temporary_name(process, index, attempt);
            let numbers = text::decimal(process) + seq!['_'] + text::decimal(index) + seq!['_']
                + text::decimal(attempt);
            &&& t[0] == '.'
            &&& t.take(29) == ".sh148_exif_file_tool_rename_"@
            &&& t.skip(29) == numbers + seq!['.', 't', 'm', 'p']
        }),
{
    reveal_strlit(".sh148_exif_file_tool_rename_");
    reveal_strlit("_");
    reveal_strlit(".tmp");
    assert("_"@ =~= seq!['_']);
    assert(".tmp"@ =~= seq!['.', 't', 'm', 'p']);
    assert(".sh148_exif_file_tool_rename_"@.len() == 29);
    let t = rename_batch::temporary_name(process, index, attempt);
    assert(t.take(29) =~= ".sh148_exif_file_tool_rename_"@);
    let numbers = text::decimal(process) + seq!['_'] + text::decimal(index) + seq!['_']
        + text::decimal(attempt);
    assert(t.skip(29) =~= numbers + seq!['.', 't', 'm', 'p']);
}

/// The first attempt that is free is taken.
pub proof fn the_first_free_attempt_is_taken(
    folder: Seq<char>,
    process: nat,
    index: nat,
    existing: Seq<String>,
    windows: bool,
    from: int,
    at: int,
)
    requires
        0 <= from <= at < usize::MAX,
        !file_path::exists_path(
            existing,
            folder + rename_batch::temporary_name(process, index, at as nat),
            windows,
        ),
        forall|k: int|
            from <= k < at ==> file_path::exists_path(
                existing,
                folder + #[trigger] rename_batch::temporary_name(process, index, k as nat),
                windows,
            ),
    ensures
        rename_batch::free_attempt(folder, process, index, existing, windows, from) == Some(at),
    decreases at - from,
{
    if from < at {
        assert(file_path::exists_path(
            existing,
            folder + rename_batch::temporary_name(process, index, from as nat),
            windows,
        ));
        the_first_free_attempt_is_taken(
            folder,
            process,
            index,
            existing,
            windows,
            from + 1,
            at,
        );
    }
}

} // verus!
