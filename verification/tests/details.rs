use exif_file_tool::browser::{
    entry_label, entry_size, format_size_kb, get_file_name, tree_items, AppConfig, FileEntry,
    GuiApp,
};
use exif_file_tool::creator::{
    append_creator_suffix, append_dated_suffix, check_datetime_tags, convert_to_jpeg,
    create_basic_exif_structure, creator_software, date_from_digits, date_from_groups,
    earliest_date, ensure_date_taken, get_date_taken, list_image_files, named_copy, named_jpeg,
    parse_datetime_from_compact, print_file_info, print_files_info_oneline,
    save_as_jpg_with_new_name, try_update_date_from_filename, DateTaken, DatesFix,
};
use exif_file_tool::date_input::{
    auto_format_date_edit, auto_format_date_input, delete_confirmation_message,
    is_type_ahead_text, selection_index_after_deletion, should_mirror_png_date_source,
};
use exif_file_tool::date_shift::{
    build_shift_gps_date_time_preview, build_shift_media_date_preview, combined_gps_date_time,
    gps_date_time_for_shift, gps_utc_to_kst_display, media_date_for_shift,
    parse_combined_gps_date_time,
    parse_media_date_shift, shift_display_datetime, GpsShiftFile, ShiftFile,
};
use exif_file_tool::details_form::{
    DetailsForm, CAMERA_MAKE, CREATED, DATE_TIME_ORIGINAL, GPS_DATE_TIME, GPS_LATITUDE, MODIFIED,
    NAME, PNG_CREATION_TIME, TAKEN_DATE,
};
use exif_file_tool::details_selection::{
    clear_selected_file, join_metadata, large_selection_exif_available, revert_changes,
    selection_display,
    selection_summary, set_large_selection, set_selected_entries, set_selected_file,
    set_selected_files,
};
use exif_file_tool::entries::FileSystemEntry;
use exif_file_tool::exif::ExifMetadata;
use exif_file_tool::file_actions::Elapsed;
use exif_file_tool::file_list::SlintApp;
use exif_file_tool::file_rows::{FileRow, SelectedEntryDetails};
use exif_file_tool::form_keys::{
    context_copy, context_paste, exif_key_label, exif_section_label, is_removable_tag,
    is_writable_metadata_key, section_paste_enabled, tag_paste_enabled, tag_removal_enabled,
    ExifClipboard, ExifContextTarget, KeyValue,
};
use exif_file_tool::gestures::{RowClicks, TypeAhead};
use exif_file_tool::notices::{
    check_copy, check_delete, check_exif_creation, check_rename, check_save_copy,
    confirm_number_removal, confirm_prefix_removal, confirm_trailing_numbers, exif_created,
    gps_date_times_saved, numbers_removed, prefixes_removed, request_number_removal,
    request_prefix_removal, request_trailing_numbers, thumbnails_extracted,
    trailing_numbers_moved,
};
use exif_file_tool::png::PngDateSources;
use exif_file_tool::preview::{
    decode_preview, jpeg_orientation, oriented_dimensions, preview_dimensions,
    preview_failed_text, preview_info_text, preview_media_kind, preview_once_loaded,
    preview_while_loading, PreviewCache, PreviewCacheKey,
    PreviewMediaKind, PreviewResult, PreviewState, PreviewStep,
};
use exif_file_tool::rename_plan::FrontRearNumberRemovalStats;
use exif_file_tool::requests::{
    check_folder, check_media_shift, check_open, check_paste, check_reveal, check_section,
    check_thumbnails, confirm_date_overwrite, confirm_exif_paste, folder_choice, folder_to_open,
    removal_report, report_extraction, stage_or_confirm_exif_paste, Extraction, FolderChoice,
};
use exif_file_tool::save_plan::{
    apply_metadata_changes_to_path, collect_current_exif_metadata, collect_dirty_exif_metadata,
    has_staged_png_overwrite, is_missing_writable_exif_tag_error, rename_step, save_route,
    single_save_route, step_of_many, waiting_renames_made, write_dirty_exif_tags,
    write_dirty_file_times, DatedFile, FileToSave, ManyStep, MetadataChange, NewTime, PendingDate,
    PendingTime, RenameStep, SaveRoute, SingleFile, SingleRoute, TagWrite, WaitingChanges,
};
use exif_file_tool::staging::{
    apply_shift_gps_date_time, apply_shift_media_date, check_dates_from_names, check_gps_shift,
    fill_single_date_from_filename, fill_taken_date_from_created_date,
    fill_taken_date_from_filenames, fill_taken_date_from_gps, CandidateFile, EnteredShift,
};
use exif_file_tool::staging_files::{
    check_names_from_dates, earliest_available_timestamp, parse_timestamp, remove_exif_tags,
    set_file_dates_from_media_date, set_modified_date_from_created_date, stage_filename,
    stage_filenames, NameChoice, RemovalFile,
};

// Dates that are typed and shifted.

#[test]
fn deletion_keeps_the_same_row_or_selects_the_previous_last_row() {
    assert_eq!(selection_index_after_deletion(3, 5), Some(3));
    assert_eq!(selection_index_after_deletion(5, 4), Some(4));
    assert_eq!(selection_index_after_deletion(1, 0), None);
}

#[test]
fn preview_type_is_detected_from_file_signature() {
    assert_eq!(
        preview_media_kind(&[0xff, 0xd8, 0xff, 0xd9]),
        Some(PreviewMediaKind::Jpeg)
    );
    assert_eq!(
        preview_media_kind(&[137, 80, 78, 71, 13, 10, 26, 10]),
        Some(PreviewMediaKind::Png)
    );
    assert_eq!(preview_media_kind(b"not an image"), None);
}

#[test]
fn preview_overlay_combines_source_dimensions_and_load_time() {
    assert_eq!(
        preview_info_text(1024, 768, 122),
        "1024 x 768 (loaded in 122 ms)"
    );
}

#[test]
fn large_jpeg_selection_uses_cached_metadata_state_without_offering_creation() {
    assert_eq!(
        selection_summary(&vec!["Available".to_string(); 7]),
        "Available"
    );
    assert!(large_selection_exif_available("jpeg", "Available"));
    assert!(large_selection_exif_available("jpeg", "Mixed"));
    assert!(large_selection_exif_available("jpeg", "Scanning..."));
    assert!(!large_selection_exif_available("jpeg", "Not Found"));
    assert!(!large_selection_exif_available("png", "Available"));
}

#[test]
fn chooses_the_earlier_available_file_timestamp() {
    let created = Elapsed {
        seconds: 200,
        nanos: 0,
    };
    let modified = Elapsed {
        seconds: 100,
        nanos: 0,
    };
    assert_eq!(
        earliest_available_timestamp(Some(created), Some(modified)),
        Some(modified)
    );
    assert_eq!(earliest_available_timestamp(Some(created), None), Some(created));
    assert_eq!(earliest_available_timestamp(None, Some(modified)), Some(modified));
}

#[test]
fn shifts_media_dates_across_day_and_month_boundaries() {
    let shift = parse_media_date_shift("57", "10", "0", "0").unwrap();
    assert_eq!(
        shift_display_datetime("2015-05-15 03:00:00", shift, false).as_deref(),
        Some("2015-07-11 13:00:00")
    );
    assert_eq!(
        shift_display_datetime("2015-07-11 13:00:00", shift, true).as_deref(),
        Some("2015-05-15 03:00:00")
    );
}

#[test]
fn combines_staged_gps_date_and_time_as_an_independent_utc_value() {
    assert_eq!(
        gps_date_time_for_shift(&Some("sample.jpg".to_string()), "2015-05-14", "23:25:43")
            .as_deref(),
        Some("2015-05-14 23:25:43")
    );
    let shift = parse_media_date_shift("0", "2", "0", "0").unwrap();
    assert_eq!(
        shift_display_datetime("2015-05-14 23:25:43", shift, false).as_deref(),
        Some("2015-05-15 01:25:43")
    );
}

#[test]
fn combines_and_splits_gps_date_time_for_the_details_row() {
    assert_eq!(
        combined_gps_date_time("2015-05-14", "19:31:13"),
        "2015-05-14 19:31:13"
    );
    assert_eq!(
        parse_combined_gps_date_time("2015-05-14 19:31:13 UTC").unwrap(),
        (Some("2015-05-14".to_string()), Some("19:31:13".to_string()))
    );
    assert_eq!(
        combined_gps_date_time("2015-05-14", ""),
        "2015-05-14 (date only)"
    );
}

#[test]
fn converts_combined_gps_utc_to_kst_for_media_date() {
    assert_eq!(
        gps_utc_to_kst_display("2015-05-14", "19:31:13").as_deref(),
        Some("2015-05-15 04:31:13")
    );
}

#[test]
fn rejects_negative_media_date_shift_parts() {
    assert!(parse_media_date_shift("0", "-1", "0", "0").is_err());
}

#[test]
fn mirrors_png_date_edit_only_while_the_other_source_started_empty() {
    assert!(should_mirror_png_date_source("", "", "2015-"));
    assert!(should_mirror_png_date_source("", "2015-12-", "2015-12-"));
    assert!(!should_mirror_png_date_source(
        "2014-01-01 00:00:00",
        "2014-01-01 00:00:00",
        "2015-12-"
    ));
    assert!(!should_mirror_png_date_source(
        "",
        "2016-01-02 11:22:33",
        "2015-12-"
    ));
}

#[test]
fn automatically_inserts_date_hyphens_while_typing_or_pasting() {
    assert_eq!(auto_format_date_input("2014"), "2014-");
    assert_eq!(auto_format_date_input("20260"), "2026-0");
    assert_eq!(auto_format_date_input("2026-05"), "2026-05-");
    assert_eq!(auto_format_date_input("2026-050"), "2026-05-0");
    assert_eq!(auto_format_date_input("20260509"), "2026-05-09");
    assert_eq!(auto_format_date_input("2026--05"), "2026-05-");
    assert_eq!(
        auto_format_date_input("20260509 12:34:56"),
        "2026-05-09 12:34:56"
    );
    assert_eq!(auto_format_date_input("2026-05-09"), "2026-05-09");
    assert_eq!(auto_format_date_input("2026-05-09 12"), "2026-05-09 12:");
    assert_eq!(
        auto_format_date_input("2026-05-09 12:34"),
        "2026-05-09 12:34:"
    );
    assert_eq!(
        auto_format_date_input("2026-05-09 123456"),
        "2026-05-09 12:34:56"
    );
    assert_eq!(
        auto_format_date_input("2026-05-09 12::34"),
        "2026-05-09 12:34:"
    );
}

#[test]
fn allows_backspace_to_remove_an_automatically_inserted_hyphen() {
    assert_eq!(auto_format_date_edit("2014-", "2014"), "2014");
    assert_eq!(auto_format_date_edit("2014-05-", "2014-05"), "2014-05");
    assert_eq!(auto_format_date_edit("201", "2014"), "2014-");
    assert_eq!(
        auto_format_date_edit("2014-05-09 12:", "2014-05-09 12"),
        "2014-05-09 12"
    );
}

#[test]
fn formatting_a_date_again_changes_nothing() {
    for value in ["2014", "20260", "2026-05-09 123456", "holiday", "2026-05-09 12"] {
        let once = auto_format_date_input(value);
        assert_eq!(auto_format_date_input(&once), once);
    }
}

#[test]
fn shifts_have_limits() {
    assert_eq!(parse_media_date_shift("1", "1", "1", "1"), Ok(90061));
    assert!(parse_media_date_shift("x", "0", "0", "0").is_err());
    assert!(parse_media_date_shift("99999999999999999999", "0", "0", "0").is_err());
    assert_eq!(shift_display_datetime("yesterday", 1, false), None);
}

#[test]
fn previews_of_shifts_show_three_files() {
    let file = |name: &str, date: &str| ShiftFile {
        name: Some(name.to_string()),
        date: date.to_string(),
    };
    let files = vec![
        file("a.jpg", "2020-01-01 00:00:00"),
        file("b.txt", "2020-01-01 00:00:00"),
    ];
    let preview = build_shift_media_date_preview(&files, "0", "1", "0", "0", false);
    assert!(preview.contains("2020-01-01 01:00:00"));
    assert!(preview.contains("Ready: 1 file(s)   Skipped: 1"));
    let gps = vec![GpsShiftFile {
        name: Some("a.jpg".to_string()),
        date: "2020-01-01".to_string(),
        time: "00:00:00".to_string(),
    }];
    let preview = build_shift_gps_date_time_preview(&gps, "0", "0", "1", "0", true);
    assert!(preview.contains("2019-12-31 23:59:00"));
}

#[test]
fn keys_and_questions_have_their_texts() {
    assert!(is_type_ahead_text("a"));
    assert!(!is_type_ahead_text(""));
    assert!(!is_type_ahead_text("\u{8}"));
    assert_eq!(
        delete_confirmation_message(1),
        "1 file/folder is selected. Send it to the Recycle Bin?"
    );
    assert_eq!(
        delete_confirmation_message(3),
        "3 files/folders are selected. Send them to the Recycle Bin?"
    );
    assert!(parse_combined_gps_date_time("soon").is_err());
    assert_eq!(
        parse_combined_gps_date_time("2015-05-14 (date only)").unwrap(),
        (Some("2015-05-14".to_string()), None)
    );
    assert_eq!(
        parse_combined_gps_date_time("19:31:13 (time only)").unwrap(),
        (None, Some("19:31:13".to_string()))
    );
}

#[test]
fn a_waiting_date_is_shifted_before_any_other() {
    assert_eq!(media_date_for_shift(Some("w"), "a.jpg", "s", "t"), "w");
    assert_eq!(media_date_for_shift(None, "a.mov", "s", "t"), "s");
    assert_eq!(media_date_for_shift(None, "a.png", "s", "t"), "s");
    assert_eq!(media_date_for_shift(None, "a.jpg", "s", "t"), "t");
    assert_eq!(media_date_for_shift(None, "a.txt", "s", "t"), "");
}

// Gestures.

#[test]
fn two_quick_clicks_are_a_double_click() {
    let mut clicks = RowClicks::new();
    assert!(!clicks.click(3, 1000));
    assert!(clicks.click(3, 1500));
    assert!(!clicks.click(4, 1600));
    assert!(!clicks.click(4, 2200));
    clicks.forget();
    assert!(!clicks.click(4, 2201));
}

#[test]
fn typed_keys_make_a_search_text() {
    let mut search = TypeAhead::new();
    assert_eq!(search.key("i", 0).as_deref(), Some("i"));
    assert_eq!(search.key("i", 100).as_deref(), Some("i"));
    assert_eq!(search.key("m", 200).as_deref(), Some("im"));
    assert_eq!(search.key("\u{8}", 300), None);
    assert_eq!(search.key("g", 1200).as_deref(), Some("img"));
    assert_eq!(search.key("x", 2300).as_deref(), Some("x"));
    assert_eq!(search.key("", 2400), None);
    assert_eq!(search.typed, "");
}

// The form.

fn form() -> DetailsForm {
    let mut form = DetailsForm::new();
    form.selected_file_count = 1;
    form
}

#[test]
fn edited_fields_count_as_changes_until_they_are_stored() {
    let mut form = form();
    form.set_value(CAMERA_MAKE, "Sony");
    form.update_metadata_dirty_state();
    assert!(form.metadata_dirty && form.is_dirty(CAMERA_MAKE));
    form.store_current_as_original();
    form.update_metadata_dirty_state();
    assert!(!form.metadata_dirty);
    form.set_dirty(NAME, true);
    form.reset_metadata_dirty_flags();
    assert!(!form.is_dirty(NAME));
}

#[test]
fn loaded_data_are_shown() {
    let mut form = form();
    let metadata = ExifMetadata {
        has_exif: true,
        camera_make: "Sony".to_string(),
        gps_date_stamp: "2015-05-14".to_string(),
        gps_time_stamp: "19:31:13".to_string(),
        ..ExifMetadata::default()
    };
    form.set_loaded_exif_metadata(&metadata);
    assert_eq!(form.value(CAMERA_MAKE), "Sony");
    assert_eq!(form.original(CAMERA_MAKE), "Sony");
    assert_eq!(form.value(GPS_DATE_TIME), "2015-05-14 19:31:13");
    assert!(form.exif_available && !form.metadata_dirty);
    form.set_loaded_media_date("-");
    assert_eq!(form.value(TAKEN_DATE), "");
    let current = collect_current_exif_metadata(&form);
    assert!(current.has_exif);
    assert_eq!(current.camera_make, "Sony");
}

#[test]
fn png_dates_are_mirrored_and_completed() {
    let mut form = form();
    form.set_value(PNG_CREATION_TIME, "2015");
    let (cursor, follows) = form.png_date_input_edited(PNG_CREATION_TIME, DATE_TIME_ORIGINAL, "201");
    assert_eq!((cursor, follows), (Some(5), true));
    assert_eq!(form.value(DATE_TIME_ORIGINAL), "2015-");
    form.set_value(PNG_CREATION_TIME, " 2015-01-02 ");
    form.trim_png_date_sources_before_save();
    assert_eq!(form.value(PNG_CREATION_TIME), "2015-01-02 00:00:00");
    form.set_value(TAKEN_DATE, "2014");
    assert_eq!(form.taken_date_input_edited("201"), Some(5));
    form.set_value(TAKEN_DATE, " 2014-05-06");
    form.trim_taken_date_before_save();
    assert_eq!(form.value(TAKEN_DATE), "2014-05-06 00:00:00");
    form.stage_taken_date("2014-05-06 00:00:00", true);
    assert_eq!(form.value(PNG_CREATION_TIME), "2014-05-06 00:00:00");
    assert!(!form.png_date_sources_conflict);
}

#[test]
fn rows_are_found_by_their_keys() {
    let mut form = form();
    form.set_exif_value("camera_make", "Sony");
    assert_eq!(form.get_exif_value("camera_make"), "Sony");
    assert_eq!(form.get_exif_value("unknown"), "");
    form.set_exif_key_dirty("camera_make", true);
    assert!(form.is_dirty(CAMERA_MAKE));
    assert_eq!(exif_key_label("camera_make"), "Camera Make");
    assert!(!exif_section_label("camera").is_empty());
    assert!(is_writable_metadata_key("jpeg", 3, "camera_make"));
    assert!(!is_writable_metadata_key("jpeg", 1, "image_width"));
    assert!(is_writable_metadata_key("mp4", 1, "media_date"));
    assert!(is_removable_tag("jpeg", "camera_make"));
    assert!(!is_removable_tag("mp4", "camera_make"));
    assert!(tag_removal_enabled("jpeg", 1, "camera_make", "Sony"));
    assert!(!tag_removal_enabled("jpeg", 1, "camera_make", "-"));
}

#[test]
fn a_copied_tag_is_pasted_where_it_can_be_written() {
    let target = ExifContextTarget::Tag {
        key: "camera_make".to_string(),
        value: "Sony".to_string(),
    };
    let (clipboard, toast) = context_copy(&target);
    assert_eq!(toast, "Copied: 'Camera Make: Sony'");
    let clipboard = Some(clipboard);
    assert!(tag_paste_enabled("jpeg", 1, "camera_model", &clipboard));
    assert!(!section_paste_enabled("camera", &clipboard));
    let other = ExifContextTarget::Tag {
        key: "camera_model".to_string(),
        value: String::new(),
    };
    let values = context_paste(&other, &clipboard, "jpeg", 1).unwrap();
    let mut form = form();
    assert!(!form.paste_needs_confirmation(&values));
    form.apply_exif_paste(&values);
    assert_eq!(form.get_exif_value("camera_model"), "Sony");
    let fixed = ExifContextTarget::Tag {
        key: "image_width".to_string(),
        value: String::new(),
    };
    assert!(context_paste(&fixed, &clipboard, "jpeg", 1).is_none());
    assert!(context_paste(&other, &None, "jpeg", 1).is_none());
    let section = form.collect_exif_section("camera");
    assert!(!section.is_empty());
    let copied = Some(ExifClipboard::Section {
        section: "camera".to_string(),
        values: section,
    });
    assert!(section_paste_enabled("camera", &copied));
}

// What is selected.

fn details(name: &str, kind: &str) -> SelectedEntryDetails {
    SelectedEntryDetails {
        path: Some(format!("/photos/{name}")),
        name: name.to_string(),
        exact_size: "10 bytes".to_string(),
        created: "2020-01-01 00:00:00".to_string(),
        modified: "2020-01-02 00:00:00".to_string(),
        is_dir: false,
        media_kind: kind.to_string(),
        media_type: "type".to_string(),
        media_date: "2019-01-01 00:00:00".to_string(),
        metadata_status: "Available".to_string(),
        time_interpretation: String::new(),
        exif_metadata: Some(ExifMetadata {
            has_exif: true,
            camera_make: name.to_string(),
            artist: "tester".to_string(),
            ..ExifMetadata::default()
        }),
    }
}

#[test]
fn nothing_selected_shows_nothing() {
    let mut form = form();
    form.set_value(CAMERA_MAKE, "Sony");
    let info = clear_selected_file(&mut form);
    assert_eq!(info.index, -1);
    assert_eq!(info.size, "N/A");
    assert_eq!(form.value(NAME), "N/A");
    assert_eq!(form.value(CAMERA_MAKE), "");
    assert!(!form.metadata_dirty);
}

#[test]
fn one_selected_file_is_shown() {
    let mut form = form();
    let info = set_selected_file(&mut form, &details("a.jpg", "jpeg"), 2, false, &None);
    assert_eq!((info.index, info.recyclable_count), (2, 1));
    assert_eq!(form.value(NAME), "a");
    assert_eq!(form.value(CAMERA_MAKE), "a.jpg");
    assert_eq!(form.selected_file_count, 1);
    let sources = Some(PngDateSources {
        creation_time: "2019-01-01 00:00:00".to_string(),
        date_time_original: "2018-01-01 00:00:00".to_string(),
        date_time_digitized: String::new(),
        image_date_time: String::new(),
    });
    set_selected_file(&mut form, &details("a.png", "png"), 2, true, &sources);
    assert_eq!(form.value(TAKEN_DATE), "2019-01-01 00:00:00");
    assert_eq!(form.value(DATE_TIME_ORIGINAL), "2018-01-01 00:00:00");
    assert!(form.png_date_sources_conflict);
}

#[test]
fn changes_are_taken_back() {
    let mut form = edited(CAMERA_MAKE, "Sony");
    let row = Some(("a.jpg".to_string(), "c".to_string(), "m".to_string(), false));
    let metadata = ExifMetadata {
        camera_make: "Nikon".to_string(),
        ..ExifMetadata::default()
    };
    revert_changes(&mut form, &row, Some("a.jpg"), false, &metadata);
    assert_eq!(form.value(NAME), "a");
    assert_eq!(form.value(CREATED), "c");
    assert_eq!(form.value(CAMERA_MAKE), "Nikon");
    assert!(!form.metadata_dirty && !form.is_dirty(CAMERA_MAKE));
    revert_changes(&mut form, &None, None, false, &ExifMetadata::default());
    assert_eq!(form.value(NAME), "a");
    assert_eq!(form.value(CAMERA_MAKE), "");
}

#[test]
fn several_selected_files_are_shown_together() {
    let mut form = form();
    let entries = vec![details("a.jpg", "jpeg"), details("b.jpg", "jpeg")];
    let info = set_selected_entries(&mut form, &[1, 2], &entries, true, &Vec::new());
    assert_eq!((info.index, info.recyclable_count), (2, 2));
    assert_eq!(info.size, "10 bytes");
    assert_eq!(info.media_kind, "jpeg");
    assert_eq!(info.metadata_status, "Available");
    assert_eq!(form.value(NAME), "");
    assert_eq!(form.status(NAME), "Mixed");
    assert_eq!(form.value(CREATED), "2020-01-01 00:00:00");
    assert_eq!(form.value(CAMERA_MAKE), "");
    assert_eq!(form.status(CAMERA_MAKE), "Mixed");
    assert_eq!(form.get_exif_value("artist"), "tester");
    assert_eq!(form.selected_file_count, 2);
    let mixed = vec![details("a.jpg", "jpeg"), details("b.mp4", "mp4")];
    assert_eq!(
        set_selected_entries(&mut form, &[1, 2], &mixed, true, &Vec::new()).media_kind,
        "mixed"
    );
    let sources = |date: &str| PngDateSources {
        creation_time: date.to_string(),
        date_time_original: String::new(),
        date_time_digitized: String::new(),
        image_date_time: String::new(),
    };
    let pictures = vec![details("a.png", "png"), details("b.png", "png")];
    let info = set_selected_entries(&mut form, &[1, 2], &pictures, true, &vec![sources("x"), sources("y")]);
    assert_eq!(info.media_type, "Multiple PNG images");
    assert_eq!(form.value(PNG_CREATION_TIME), "<Multiple values>");
    assert_eq!(form.value(DATE_TIME_ORIGINAL), "-");
}

#[test]
fn many_selected_files_are_counted() {
    let row = |name: &str, is_dir: bool| FileRow {
        name: name.to_string(),
        size: None,
        modified: String::new(),
        created: String::new(),
        is_dir,
        selected: true,
        media_kind: "jpeg".to_string(),
        media_date: String::new(),
        metadata_status: "Available".to_string(),
        duplicate_name: false,
        duplicate_size: false,
        duplicate_modified: false,
        duplicate_media_date: false,
    };
    let mut rows = vec![row("..", true)];
    for index in 0..6 {
        rows.push(row(&format!("{index}.jpg"), index == 5));
    }
    let mut form = form();
    let info = set_large_selection(&mut form, &[1, 2, 3, 4, 5, 6, 99], &rows);
    assert_eq!(form.value(NAME), "7 items selected");
    assert_eq!(form.selected_file_count, 5);
    assert_eq!(info.recyclable_count, 6);
    assert!(info.is_dir);
    assert_eq!(info.metadata_status, "Available");
    assert!(form.exif_available);
    assert_eq!(form.status(CAMERA_MAKE), "Mixed");
}

fn app_with(names: &[&str], selected: &[i32]) -> SlintApp {
    let entries = names
        .iter()
        .map(|name| FileSystemEntry {
            path: format!("/photos/{name}"),
            name: Some(name.to_string()),
            size: 1000,
            modified: None,
            created: None,
            is_dir: false,
        })
        .collect();
    let mut app = SlintApp::new("/photos".to_string(), Some("/".to_string()), Some(entries), false);
    app.selected_indices = selected.to_vec();
    app
}

#[test]
fn a_selection_is_shown_by_its_size() {
    let names = ["a.jpg", "b.jpg", "c.jpg", "d.jpg", "e.jpg", "f.jpg"];
    let show = |selected: &[i32]| {
        let app = app_with(&names, selected);
        let rows = app.get_ui_model();
        let mut form = form();
        let info = set_selected_files(&mut form, &app, &rows, true, &None, &Vec::new());
        (form.value(NAME).to_string(), form.status(NAME).to_string(), info)
    };
    let (name, _, info) = show(&[]);
    assert_eq!((name.as_str(), info.index), ("N/A", -1));
    let (name, _, info) = show(&[2]);
    assert_eq!((name.as_str(), info.index, info.recyclable_count), ("b.jpg", 2, 1));
    assert_eq!(info.size, "1,000 Byte");
    let (name, _, info) = show(&[40]);
    assert_eq!((name.as_str(), info.index), ("N/A", -1));
    let (name, status, info) = show(&[1, 2, 3, 4, 5]);
    assert_eq!((name.as_str(), status.as_str(), info.index), ("", "Mixed", 5));
    assert_eq!((info.size.as_str(), info.recyclable_count), ("1,000 Byte", 5));
    let (name, _, info) = show(&[1, 2, 3, 4, 5, 6]);
    assert_eq!((name.as_str(), info.index), ("6 items selected", 6));
    assert_eq!(info.size, "<Multiple values>");
}

#[test]
fn details_of_the_selected_rows_are_listed() {
    let app = app_with(&["a.jpg", "b.png"], &[0, 2, 7]);
    let list = app.selected_entry_details();
    assert_eq!(list.len(), 2);
    assert_eq!(list[0].name, "[..]");
    assert_eq!(list[0].path.as_deref(), Some("/"));
    assert_eq!(list[0].exact_size, "-");
    assert_eq!(list[1].name, "b.png");
    assert_eq!(list[1].path.as_deref(), Some("/photos/b.png"));
    assert_eq!(list[1].exact_size, "1,000 Byte");
    assert!(list[1].exif_metadata.is_none());
    assert!(app_with(&["a.jpg"], &[]).selected_entry_details().is_empty());
}

#[test]
fn texts_of_several_files_are_joined() {
    let display = selection_display(&vec!["a".to_string(), "b".to_string()]);
    assert_eq!((display.value.as_str(), display.status.as_str()), ("", "Mixed"));
    let one = ExifMetadata {
        artist: "tester".to_string(),
        has_exif: true,
        ..ExifMetadata::default()
    };
    let joined = join_metadata(&[one.clone(), ExifMetadata::default()]);
    assert!(joined.has_exif);
    assert_eq!(joined.artist, "");
    assert_eq!(join_metadata(&[one]).artist, "tester");
}

// Saving.

fn file_to_save(name: &str, has_exif: bool, generated: bool) -> FileToSave {
    FileToSave {
        name: name.to_string(),
        metadata: ExifMetadata {
            has_exif,
            ..ExifMetadata::default()
        },
        generated,
    }
}

fn edited(field: usize, value: &str) -> DetailsForm {
    let mut form = form();
    form.set_value(field, value);
    form.update_metadata_dirty_state();
    form
}

#[test]
fn each_kind_of_file_takes_its_own_changes() {
    let date = edited(TAKEN_DATE, "2020-01-02 03:04:05");
    let make = edited(CAMERA_MAKE, "Sony");
    let none = PendingDate::NotUsed;
    let change = |form: &DetailsForm, kind: &str, file: FileToSave, pending: &PendingDate| {
        apply_metadata_changes_to_path(form, kind, &file, pending)
    };
    assert!(matches!(
        change(&date, "mp4", file_to_save("a.mp4", false, false), &none),
        Ok(MetadataChange::Mp4Date(d)) if d == "2020-01-02 03:04:05"
    ));
    assert!(matches!(
        change(&date, "mixed", file_to_save("a.mp4", false, false), &none),
        Ok(MetadataChange::Nothing)
    ));
    assert_eq!(
        change(&make, "mp4", file_to_save("a.mp4", false, false), &none).unwrap_err(),
        "Only Media Date can be written to MP4/MOV/M4V/3GP/3G2 files."
    );
    assert_eq!(
        change(&date, "mts", file_to_save("a.mts", false, false), &none).unwrap_err(),
        "Embedded Media Date writing is not supported for MTS/M2TS files."
    );
    assert_eq!(
        change(&make, "png", file_to_save("a.png", false, false), &none).unwrap_err(),
        "Only Media Date can be written to PNG files."
    );
    let pending = PendingDate::Date("2021-01-01 00:00:00".to_string());
    assert!(matches!(
        change(&form(), "mixed", file_to_save("a.png", false, false), &pending),
        Ok(MetadataChange::PngDate(d)) if d == "2021-01-01 00:00:00"
    ));
    assert!(matches!(
        change(&make, "jpeg", file_to_save("a.jpg", false, false), &none),
        Ok(MetadataChange::NewExif(m)) if m.camera_make == "Sony" && m.has_exif
    ));
    assert!(matches!(
        change(&make, "jpeg", file_to_save("a.jpg", true, true), &none),
        Ok(MetadataChange::GeneratedExif(_))
    ));
    assert!(matches!(
        change(&make, "jpeg", file_to_save("a.jpg", true, false), &none),
        Ok(MetadataChange::Tags(_))
    ));
    assert!(matches!(
        change(&form(), "jpeg", file_to_save("a.jpg", true, false), &none),
        Ok(MetadataChange::Nothing)
    ));
}

#[test]
fn tags_are_written_in_order() {
    let mut form = edited(CAMERA_MAKE, "Sony");
    form.set_value(TAKEN_DATE, "2020-01-02 03:04:05");
    form.set_value(GPS_DATE_TIME, "2015-05-14");
    form.update_metadata_dirty_state();
    let writes = write_dirty_exif_tags(&form, &PendingDate::NotUsed);
    assert_eq!(writes.len(), 3);
    assert!(matches!(&writes[0], TagWrite::Value(TAKEN_DATE, d) if d == "2020-01-02 03:04:05"));
    assert!(matches!(&writes[1], TagWrite::Value(CAMERA_MAKE, v) if v == "Sony"));
    assert!(matches!(&writes[2], TagWrite::GpsDate(d) if d == "2015-05-14"));
    let metadata = collect_dirty_exif_metadata(&form, &ExifMetadata::default(), &PendingDate::Missing);
    assert_eq!(metadata.taken_date, "");
    assert_eq!(metadata.gps_date_stamp, "2015-05-14");
    let moved = edited(GPS_LATITUDE, "37.5");
    assert!(matches!(
        &write_dirty_exif_tags(&moved, &PendingDate::NotUsed)[0],
        TagWrite::Refuse(_)
    ));
    assert!(is_missing_writable_exif_tag_error("x No writable EXIF tag was found y"));
    assert!(!is_missing_writable_exif_tag_error("no"));
}

#[test]
fn times_wait_for_files_or_are_typed() {
    let form = edited(CREATED, "2020-01-01 00:00:00");
    assert!(write_dirty_file_times(&form, PendingTime::Missing, PendingTime::NotUsed).is_none());
    assert!(matches!(
        write_dirty_file_times(&form, PendingTime::NotUsed, PendingTime::NotUsed),
        Some((NewTime::Typed(t), NewTime::Keep)) if t == "2020-01-01 00:00:00"
    ));
    assert!(matches!(
        write_dirty_file_times(&form, PendingTime::Known, PendingTime::Known),
        Some((NewTime::Pending, NewTime::Pending))
    ));
    assert!(write_dirty_file_times(&self::form(), PendingTime::NotUsed, PendingTime::NotUsed).is_none());
}

#[test]
fn a_save_takes_the_way_that_its_changes_need() {
    let none = WaitingChanges {
        taken_dates: false,
        gps_date_times: false,
        created_dates: false,
        modified_dates: false,
        removals: false,
        tag_removals: false,
    };
    let gps = WaitingChanges {
        gps_date_times: true,
        ..none
    };
    let plain = form();
    assert_eq!(save_route(&plain, true, none, 1, false, false), SaveRoute::ReloadOnly);
    assert_eq!(save_route(&plain, false, gps, 2, false, false), SaveRoute::SaveGps);
    assert_eq!(save_route(&plain, false, none, 1, true, false), SaveRoute::ConfirmOverwrite);
    assert_eq!(save_route(&plain, false, none, 2, true, true), SaveRoute::SaveMany);
    assert_eq!(save_route(&plain, false, none, 1, false, false), SaveRoute::SaveOne);
    assert_eq!(step_of_many(true, true), ManyStep::RemoveMetadata);
    assert_eq!(step_of_many(false, true), ManyStep::WriteGpsAndChanges);
    assert_eq!(step_of_many(false, false), ManyStep::WriteChanges);
    let dated = |name: &str| DatedFile {
        name: name.to_string(),
        has_waiting_date: true,
        sources: PngDateSources {
            creation_time: "2019-01-01 00:00:00".to_string(),
            date_time_original: String::new(),
            date_time_digitized: String::new(),
            image_date_time: String::new(),
        },
    };
    assert!(has_staged_png_overwrite(&plain, &[dated("a.png")]));
    assert!(!has_staged_png_overwrite(&plain, &[dated("a.jpg")]));
}

#[test]
fn a_single_file_is_saved_by_its_kind() {
    let file = |name: &str, has_exif: bool| {
        Some(SingleFile {
            name: name.to_string(),
            removed_tags: false,
            remove_metadata: false,
            has_exif,
            generated: false,
        })
    };
    let mut date = edited(TAKEN_DATE, "2020-01-02 03:04:05");
    assert!(matches!(single_save_route(&date, &file("a.mp4", false)), SingleRoute::Mp4Date(_)));
    assert!(matches!(single_save_route(&date, &file("a.png", false)), SingleRoute::PngDate(_)));
    assert!(matches!(single_save_route(&date, &file("a.jpg", false)), SingleRoute::NewExif));
    assert!(matches!(single_save_route(&date, &file("a.jpg", true)), SingleRoute::Changes));
    assert!(matches!(single_save_route(&date, &None), SingleRoute::Unresolved));
    assert!(matches!(single_save_route(&form(), &file("a.jpg", true)), SingleRoute::Finish));
    let png = edited(PNG_CREATION_TIME, "2020-01-02 03:04:05");
    assert!(matches!(
        single_save_route(&png, &file("a.png", false)),
        SingleRoute::PngSources(Some(_), None)
    ));
    date.mark_media_date_saved();
    assert!(!date.metadata_dirty);
    let mut both = edited(TAKEN_DATE, "2020-01-02 03:04:05");
    both.mark_png_dates_saved();
    assert_eq!(both.value(PNG_CREATION_TIME), "2020-01-02 03:04:05");
    assert!(!both.is_dirty(TAKEN_DATE));
}

// Changes that wait.

fn one_hour() -> EnteredShift {
    EnteredShift {
        days: "0".to_string(),
        hours: "1".to_string(),
        minutes: "0".to_string(),
        seconds: "0".to_string(),
        subtract: false,
    }
}

#[test]
fn shifted_dates_wait_to_be_saved() {
    let file = |name: &str, date: &str| ShiftFile {
        name: Some(name.to_string()),
        date: date.to_string(),
    };
    let mut form = form();
    let files = vec![file("a.jpg", "2020-01-01 00:00:00"), file("b.txt", "")];
    let (dates, toast) = apply_shift_media_date(&mut form, &files, &one_hour(), "jpeg").unwrap();
    assert_eq!(dates, vec![Some("2020-01-01 01:00:00".to_string()), None]);
    assert_eq!(toast, "Shifted 1 date(s); skipped 1. Ctrl+S to save.");
    assert_eq!(form.value(TAKEN_DATE), "2020-01-01 01:00:00");
    assert!(form.metadata_dirty && form.is_dirty(TAKEN_DATE));
    let zero = EnteredShift {
        hours: "0".to_string(),
        ..one_hour()
    };
    assert_eq!(
        apply_shift_media_date(&mut form, &files, &zero, "jpeg").unwrap_err(),
        "Enter a non-zero time shift."
    );
    assert_eq!(
        apply_shift_media_date(&mut form, &files[1..], &one_hour(), "jpeg").unwrap_err(),
        "No selected file has a usable Media Date."
    );
}

#[test]
fn shifted_gps_data_wait_to_be_saved() {
    let file = |name: &str, time: &str| GpsShiftFile {
        name: Some(name.to_string()),
        date: "2020-01-01".to_string(),
        time: time.to_string(),
    };
    let mut form = form();
    let (pairs, toast) =
        apply_shift_gps_date_time(&mut form, &[file("a.jpg", "23:30:00")], &one_hour()).unwrap();
    assert_eq!(pairs, vec![Some(("2020-01-02".to_string(), "00:30:00".to_string()))]);
    assert_eq!(toast, "Shifted GPS date/time for 1 file(s). Ctrl+S to save.");
    assert_eq!(form.value(GPS_DATE_TIME), "2020-01-02 00:30:00");
    assert!(apply_shift_gps_date_time(&mut form, &[file("a.jpg", "")], &one_hour()).is_err());
    assert_eq!(check_gps_shift(&form, false, false, 1).unwrap().title, "Pending Changes");
    assert_eq!(
        check_gps_shift(&self::form(), false, false, 0).unwrap().title,
        "Unable to Shift GPS Date/Time"
    );
    assert!(check_gps_shift(&self::form(), false, false, 1).is_none());
}

#[test]
fn gps_data_give_media_dates() {
    let file = |name: &str| GpsShiftFile {
        name: Some(name.to_string()),
        date: "2015-05-14".to_string(),
        time: "19:31:13".to_string(),
    };
    let mut form = form();
    let (dates, _) = fill_taken_date_from_gps(&mut form, &[file("a.jpg"), file("b.png")], "jpeg").unwrap();
    assert_eq!(dates, vec![Some("2015-05-15 04:31:13".to_string()), None]);
    assert!(fill_taken_date_from_gps(&mut form, &[], "jpeg").is_err());
    let mut typed = edited(GPS_DATE_TIME, "2016-05-14 00:00:00");
    let (dates, toast) = fill_taken_date_from_gps(&mut typed, &[file("a.jpg")], "jpeg").unwrap();
    assert_eq!(dates, vec![Some("2016-05-14 09:00:00".to_string())]);
    assert_eq!(toast, "Staged Media Date from GPS for 1 file(s). Ctrl+S to save.");
}

fn candidate(name: &str, date: Option<&str>, existing: &str, has_exif: bool) -> CandidateFile {
    CandidateFile {
        name: name.to_string(),
        candidate: date.map(|d| d.to_string()),
        existing: existing.to_string(),
        has_exif,
    }
}

#[test]
fn names_give_dates() {
    let mut form = form();
    let toast = fill_single_date_from_filename(
        &mut form,
        &candidate("a.jpg", Some("2020-01-01 00:00:00"), "", false),
        "jpeg",
    )
    .unwrap();
    assert_eq!(toast.as_deref(), Some("Date staged; an EXIF structure will be created on save."));
    assert!(form.exif_available);
    let late = candidate("a.jpg", Some("2021-01-01 00:00:00"), "", true);
    let notice = fill_single_date_from_filename(&mut form, &late, "jpeg").unwrap_err();
    assert_eq!(notice.title, "Taken Date Ignored");
    let none = candidate("a.jpg", None, "", true);
    assert_eq!(
        fill_single_date_from_filename(&mut form, &none, "png").unwrap_err().title,
        "Unable to Set Media Date"
    );
    let text = candidate("a.txt", Some("2021-01-01 00:00:00"), "", true);
    assert!(fill_single_date_from_filename(&mut form, &text, "png").is_err());

    let files = vec![
        candidate("a.jpg", Some("2020-01-01 00:00:00"), "", false),
        candidate("b.png", Some("2020-01-01 00:00:00"), "2019-01-01 00:00:00", false),
    ];
    let (dates, toast) = fill_taken_date_from_filenames(&mut form, &files, "mixed").unwrap();
    assert_eq!(dates, vec![Some("2020-01-01 00:00:00".to_string()), None]);
    assert_eq!(toast, "Staged 1 date(s); EXIF will be created for 1. Ctrl+S to save.");
    assert!(fill_taken_date_from_filenames(&mut form, &files[1..], "mixed").is_err());
}

#[test]
fn file_times_give_dates() {
    let mut form = form();
    let files = vec![
        candidate("a.jpg", Some("2020-01-01 00:00:00"), "", true),
        candidate("b.jpg", Some("2020-01-01 00:00:00"), "2019-01-01 00:00:00", true),
        candidate("c.txt", Some("2020-01-01 00:00:00"), "", true),
    ];
    let (_, toast) = fill_taken_date_from_created_date(&mut form, &files, "mixed").unwrap();
    assert_eq!(
        toast,
        "The earlier file timestamp was staged for 1 files. 2 files were skipped. Save to apply."
    );
    let (_, toast) = fill_taken_date_from_created_date(&mut form, &files[..1], "jpeg").unwrap();
    assert_eq!(toast, "Date staged. Ctrl+S to save.");
    assert_eq!(
        fill_taken_date_from_created_date(&mut form, &files[1..2], "jpeg").unwrap_err().text,
        "The earlier file timestamp is later than the existing Taken Date."
    );
    assert_eq!(
        fill_taken_date_from_created_date(&mut form, &files[2..], "jpeg").unwrap_err().text,
        "Created and Modified timestamps could not be read from the selected media files."
    );
    assert_eq!(
        fill_taken_date_from_created_date(&mut form, &[], "jpeg").unwrap_err().title,
        "Unable to Set Date"
    );
}

#[test]
fn times_of_files_are_set_together() {
    let mut form = edited(CREATED, "2020-01-01 00:00:00");
    assert_eq!(set_modified_date_from_created_date(&mut form, 1, &[true], true).unwrap(), None);
    assert_eq!(form.value(MODIFIED), "2020-01-01 00:00:00");
    assert!(set_modified_date_from_created_date(&mut form, 1, &[true], false).is_err());
    assert!(set_modified_date_from_created_date(&mut form, 2, &[true], true).is_err());
    form.selected_file_count = 2;
    assert_eq!(
        set_modified_date_from_created_date(&mut form, 2, &[true, false], true).unwrap().as_deref(),
        Some("Staged 1; skipped 1. Ctrl+S to save.")
    );
    assert!(set_modified_date_from_created_date(&mut form, 2, &[false, false], true).is_err());
    let dates = vec![Some("2020-01-01 00:00:00".to_string()), None];
    assert_eq!(
        set_file_dates_from_media_date(&mut form, 2, &dates).unwrap(),
        "Staged 1; skipped 1 without Media Date. Ctrl+S to save."
    );
    assert_eq!(form.status(CREATED), "Mixed");
    assert!(set_file_dates_from_media_date(&mut form, 2, &vec![None, None]).is_err());
    form.selected_file_count = 0;
    assert_eq!(
        set_file_dates_from_media_date(&mut form, 0, &Vec::new()).unwrap_err().text,
        "Select files before setting file dates."
    );
}

#[test]
fn typed_times_are_read() {
    let moment = parse_timestamp("2020-01-02").unwrap();
    assert_eq!((moment.year, moment.month, moment.day, moment.hour), (2020, 1, 2, 0));
    assert_eq!(parse_timestamp("N/A").unwrap_err(), "Invalid timestamp format.");
    assert_eq!(
        parse_timestamp("soon").unwrap_err(),
        "Expected datetime format: YYYY-MM-DD or YYYY-MM-DD HH:MM:SS"
    );
}

#[test]
fn names_of_several_files_wait_to_be_saved() {
    let choice = |current: &str, dated: Option<&str>| NameChoice {
        current: current.to_string(),
        dated: dated.map(|d| d.to_string()),
    };
    let mut form = form();
    let files = vec![
        choice("a.jpg", Some("1.jpg")),
        choice("2.jpg", Some("2.jpg")),
        choice("c.jpg", None),
    ];
    let (names, toast) = stage_filenames(&mut form, &files).unwrap();
    assert_eq!(names, vec![Some("1.jpg".to_string()), None, None]);
    assert_eq!(toast, "Staged 1; skipped 2. Ctrl+S to save.");
    assert!(form.is_dirty(NAME));
    assert!(stage_filenames(&mut form, &files[1..]).is_err());
    let mut form = edited(NAME, "old");
    let refused = stage_filename(&mut form, Err("No date.".to_string())).unwrap();
    assert_eq!((refused.title.as_str(), refused.text.as_str()), ("Unable to Set Filename", "No date."));
    assert_eq!(form.value(NAME), "old");
    assert!(stage_filename(&mut form, Ok("new".to_string())).is_none());
    assert_eq!(form.value(NAME), "new");
    assert!(form.is_dirty(NAME) && form.metadata_dirty);
}

#[test]
fn a_save_gives_names_first() {
    let mut form = edited(NAME, "  new name ");
    assert!(matches!(rename_step(&form, true, true), RenameStep::Waiting));
    assert!(matches!(rename_step(&form, false, true), RenameStep::Named(name) if name == "new name"));
    let RenameStep::Refused(refused) = rename_step(&form, false, false) else {
        panic!("a file that is not known got a name");
    };
    assert_eq!(refused.title, "Rename Failed");
    assert_eq!(refused.text, "Selected file could not be resolved.");
    form.mark_name_saved();
    assert_eq!(form.value(NAME), "  new name ");
    assert!(!form.is_dirty(NAME) && !form.metadata_dirty);
    assert!(matches!(rename_step(&form, false, true), RenameStep::Done));
    assert_eq!(waiting_renames_made(3), ("Renamed 3 file(s).".to_string(), true));
    assert_eq!(waiting_renames_made(0), ("Renamed 0 file(s).".to_string(), false));
}

#[test]
fn requests_without_files_are_refused() {
    let refused = check_dates_from_names(0, 0, "png").unwrap();
    assert_eq!(refused.title, "Unable to Set Media Date");
    assert_eq!(refused.text, "Select a file before setting Media Date.");
    let refused = check_dates_from_names(1, 0, "jpeg").unwrap();
    assert_eq!(refused.title, "Unable to Set Taken Date");
    assert_eq!(refused.text, "Selected file could not be resolved.");
    assert!(check_dates_from_names(1, 1, "jpeg").is_none());
    assert_eq!(
        check_names_from_dates(0).unwrap().text,
        "Select one or more files before setting filenames from Media Date."
    );
    assert!(check_names_from_dates(1).is_none());
    assert_eq!(check_delete(0, 0).unwrap().text, "Select a file or folder before deleting.");
    assert_eq!(check_delete(1, 0).unwrap().text, "Selected file could not be resolved.");
    assert_eq!(check_delete(1, 0).unwrap().title, "Delete Failed");
    assert!(check_delete(1, 1).is_none());
    assert_eq!(check_rename(0).unwrap().title, "No Files Selected");
    assert!(check_rename(2).is_none());
    assert_eq!(gps_date_times_saved(2), "Saved GPS Date/Time for 2 file(s).");
}

#[test]
fn requests_need_what_they_work_on() {
    assert_eq!(check_paste(0).unwrap().text, "Copy files before pasting.");
    assert!(check_paste(1).is_none());
    assert_eq!(check_open(false).unwrap().title, "Open Failed");
    assert!(check_open(true).is_none());
    assert_eq!(check_reveal(false).unwrap().title, "Open in Explorer Failed");
    assert!(check_reveal(true).is_none());
    assert_eq!(check_folder(false).unwrap().text, "The entered path is not a valid folder.");
    assert!(check_folder(true).is_none());
    assert_eq!(check_media_shift(0).unwrap().text, "Select one or more media files first.");
    assert!(check_media_shift(1).is_none());
    assert_eq!(check_thumbnails(0).unwrap().text, "Select one or more JPEG files first.");
    assert!(check_thumbnails(1).is_none());
    assert_eq!(confirm_date_overwrite().title, "Confirm Date Overwrite");
    assert_eq!(removal_report(true), "Metadata tags were removed.");
    assert_eq!(removal_report(false), "Metadata tag(s) removed.");
    assert_eq!(check_section(&[]).as_deref(), Some("This EXIF section is read-only."));
}

#[test]
fn folders_are_opened_by_rows_and_by_choice() {
    let text = |value: &str| Some(value.to_string());
    assert_eq!(folder_to_open(0, text("/"), text("/a"), true), text("/"));
    assert_eq!(folder_to_open(2, text("/"), text("/a"), true), text("/a"));
    assert_eq!(folder_to_open(2, text("/"), text("/a.jpg"), false), None);
    assert!(matches!(folder_choice(Ok(text("/a"))), FolderChoice::Open(path) if path == "/a"));
    assert!(matches!(folder_choice(Ok(None)), FolderChoice::Nothing));
    let FolderChoice::Failed(notice) = folder_choice(Err("No dialog.".to_string())) else {
        panic!("an error opened a folder");
    };
    assert_eq!((notice.title.as_str(), notice.text.as_str()), ("Open Folder Failed", "No dialog."));
}

#[test]
fn thumbnails_that_fail_are_reported() {
    let dates = Extraction::WithoutDates {
        target: "/a_thumb.jpg".to_string(),
        error: "denied".to_string(),
    };
    assert_eq!(
        report_extraction("/a.jpg", &dates),
        (
            Some("/a_thumb.jpg: extracted, but file dates could not be copied (denied)".to_string()),
            true
        )
    );
    assert_eq!(
        report_extraction("/a.png", &Extraction::NotJpeg),
        (Some("/a.png: not a JPEG file".to_string()), false)
    );
    assert_eq!(
        report_extraction("/a.jpg", &Extraction::Failed("none".to_string())),
        (Some("/a.jpg: none".to_string()), false)
    );
    assert_eq!(report_extraction("/a.jpg", &Extraction::Complete), (None, true));
}

#[test]
fn pastes_that_replace_a_text_are_confirmed_first() {
    let value = |key: &str, value: &str| KeyValue {
        key: key.to_string(),
        value: value.to_string(),
    };
    let values = [value("camera_make", "Sony")];
    let mut form = form();
    assert_eq!(
        stage_or_confirm_exif_paste(&mut form, &values).unwrap(),
        "Pasted. Save to apply."
    );
    assert_eq!(form.value(CAMERA_MAKE), "Sony");
    let other = [value("camera_make", "Canon")];
    let asked = stage_or_confirm_exif_paste(&mut form, &other).unwrap_err();
    assert_eq!(asked.title, "Confirm Paste");
    assert_eq!(form.value(CAMERA_MAKE), "Sony");
    assert_eq!(confirm_exif_paste(&mut form, &other, false), None);
    assert_eq!(form.value(CAMERA_MAKE), "Sony");
    assert!(confirm_exif_paste(&mut form, &other, true).is_some());
    assert_eq!(form.value(CAMERA_MAKE), "Canon");
    assert!(form.is_dirty(CAMERA_MAKE));
}

#[test]
fn renames_are_asked_for_once_something_is_to_be_renamed() {
    let stats = |renameable| {
        Ok(FrontRearNumberRemovalStats {
            renameable,
            unmatched: 1,
            deduplicated: 0,
        })
    };
    let (asked, is_question) = request_trailing_numbers(2, Ok(1));
    assert_eq!(asked.title, "Confirm Filename Change");
    assert!(is_question);
    assert_eq!(request_trailing_numbers(2, Ok(0)).0.title, "No Matching Files");
    assert!(!request_trailing_numbers(2, Ok(0)).1);
    assert_eq!(request_trailing_numbers(0, Ok(1)).0.text, "Select one or more files first.");
    let (failed, is_question) = request_number_removal(2, Err("No folder.".to_string()));
    assert_eq!((failed.title.as_str(), failed.text.as_str()), ("Filename Change Failed", "No folder."));
    assert!(!is_question);
    assert!(request_number_removal(2, stats(1)).1);
    assert!(!request_number_removal(2, stats(0)).1);
    assert!(!request_number_removal(0, stats(1)).1);
    assert!(request_prefix_removal(2, stats(1)).1);
    assert_eq!(
        request_prefix_removal(2, stats(0)).0.text,
        "None of the selected filenames begin with IMG_ or VID_."
    );
}

#[test]
fn metadata_are_marked_for_removal() {
    let file = |name: &str, has: bool| RemovalFile {
        name: name.to_string(),
        has_exif: has,
        has_date: has,
    };
    let mut form = edited(CAMERA_MAKE, "Sony");
    let (marks, toast) = remove_exif_tags(&mut form, &[file("a.jpg", true), file("b.png", false)]).unwrap();
    assert_eq!(marks, vec![true, false]);
    assert_eq!(toast, "Staged metadata removal for 1 file(s). Ctrl+S to save.");
    assert_eq!(form.value(CAMERA_MAKE), "");
    assert!(form.metadata_dirty && !form.exif_available);
    assert_eq!(remove_exif_tags(&mut form, &[]).unwrap_err().text, "Select JPEG or PNG files first.");
    assert_eq!(
        remove_exif_tags(&mut form, &[file("a.mp4", true)]).unwrap_err().text,
        "Metadata removal is supported for JPEG and PNG files only."
    );
    assert_eq!(remove_exif_tags(&mut form, &[file("a.jpg", false)]).unwrap_err().title, "Remove Metadata");
}

// Messages.

#[test]
fn messages_count_files() {
    let stats = FrontRearNumberRemovalStats {
        renameable: 3,
        unmatched: 2,
        deduplicated: 1,
    };
    let none = FrontRearNumberRemovalStats {
        renameable: 0,
        unmatched: 2,
        deduplicated: 0,
    };
    assert_eq!(confirm_trailing_numbers(0).title, "No Matching Files");
    assert_eq!(
        confirm_trailing_numbers(2).text,
        "Move the trailing 2- or 3-digit number to the front for 2 selected file(s)? (Y/N)"
    );
    assert_eq!(confirm_number_removal(&none).title, "No Files Renamed");
    assert_eq!(
        confirm_number_removal(&stats).text,
        "Rename 3 file(s)? 2 without a matching pattern will be skipped. 1 duplicate result(s) will use _dup001, _dup002, and so on. (Y/N)"
    );
    assert_eq!(confirm_prefix_removal(&none).title, "No Files Renamed");
    assert_eq!(
        confirm_prefix_removal(&stats).text,
        "Rename 3 file(s)? 2 non-matching file(s) will be skipped. 1 collision(s) will use _dupNNN. (Y/N)"
    );
    assert_eq!(trailing_numbers_moved(4).text, "Renamed 4 file(s).");
    assert_eq!(
        numbers_removed(&stats).text,
        "Renamed 3 file(s). Skipped 2 without a matching pattern. Resolved 1 duplicate filename(s) with numbered suffixes."
    );
    assert_eq!(
        prefixes_removed(&stats).text,
        "Renamed 3 file(s). Skipped 2. Resolved 1 filename collision(s)."
    );
    assert_eq!(exif_created(0, 1, "").title, "Create EXIF");
    assert_eq!(exif_created(1, 0, "/a.jpg").text, "Created /a.jpg");
    assert_eq!(exif_created(2, 0, "/a.jpg").text, "Created EXIF files for 2 selected files.");
    assert_eq!(
        exif_created(2, 1, "/a.jpg").text,
        "Created EXIF files for 2 selected files. Skipped 1 files that already had EXIF."
    );
    assert_eq!(
        thumbnails_extracted(1, &["x: bad".to_string()]).text,
        "Extracted 1; skipped 1.\nx: bad"
    );
    assert_eq!(thumbnails_extracted(0, &["x: bad".to_string()]).title, "Thumbnail Extraction Failed");
    assert_eq!(thumbnails_extracted(2, &[]).title, "Thumbnail Extraction Complete");
}

#[test]
fn actions_need_files() {
    assert_eq!(check_copy(0, 0, 0).unwrap().text, "Select files before copying.");
    assert_eq!(check_copy(2, 1, 1).unwrap().text, "Please select files only.");
    assert_eq!(check_copy(1, 1, 0).unwrap().text, "Selected files could not be resolved.");
    assert!(check_copy(1, 1, 1).is_none());
    assert!(check_save_copy(-1, false, true).is_some());
    assert!(check_save_copy(1, false, false).is_some());
    assert!(check_save_copy(1, false, true).is_none());
    assert!(check_exif_creation(0, &[]).is_some());
    assert!(check_exif_creation(1, &[]).is_some());
    assert!(check_exif_creation(1, &["a.png".to_string()]).is_some());
    assert!(check_exif_creation(1, &["a.jpg".to_string()]).is_none());
}

// Previews.

fn key(path: &str) -> PreviewCacheKey {
    PreviewCacheKey::new(path, false, 1, 2)
}

fn result(bytes: usize) -> PreviewResult {
    PreviewResult {
        pixel_width: 1,
        pixel_height: 1,
        width: 1,
        height: 1,
        pixels: vec![0; bytes],
        status: String::new(),
    }
}

#[test]
fn few_previews_are_kept() {
    let mut cache = PreviewCache::new();
    for index in 0..8 {
        cache.insert(key(&format!("{index}")), result(4));
    }
    assert!(cache.get(&key("0")).is_some());
    cache.insert(key("8"), result(4));
    assert!(cache.get(&key("0")).is_some());
    assert!(cache.get(&key("1")).is_none());
    cache.insert(key("large"), result(48 * 1024 * 1024));
    assert!(cache.get(&key("large")).is_some());
    assert!(cache.get(&key("0")).is_none());
    cache.insert(key("too large"), result(48 * 1024 * 1024 + 1));
    assert!(cache.get(&key("too large")).is_none());
    assert!(cache.get(&key("large")).is_none());
}

#[test]
fn a_new_selection_outdates_a_preview() {
    let mut state = PreviewState::new();
    assert_eq!(state.update(Some("a.jpg"), Some(key("a.jpg"))), PreviewStep::Show(1));
    assert_eq!(state.update(Some("a.jpg"), Some(key("a.jpg"))), PreviewStep::Keep);
    assert!(state.is_wanted(1));
    assert_eq!(state.update(Some("b.mov"), Some(key("b.mov"))), PreviewStep::Clear);
    assert!(!state.is_wanted(1));
    assert_eq!(state.generation, 2);
    assert_eq!(state.update(None, None), PreviewStep::Clear);
    assert_eq!(state.generation, 2);
    assert_eq!(state.update(Some("c.jpg"), Some(key("c.jpg"))), PreviewStep::Show(3));
    assert_eq!(state.update(None, None), PreviewStep::Clear);
    assert_eq!(state.generation, 4);
    assert!(!state.is_wanted(3));
}

fn png_picture() -> Vec<u8> {
    let picture = image::RgbaImage::from_pixel(3, 2, image::Rgba([10, 20, 30, 255]));
    let mut out = std::io::Cursor::new(Vec::new());
    picture.write_to(&mut out, image::ImageFormat::Png).unwrap();
    out.into_inner()
}

#[test]
fn pictures_are_decoded() {
    let bytes = png_picture();
    assert_eq!(preview_dimensions(&bytes), Some((3, 2)));
    assert_eq!(preview_dimensions(b"text"), None);
    let preview = decode_preview(&bytes, PreviewMediaKind::Png, None, "", Some((3, 2))).unwrap();
    assert_eq!((preview.pixel_width, preview.pixel_height), (3, 2));
    assert_eq!(&preview.pixels[..4], &[10, 20, 30, 255]);
    assert_eq!(preview.pixels.len(), (preview.width * preview.height * 4) as usize);
    assert!(decode_preview(b"text", PreviewMediaKind::Png, None, "", None).is_none());
    let thumbnail = decode_preview(b"text", PreviewMediaKind::Jpeg, Some(&bytes), "Rotated 90", None).unwrap();
    assert_eq!((thumbnail.pixel_width, thumbnail.pixel_height), (2, 3));
    assert_eq!(thumbnail.status, "EXIF Thumbnail — full image could not be decoded");
    assert!(decode_preview(b"text", PreviewMediaKind::Jpeg, None, "", None).is_none());
    let wide = |width: u32| {
        let picture = image::RgbaImage::from_pixel(width, 1, image::Rgba([10, 20, 30, 255]));
        let mut out = std::io::Cursor::new(Vec::new());
        picture.write_to(&mut out, image::ImageFormat::Png).unwrap();
        out.into_inner()
    };
    let thumbnail = |bytes: &[u8]| decode_preview(b"text", PreviewMediaKind::Jpeg, Some(bytes), "", None);
    assert!(thumbnail(&wide(65_536)).is_some());
    assert!(thumbnail(&wide(1_000_000)).is_some());
    assert_eq!(preview_failed_text(5), "Preview unavailable (failed in 5 ms)");
    assert_eq!(preview_while_loading().info, "Loading image...");
    let failed = preview_once_loaded(&None, 5);
    assert!(!failed.ready);
    assert_eq!(failed.status, "Image could not be decoded");
    assert_eq!(failed.info, "Preview unavailable (failed in 5 ms)");
    let shown = preview_once_loaded(
        &Some(PreviewResult {
            pixel_width: 40,
            pixel_height: 30,
            width: 4,
            height: 3,
            pixels: vec![0; 48],
            status: "Thumbnail".to_string(),
        }),
        7,
    );
    assert!(shown.ready);
    assert_eq!((shown.pixel_width, shown.pixel_height), (40, 30));
    assert_eq!(shown.info, "40 x 30 (loaded in 7 ms)");
    assert_eq!(shown.status, "Thumbnail");
}

#[test]
fn orientations_turn_pictures() {
    assert_eq!(jpeg_orientation("Rotated 90"), Some(6));
    assert_eq!(jpeg_orientation("8"), Some(8));
    assert_eq!(jpeg_orientation("Sideways"), None);
    assert_eq!(oriented_dimensions(3, 2, 6), (2, 3));
    assert_eq!(oriented_dimensions(3, 2, 3), (3, 2));
}

// Dates that are created from names.

#[test]
fn digits_of_a_name_give_a_date() {
    assert_eq!(
        date_from_digits("IMG20200102030405.jpg").as_deref(),
        Some("2020:01:02 03:04:05")
    );
    assert_eq!(
        date_from_digits("202001020304_201901020304.jpg").as_deref(),
        Some("2019:01:02 03:04:00")
    );
    assert_eq!(date_from_digits("20200102_030405.jpg"), None);
    assert_eq!(
        date_from_groups("20200102_030405.jpg").as_deref(),
        Some("2020:01:02 03:04:05")
    );
    assert_eq!(date_from_groups("20201302_030405.jpg"), None);
    assert_eq!(parse_datetime_from_compact("20200230000000"), None);
    assert_eq!(parse_datetime_from_compact("20200229240000"), None);
    assert!(parse_datetime_from_compact("20200229235959").is_some());
    assert_eq!(
        try_update_date_from_filename("holiday.jpg").unwrap_err(),
        "날짜 추출 실패"
    );
    assert!(try_update_date_from_filename("20200102-0304.jpg").is_ok());
}

#[test]
fn a_recorded_date_comes_first() {
    assert!(matches!(
        get_date_taken(Some("2001:01:01 00:00:00"), "20200102030405.jpg"),
        DateTaken::Recorded(d) if d == "2001:01:01 00:00:00"
    ));
    assert!(matches!(
        ensure_date_taken(None, "20200102030405.jpg"),
        DateTaken::Create(d) if d == "2020:01:02 03:04:05"
    ));
    assert!(matches!(ensure_date_taken(None, "holiday.jpg"), DateTaken::Missing));
    assert_eq!(
        append_creator_suffix("a.jpg").as_deref(),
        Some("a_SH_EXIF_TAG_CREATOR.jpg")
    );
    assert_eq!(append_creator_suffix("a_SH_EXIF_TAG_CREATOR.jpg"), None);
    assert_eq!(append_dated_suffix("a.jpg").as_deref(), Some("a_SH148.jpg"));
    assert_eq!(append_dated_suffix("a_SH148.jpg"), None);
    assert_eq!(append_dated_suffix("aSH148.jpg"), None);
    assert_eq!(append_dated_suffix("a").as_deref(), Some("a_SH148."));
    assert_eq!(creator_software(None, "0.1.2"), "SH148 EXIF TAG CREATOR v0.1.2");
    assert_eq!(
        creator_software(Some("Camera"), "0.1.2"),
        "Camera (+SH148 EXIF TAG CREATOR v0.1.2)"
    );
}

#[test]
fn contradicting_dates_become_the_earliest() {
    assert!(matches!(
        check_datetime_tags(Some("2001:01:01 00:00:00"), None, None),
        Ok(DatesFix::Keep)
    ));
    match check_datetime_tags(Some("2002:01:01 00:00:00"), Some("2001:01:01 00:00:00"), None) {
        Ok(DatesFix::Write {
            value,
            image,
            digitized,
        }) => {
            assert_eq!(value, "2001:01:01 00:00:00");
            assert!(image && !digitized);
        }
        _ => panic!("the dates should change"),
    }
    assert_eq!(
        check_datetime_tags(None, Some("soon"), None).unwrap_err(),
        "날짜 태그 파싱 실패"
    );
}

#[test]
fn files_are_listed_in_lines() {
    let names: Vec<String> = ["a.JPG", "b.txt", "c.gif"].iter().map(|n| n.to_string()).collect();
    assert_eq!(list_image_files(&names), vec!["a.JPG", "c.gif"]);
    let (line, dated) = print_file_info("사진.jpg", 2048, None);
    assert_eq!(line, format!("사진.jpg{}      2 KB   N/A", " ".repeat(32)));
    assert!(!dated);
    let (line, dated) = print_file_info("a.jpg", 1023, Some("2001:02:03 04:05:06"));
    assert_eq!(line, format!("a.jpg{}      0 KB   2001:02:03 04:05:06", " ".repeat(35)));
    assert!(dated);
    assert!(!print_file_info("a.jpg", 1023, Some("N/A")).1);
    assert_eq!(
        print_files_info_oneline(Some("a.jpg"), 5, Some("2001")),
        "File Name: a.jpg, Size: 5 bytes, Date: 2001"
    );
    assert_eq!(print_files_info_oneline(None, 5, None), "No filename found");
    assert_eq!(
        create_basic_exif_structure(&[1, 2]),
        vec![0xff, 0xe1, 0, 10, b'E', b'x', b'i', b'f', 0, 0, 1, 2]
    );
}

#[test]
fn pictures_become_jpeg_images() {
    let (name, bytes) = convert_to_jpeg("a.png", &png_picture()).unwrap();
    assert_eq!(name, "a.jpg");
    assert_eq!(preview_media_kind(&bytes), Some(PreviewMediaKind::Jpeg));
    assert_eq!(preview_dimensions(&bytes), Some((3, 2)));
    assert!(convert_to_jpeg("a", &png_picture()).is_none());
    assert!(convert_to_jpeg("a.txt", &png_picture()).is_none());
    assert!(convert_to_jpeg("a.png", b"text").is_none());
    let mut moving = std::io::Cursor::new(Vec::new());
    image::RgbaImage::from_pixel(4, 5, image::Rgba([10, 20, 30, 255]))
        .write_to(&mut moving, image::ImageFormat::Gif)
        .unwrap();
    let (name, bytes) = convert_to_jpeg("b.gif", &moving.into_inner()).unwrap();
    assert_eq!((name.as_str(), preview_dimensions(&bytes)), ("b.jpg", Some((4, 5))));
    assert_eq!(named_jpeg("b.gif", Some(vec![1])), Some(("b.jpg".to_string(), vec![1])));
    assert_eq!(named_jpeg("b.gif", None), None);
}

#[test]
fn pictures_are_saved_anew() {
    let (name, bytes) = save_as_jpg_with_new_name("a.png", &png_picture()).unwrap();
    assert_eq!(name, "a_NEW.png");
    assert_eq!(preview_media_kind(&bytes), Some(PreviewMediaKind::Png));
    assert_eq!(preview_dimensions(&bytes), Some((3, 2)));
    let (_, jpeg) = convert_to_jpeg("a.png", &png_picture()).unwrap();
    let (name, bytes) = save_as_jpg_with_new_name("b.JPG", &jpeg).unwrap();
    assert_eq!(name, "b_NEW.JPG");
    assert_eq!(preview_media_kind(&bytes), Some(PreviewMediaKind::Jpeg));
    assert_ne!(bytes, jpeg);
    assert!(save_as_jpg_with_new_name("a", &png_picture()).is_none());
    assert!(save_as_jpg_with_new_name("a.txt", &png_picture()).is_none());
    assert!(save_as_jpg_with_new_name("a.png", b"text").is_none());
    assert_eq!(named_copy("b.gif", Some(vec![1])), Some(("b_NEW.gif".to_string(), vec![1])));
    assert_eq!(named_copy("b", Some(vec![2])), Some(("b_NEW".to_string(), vec![2])));
    assert_eq!(named_copy("b.gif", None), None);
}

#[test]
fn parts_of_a_compact_date_may_have_signs() {
    let read = |text: &str| {
        parse_datetime_from_compact(text).map(|m| (m.year, m.month, m.day, m.hour, m.minute, m.second))
    };
    assert_eq!(read("20200102030405"), Some((2020, 1, 2, 3, 4, 5)));
    assert_eq!(read("+1230102030405"), Some((123, 1, 2, 3, 4, 5)));
    assert_eq!(read("-0010102030405"), Some((-1, 1, 2, 3, 4, 5)));
    assert_eq!(read("2020+1+2+3+4+5"), Some((2020, 1, 2, 3, 4, 5)));
    assert_eq!(read("2020-102030405"), None);
    assert_eq!(read("-+010102030405"), None);
    assert_eq!(read("2020++02030405"), None);
    assert_eq!(read("2020010203040"), None);
    assert_eq!(read("2020010203040\u{e9}"), None);
    let runs = |texts: &[&str]| texts.iter().map(|t| t.to_string()).collect::<Vec<String>>();
    assert_eq!(
        earliest_date(&runs(&["20200102030405", "-0010102030405"])).as_deref(),
        Some("-001:01:02 03:04:05")
    );
    assert_eq!(
        earliest_date(&runs(&["+1230102030405"])).as_deref(),
        Some("0123:01:02 03:04:05")
    );
    assert_eq!(earliest_date(&runs(&["soon"])), None);
}

#[test]
fn simple_lists_show_pictures() {
    let other = AppConfig {
        image_extensions: vec!["\u{e9}".to_string()],
    };
    assert!(other.is_shown("a.\u{c9}"));
    assert!(other.is_shown("a.\u{e9}"));
    assert!(!other.is_shown("a.jpg"));
    let config = AppConfig::default();
    assert!(config.is_shown("a.JPEG"));
    assert!(!config.is_shown("notes"));
    let names: Vec<String> = ["a.png", "b.txt"].iter().map(|n| n.to_string()).collect();
    assert_eq!(config.shown_files(&names), vec!["a.png"]);
    assert_eq!(get_file_name("/photos/a.png", false).as_deref(), Some("a.png"));
    assert_eq!(get_file_name("C:\\", true), None);
    assert_eq!(get_file_name("C:a.png", true).as_deref(), Some("a.png"));
    let ancestors: Vec<String> = ["C:\\a\\b", "C:\\a"].iter().map(|n| n.to_string()).collect();
    assert_eq!(tree_items(&ancestors), vec!["C:/a", "C:/a/b"]);
    assert_eq!(format_size_kb(0), "0 KB");
    assert_eq!(format_size_kb(1025), "2 KB");
    assert_eq!(entry_label(Some("a"), true), "[a]");
    assert_eq!(entry_size(5, true), "Folder");
    assert_eq!(entry_size(5, false), "1 KB");
    let mut app = GuiApp::new("/".to_string(), Vec::new());
    app.load_folder(Some(vec![FileEntry {
        path: "/a".to_string(),
        size: 0,
        modified: None,
        created: None,
        accessed: None,
        is_dir: true,
    }]));
    app.select(0);
    assert_eq!(app.selected, Some(0));
    app.open_folder("/a".to_string());
    app.load_folder(None);
    assert_eq!((app.current_path.as_str(), app.files.len(), app.selected), ("/a", 0, None));
}
