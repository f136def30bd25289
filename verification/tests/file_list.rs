use exif_file_tool::entries::{FileSystemEntry, FileTime};
use exif_file_tool::file_list::{
    display_media_date, format_offset_label, media_date_is_missing, CachedMediaScan, ScanRecord,
    SlintApp,
};
use exif_file_tool::file_rows::{
    format_number_with_commas, media_metadata_label, sync_changed_file_selection_model,
    sync_file_selection_model, sync_file_selection_row, FileRow,
};
use exif_file_tool::media::{
    is_image_path, is_video_path, matches_file_filter, MediaScanResult,
};
use exif_file_tool::media::MediaScanJob;
use exif_file_tool::order::{natural_name_order, Order};
use exif_file_tool::scan_queue::ScanQueue;

fn entry(name: &str) -> FileSystemEntry {
    FileSystemEntry {
        path: name.to_string(),
        name: Some(name.to_string()),
        size: 0,
        modified: None,
        created: None,
        is_dir: false,
    }
}

fn sortable_app() -> SlintApp {
    SlintApp {
        current_path: ".".to_string(),
        parent_path: None,
        files: vec![entry("IMG_10.jpg"), entry("IMG_2.jpg")],
        selected_indices: vec![1],
        file_filter: 0,
        show_only_missing_media_date: false,
        show_only_missing_time_zone_offset: false,
        show_only_duplicate_media_date: false,
        time_display_mode: 0,
        sort_column: 0,
        sort_direction: 0,
        scan_results: Vec::new(),
        scan_epoch: 0,
        selection_anchor: Some(1),
        dynamic_sort_ready: true,
        windows: false,
    }
}

fn scan(result: MediaScanResult) -> CachedMediaScan {
    CachedMediaScan {
        size: 0,
        modified: None,
        result,
    }
}

fn file_names(app: &SlintApp) -> Vec<String> {
    app.get_ui_model()
        .into_iter()
        .skip(1)
        .map(|row| row.name)
        .collect()
}

#[test]
fn filename_sort_is_natural_and_cycles_ascending_descending_off() {
    assert_eq!(natural_name_order("IMG_2.jpg", "img_10.jpg"), Order::Less);

    let mut app = sortable_app();
    app.cycle_sort(1);
    assert_eq!((app.sort_column, app.sort_direction), (1, 1));
    assert_eq!(app.path_for_ui_index(1).unwrap(), "IMG_2.jpg");
    assert_eq!(app.selected_indices, vec![2]);

    app.cycle_sort(1);
    assert_eq!((app.sort_column, app.sort_direction), (1, 2));
    assert_eq!(app.path_for_ui_index(1).unwrap(), "IMG_10.jpg");
    assert_eq!(app.selected_indices, vec![1]);

    app.cycle_sort(1);
    assert_eq!((app.sort_column, app.sort_direction), (0, 0));
    assert_eq!(app.path_for_ui_index(1).unwrap(), "IMG_10.jpg");
}

#[test]
fn filename_prefix_search_keeps_growing_queries_and_wraps_single_keys() {
    let mut app = sortable_app();
    app.files.push(entry("2017_0318_110404.mov"));
    app.files.push(entry("2017_0318_122327.mov"));

    assert_eq!(app.ui_index_for_filename_prefix("2017_0318_11", 1), Some(3));
    assert_eq!(app.ui_index_for_filename_prefix("i", 1), Some(2));
    assert_eq!(app.ui_index_for_filename_prefix("i", 2), Some(1));
}

#[test]
fn supported_media_is_the_union_of_images_and_videos() {
    for name in [
        "photo.jpg",
        "photo.JPEG",
        "image.png",
        "clip.mp4",
        "clip.MP4",
        "clip.mov",
        "clip.MOV",
        "clip.m4v",
        "clip.3gp",
        "clip.3g2",
        "clip.qt",
        "clip.mts",
        "clip.m2ts",
    ] {
        assert!(
            is_image_path(name) || is_video_path(name),
            "{name} should be supported"
        );
    }
    assert!(!is_image_path("notes.txt"));
    assert!(!is_video_path("notes.txt"));
}

#[test]
fn missing_media_date_filter_keeps_pending_and_empty_dates_only() {
    let result = |media_date: &str| MediaScanResult {
        media_date: media_date.to_string(),
        ..MediaScanResult::default()
    };
    assert!(media_date_is_missing(None));
    assert!(media_date_is_missing(Some(&result("-"))));
    assert!(media_date_is_missing(Some(&result("N/A"))));
    assert!(!media_date_is_missing(Some(&result("2014-02-04 12:00:00"))));
}

#[test]
fn duplicate_media_date_filter_keeps_only_known_duplicates() {
    let mut app = sortable_app();
    app.files.push(entry("IMG_3.jpg"));
    app.files.push(entry("IMG_4.jpg"));
    for (path, media_date) in [
        ("IMG_10.jpg", "2017-09-01 12:00:00"),
        ("IMG_2.jpg", "2017-09-01 12:00:00"),
        ("IMG_3.jpg", "2017-09-02 12:00:00"),
    ] {
        app.record_scan(
            path.to_string(),
            scan(MediaScanResult {
                media_kind: "jpeg".to_string(),
                media_date: media_date.to_string(),
                ..MediaScanResult::default()
            }),
        );
    }
    app.show_only_duplicate_media_date = true;

    assert_eq!(file_names(&app), vec!["IMG_10.jpg", "IMG_2.jpg"]);
}

#[test]
fn missing_and_duplicate_filters_form_a_union_and_toggle_independently() {
    let mut app = sortable_app();
    app.files.push(entry("missing.jpg"));
    for (path, media_date) in [
        ("IMG_10.jpg", "2017-09-01 12:00:00"),
        ("IMG_2.jpg", "2017-09-01 12:00:00"),
        ("missing.jpg", "-"),
    ] {
        app.record_scan(
            path.to_string(),
            scan(MediaScanResult {
                media_date: media_date.to_string(),
                recorded_media_date: media_date.to_string(),
                ..MediaScanResult::default()
            }),
        );
    }
    app.show_only_missing_media_date = true;
    app.show_only_duplicate_media_date = true;

    assert_eq!(file_names(&app), vec!["IMG_10.jpg", "IMG_2.jpg", "missing.jpg"]);

    app.show_only_missing_media_date = false;
    assert_eq!(file_names(&app), vec!["IMG_10.jpg", "IMG_2.jpg"]);
}

#[test]
fn missing_time_zone_filter_requires_a_date_and_combines_with_other_filters() {
    let mut app = sortable_app();
    app.files.push(entry("missing_date.jpg"));
    for (path, media_date, offset) in [
        ("IMG_10.jpg", "2018-09-06 00:15:53", None),
        ("IMG_2.jpg", "2025-01-19 17:45:59", Some(60)),
        ("missing_date.jpg", "-", None),
    ] {
        app.record_scan(
            path.to_string(),
            scan(MediaScanResult {
                media_kind: "jpeg".to_string(),
                media_date: media_date.to_string(),
                recorded_media_date: media_date.to_string(),
                recorded_offset_minutes: offset,
                ..MediaScanResult::default()
            }),
        );
    }

    app.show_only_missing_time_zone_offset = true;
    assert_eq!(file_names(&app), vec!["IMG_10.jpg"]);

    app.show_only_missing_media_date = true;
    assert_eq!(file_names(&app), vec!["IMG_10.jpg", "missing_date.jpg"]);

    app.show_only_missing_time_zone_offset = false;
    assert_eq!(file_names(&app), vec!["missing_date.jpg"]);
}

#[test]
fn time_display_converts_only_files_with_an_absolute_instant() {
    let utc_timestamp =
        chrono::NaiveDateTime::parse_from_str("2025-01-19 15:51:24", "%Y-%m-%d %H:%M:%S")
            .unwrap()
            .and_utc()
            .timestamp();
    let paris = MediaScanResult {
        media_date: "2025-01-19 16:51:24".to_string(),
        recorded_media_date: "2025-01-19 16:51:24".to_string(),
        media_date_utc: Some(utc_timestamp),
        recorded_offset_minutes: Some(60),
        ..MediaScanResult::default()
    };
    assert_eq!(
        display_media_date(&paris, 0),
        ("2025-01-19 16:51:24".to_string(), "UTC+01:00".to_string())
    );
    assert_eq!(
        display_media_date(&paris, 1),
        ("2025-01-19 15:51:24".to_string(), "UTC".to_string())
    );
    assert_eq!(
        display_media_date(&paris, 2),
        ("2025-01-20 00:51:24".to_string(), "KST".to_string())
    );

    let unknown = MediaScanResult {
        media_date: "2019-01-19 20:57:47".to_string(),
        recorded_media_date: "2019-01-19 20:57:47".to_string(),
        ..MediaScanResult::default()
    };
    assert_eq!(
        display_media_date(&unknown, 2),
        ("2019-01-19 20:57:47".to_string(), "Local?".to_string())
    );
}

#[test]
fn image_subfilters_separate_jpeg_and_png_files() {
    assert!(matches_file_filter(4, "photo.jpg"));
    assert!(matches_file_filter(4, "photo.JPEG"));
    assert!(!matches_file_filter(4, "image.png"));
    assert!(matches_file_filter(5, "image.PNG"));
    assert!(!matches_file_filter(5, "photo.jpeg"));
}

#[test]
fn folder_counts_separate_visible_supported_and_unsupported_files() {
    let mut app = sortable_app();
    app.files.push(entry("notes.txt"));
    app.file_filter = 4;

    let (total, supported, unsupported) = app.folder_file_counts();
    assert_eq!(total, 3);
    assert_eq!(supported, 2);
    assert_eq!(unsupported, 1);
    assert_eq!(app.file_count(), 2);
}

#[test]
fn exact_byte_counts_use_thousands_separators() {
    assert_eq!(format_number_with_commas(5_234_415), "5,234,415");
    assert_eq!(format_number_with_commas(999), "999");
}

#[test]
fn scan_jobs_follow_display_order_instead_of_file_size() {
    let mut app = sortable_app();
    app.selected_indices.clear();
    app.files[0].size = 8_000_000;
    app.files[1].size = 1;

    let (_, jobs) = app.prepare_scan_jobs();
    let paths: Vec<_> = jobs.into_iter().map(|job| job.path).collect();
    assert_eq!(paths, vec!["IMG_10.jpg", "IMG_2.jpg"]);
}

#[test]
fn scan_priority_is_selected_row_then_visible_rows_in_display_order() {
    let mut app = sortable_app();
    app.files.push(entry("IMG_30.jpg"));
    app.selected_indices = vec![3];

    assert_eq!(
        app.scan_priority_paths_for_ui_range(1, 2),
        vec!["IMG_30.jpg", "IMG_10.jpg", "IMG_2.jpg"]
    );
}

#[test]
fn large_selection_keeps_only_viewport_paths_in_live_scan_priority() {
    let mut app = sortable_app();
    for index in 3..=8 {
        app.files.push(entry(&format!("IMG_{index}.jpg")));
    }
    app.selected_indices = (1..=8).collect();

    assert_eq!(
        app.scan_priority_paths_for_ui_range(2, 3),
        vec!["IMG_2.jpg", "IMG_3.jpg"]
    );
}

#[test]
fn equal_values_in_the_active_sort_group_are_marked_per_column() {
    let mut app = sortable_app();
    app.files[0].size = 1_024;
    app.files[1].size = 1_024;
    app.cycle_sort(2);

    let model = app.get_ui_model();
    assert!(model[1].duplicate_size);
    assert!(model[2].duplicate_size);
    assert!(!model[1].duplicate_name);
    assert!(!model[2].duplicate_name);
}

#[test]
fn deleting_rows_preserves_the_remaining_media_cache() {
    let mut app = sortable_app();
    let deleted = app.files[0].path.clone();
    let retained = app.files[1].path.clone();
    for path in [&deleted, &retained] {
        app.record_scan(
            path.clone(),
            scan(MediaScanResult {
                media_date: "2015-07-11 14:31:13".to_string(),
                ..MediaScanResult::default()
            }),
        );
    }

    app.remove_deleted_paths(&[deleted.clone()]);

    assert_eq!(app.files.len(), 1);
    assert_eq!(app.files[0].path, retained);
    assert!(!app.scan_results.iter().any(|record| record.path == deleted));
    assert!(app.scan_results.iter().any(|record| record.path == retained));
    assert!(app.selected_indices.is_empty());
}

// What the other parts of the list do.

#[test]
fn a_rescanned_file_replaces_its_record() {
    let mut app = sortable_app();
    for date in ["2015-07-11 14:31:13", "2016-07-11 14:31:13"] {
        app.record_scan(
            "IMG_2.jpg".to_string(),
            scan(MediaScanResult {
                media_date: date.to_string(),
                ..MediaScanResult::default()
            }),
        );
    }
    let records: Vec<&ScanRecord> = app
        .scan_results
        .iter()
        .filter(|record| record.path == "IMG_2.jpg")
        .collect();
    assert_eq!(records.len(), 1);
    assert_eq!(records[0].scan.result.media_date, "2016-07-11 14:31:13");
}

#[test]
fn three_clicks_on_a_column_end_the_order() {
    let mut app = sortable_app();
    for column in [1, 2, 3, 4] {
        for _ in 0..3 {
            app.cycle_sort(column);
        }
        assert_eq!((app.sort_column, app.sort_direction), (0, 0));
    }
}

#[test]
fn a_range_of_rows_is_selected_with_shift() {
    let mut app = sortable_app();
    for name in ["a.jpg", "b.jpg", "c.jpg"] {
        app.files.push(entry(name));
    }
    app.select_ui_index(2, false, false);
    app.select_ui_index(4, false, true);
    assert_eq!(app.selected_indices(), &[2, 3, 4]);
    app.select_ui_index(3, true, false);
    assert_eq!(app.selected_indices(), &[2, 4]);
    app.select_ui_index(-1, false, false);
    assert!(app.selected_indices().is_empty());
}

#[test]
fn all_visible_rows_are_selected_at_once() {
    let mut app = sortable_app();
    app.files.push(entry("notes.txt"));
    app.file_filter = 4;
    app.select_all_visible_entries();
    assert_eq!(app.selected_indices(), &[1, 2]);
    assert_eq!(app.visible_entry_count(), 2);
}

#[test]
fn a_row_leads_to_its_path_and_back() {
    let app = sortable_app();
    assert_eq!(app.path_for_ui_index(2).unwrap(), "IMG_2.jpg");
    assert_eq!(app.ui_index_for_path("IMG_2.jpg"), Some(2));
    assert_eq!(app.ui_index_for_path("other.jpg"), None);
    assert_eq!(app.path_for_ui_index(9), None);
}

#[test]
fn a_changed_file_is_scanned_again() {
    let mut app = sortable_app();
    app.selected_indices.clear();
    app.files[0].modified = Some(FileTime {
        nanos: 5,
        shown: "1970-01-01 00:00:00".to_string(),
    });
    for path in ["IMG_10.jpg", "IMG_2.jpg"] {
        app.record_scan(path.to_string(), scan(MediaScanResult::default()));
    }
    let (_, jobs) = app.prepare_scan_jobs();
    let paths: Vec<_> = jobs.into_iter().map(|job| job.path).collect();
    assert_eq!(paths, vec!["IMG_10.jpg"]);
}

#[test]
fn scans_are_known_by_the_parts_of_their_paths() {
    let mut app = sortable_app();
    app.selected_indices.clear();
    app.files[0].path = "photos/a.jpg".to_string();
    app.files[1].path = "photos/b.jpg".to_string();
    app.record_scan("photos//a.jpg".to_string(), scan(MediaScanResult::default()));
    let (_, jobs) = app.prepare_scan_jobs();
    let paths: Vec<_> = jobs.into_iter().map(|job| job.path).collect();
    assert_eq!(paths, vec!["photos/b.jpg"]);
    app.record_scan("photos/a.jpg".to_string(), scan(MediaScanResult::default()));
    assert_eq!(app.scan_results.len(), 1);
    app.remove_deleted_paths(&["photos/./a.jpg".to_string()]);
    assert_eq!(app.scan_results.len(), 0);
    assert_eq!(app.files.len(), 1);
}

#[test]
fn shown_rows_follow_the_selection() {
    let mut app = sortable_app();
    assert_eq!(app.selected_paths().len(), 1);
    let mut rows = app.get_ui_model();
    let marks = |rows: &[FileRow]| rows.iter().map(|row| row.selected).collect::<Vec<_>>();
    assert_eq!(marks(&rows), vec![false, true, false]);
    sync_changed_file_selection_model(&mut rows, &[1], &[2, 9, -1]);
    assert_eq!(marks(&rows), vec![false, false, true]);
    sync_file_selection_model(&mut rows, &[0, 2]);
    assert_eq!(marks(&rows), vec![true, false, true]);
    sync_file_selection_row(&mut rows, 0, false);
    sync_file_selection_row(&mut rows, -1, true);
    sync_file_selection_row(&mut rows, 3, true);
    assert_eq!(marks(&rows), vec![false, false, true]);
    app.selected_indices = vec![0, 2];
    assert_eq!(app.selected_paths().len(), 1);
}

#[test]
fn a_new_scan_has_a_new_number() {
    let mut app = sortable_app();
    app.restart_scan();
    assert_eq!(app.scan_epoch, 1);
    app.scan_epoch = u64::MAX;
    app.restart_scan();
    assert_eq!(app.scan_epoch, 0);
}

#[test]
fn offsets_are_shown_with_a_sign() {
    assert_eq!(format_offset_label(60), "UTC+01:00");
    assert_eq!(format_offset_label(-210), "UTC-03:30");
    assert_eq!(format_offset_label(0), "UTC");
}

#[test]
fn metadata_marks_have_names() {
    assert_eq!(media_metadata_label("O"), "Available");
    assert_eq!(media_metadata_label("X"), "Not Found");
    assert_eq!(media_metadata_label("!"), "Read Error");
    assert_eq!(media_metadata_label("…"), "Scanning...");
    assert_eq!(media_metadata_label("?"), "-");
}

#[test]
fn natural_order_reads_numbers_and_ignores_case() {
    assert_eq!(natural_name_order("a2", "a10"), Order::Less);
    assert_eq!(natural_name_order("B", "a"), Order::Greater);
    assert_eq!(natural_name_order("x", "x"), Order::Equal);
}

#[test]
fn the_selection_returns_to_the_first_deleted_row() {
    let mut app = sortable_app();
    app.selected_indices = vec![0, 2, 3];
    assert_eq!(app.row_before_deletion(), 2);
    app.selected_indices = vec![0];
    assert_eq!(app.row_before_deletion(), 1);
}

#[test]
fn files_are_scanned_in_order_until_the_scan_is_outdated() {
    let job = |path: &str| MediaScanJob {
        path: path.to_string(),
        size: 0,
        modified: None,
    };
    let mut queue = ScanQueue::new();
    queue.begin(3, vec![job("a"), job("b"), job("c")]);
    assert!(queue.is_current(3) && !queue.is_current(4));
    assert_eq!(queue.next_job(3).unwrap().path, "a");
    assert_eq!(queue.next_job(3).unwrap().path, "b");
    assert!(queue.next_job(4).is_none());
    assert!(queue.next_job(3).is_none());
}

#[test]
fn a_folder_that_is_read_again_keeps_what_is_known_of_unchanged_files() {
    let mut app = sortable_app();
    for name in ["IMG_10.jpg", "IMG_2.jpg", "gone.jpg", "new size.jpg"] {
        app.record_scan(name.to_string(), scan(MediaScanResult::default()));
    }
    let mut larger = entry("new size.jpg");
    larger.size = 9;
    let entries = vec![entry("IMG_10.jpg"), entry("IMG_2.jpg"), larger, entry("other.jpg")];
    app.reload_folder_after_changes(&["IMG_2.jpg".to_string()], Some(entries));
    let known: Vec<&str> = app.scan_results.iter().map(|r| r.path.as_str()).collect();
    assert_eq!(known, vec!["IMG_10.jpg"]);
    assert_eq!(app.files.len(), 4);
    assert!(app.selected_indices.is_empty());
    assert_eq!(app.selection_anchor, None);
    assert_eq!(app.scan_epoch, 1);
    assert!(!app.dynamic_sort_ready);
    app.reload_folder_after_changes(&[], None);
    assert!(app.files.is_empty());
    assert_eq!(app.scan_results.len(), 1);
    assert_eq!(app.scan_epoch, 2);
}

#[test]
fn deleted_files_are_forgotten() {
    let mut app = sortable_app();
    for name in ["IMG_10.jpg", "IMG_2.jpg"] {
        app.record_scan(name.to_string(), scan(MediaScanResult::default()));
    }
    app.remove_deleted_paths(&["IMG_10.jpg".to_string()]);
    assert_eq!(app.scan_results.len(), 1);
    assert_eq!(app.scan_results[0].path, "IMG_2.jpg");
    assert_eq!(app.files.len(), 1);
    assert!(app.selected_indices.is_empty());
}

#[test]
fn sorting_selects_the_same_files() {
    let mut app = sortable_app();
    for name in ["b.jpg", "a.jpg", "c.jpg"] {
        app.files.push(entry(name));
    }
    app.selected_indices = vec![1, 3, 5];
    let selected = |app: &SlintApp| {
        let mut paths: Vec<String> = app
            .selected_indices
            .iter()
            .map(|index| app.path_for_ui_index(*index).unwrap())
            .collect();
        paths.sort();
        paths
    };
    let before = selected(&app);
    for _ in 0..3 {
        app.cycle_sort(1);
        assert_eq!(selected(&app), before);
        assert!(app.selected_indices.windows(2).all(|pair| pair[0] < pair[1]));
    }
}
