use exif_file_tool::entries::{order_directory, FileSystemEntry};
use exif_file_tool::file_actions::{
    atomic_write_path, choose_folder, copy_file_times, copy_file_to_folder,
    duplicate_copy_base_stem, duplicate_file, file_times_match, filetime_intervals,
    move_file_to_recycle_bin,
    open_in_file_manager, open_with_default_application, rename_entry, reveal_in_file_manager,
    save_file_copy, set_file_times, set_file_times_with_powershell, Elapsed, Platform, ShownPath, TimeUpdate,
};
use exif_file_tool::file_path::{FilePath, FilenameCollisionResolver};
use exif_file_tool::media_names::{
    display_file_name, filename_from_media_date, filename_from_media_date_with_reserved,
    remove_supported_metadata, rename_name_preserving_extension, MetadataRemoval,
};
use exif_file_tool::name_batch::{NameAction, NameBatch, NamedFile};
use exif_file_tool::path_values::{remap_selected_paths, PathValues};
use exif_file_tool::paths::{comparable_path, path_file_name, same_path};
use exif_file_tool::rename_batch::{temporary_paths, RenameBatch};
use exif_file_tool::rename_names::{
    move_trailing_number_to_front_name, remove_front_or_rear_number_name,
    remove_img_vid_prefix_name,
};
use exif_file_tool::rename_plan::{
    analyze_front_or_rear_number_removal, analyze_img_vid_prefix_removal,
    move_trailing_numbers_to_front, remove_front_or_rear_numbers, remove_img_vid_prefixes,
    trailing_number_rename_candidate_count, KnownPath, PlannedRename,
};

fn in_folder(name: &str) -> FilePath {
    FilePath::new("/photos/", name)
}

fn texts(names: &[&str]) -> Vec<String> {
    names.iter().map(|name| format!("/photos/{name}")).collect()
}

fn known(names: &[&str]) -> Vec<KnownPath> {
    names
        .iter()
        .map(|name| KnownPath {
            path: in_folder(name),
            is_file: true,
        })
        .collect()
}

fn apply(renames: &Vec<PlannedRename>, files: &mut Vec<String>) -> Result<usize, String> {
    let temporaries = temporary_paths(renames, 7, files, false)?;
    let mut batch = RenameBatch::new(renames, temporaries);
    while let Some(action) = batch.next_action() {
        match files.iter().position(|file| *file == action.from) {
            Some(index) if !files.contains(&action.to) => {
                files[index] = action.to;
                batch.report(None);
            }
            _ => batch.report(Some("could not be moved")),
        }
    }
    batch.outcome().unwrap()
}

#[test]
fn rename_entry_renames_a_directory_immediately() {
    let renamed = rename_entry(&in_folder("2018.06"), "2018.06 ok", &texts(&["2018.06"]), false)
        .unwrap();
    assert_eq!(renamed.to_text(), "/photos/2018.06 ok");
}

#[test]
fn collision_resolver_uses_stable_dup_suffixes_and_reserves_batch_names() {
    let existing = texts(&["photo.jpg"]);
    let desired = in_folder("photo.jpg");
    let mut resolver = FilenameCollisionResolver::new(false);
    assert_eq!(
        resolver.resolve_for_create(&desired, &existing).unwrap().to_text(),
        "/photos/photo_dup001.jpg"
    );
    assert_eq!(
        resolver.resolve_for_create(&desired, &existing).unwrap().to_text(),
        "/photos/photo_dup002.jpg"
    );
}

#[test]
fn directory_sort_is_case_insensitive_with_folders_first() {
    let entry = |name: &str, is_dir: bool| FileSystemEntry {
        path: format!("/photos/{name}"),
        name: Some(name.to_string()),
        size: 0,
        modified: None,
        created: None,
        is_dir,
    };
    let entries = order_directory(&vec![
        entry("A-file.jpg", false),
        entry("Video", true),
        entry("albums", true),
        entry("Album", true),
    ]);
    let names: Vec<_> = entries
        .iter()
        .map(|entry| entry.name.clone().unwrap())
        .collect();
    assert_eq!(names, ["Album", "albums", "Video", "A-file.jpg"]);
}

#[test]
fn moves_only_delimited_two_or_three_digit_trailing_numbers() {
    assert_eq!(
        move_trailing_number_to_front_name("xxxx_xxxx_001.jpg").as_deref(),
        Some("001_xxxx_xxxx.jpg")
    );
    assert_eq!(
        move_trailing_number_to_front_name("xxxx-acbd-25.png").as_deref(),
        Some("25_xxxx-acbd.png")
    );
    assert_eq!(move_trailing_number_to_front_name("20140809_131712.jpg"), None);
    assert_eq!(move_trailing_number_to_front_name("photo_1.jpg"), None);
    assert_eq!(move_trailing_number_to_front_name("photo_1000.jpg"), None);
    assert_eq!(move_trailing_number_to_front_name("photo123.jpg"), None);
}

#[test]
fn removes_only_underscored_two_or_three_digit_front_or_rear_numbers() {
    assert_eq!(
        remove_front_or_rear_number_name("photo_001.jpg").as_deref(),
        Some("photo.jpg")
    );
    assert_eq!(
        remove_front_or_rear_number_name("25_photo.png").as_deref(),
        Some("photo.png")
    );
    assert_eq!(
        remove_front_or_rear_number_name("001_photo_25.jpg").as_deref(),
        Some("photo.jpg")
    );
    assert_eq!(remove_front_or_rear_number_name("20140809_131712.jpg"), None);
    assert_eq!(remove_front_or_rear_number_name("photo_1.jpg"), None);
    assert_eq!(remove_front_or_rear_number_name("photo_1000.jpg"), None);
}

#[test]
fn removes_img_and_vid_prefixes_case_insensitively() {
    assert_eq!(
        remove_img_vid_prefix_name("IMG_20150711_143113.jpg").as_deref(),
        Some("20150711_143113.jpg")
    );
    assert_eq!(
        remove_img_vid_prefix_name("vid_20150711_143113.mp4").as_deref(),
        Some("20150711_143113.mp4")
    );
    assert_eq!(remove_img_vid_prefix_name("IMAGE_001.jpg"), None);
    assert_eq!(remove_img_vid_prefix_name("IMG_.jpg"), None);
}

#[test]
fn resolves_img_vid_prefix_removal_collisions_with_common_suffixes() {
    let mut files = texts(&["photo.jpg", "IMG_photo.jpg", "VID_photo.jpg"]);
    let selected = known(&["IMG_photo.jpg", "VID_photo.jpg"]);
    let plan = remove_img_vid_prefixes(&selected, &files, false).unwrap();
    let stats = plan.stats();
    assert_eq!(stats.renameable, 2);
    assert_eq!(stats.deduplicated, 2);
    assert_eq!(apply(&plan.renames, &mut files), Ok(2));
    assert!(files.contains(&"/photos/photo_dup001.jpg".to_string()));
    assert!(files.contains(&"/photos/photo_dup002.jpg".to_string()));
}

#[test]
fn resolves_front_or_rear_number_removal_name_collisions() {
    let names = [
        "photo_25.jpg",
        "001_photo.jpg",
        "keep_25.jpg",
        "not-numbered.jpg",
    ];
    let mut files = texts(&names);
    let selected = known(&names);
    let analysis = analyze_front_or_rear_number_removal(&selected, &files, false).unwrap();
    assert_eq!(analysis.renameable, 3);
    assert_eq!(analysis.unmatched, 1);
    assert_eq!(analysis.deduplicated, 1);

    let plan = remove_front_or_rear_numbers(&selected, &files, false).unwrap();
    assert_eq!(plan.stats(), analysis);
    assert_eq!(apply(&plan.renames, &mut files), Ok(3));
    for name in ["photo.jpg", "photo_dup001.jpg", "keep.jpg", "not-numbered.jpg"] {
        assert!(files.contains(&format!("/photos/{name}")));
    }
}

#[test]
fn renames_selected_matching_files_only() {
    let mut files = texts(&["xxxx_xxxx_001.jpg", "xxxx_acbd_25.jpg", "20140809_131712.jpg"]);
    let selected = known(&["xxxx_xxxx_001.jpg", "20140809_131712.jpg"]);
    assert_eq!(
        trailing_number_rename_candidate_count(&selected, &files, false).unwrap(),
        1
    );
    let plan = move_trailing_numbers_to_front(&selected, &files, false).unwrap();
    assert_eq!(apply(&plan, &mut files).unwrap(), 1);
    for name in ["001_xxxx_xxxx.jpg", "xxxx_acbd_25.jpg", "20140809_131712.jpg"] {
        assert!(files.contains(&format!("/photos/{name}")));
    }
}

#[test]
fn filename_from_media_date_uses_compact_date_and_avoids_collisions() {
    let existing = texts(&["original.jpg", "20120815_023000.jpg"]);
    let result = filename_from_media_date(
        &in_folder("original.jpg"),
        "2012-08-15 02:30:00",
        true,
        &existing,
        false,
    )
    .unwrap();
    assert_eq!(result, "20120815_023000_dup001.jpg");
}

#[test]
fn filename_from_media_date_reserves_unique_names_for_a_batch() {
    let existing = texts(&["first.jpg", "second.jpg"]);
    let mut reserved = FilenameCollisionResolver::new(false);
    let first_name = filename_from_media_date_with_reserved(
        &in_folder("first.jpg"),
        "2012-08-15 02:30:00",
        true,
        &mut reserved,
        &existing,
    )
    .unwrap();
    let second_name = filename_from_media_date_with_reserved(
        &in_folder("second.jpg"),
        "2012-08-15 02:30:00",
        true,
        &mut reserved,
        &existing,
    )
    .unwrap();
    assert_eq!(first_name, "20120815_023000.jpg");
    assert_eq!(second_name, "20120815_023000_dup001.jpg");

    let mut batch = NameBatch::new(
        vec![
            NamedFile {
                source: in_folder("second.jpg"),
                new_name: second_name,
            },
            NamedFile {
                source: in_folder("first.jpg"),
                new_name: first_name,
            },
        ],
        false,
    );
    let mut files = existing;
    while let Some(action) = batch.next_action() {
        if let NameAction::Rename { source, new_name } = action {
            let target = rename_entry(&source, &new_name, &files, false).unwrap();
            let index = files.iter().position(|file| *file == source.to_text()).unwrap();
            files[index] = target.to_text();
            batch.report_renamed(target);
        }
    }
    assert_eq!(batch.renamed.len(), 2);
    assert!(batch.error.is_none());
    assert_eq!(batch.renamed[0].source.name, "first.jpg");
    assert_eq!(files, texts(&["20120815_023000.jpg", "20120815_023000_dup001.jpg"]));
}

// What the other parts do.

#[test]
fn a_failed_batch_is_undone() {
    let mut batch = NameBatch::new(
        vec![
            NamedFile {
                source: in_folder("a.jpg"),
                new_name: "1.jpg".to_string(),
            },
            NamedFile {
                source: in_folder("b.jpg"),
                new_name: "2.jpg".to_string(),
            },
        ],
        false,
    );
    let mut files = texts(&["a.jpg", "b.jpg"]);
    while let Some(action) = batch.next_action() {
        match action {
            NameAction::Rename { source, new_name } => {
                if new_name == "2.jpg" {
                    batch.report_failed("busy");
                } else {
                    let target = in_folder(&new_name);
                    files.retain(|file| *file != source.to_text());
                    files.push(target.to_text());
                    batch.report_renamed(target);
                }
            }
            NameAction::Undo { from, to } => {
                files.retain(|file| *file != from.to_text());
                files.push(to.to_text());
                batch.report_undone();
            }
        }
    }
    files.sort();
    assert_eq!(files, texts(&["a.jpg", "b.jpg"]));
    assert!(batch.error.unwrap().contains("busy"));
}

#[test]
fn a_renaming_that_fails_changes_nothing() {
    let mut files = texts(&["a_01.jpg", "b_01.jpg"]);
    let selected = known(&["a_01.jpg", "b_01.jpg"]);
    let plan = remove_front_or_rear_numbers(&selected, &files, false).unwrap();
    files.push("/photos/b.jpg".to_string());
    let before = files.clone();
    assert!(apply(&plan.renames, &mut files).is_err());
    assert_eq!(files, before);
}

#[test]
fn a_plan_counts_what_it_leaves_alone() {
    let files = texts(&["IMG_a.jpg", "b.jpg"]);
    let stats = analyze_img_vid_prefix_removal(&known(&["IMG_a.jpg", "b.jpg"]), &files, false).unwrap();
    assert_eq!((stats.renameable, stats.unmatched, stats.deduplicated), (1, 1, 0));
    let lost = KnownPath {
        path: FilePath {
            folder: None,
            name: "IMG_a.jpg".to_string(),
        },
        is_file: true,
    };
    assert!(remove_img_vid_prefixes(&[lost], &files, false).is_err());
}

#[test]
fn taken_names_get_a_number_on_windows_regardless_of_case() {
    let existing = texts(&["PHOTO.JPG"]);
    let desired = in_folder("photo.jpg");
    let mut windows = FilenameCollisionResolver::new(true);
    assert_eq!(
        windows.resolve_for_create(&desired, &existing).unwrap().name,
        "photo_dup001.jpg"
    );
    let mut other = FilenameCollisionResolver::new(false);
    assert_eq!(other.resolve_for_create(&desired, &existing).unwrap().name, "photo.jpg");
    assert_eq!(
        other
            .resolve_for_rename(&desired, "/photos/photo.jpg", &texts(&["photo.jpg"]))
            .unwrap()
            .name,
        "photo_dup001.jpg"
    );
}

#[test]
fn names_that_cannot_be_given_are_refused() {
    let existing = texts(&["a.jpg", "b.jpg"]);
    assert!(rename_entry(&in_folder("a.jpg"), "  ", &existing, false).is_err());
    assert!(rename_entry(&in_folder("a.jpg"), "x/y.jpg", &existing, false).is_err());
    assert!(rename_entry(&in_folder("a.jpg"), "b.jpg", &existing, false).is_err());
}

#[test]
fn copies_do_not_pile_up_suffixes() {
    assert_eq!(duplicate_copy_base_stem("photo"), "photo");
    assert_eq!(duplicate_copy_base_stem("photo_copy"), "photo");
    assert_eq!(duplicate_copy_base_stem("photo_copy_dup001"), "photo");
    let existing = texts(&["photo.jpg", "photo_copy.jpg"]);
    assert_eq!(
        save_file_copy(&in_folder("photo.jpg"), true, &existing, false).unwrap().name,
        "photo_copy_dup001.jpg"
    );
    assert!(save_file_copy(&in_folder("photo.jpg"), false, &existing, false).is_err());
    assert!(duplicate_file(&in_folder("photo.jpg"), false, true, &existing, false).is_err());
    assert_eq!(
        duplicate_file(&in_folder("photo.jpg"), true, true, &existing, false).unwrap().name,
        "photo_copy_dup001.jpg"
    );
    assert_eq!(
        copy_file_to_folder(&in_folder("photo.jpg"), true, "/other/", true, &[], false)
            .unwrap()
            .to_text(),
        "/other/photo.jpg"
    );
    assert!(copy_file_to_folder(&in_folder("photo.jpg"), true, "/other/", false, &[], false).is_err());
}

#[test]
fn a_temporary_file_lies_beside_the_file() {
    let path = atomic_write_path(&in_folder("photo.jpg"), 12, 3).unwrap();
    assert!(path.to_text().starts_with("/photos/."));
    assert!(path.name.contains("12"));
    let lost = FilePath {
        folder: None,
        name: "photo.jpg".to_string(),
    };
    assert!(atomic_write_path(&lost, 12, 3).is_err());
    assert!(atomic_write_path(&in_folder(""), 12, 3).is_err());
}

#[test]
fn file_times_count_from_1601_on_windows() {
    let time = Elapsed {
        seconds: 1_600_000_000,
        nanos: 500,
    };
    assert_eq!(filetime_intervals(time), Ok(132_444_736_000_000_005));
    assert!(filetime_intervals(Elapsed {
        seconds: u64::MAX,
        nanos: 0
    })
    .is_err());
    assert_eq!(set_file_times(None, None, true), Ok(TimeUpdate::Keep));
    assert_eq!(
        set_file_times(Some(time), None, true),
        Ok(TimeUpdate::Intervals {
            created: 132_444_736_000_000_005,
            modified: 0
        })
    );
    assert_eq!(
        copy_file_times(None, Some(time), false),
        Ok(TimeUpdate::Modified(Some(time)))
    );
}

fn shown(exists: bool, is_file: bool) -> ShownPath {
    ShownPath {
        path: "/photos/photo.jpg".to_string(),
        folder: Some("/photos".to_string()),
        exists,
        is_file,
        is_dir: !is_file,
    }
}

#[test]
fn each_platform_has_its_own_programs() {
    let path = shown(true, true);
    let request = open_with_default_application(&path, Platform::Other).unwrap();
    assert_eq!((request.program.as_str(), request.arguments.len()), ("xdg-open", 1));
    assert_eq!(open_with_default_application(&path, Platform::MacOs).unwrap().program, "open");
    let reveal = reveal_in_file_manager(&path, Platform::Windows).unwrap();
    assert_eq!(reveal.program, "explorer.exe");
    assert_eq!(reveal.arguments, vec!["/select,\"/photos/photo.jpg\""]);
    assert!(open_in_file_manager(&shown(false, true), Platform::Other).is_err());
    assert!(open_in_file_manager(&path, Platform::Other).is_ok());
    assert!(move_file_to_recycle_bin(true, Platform::Windows).is_ok());
    assert!(move_file_to_recycle_bin(false, Platform::Windows).is_err());
    assert!(move_file_to_recycle_bin(true, Platform::Other).is_err());
    assert!(choose_folder(Platform::Windows).is_ok());
    assert!(choose_folder(Platform::MacOs).is_err());
}

#[test]
fn values_follow_renamed_files() {
    let renames = vec![PlannedRename {
        source: in_folder("a.jpg"),
        target: in_folder("b.jpg"),
    }];
    let mut values: PathValues<u32> = PathValues::new(false);
    values.insert("/photos/a.jpg", 5);
    values.insert("/photos/c.jpg", 6);
    values.remap(&renames);
    assert_eq!(values.get("/photos/b.jpg"), Some(&5));
    assert_eq!(values.get("/photos/a.jpg"), None);
    assert_eq!(values.remove("/photos/c.jpg"), Some(6));
    let (selected, paths) = remap_selected_paths(
        Some("/photos/a.jpg".to_string()),
        texts(&["a.jpg", "c.jpg"]),
        &renames,
        false,
    );
    assert_eq!(selected.as_deref(), Some("/photos/b.jpg"));
    assert_eq!(paths, texts(&["b.jpg", "c.jpg"]));
}

#[test]
fn values_are_found_by_the_parts_of_paths() {
    let mut values: PathValues<u32> = PathValues::new(false);
    values.insert("/photos//a.jpg", 5);
    values.insert("/photos/./a.jpg", 6);
    assert_eq!(values.get("/photos/a.jpg"), Some(&6));
    assert_eq!(values.get("/photos/a.jpg/"), Some(&6));
    assert_eq!(values.get("/photos/A.jpg"), None);
    assert_eq!(values.get("photos/a.jpg"), None);
    let mut values: PathValues<u32> = PathValues::new(true);
    values.insert("C:\\photos\\a.jpg", 7);
    assert_eq!(values.get("c:/photos/a.jpg"), Some(&7));
    assert_eq!(values.get("C:photos\\a.jpg"), None);
}

#[test]
fn paths_are_compared_by_their_parts() {
    assert!(same_path("a/./b", "a//b/", false));
    assert!(!same_path("./a", "a", false));
    assert!(!same_path("a/../b", "b", false));
    assert!(!same_path("a\\b", "a/b", false));
    assert!(same_path("a\\b", "a/b", true));
    assert!(same_path("c:\\a", "C:\\a", true));
    assert!(!same_path("C:a", "C:\\a", true));
    assert!(comparable_path("/a/b", false) < comparable_path("/a b", false));
    assert!(comparable_path("/a/b", false) < comparable_path("/a/b/c", false));
    assert!(comparable_path("/a", false) < comparable_path("a", false));
}

#[test]
fn roots_and_prefixes_are_no_names() {
    assert_eq!(path_file_name("C:\\", true), None);
    assert_eq!(path_file_name("C:a.jpg", true).as_deref(), Some("a.jpg"));
    assert_eq!(path_file_name("\\\\server\\share", true), None);
    assert_eq!(path_file_name("\\\\server\\share\\a.jpg", true).as_deref(), Some("a.jpg"));
    assert_eq!(path_file_name("\\\\?\\C:\\a.jpg", true).as_deref(), Some("a.jpg"));
    assert_eq!(path_file_name("C:\\a\\..", true), None);
    assert_eq!(path_file_name("C:a.jpg", false).as_deref(), Some("C:a.jpg"));
    assert_eq!(path_file_name("/a/.", false).as_deref(), Some("a"));
    assert_eq!(path_file_name("/", false), None);
}

#[test]
fn renames_wait_under_names_of_their_own() {
    let plan: Vec<PlannedRename> = ["a.jpg", "b.jpg"]
        .iter()
        .map(|name| PlannedRename {
            source: in_folder(name),
            target: in_folder(&format!("new_{name}")),
        })
        .collect();
    let taken = texts(&[".sh148_exif_file_tool_rename_7_1_0.tmp"]);
    assert_eq!(
        temporary_paths(&plan, 7, &taken, false).unwrap(),
        texts(&[
            ".sh148_exif_file_tool_rename_7_0_0.tmp",
            ".sh148_exif_file_tool_rename_7_1_1.tmp"
        ])
    );
    let homeless = vec![PlannedRename {
        source: FilePath {
            folder: None,
            ..in_folder("a.jpg")
        },
        target: in_folder("b.jpg"),
    }];
    assert_eq!(
        temporary_paths(&homeless, 7, &[], false),
        Err("Could not resolve the folder for a.jpg.".to_string())
    );
}

#[test]
fn names_are_shown_with_or_without_their_extension() {
    assert_eq!(display_file_name(Some("photo.jpg"), "photo.jpg", false, false), "photo");
    assert_eq!(display_file_name(Some("photo.jpg"), "photo.jpg", false, true), "photo.jpg");
    assert_eq!(display_file_name(Some("a.b"), "a.b", true, false), "a.b");
    assert_eq!(path_file_name("/photos/photo.jpg", false).as_deref(), Some("photo.jpg"));
    assert_eq!(
        rename_name_preserving_extension("photo.jpg", true, "new", false),
        "new.jpg"
    );
    assert!(filename_from_media_date(&in_folder("a.jpg"), "-", true, &[], false).is_err());
}

#[test]
fn metadata_are_removed_by_the_kind_of_file() {
    assert_eq!(remove_supported_metadata("a.jpg"), Ok(MetadataRemoval::JpegExif));
    assert_eq!(remove_supported_metadata("a.png"), Ok(MetadataRemoval::PngDates));
    assert!(remove_supported_metadata("a.mp4").is_err());
}

#[test]
fn times_that_were_set_are_compared() {
    let time = |seconds: u64| Some(Elapsed { seconds, nanos: 0 });
    assert!(file_times_match(Some((time(1), time(2))), time(1), None));
    assert!(file_times_match(Some((time(1), time(2))), time(1), time(2)));
    assert!(!file_times_match(Some((time(1), time(2))), time(2), None));
    assert!(!file_times_match(Some((time(1), None)), None, time(2)));
    assert!(!file_times_match(None, None, None));
    assert_eq!(
        set_file_times_with_powershell("a.jpg", time(0), None).unwrap(),
        (
            "a.jpg".to_string(),
            "116444736000000000".to_string(),
            String::new()
        )
    );
    assert_eq!(
        set_file_times_with_powershell("a.jpg", None, time(u64::MAX)).unwrap_err(),
        "Time value out of range."
    );
}

#[test]
fn counted_files_move_and_others_stay() {
    let names = ["001_a.jpg", "002_a.jpg", "plain.jpg"];
    let existing = texts(&["001_a.jpg", "002_a.jpg", "plain.jpg", "a.jpg"]);
    let stats = analyze_front_or_rear_number_removal(&known(&names), &existing, false).unwrap();
    let plan = remove_front_or_rear_numbers(&known(&names), &existing, false).unwrap();
    assert_eq!((stats.renameable, stats.unmatched, stats.deduplicated), (2, 1, 2));
    assert_eq!(plan.stats(), stats);
    let mut files = existing.clone();
    assert_eq!(apply(&plan.renames, &mut files), Ok(stats.renameable));
    assert_eq!(
        files,
        texts(&["a_dup001.jpg", "a_dup002.jpg", "plain.jpg", "a.jpg"])
    );
}
