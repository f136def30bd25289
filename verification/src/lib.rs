#![allow(unused_imports)]
#![allow(unused_variables)]
#![allow(dead_code)]

pub mod arrange;
pub mod binary;
pub mod browser;
pub mod calendar;
pub mod chunk_laws;
pub mod command_laws;
pub mod creator;
pub mod creator_laws;
pub mod date_input;
pub mod date_input_laws;
pub mod date_shift;
pub mod date_shift_laws;
pub mod datetime;
pub mod details_form;
pub mod details_selection;
pub mod entries;
pub mod exif;
pub mod exif_build;
pub mod exif_edit;
pub mod exif_field_laws;
pub mod exif_laws;
pub mod exif_build_laws;
pub mod exif_value_laws;
pub mod exif_values;
pub mod exif_write;
pub mod file_actions;
pub mod file_list;
pub mod file_name_laws;
pub mod file_path;
pub mod folder;
pub mod folder_laws;
pub mod file_rows;
pub mod file_selection;
pub mod file_time_laws;
pub mod filename_date;
pub mod filename_date_laws;
pub mod form_keys;
pub mod form_laws;
pub mod gestures;
pub mod gps_date_laws;
pub mod jpeg;
pub mod jpeg_laws;
pub mod list_laws;
pub mod media;
pub mod media_laws;
pub mod media_name_laws;
pub mod media_names;
pub mod moment_laws;
pub mod movie_laws;
pub mod mp4;
pub mod mp4_laws;
pub mod mpeg_ts;
pub mod name_batch;
pub mod names;
pub mod notices;
pub mod order;
pub mod order_laws;
pub mod path_laws;
pub mod path_values;
pub mod paths;
pub mod png;
pub mod png_laws;
pub mod preview;
pub mod preview_laws;
pub mod rename_batch;
pub mod rename_laws;
pub mod rename_name_laws;
pub mod rename_names;
pub mod rename_plan;
pub mod rename_plan_laws;
pub mod requests;
pub mod row_laws;
pub mod save_laws;
pub mod save_plan;
pub mod save_route_laws;
pub mod scan_queue;
pub mod selection_laws;
pub mod shown_selection_laws;
pub mod staging;
pub mod staging_files;
pub mod staging_laws;
pub mod tag_saving;
pub mod text;
pub mod text_laws;
pub mod tiff;
pub mod typing_laws;
pub mod tiff_laws;
