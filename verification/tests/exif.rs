use exif_file_tool::details_form::{
    DetailsForm, APERTURE, ARTIST, CAMERA_MAKE, CAMERA_MODEL, COLOR_SPACE, FLASH_FIRED,
    FOCAL_LENGTH, ISO_SPEED, LENS_MODEL, METERING_MODE, NAME, ORIENTATION, SHUTTER_SPEED, SOFTWARE,
    TAKEN_DATE,
};
use exif_file_tool::datetime::{
    display_datetime_to_exif, exif_datetime_to_display, normalize_date,
    should_apply_taken_date_candidate,
};
use exif_file_tool::exif::{
    parse_tiff, read_exif_metadata, read_exif_tiff_metadata, ExifMetadata, Field,
};
use exif_file_tool::exif_build::{build_basic_exif_app1, build_basic_tiff, DecimalReadings};
use exif_file_tool::exif_edit::{
    create_date_only_exif_tiff, exif_backup_path, is_generated_new_exif_path, remove_exif_tag,
    remove_exif_tiff_date_time_original, remove_gps_information, rewrite_basic_exif_metadata,
    rewrite_exif_tiff_dates, rewrite_generated_basic_exif_metadata,
    rewrite_repairable_exif_metadata,
};
use exif_file_tool::exif_values::{
    aperture_decimal_text, format_color_space, format_exposure_program, format_flash,
    format_metering, format_orientation, format_white_balance, parse_aperture_value,
    parse_color_space_value, parse_exif_rational_value, parse_flash_value,
    parse_metering_mode_value, parse_orientation_value, parse_u16_value, DecimalReading,
};
use exif_file_tool::exif_write::{
    write_aperture, write_artist, write_camera_make, write_camera_model, write_color_space,
    write_flash_fired, write_focal_length, write_iso_speed, write_lens_model,
    write_metering_mode, write_orientation, write_shutter_speed, write_software,
    write_taken_date_if_it_fits,
};
use exif_file_tool::filename_date::extract_datetime_from_filename;
use exif_file_tool::save_plan::{PendingDate, TagWrite};
use exif_file_tool::tag_saving::{
    after_tag_writes, apply_tag_write, apply_tag_writes, repair_tags, AfterWrites, WritesEnd,
};
use exif_file_tool::jpeg::{find_exif_app1_range, read_jpeg_exif_tiff, remove_exif_metadata};

const EMPTY_JPEG: [u8; 4] = [0xff, 0xd8, 0xff, 0xd9];

fn no_readings() -> DecimalReadings {
    DecimalReadings {
        shutter_speed: DecimalReading::NotANumber,
        aperture: DecimalReading::NotANumber,
        focal_length: DecimalReading::NotANumber,
    }
}

fn minimal_jpeg_with_camera_make(value: &str) -> Vec<u8> {
    let mut tiff = Vec::new();
    tiff.extend_from_slice(b"II");
    tiff.extend_from_slice(&42u16.to_le_bytes());
    tiff.extend_from_slice(&8u32.to_le_bytes());

    let ifd0_offset = 8usize;
    let make_offset = 26u32;

    assert_eq!(tiff.len(), ifd0_offset);
    tiff.extend_from_slice(&1u16.to_le_bytes());
    tiff.extend_from_slice(&0x010fu16.to_le_bytes());
    tiff.extend_from_slice(&2u16.to_le_bytes());
    tiff.extend_from_slice(&((value.len() + 1) as u32).to_le_bytes());
    tiff.extend_from_slice(&make_offset.to_le_bytes());
    tiff.extend_from_slice(&0u32.to_le_bytes());

    assert_eq!(tiff.len(), make_offset as usize);
    tiff.extend_from_slice(value.as_bytes());
    tiff.push(0);

    let mut payload = b"Exif\0\0".to_vec();
    payload.extend_from_slice(&tiff);
    let segment_len = u16::try_from(payload.len() + 2).unwrap();

    let mut jpeg = vec![0xff, 0xd8, 0xff, 0xe1];
    jpeg.extend_from_slice(&segment_len.to_be_bytes());
    jpeg.extend_from_slice(&payload);
    jpeg.extend_from_slice(&[0xff, 0xd9]);
    jpeg
}

fn minimal_jpeg_with_camera_model(value: &str) -> Vec<u8> {
    let mut tiff = Vec::new();
    tiff.extend_from_slice(b"II");
    tiff.extend_from_slice(&42u16.to_le_bytes());
    tiff.extend_from_slice(&8u32.to_le_bytes());

    let ifd0_offset = 8usize;
    let model_offset = 26u32;

    assert_eq!(tiff.len(), ifd0_offset);
    tiff.extend_from_slice(&1u16.to_le_bytes());
    tiff.extend_from_slice(&0x0110u16.to_le_bytes());
    tiff.extend_from_slice(&2u16.to_le_bytes());
    tiff.extend_from_slice(&((value.len() + 1) as u32).to_le_bytes());
    tiff.extend_from_slice(&model_offset.to_le_bytes());
    tiff.extend_from_slice(&0u32.to_le_bytes());

    assert_eq!(tiff.len(), model_offset as usize);
    tiff.extend_from_slice(value.as_bytes());
    tiff.push(0);

    let mut payload = b"Exif\0\0".to_vec();
    payload.extend_from_slice(&tiff);
    let segment_len = u16::try_from(payload.len() + 2).unwrap();

    let mut jpeg = vec![0xff, 0xd8, 0xff, 0xe1];
    jpeg.extend_from_slice(&segment_len.to_be_bytes());
    jpeg.extend_from_slice(&payload);
    jpeg.extend_from_slice(&[0xff, 0xd9]);
    jpeg
}

fn minimal_jpeg_with_lens_model(value: &str) -> Vec<u8> {
    let mut tiff = Vec::new();
    tiff.extend_from_slice(b"II");
    tiff.extend_from_slice(&42u16.to_le_bytes());
    tiff.extend_from_slice(&8u32.to_le_bytes());

    let ifd0_offset = 8usize;
    let exif_ifd_offset = 26u32;
    let lens_offset = 44u32;

    assert_eq!(tiff.len(), ifd0_offset);
    tiff.extend_from_slice(&1u16.to_le_bytes());
    tiff.extend_from_slice(&0x8769u16.to_le_bytes());
    tiff.extend_from_slice(&4u16.to_le_bytes());
    tiff.extend_from_slice(&1u32.to_le_bytes());
    tiff.extend_from_slice(&exif_ifd_offset.to_le_bytes());
    tiff.extend_from_slice(&0u32.to_le_bytes());

    assert_eq!(tiff.len(), exif_ifd_offset as usize);
    tiff.extend_from_slice(&1u16.to_le_bytes());
    tiff.extend_from_slice(&0xa434u16.to_le_bytes());
    tiff.extend_from_slice(&2u16.to_le_bytes());
    tiff.extend_from_slice(&((value.len() + 1) as u32).to_le_bytes());
    tiff.extend_from_slice(&lens_offset.to_le_bytes());
    tiff.extend_from_slice(&0u32.to_le_bytes());

    assert_eq!(tiff.len(), lens_offset as usize);
    tiff.extend_from_slice(value.as_bytes());
    tiff.push(0);

    let mut payload = b"Exif\0\0".to_vec();
    payload.extend_from_slice(&tiff);
    let segment_len = u16::try_from(payload.len() + 2).unwrap();

    let mut jpeg = vec![0xff, 0xd8, 0xff, 0xe1];
    jpeg.extend_from_slice(&segment_len.to_be_bytes());
    jpeg.extend_from_slice(&payload);
    jpeg.extend_from_slice(&[0xff, 0xd9]);
    jpeg
}

fn minimal_jpeg_with_gps() -> Vec<u8> {
    let mut tiff = Vec::new();
    tiff.extend_from_slice(b"II");
    tiff.extend_from_slice(&42u16.to_le_bytes());
    tiff.extend_from_slice(&8u32.to_le_bytes());

    let gps_ifd_offset = 26u32;
    let lat_offset = 104u32;
    let lon_offset = 128u32;
    let alt_offset = 152u32;

    tiff.extend_from_slice(&1u16.to_le_bytes());
    tiff.extend_from_slice(&0x8825u16.to_le_bytes());
    tiff.extend_from_slice(&4u16.to_le_bytes());
    tiff.extend_from_slice(&1u32.to_le_bytes());
    tiff.extend_from_slice(&gps_ifd_offset.to_le_bytes());
    tiff.extend_from_slice(&0u32.to_le_bytes());

    assert_eq!(tiff.len(), gps_ifd_offset as usize);
    tiff.extend_from_slice(&6u16.to_le_bytes());
    tiff.extend_from_slice(&0x0001u16.to_le_bytes());
    tiff.extend_from_slice(&2u16.to_le_bytes());
    tiff.extend_from_slice(&2u32.to_le_bytes());
    tiff.extend_from_slice(&[b'N', 0, 0, 0]);
    tiff.extend_from_slice(&0x0002u16.to_le_bytes());
    tiff.extend_from_slice(&5u16.to_le_bytes());
    tiff.extend_from_slice(&3u32.to_le_bytes());
    tiff.extend_from_slice(&lat_offset.to_le_bytes());
    tiff.extend_from_slice(&0x0003u16.to_le_bytes());
    tiff.extend_from_slice(&2u16.to_le_bytes());
    tiff.extend_from_slice(&2u32.to_le_bytes());
    tiff.extend_from_slice(&[b'E', 0, 0, 0]);
    tiff.extend_from_slice(&0x0004u16.to_le_bytes());
    tiff.extend_from_slice(&5u16.to_le_bytes());
    tiff.extend_from_slice(&3u32.to_le_bytes());
    tiff.extend_from_slice(&lon_offset.to_le_bytes());
    tiff.extend_from_slice(&0x0005u16.to_le_bytes());
    tiff.extend_from_slice(&1u16.to_le_bytes());
    tiff.extend_from_slice(&1u32.to_le_bytes());
    tiff.extend_from_slice(&[0, 0, 0, 0]);
    tiff.extend_from_slice(&0x0006u16.to_le_bytes());
    tiff.extend_from_slice(&5u16.to_le_bytes());
    tiff.extend_from_slice(&1u32.to_le_bytes());
    tiff.extend_from_slice(&alt_offset.to_le_bytes());
    tiff.extend_from_slice(&0u32.to_le_bytes());

    assert_eq!(tiff.len(), lat_offset as usize);
    for (num, den) in [(37u32, 1u32), (34, 1), (12, 1)] {
        tiff.extend_from_slice(&num.to_le_bytes());
        tiff.extend_from_slice(&den.to_le_bytes());
    }
    assert_eq!(tiff.len(), lon_offset as usize);
    for (num, den) in [(127u32, 1u32), (1, 1), (30, 1)] {
        tiff.extend_from_slice(&num.to_le_bytes());
        tiff.extend_from_slice(&den.to_le_bytes());
    }
    assert_eq!(tiff.len(), alt_offset as usize);
    tiff.extend_from_slice(&42u32.to_le_bytes());
    tiff.extend_from_slice(&1u32.to_le_bytes());

    let mut payload = b"Exif\0\0".to_vec();
    payload.extend_from_slice(&tiff);
    let segment_len = u16::try_from(payload.len() + 2).unwrap();

    let mut jpeg = vec![0xff, 0xd8, 0xff, 0xe1];
    jpeg.extend_from_slice(&segment_len.to_be_bytes());
    jpeg.extend_from_slice(&payload);
    jpeg.extend_from_slice(&[0xff, 0xd9]);
    jpeg
}

fn minimal_jpeg_with_datetime_original(value: &str) -> Vec<u8> {
    let mut tiff = Vec::new();
    tiff.extend_from_slice(b"II");
    tiff.extend_from_slice(&42u16.to_le_bytes());
    tiff.extend_from_slice(&8u32.to_le_bytes());

    let ifd0_offset = 8usize;
    let exif_ifd_offset = 26u32;
    let datetime_offset = 44u32;

    assert_eq!(tiff.len(), ifd0_offset);
    tiff.extend_from_slice(&1u16.to_le_bytes());
    tiff.extend_from_slice(&0x8769u16.to_le_bytes());
    tiff.extend_from_slice(&4u16.to_le_bytes());
    tiff.extend_from_slice(&1u32.to_le_bytes());
    tiff.extend_from_slice(&exif_ifd_offset.to_le_bytes());
    tiff.extend_from_slice(&0u32.to_le_bytes());

    assert_eq!(tiff.len(), exif_ifd_offset as usize);
    tiff.extend_from_slice(&1u16.to_le_bytes());
    tiff.extend_from_slice(&0x9003u16.to_le_bytes());
    tiff.extend_from_slice(&2u16.to_le_bytes());
    tiff.extend_from_slice(&20u32.to_le_bytes());
    tiff.extend_from_slice(&datetime_offset.to_le_bytes());
    tiff.extend_from_slice(&0u32.to_le_bytes());

    assert_eq!(tiff.len(), datetime_offset as usize);
    tiff.extend_from_slice(value.as_bytes());
    tiff.push(0);

    let mut payload = b"Exif\0\0".to_vec();
    payload.extend_from_slice(&tiff);
    let segment_len = u16::try_from(payload.len() + 2).unwrap();

    let mut jpeg = vec![0xff, 0xd8, 0xff, 0xe1];
    jpeg.extend_from_slice(&segment_len.to_be_bytes());
    jpeg.extend_from_slice(&payload);
    jpeg.extend_from_slice(&[0xff, 0xd9]);
    jpeg
}

#[test]
fn converts_exif_datetime_to_display_datetime() {
    assert_eq!(
        exif_datetime_to_display("2012:08:27 00:29:55"),
        "2012-08-27 00:29:55"
    );
}

#[test]
fn converts_display_datetime_to_exif_datetime() {
    assert_eq!(
        display_datetime_to_exif("2012-08-27 00:29:55").unwrap(),
        "2012:08:27 00:29:55"
    );
}

#[test]
fn png_date_rewrite_preserves_existing_exif_metadata() {
    let original = build_basic_tiff(
        &ExifMetadata {
            has_exif: true,
            taken_date: "2015-12-26 03:53:22".to_string(),
            camera_make: "Preserved Camera".to_string(),
            camera_model: "Preserved Model".to_string(),
            ..ExifMetadata::default()
        },
        no_readings(),
    )
    .unwrap();

    let rewritten = rewrite_exif_tiff_dates(&original, "2016-01-02 11:22:33").unwrap();
    let metadata = read_exif_tiff_metadata(&rewritten).metadata;

    assert_eq!(metadata.camera_make, "Preserved Camera");
    assert_eq!(metadata.camera_model, "Preserved Model");
    assert_eq!(metadata.date_time_original, "2016-01-02 11:22:33");
    assert_eq!(metadata.date_time_digitized, "2015-12-26 03:53:22");
    assert_eq!(metadata.image_date_time, "2015-12-26 03:53:22");
}

#[test]
fn retains_individual_exif_date_sources_and_prefers_original() {
    let source = "2012:08:27 00:29:55";
    let mut tiff = build_basic_tiff(
        &ExifMetadata {
            has_exif: true,
            taken_date: "2012-08-27 00:29:55".to_string(),
            ..ExifMetadata::default()
        },
        no_readings(),
    )
    .unwrap();
    let offsets: Vec<usize> = tiff
        .windows(source.len())
        .enumerate()
        .filter_map(|(index, value)| {
            if value == source.as_bytes() {
                Some(index)
            } else {
                None
            }
        })
        .collect();
    assert_eq!(offsets.len(), 3);

    for (offset, value) in offsets.into_iter().zip([
        "2014:01:30 09:10:00",
        "2013:12:20 15:30:00",
        "2013:12:21 16:40:00",
    ]) {
        tiff[offset..offset + value.len()].copy_from_slice(value.as_bytes());
    }

    let metadata = parse_tiff(&tiff).unwrap().metadata;
    assert_eq!(metadata.image_date_time, "2014-01-30 09:10:00");
    assert_eq!(metadata.date_time_original, "2013-12-20 15:30:00");
    assert_eq!(metadata.date_time_digitized, "2013-12-21 16:40:00");
    assert_eq!(metadata.taken_date, "2013-12-20 15:30:00");
}

#[test]
fn accepts_exif_datetime_when_converting_for_write() {
    assert_eq!(
        display_datetime_to_exif("2012:08:27 00:29:55").unwrap(),
        "2012:08:27 00:29:55"
    );
}

#[test]
fn expands_display_date_to_midnight_when_converting_for_write() {
    assert_eq!(
        display_datetime_to_exif("2026-01-01").unwrap(),
        "2026:01:01 00:00:00"
    );
}

#[test]
fn extracts_datetime_from_filename_with_sequence_suffix() {
    assert_eq!(
        extract_datetime_from_filename("20130401_195241_001.jpg").as_deref(),
        Some("2013-04-01 19:52:41")
    );
    assert_eq!(
        extract_datetime_from_filename("20130401_195241_65.jpg").as_deref(),
        Some("2013-04-01 19:52:41")
    );
}

#[test]
fn extracts_datetime_from_separated_filename_patterns() {
    assert_eq!(
        extract_datetime_from_filename("IMG-2014-02-20-11-53-59.png").as_deref(),
        Some("2014-02-20 11:53:59")
    );
    assert_eq!(
        extract_datetime_from_filename("2014-02-20 11;53;59.PNG").as_deref(),
        Some("2014-02-20 11:53:59")
    );
    assert_eq!(
        extract_datetime_from_filename("2014-02-04 14.40.01.png").as_deref(),
        Some("2014-02-04 14:40:01")
    );
}

#[test]
fn writes_existing_taken_date_tag_in_place() {
    let mut bytes = minimal_jpeg_with_datetime_original("2012:08:27 00:29:55");
    write_taken_date_if_it_fits(&mut bytes, "2026-05-09 12:34:56")
        .unwrap()
        .unwrap();
    assert_eq!(
        read_exif_metadata(&bytes).metadata.taken_date,
        "2026-05-09 12:34:56"
    );
}

#[test]
fn writes_existing_camera_make_tag_in_place() {
    let mut bytes = minimal_jpeg_with_camera_make("Canon");
    write_camera_make(&mut bytes, "Sony").unwrap();
    assert_eq!(read_exif_metadata(&bytes).metadata.camera_make, "Sony");
}

#[test]
fn writes_existing_camera_model_tag_in_place() {
    let mut bytes = minimal_jpeg_with_camera_model("Canon");
    write_camera_model(&mut bytes, "Sony").unwrap();
    assert_eq!(read_exif_metadata(&bytes).metadata.camera_model, "Sony");
}

#[test]
fn generated_exif_file_allows_later_camera_model_write() {
    let mut bytes =
        rewrite_basic_exif_metadata(&EMPTY_JPEG, &ExifMetadata::default(), no_readings()).unwrap();
    write_camera_model(&mut bytes, "HTC-X315E").unwrap();
    assert_eq!(read_exif_metadata(&bytes).metadata.camera_model, "HTC-X315E");
}

#[test]
fn writes_existing_lens_model_tag_in_place() {
    let mut bytes = minimal_jpeg_with_lens_model("EF24-70mm");
    write_lens_model(&mut bytes, "RF24-70mm").unwrap();
    assert_eq!(read_exif_metadata(&bytes).metadata.lens_model, "RF24-70mm");
}

fn degrees(value: &Option<(String, ((u32, u32), (u32, u32), (u32, u32)))>) -> String {
    match value {
        Some((reference, (d, m, s))) => {
            let part = |p: &(u32, u32)| f64::from(p.0) / f64::from(p.1);
            let sum = part(d) + part(m) / 60.0 + part(s) / 3600.0;
            let sign = if reference == "S" || reference == "W" {
                -1.0
            } else {
                1.0
            };
            format!("{:.6}", sign * sum)
        }
        None => String::new(),
    }
}

fn meters(value: &Option<(bool, (u32, u32))>) -> String {
    match value {
        Some((below, (n, d))) => {
            let sign = if *below { -1.0 } else { 1.0 };
            format!("{:.2} m", sign * f64::from(*n) / f64::from(*d))
        }
        None => String::new(),
    }
}

#[test]
fn removes_gps_information() {
    let mut bytes = minimal_jpeg_with_gps();

    let before = read_exif_metadata(&bytes).numbers;
    assert_eq!(degrees(&before.latitude), "37.570000");
    assert_eq!(degrees(&before.longitude), "127.025000");
    assert_eq!(meters(&before.altitude), "42.00 m");

    exif_file_tool::exif_edit::remove_gps_information(&mut bytes).unwrap();

    let after = read_exif_metadata(&bytes).numbers;
    assert_eq!(degrees(&after.latitude), "");
    assert_eq!(degrees(&after.longitude), "");
    assert_eq!(meters(&after.altitude), "");
}

#[test]
fn creates_new_exif_file_when_jpeg_has_no_exif() {
    let metadata = ExifMetadata {
        has_exif: true,
        taken_date: "2026-05-09 12:34:56".to_string(),
        camera_make: "Sony".to_string(),
        camera_model: "A7C".to_string(),
        lens_model: "FE 35mm F1.8".to_string(),
        software: "SH148 EXIF-File Tool".to_string(),
        artist: "tester".to_string(),
        shutter_speed: "1/125".to_string(),
        aperture: "f/2.8".to_string(),
        iso_speed: "400".to_string(),
        focal_length: "35 mm".to_string(),
        flash_fired: "No".to_string(),
        metering_mode: "Pattern".to_string(),
        orientation: "Normal".to_string(),
        color_space: "sRGB".to_string(),
        ..ExifMetadata::default()
    };
    let readings = DecimalReadings {
        shutter_speed: DecimalReading::NotANumber,
        aperture: DecimalReading::Scaled(28),
        focal_length: DecimalReading::Scaled(35000),
    };

    assert!(!read_exif_metadata(&EMPTY_JPEG).metadata.has_exif);
    let output = rewrite_basic_exif_metadata(&EMPTY_JPEG, &metadata, readings).unwrap();

    let reading = read_exif_metadata(&output);
    let written = reading.metadata;
    assert!(written.has_exif);
    assert_eq!(written.taken_date, "2026-05-09 12:34:56");
    assert_eq!(written.camera_make, "Sony");
    assert_eq!(written.camera_model, "A7C");
    assert_eq!(written.lens_model, "FE 35mm F1.8");
    assert_eq!(written.iso_speed, "400");
    assert_eq!(written.flash_fired, "No");
    assert_eq!(written.metering_mode, "Pattern");
    assert_eq!(written.orientation, "Normal");
    assert_eq!(written.color_space, "sRGB");
    assert_eq!(reading.numbers.shutter_speed, Some((1, 125)));
    assert_eq!(reading.numbers.aperture, Some((28, 10)));
    assert_eq!(reading.numbers.focal_length, Some((35000, 1000)));
}

#[test]
fn creates_exif_without_backup_when_disabled() {
    let metadata = ExifMetadata {
        camera_make: "Sony".to_string(),
        ..ExifMetadata::default()
    };
    let output = rewrite_basic_exif_metadata(&EMPTY_JPEG, &metadata, no_readings()).unwrap();
    assert_eq!(read_exif_metadata(&output).metadata.camera_make, "Sony");
}

#[test]
fn refuses_to_add_missing_tag_to_existing_exif() {
    let mut bytes = minimal_jpeg_with_camera_make("Canon");
    let before = bytes.clone();

    let err = write_lens_model(&mut bytes, "RF24-70mm").unwrap_err();

    assert!(err.contains("does not create missing tags"));
    assert_eq!(bytes, before);
    assert_eq!(read_exif_metadata(&bytes).metadata.camera_make, "Canon");
    assert_eq!(read_exif_metadata(&bytes).metadata.lens_model, "");
}

#[test]
fn individual_tag_removal_preserves_other_raw_exif_entries() {
    let mut jpeg = minimal_jpeg_with_camera_make("Preserve me");
    let tag_position = jpeg
        .windows(2)
        .position(|bytes| bytes == [0x0f, 0x01])
        .expect("camera make tag");
    jpeg[tag_position..tag_position + 2].copy_from_slice(&0x010eu16.to_le_bytes());

    let without_model = remove_exif_tag(&jpeg, "camera_model").unwrap();
    assert_eq!(
        read_exif_metadata(&without_model).metadata.image_description,
        "Preserve me"
    );

    let without_both = remove_exif_tag(&without_model, "image_description").unwrap();
    assert_eq!(
        read_exif_metadata(&without_both).metadata.image_description,
        ""
    );
}

#[test]
fn repairs_existing_exif_when_camera_model_tag_is_missing() {
    let bytes = minimal_jpeg_with_datetime_original("2012:09:02 14:39:12");
    let mut metadata = read_exif_metadata(&bytes).metadata;
    metadata.camera_model = "HTC-X315E".to_string();

    let output = rewrite_repairable_exif_metadata(&bytes, &metadata, no_readings()).unwrap();

    let written = read_exif_metadata(&output).metadata;
    assert_eq!(written.taken_date, "2012-09-02 14:39:12");
    assert_eq!(written.camera_model, "HTC-X315E");
}

#[test]
fn repairs_existing_exif_without_backup_when_disabled() {
    let bytes = minimal_jpeg_with_datetime_original("2012:09:02 14:39:12");
    let mut metadata = read_exif_metadata(&bytes).metadata;
    metadata.camera_model = "HTC-X315E".to_string();
    let output = rewrite_repairable_exif_metadata(&bytes, &metadata, no_readings()).unwrap();
    assert_eq!(read_exif_metadata(&output).metadata.camera_model, "HTC-X315E");
}

#[test]
fn refuses_to_rewrite_existing_exif_structure() {
    let bytes = minimal_jpeg_with_camera_make("Canon");
    let mut metadata = ExifMetadata::default();
    metadata.camera_make = "Sony".to_string();
    let err = rewrite_basic_exif_metadata(&bytes, &metadata, no_readings()).unwrap_err();

    assert!(err.contains("Refusing to rewrite an existing EXIF structure"));
    assert_eq!(read_exif_metadata(&bytes).metadata.camera_make, "Canon");
}

#[test]
fn rewrites_generated_exif_file_in_place() {
    let metadata = ExifMetadata {
        camera_make: "Sony".to_string(),
        camera_model: "A7C".to_string(),
        ..ExifMetadata::default()
    };
    let output = rewrite_basic_exif_metadata(&EMPTY_JPEG, &metadata, no_readings()).unwrap();
    let mut updated = read_exif_metadata(&output).metadata;
    updated.lens_model = "FE 24-70mm F2.8 GM II".to_string();

    let again = rewrite_generated_basic_exif_metadata(&output, &updated, no_readings()).unwrap();

    let written = read_exif_metadata(&again).metadata;
    assert_eq!(written.camera_make, "Sony");
    assert_eq!(written.camera_model, "A7C");
    assert_eq!(written.lens_model, "FE 24-70mm F2.8 GM II");
}

#[test]
fn rewrites_basic_generated_exif_shape_in_place() {
    let bytes = minimal_jpeg_with_camera_make("Canon");
    let mut metadata = read_exif_metadata(&bytes).metadata;
    metadata.camera_model = "HTC-X315E".to_string();

    let mut output = rewrite_generated_basic_exif_metadata(&bytes, &metadata, no_readings()).unwrap();
    write_camera_model(&mut output, "HTC-X315E").unwrap();

    let written = read_exif_metadata(&output).metadata;
    assert_eq!(written.camera_make, "Canon");
    assert_eq!(written.camera_model, "HTC-X315E");
}

#[test]
fn removes_every_exif_app1_segment_but_preserves_other_app1_data() {
    let first = minimal_jpeg_with_camera_make("Canon");
    let exif_segment = &first[2..first.len() - 2];
    let xmp_payload = b"http://ns.adobe.com/xap/1.0/\0<xmp>keep</xmp>";
    let xmp_len = u16::try_from(xmp_payload.len() + 2).unwrap();
    let mut jpeg = vec![0xff, 0xd8];
    jpeg.extend_from_slice(exif_segment);
    jpeg.extend_from_slice(&[0xff, 0xe1]);
    jpeg.extend_from_slice(&xmp_len.to_be_bytes());
    jpeg.extend_from_slice(xmp_payload);
    jpeg.extend_from_slice(exif_segment);
    jpeg.extend_from_slice(&[0xff, 0xd9]);

    let (updated, removed) = remove_exif_metadata(&jpeg).unwrap();

    assert!(removed);
    assert!(find_exif_app1_range(&updated).is_none());
    assert!(updated
        .windows(xmp_payload.len())
        .any(|window| window == xmp_payload));
    assert!(!read_exif_metadata(&updated).metadata.has_exif);
}

// What the other parts do.

#[test]
fn the_fast_reader_finds_the_same_data() {
    let bytes = minimal_jpeg_with_camera_make("Canon");
    let tiff = read_jpeg_exif_tiff(&bytes).unwrap();
    assert_eq!(read_exif_tiff_metadata(&tiff).metadata.camera_make, "Canon");
    assert!(read_jpeg_exif_tiff(&EMPTY_JPEG).is_none());
}

#[test]
fn every_field_can_be_asked_for() {
    let metadata = ExifMetadata {
        artist: "tester".to_string(),
        ..ExifMetadata::default()
    };
    assert_eq!(metadata.get(Field::Artist), "tester");
    assert_eq!(metadata.get(Field::Copyright), "");
}

#[test]
fn dates_that_cannot_be_read_are_refused_or_kept() {
    assert!(display_datetime_to_exif("yesterday").is_err());
    assert_eq!(exif_datetime_to_display("yesterday"), "yesterday");
    assert_eq!(normalize_date("2020-01-02"), "2020-01-02 00:00:00");
    assert_eq!(normalize_date("2020-01-02 03:04:05"), "2020-01-02 03:04:05");
}

#[test]
fn a_date_replaces_none_or_a_later_one() {
    assert!(should_apply_taken_date_candidate("", "2020-01-02 03:04:05"));
    assert!(should_apply_taken_date_candidate("-", "2020-01-02 03:04:05"));
    assert!(should_apply_taken_date_candidate("2021-01-01 00:00:00", "2020-01-02 03:04:05"));
    assert!(!should_apply_taken_date_candidate("2019-01-01 00:00:00", "2020-01-02 03:04:05"));
}

#[test]
fn the_earliest_of_several_dates_in_a_name_counts() {
    assert_eq!(
        extract_datetime_from_filename("20200102_030405_20190102_030405.jpg").as_deref(),
        Some("2019-01-02 03:04:05")
    );
    assert_eq!(extract_datetime_from_filename("holiday.jpg"), None);
    assert_eq!(extract_datetime_from_filename("20201302_030405.jpg"), None);
}

#[test]
fn values_are_shown_and_read_back() {
    for n in 1..=8u16 {
        assert_eq!(parse_orientation_value(&format_orientation(n)), Ok(n));
    }
    for n in 1..=6u16 {
        assert_eq!(parse_metering_mode_value(&format_metering(n)), Ok(n));
    }
    assert_eq!(parse_color_space_value(&format_color_space(1)), Ok(1));
    assert_eq!(parse_color_space_value(&format_color_space(65535)), Ok(65535));
    assert_eq!(parse_flash_value(&format_flash(0)), Ok(0));
    assert_eq!(parse_flash_value(&format_flash(1)), Ok(1));
    assert_eq!(format_white_balance(0), "Auto");
    assert_eq!(format_exposure_program(1), "Manual");
    assert_eq!(parse_u16_value("400"), Ok(400));
    assert!(parse_u16_value("many").is_err());
}

#[test]
fn fractions_are_entered_in_several_ways() {
    let none = DecimalReading::NotANumber;
    assert_eq!(parse_exif_rational_value("1/125 s", none), Ok((1, 125)));
    assert!(parse_exif_rational_value("1/x", none).is_err());
    assert!(parse_exif_rational_value("fast", none).is_err());
    assert!(parse_exif_rational_value("-2", DecimalReading::NotPositive).is_err());
    assert_eq!(
        parse_exif_rational_value("35 mm", DecimalReading::Scaled(35000)),
        Ok((35000, 1000))
    );
    assert_eq!(aperture_decimal_text("f/2.8"), "2.8");
    assert_eq!(parse_aperture_value(DecimalReading::Scaled(28)), Ok((28, 10)));
    assert!(parse_aperture_value(none).is_err());
    assert!(parse_aperture_value(DecimalReading::NotPositive).is_err());
}

fn complete_jpeg() -> Vec<u8> {
    let metadata = ExifMetadata {
        has_exif: true,
        taken_date: "2026-05-09 12:34:56".to_string(),
        camera_make: "Sony Corporation".to_string(),
        camera_model: "A7C camera".to_string(),
        lens_model: "FE 35mm F1.8".to_string(),
        software: "Some software".to_string(),
        artist: "Some artist".to_string(),
        shutter_speed: "1/125".to_string(),
        aperture: "f/2.8".to_string(),
        iso_speed: "400".to_string(),
        focal_length: "35 mm".to_string(),
        flash_fired: "No".to_string(),
        metering_mode: "Pattern".to_string(),
        orientation: "Normal".to_string(),
        color_space: "sRGB".to_string(),
        ..ExifMetadata::default()
    };
    let readings = DecimalReadings {
        shutter_speed: DecimalReading::NotANumber,
        aperture: DecimalReading::Scaled(28),
        focal_length: DecimalReading::Scaled(35000),
    };
    rewrite_basic_exif_metadata(&EMPTY_JPEG, &metadata, readings).unwrap()
}

#[test]
fn each_tag_of_a_file_is_written_in_place() {
    let mut bytes = complete_jpeg();
    let len = bytes.len();
    write_software(&mut bytes, "Other").unwrap();
    write_artist(&mut bytes, "Nobody").unwrap();
    write_iso_speed(&mut bytes, "800").unwrap();
    write_flash_fired(&mut bytes, "Yes").unwrap();
    write_metering_mode(&mut bytes, "Spot").unwrap();
    write_orientation(&mut bytes, "6").unwrap();
    write_color_space(&mut bytes, "Uncalibrated").unwrap();
    write_shutter_speed(&mut bytes, "1/60", DecimalReading::NotANumber).unwrap();
    write_aperture(&mut bytes, DecimalReading::Scaled(40)).unwrap();
    write_focal_length(&mut bytes, "50 mm", DecimalReading::Scaled(50000)).unwrap();
    let reading = read_exif_metadata(&bytes);
    assert_eq!(bytes.len(), len);
    assert_eq!(reading.metadata.software, "Other");
    assert_eq!(reading.metadata.artist, "Nobody");
    assert_eq!(reading.metadata.iso_speed, "800");
    assert_eq!(reading.metadata.flash_fired, "Yes");
    assert_eq!(reading.metadata.metering_mode, "Spot");
    assert_eq!(reading.metadata.orientation, "Rotated 90");
    assert_eq!(reading.metadata.color_space, "Uncalibrated");
    assert_eq!(reading.numbers.shutter_speed, Some((1, 60)));
    assert_eq!(reading.numbers.aperture, Some((40, 10)));
    assert_eq!(reading.numbers.focal_length, Some((50000, 1000)));
    assert_eq!(reading.metadata.camera_model, "A7C camera");
}

#[test]
fn values_that_cannot_be_written_change_nothing() {
    let mut bytes = complete_jpeg();
    let before = bytes.clone();
    assert!(write_iso_speed(&mut bytes, "many").is_err());
    assert!(write_orientation(&mut bytes, "Sideways").is_err());
    assert!(write_shutter_speed(&mut bytes, "1/x", DecimalReading::NotANumber).is_err());
    assert!(write_aperture(&mut bytes, DecimalReading::NotANumber).is_err());
    assert!(write_taken_date_if_it_fits(&mut bytes, "yesterday").unwrap().is_err());
    assert_eq!(bytes, before);
    let mut text = b"no picture".to_vec();
    assert!(write_camera_make(&mut text, "Sony").is_err());
}

#[test]
fn only_basic_structures_are_rewritten() {
    assert!(is_generated_new_exif_path(&complete_jpeg()));
    assert!(!is_generated_new_exif_path(&minimal_jpeg_with_gps()));
    assert!(!is_generated_new_exif_path(&EMPTY_JPEG));
    let metadata = ExifMetadata::default();
    assert!(rewrite_generated_basic_exif_metadata(&minimal_jpeg_with_gps(), &metadata, no_readings()).is_err());
    assert!(rewrite_repairable_exif_metadata(&minimal_jpeg_with_gps(), &metadata, no_readings()).is_err());
    assert_eq!(
        rewrite_repairable_exif_metadata(&EMPTY_JPEG, &metadata, no_readings()),
        Err("EXIF data was not found.".to_string())
    );
    assert!(rewrite_basic_exif_metadata(b"text", &metadata, no_readings()).is_err());
}

#[test]
fn a_structure_with_nothing_but_a_date_can_be_made_and_unmade() {
    let tiff = create_date_only_exif_tiff("2020-01-02 03:04:05").unwrap();
    assert_eq!(
        read_exif_tiff_metadata(&tiff).metadata.date_time_original,
        "2020-01-02 03:04:05"
    );
    let without = remove_exif_tiff_date_time_original(&tiff).unwrap();
    assert_eq!(read_exif_tiff_metadata(&without).metadata.date_time_original, "");
    assert!(create_date_only_exif_tiff("yesterday").is_err());
    assert!(rewrite_exif_tiff_dates(b"xx", "2020-01-02 03:04:05").is_err());
}

#[test]
fn rewritten_directories_are_sorted_and_keep_what_follows() {
    let mut tiff = vec![0x49, 0x49, 42, 0, 8, 0, 0, 0, 2, 0];
    tiff.extend_from_slice(&[0x32, 0x01, 3, 0, 1, 0, 0, 0, 1, 0, 0, 0]);
    tiff.extend_from_slice(&[0x0f, 0x01, 3, 0, 1, 0, 0, 0, 2, 0, 0, 0]);
    tiff.extend_from_slice(&[0x02, 0x01, 0, 0]);
    let read = |bytes: &[u8]| {
        let at = u32::from_le_bytes(bytes[4..8].try_into().unwrap()) as usize;
        let count = u16::from_le_bytes(bytes[at..at + 2].try_into().unwrap()) as usize;
        let tags: Vec<u16> = (0..count)
            .map(|i| at + 2 + 12 * i)
            .map(|from| u16::from_le_bytes(bytes[from..from + 2].try_into().unwrap()))
            .collect();
        let end = at + 2 + 12 * count;
        (tags, u32::from_le_bytes(bytes[end..end + 4].try_into().unwrap()))
    };
    let dated = rewrite_exif_tiff_dates(&tiff, "2020-01-02 03:04:05").unwrap();
    assert_eq!(read(&dated), (vec![0x010f, 0x0132, 0x8769], 0x0102));
    assert_eq!(dated[8..tiff.len()], tiff[8..]);
    let without = remove_exif_tiff_date_time_original(&dated).unwrap();
    assert_eq!(read(&without), (vec![0x010f, 0x0132, 0x8769], 0x0102));
}

#[test]
fn unknown_rows_cannot_be_removed() {
    assert!(remove_exif_tag(&complete_jpeg(), "unknown_row").is_err());
    assert!(remove_exif_tag(&EMPTY_JPEG, "camera_make").is_err());
    let mut bytes = EMPTY_JPEG.to_vec();
    assert!(remove_gps_information(&mut bytes).is_err());
    assert!(remove_exif_metadata(b"text").is_err());
}

#[test]
fn a_backup_is_named_after_its_file() {
    assert_eq!(exif_backup_path("photo.jpg"), "photo.bak_exif");
}

#[test]
fn a_segment_carries_the_structure() {
    let segment = build_basic_exif_app1(&ExifMetadata::default(), no_readings()).unwrap();
    assert_eq!(&segment[..2], &[0xff, 0xe1]);
    assert_eq!(&segment[4..10], b"Exif\0\0");
    assert_eq!(
        usize::from(u16::from_be_bytes([segment[2], segment[3]])),
        segment.len() - 2
    );
}

// Changes of tags, one after the other.

fn value(field: usize, text: &str) -> TagWrite {
    TagWrite::Value(field, text.to_string())
}

#[test]
fn each_field_is_written_by_its_own_rule() {
    let mut bytes = complete_jpeg();
    let readings = DecimalReadings {
        shutter_speed: DecimalReading::NotANumber,
        aperture: DecimalReading::Scaled(40),
        focal_length: DecimalReading::Scaled(50000),
    };
    let writes = [
        value(TAKEN_DATE, "2020-01-02 03:04:05"),
        value(CAMERA_MAKE, "Nikon"),
        value(CAMERA_MODEL, "Z5"),
        value(LENS_MODEL, "Z 40mm"),
        value(SOFTWARE, "None"),
        value(ARTIST, "Nobody"),
        value(SHUTTER_SPEED, "1/60"),
        value(APERTURE, "f/4"),
        value(ISO_SPEED, "800"),
        value(FOCAL_LENGTH, "50 mm"),
        value(FLASH_FIRED, "Yes"),
        value(METERING_MODE, "Spot"),
        value(ORIENTATION, "6"),
        value(COLOR_SPACE, "Uncalibrated"),
    ];
    assert!(matches!(apply_tag_writes(&mut bytes, &writes, readings), WritesEnd::Done));
    let reading = read_exif_metadata(&bytes);
    assert_eq!(reading.metadata.taken_date, "2020-01-02 03:04:05");
    assert_eq!(reading.metadata.camera_make, "Nikon");
    assert_eq!(reading.metadata.camera_model, "Z5");
    assert_eq!(reading.metadata.lens_model, "Z 40mm");
    assert_eq!(reading.metadata.software, "None");
    assert_eq!(reading.metadata.artist, "Nobody");
    assert_eq!(reading.metadata.iso_speed, "800");
    assert_eq!(reading.metadata.flash_fired, "Yes");
    assert_eq!(reading.metadata.metering_mode, "Spot");
    assert_eq!(reading.metadata.orientation, "Rotated 90");
    assert_eq!(reading.metadata.color_space, "Uncalibrated");
    assert_eq!(reading.numbers.shutter_speed, Some((1, 60)));
    assert_eq!(reading.numbers.aperture, Some((40, 10)));
    assert_eq!(reading.numbers.focal_length, Some((50000, 1000)));
}

#[test]
fn a_missing_tag_ends_the_changes_and_is_repaired() {
    let mut bytes = minimal_jpeg_with_camera_make("Sony");
    let writes = [value(CAMERA_MAKE, "Fuji"), value(CAMERA_MODEL, "X100"), value(CAMERA_MAKE, "Leic")];
    let end = apply_tag_writes(&mut bytes, &writes, no_readings());
    assert!(matches!(&end, WritesEnd::Failed(e) if e.contains("No writable EXIF tag was found")));
    let now = read_exif_metadata(&bytes).metadata;
    assert_eq!(now.camera_make, "Fuji");
    assert!(matches!(after_tag_writes(end), AfterWrites::Repair));
    let mut form = DetailsForm::new();
    form.selected_file_count = 1;
    form.set_value(CAMERA_MODEL, "X100");
    form.update_metadata_dirty_state();
    let repaired = repair_tags(&bytes, &form, &now, &PendingDate::NotUsed, no_readings()).unwrap();
    let metadata = read_exif_metadata(&repaired).metadata;
    assert_eq!(metadata.camera_make, "Fuji");
    assert_eq!(metadata.camera_model, "X100");
    let other = minimal_jpeg_with_gps();
    assert!(repair_tags(&other, &form, &now, &PendingDate::NotUsed, no_readings())
        .unwrap_err()
        .contains("refused to prevent metadata loss"));
}

#[test]
fn other_errors_end_a_save() {
    let mut bytes = complete_jpeg();
    let before = bytes.clone();
    let writes = [value(ISO_SPEED, "many"), value(CAMERA_MAKE, "Nikon")];
    let end = apply_tag_writes(&mut bytes, &writes, no_readings());
    assert_eq!(bytes, before);
    let expected = write_iso_speed(&mut bytes, "many").unwrap_err();
    assert!(matches!(after_tag_writes(end), AfterWrites::Failed(e) if e == expected));
    let refused = [TagWrite::Refuse("not today".to_string())];
    assert!(matches!(
        after_tag_writes(apply_tag_writes(&mut bytes, &refused, no_readings())),
        AfterWrites::Failed(e) if e == "not today"
    ));
    assert!(matches!(after_tag_writes(WritesEnd::Done), AfterWrites::Saved));
}

#[test]
fn some_changes_are_left_to_the_caller() {
    let mut bytes = complete_jpeg();
    let writes = [
        value(CAMERA_MODEL, "Z5"),
        TagWrite::GpsDate("2015-05-14".to_string()),
        value(CAMERA_MAKE, "Nikon"),
    ];
    let end = apply_tag_writes(&mut bytes, &writes, no_readings());
    assert!(matches!(after_tag_writes(end), AfterWrites::Left(1)));
    let metadata = read_exif_metadata(&bytes).metadata;
    assert_eq!((metadata.camera_model.as_str(), metadata.camera_make.as_str()), ("Z5", "Sony Corporation"));
    let before = bytes.clone();
    let mut short = minimal_jpeg_with_camera_model("A7");
    assert!(apply_tag_write(&mut short, &value(CAMERA_MODEL, "A7C camera"), no_readings())
        .unwrap()
        .unwrap_err()
        .contains("No writable EXIF tag was found"));
    assert!(apply_tag_write(&mut bytes, &value(NAME, "a"), no_readings()).is_none());
    assert_eq!(bytes, before);
    let mut fraction = minimal_jpeg_with_camera_make("Sony Corporation");
    let at = fraction.windows(4).position(|part| part == [0x0f, 0x01, 0x02, 0x00]).unwrap();
    fraction[at + 2] = 5;
    fraction[at + 4] = 1;
    let before = fraction.clone();
    assert!(apply_tag_write(&mut fraction, &value(CAMERA_MAKE, "Nikon Corporation"), no_readings()).is_none());
    assert_eq!(fraction, before);
    let mut placed = minimal_jpeg_with_gps();
    assert!(matches!(
        apply_tag_writes(&mut placed, &[TagWrite::RemoveGps], no_readings()),
        WritesEnd::Done
    ));
    assert_eq!(read_exif_metadata(&placed).metadata.gps_date_stamp, "");
}

#[test]
fn a_created_structure_shows_its_date_everywhere() {
    let metadata = ExifMetadata {
        taken_date: "2026-05-09 12:34:56".to_string(),
        ..ExifMetadata::default()
    };
    let output = rewrite_basic_exif_metadata(&EMPTY_JPEG, &metadata, no_readings()).unwrap();
    assert!(is_generated_new_exif_path(&output));
    let written = read_exif_metadata(&output).metadata;
    assert_eq!(written.taken_date, "2026-05-09 12:34:56");
    assert_eq!(written.date_time_original, "2026-05-09 12:34:56");
    assert_eq!(written.date_time_digitized, "2026-05-09 12:34:56");
    assert_eq!(written.image_date_time, "2026-05-09 12:34:56");
    assert_eq!(written.camera_make, "");
}
