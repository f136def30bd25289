use exif_file_tool::datetime::{
    format_datetime_for_display, parse_display_datetime_or_date, Moment,
};
use exif_file_tool::exif::read_exif_metadata;
use exif_file_tool::jpeg::{
    build_exif_app1_from_tiff, find_exif_tiff_start, replace_or_insert_exif_app1,
};
use exif_file_tool::media::{
    failed_result, failed_result_for_path, fallback_video_media_type, is_image_path, is_video_path,
    matches_file_filter, movie_result, plan_scan, scan_jpeg, scan_png, transport_stream_result,
    MediaScanResult, ScanPlan,
};
use exif_file_tool::mp4::{
    find_creation_time_fields, interpret_quicktime_creation_date, parse_media_date,
    quicktime_moment, quicktime_seconds, restore_creation_time_values, scan_atoms,
    should_use_camera_local_time, write_mp4_media_date, LocalTimes, MovieHeaderTimeInfo,
    QUICKTIME_UNIX_EPOCH_OFFSET,
};
use exif_file_tool::mpeg_ts::{has_transport_stream_signature, M2TS_PACKET_SIZE, TS_PACKET_SIZE};
use exif_file_tool::png::{
    creation_time_to_display, display_to_creation_time, find_chunk, find_text_chunk, make_chunk,
    png_crc32, read_date_sources, remove_date_metadata, replace_or_insert_chunk,
    replace_or_insert_creation_time_chunk, write_date_sources, write_png_media_date,
};

const PNG_SIGNATURE: [u8; 8] = [137, 80, 78, 71, 13, 10, 26, 10];

const CREATION_TIME_KEYWORD: &[u8] = b"Creation Time";

fn moment(text: &str) -> Moment {
    parse_display_datetime_or_date(text).unwrap()
}

/// Scans a file on a machine whose time zone is UTC.
fn scan(name: &str, bytes: &[u8]) -> MediaScanResult {
    let first = bytes.len().min(M2TS_PACKET_SIZE * 3);
    match plan_scan(name, &bytes[..first]) {
        ScanPlan::Jpeg => scan_jpeg(bytes).result,
        ScanPlan::Png => scan_png(bytes),
        ScanPlan::TransportStream => transport_stream_result(),
        ScanPlan::Known(result) => result,
        ScanPlan::IsoMedia(media_type, untyped) => match scan_atoms(bytes, untyped) {
            Err(_) => failed_result("mp4", &media_type),
            Ok(summary) => {
                let (date, interpretation) = match summary.creation_seconds() {
                    None => (None, String::new()),
                    Some(seconds) => match quicktime_moment(seconds) {
                        None => (None, String::new()),
                        Some(creation) => interpret_quicktime_creation_date(
                            seconds,
                            summary.movie_header,
                            LocalTimes {
                                creation,
                                modification: None,
                                file_modified: None,
                            },
                        ),
                    },
                };
                movie_result(&summary, &media_type, &date, &interpretation)
            }
        },
    }
}

/// The QuickTime time of a date that was entered where the time zone is UTC.
fn entered(date: &str) -> u64 {
    let m = parse_media_date(date).unwrap();
    let day = chrono::NaiveDate::from_ymd_opt(m.year, m.month, m.day).unwrap();
    let time = day.and_hms_opt(m.hour, m.minute, m.second).unwrap();
    quicktime_seconds(time.and_utc().timestamp()).unwrap()
}

// JPEG images.

fn minimal_jpeg_with_taken_date(value: &str) -> Vec<u8> {
    let mut tiff = Vec::new();
    tiff.extend_from_slice(b"II");
    tiff.extend_from_slice(&42u16.to_le_bytes());
    tiff.extend_from_slice(&8u32.to_le_bytes());
    tiff.extend_from_slice(&1u16.to_le_bytes());
    tiff.extend_from_slice(&0x0132u16.to_le_bytes());
    tiff.extend_from_slice(&2u16.to_le_bytes());
    let mut value_bytes = value.as_bytes().to_vec();
    value_bytes.push(0);
    tiff.extend_from_slice(&(value_bytes.len() as u32).to_le_bytes());
    tiff.extend_from_slice(&26u32.to_le_bytes());
    tiff.extend_from_slice(&0u32.to_le_bytes());
    tiff.extend_from_slice(&value_bytes);

    let mut payload = b"Exif\0\0".to_vec();
    payload.extend_from_slice(&tiff);
    let mut jpeg = vec![0xff, 0xd8, 0xff, 0xe1];
    jpeg.extend_from_slice(&((payload.len() + 2) as u16).to_be_bytes());
    jpeg.extend_from_slice(&payload);
    jpeg.extend_from_slice(&[0xff, 0xd9]);
    jpeg
}

#[test]
fn fast_scan_matches_existing_reader_for_basic_exif() {
    let bytes = minimal_jpeg_with_taken_date("2012:08:15 02:30:00");

    let existing = read_exif_metadata(&bytes).metadata;
    let scanned = scan_jpeg(&bytes).result;

    assert!(existing.has_exif);
    assert_eq!(scanned.media_date, existing.taken_date);
    assert_eq!(scanned.metadata_status, "O");
}

#[test]
fn exif_segments_are_replaced_or_inserted() {
    let bytes = minimal_jpeg_with_taken_date("2012:08:15 02:30:00");
    assert_eq!(find_exif_tiff_start(&bytes), Some(12));
    let segment = build_exif_app1_from_tiff(b"II*\0").unwrap();
    assert_eq!(&segment[..4], &[0xff, 0xe1, 0, 12]);
    let replaced = replace_or_insert_exif_app1(&bytes, &segment).unwrap();
    assert_eq!(replaced.len(), 2 + segment.len() + 2);
    assert!(replace_or_insert_exif_app1(b"text", &segment).is_err());
    assert!(build_exif_app1_from_tiff(&vec![0; 70000]).is_err());
    assert_eq!(scan("a.jpg", &[0xff, 0xd8, 0xff, 0xd9]).metadata_status, "X");
}

// Files of any kind.

#[test]
fn keeps_mp4_kind_when_metadata_scan_fails() {
    let result = scan("failed.mp4", b"not an mp4 container");
    assert_eq!(result.media_kind, "mp4");
    assert_eq!(result.media_type, "MPEG-4 media");
    assert_eq!(result.metadata_status, "!");
}

#[test]
fn classifies_3gpp_brand_and_avchd_transport_stream() {
    let mut ftyp = Vec::new();
    ftyp.extend_from_slice(&20u32.to_be_bytes());
    ftyp.extend_from_slice(b"ftyp");
    ftyp.extend_from_slice(b"3gp5");
    ftyp.extend_from_slice(&0u32.to_be_bytes());
    ftyp.extend_from_slice(b"3gp5");
    let gp = scan("media.3gp", &ftyp);
    assert_eq!(gp.media_kind, "mp4");
    assert_eq!(gp.media_type, "3GPP media");

    let mut packets = vec![0u8; 192 * 3];
    for offset in [4, 196, 388] {
        packets[offset] = 0x47;
    }
    let mts = scan("media.m2ts", &packets);
    assert_eq!(mts.media_kind, "mts");
    assert_eq!(mts.media_type, "AVCHD transport stream");
    assert_eq!(mts.media_date, "-");
}

#[test]
fn names_tell_what_is_expected() {
    assert!(is_image_path("a.JPEG") && is_image_path("a.png") && !is_image_path("a.gif"));
    assert!(is_video_path("a.mov") && is_video_path("a.MTS") && !is_video_path("mov"));
    assert_eq!(fallback_video_media_type("a.3g2"), "3GPP2 media");
    assert_eq!(fallback_video_media_type("a.qt"), "QuickTime movie");
    let unknown = scan("notes.txt", b"notes");
    assert_eq!((unknown.media_kind.as_str(), unknown.metadata_status.as_str()), ("other", "-"));
    let failed = failed_result_for_path("a.png", "Unknown");
    assert_eq!((failed.media_kind.as_str(), failed.metadata_status.as_str()), ("png", "!"));
    assert!(matches_file_filter(0, "a.mov") && !matches_file_filter(0, "a.txt"));
    assert!(matches_file_filter(1, "a.png") && !matches_file_filter(1, "a.mov"));
    assert!(matches_file_filter(2, "a.mov") && !matches_file_filter(2, "a.png"));
    assert!(matches_file_filter(3, "a.txt"));
}

// Transport streams.

#[test]
fn detects_188_and_192_byte_transport_stream_packets() {
    let mut ts = vec![0u8; TS_PACKET_SIZE * 3];
    for offset in [0, TS_PACKET_SIZE, TS_PACKET_SIZE * 2] {
        ts[offset] = 0x47;
    }
    assert!(has_transport_stream_signature(&ts));

    let mut m2ts = vec![0u8; M2TS_PACKET_SIZE * 3];
    for offset in [4, 4 + M2TS_PACKET_SIZE, 4 + M2TS_PACKET_SIZE * 2] {
        m2ts[offset] = 0x47;
    }
    assert!(has_transport_stream_signature(&m2ts));
    assert!(!has_transport_stream_signature(&[0u8; M2TS_PACKET_SIZE * 3]));
}

// Movies.

#[test]
fn mp4_accepts_a_media_date_without_a_time() {
    assert_eq!(
        format_datetime_for_display(parse_display_datetime_or_date("2014-02-04").unwrap()),
        "2014-02-04 00:00:00"
    );
}

#[test]
fn detects_a_coherent_camera_local_quicktime_timeline() {
    let raw_creation = moment("2016-07-18 21:02:36");
    let raw_modification = moment("2016-07-18 21:07:48");
    let standard_modification = moment("2016-07-19 06:07:48");
    let file_modified = moment("2016-07-18 21:07:50");

    assert!(should_use_camera_local_time(
        raw_creation,
        raw_modification,
        standard_modification,
        file_modified,
        Some((311_311, 1000)),
    ));
}

#[test]
fn does_not_override_standard_time_when_the_timeline_is_ambiguous() {
    let raw_creation = moment("2016-07-18 21:02:36");
    let raw_modification = moment("2016-07-18 21:07:48");

    assert!(!should_use_camera_local_time(
        raw_creation,
        raw_modification,
        raw_modification,
        raw_modification,
        Some((311_311, 1000)),
    ));
}

fn atom(kind: &[u8; 4], payload: &[u8]) -> Vec<u8> {
    let mut bytes = Vec::new();
    bytes.extend_from_slice(&((payload.len() + 8) as u32).to_be_bytes());
    bytes.extend_from_slice(kind);
    bytes.extend_from_slice(payload);
    bytes
}

fn version_zero_date_payload(created: u32) -> Vec<u8> {
    let mut payload = vec![0, 0, 0, 0];
    payload.extend_from_slice(&created.to_be_bytes());
    payload.extend_from_slice(&created.to_be_bytes());
    payload.extend_from_slice(&[0; 16]);
    payload
}

#[test]
fn reads_creation_date_without_reading_media_payload() {
    let unix_2012 = 1_344_992_400u32;
    let quicktime_2012 = unix_2012 + QUICKTIME_UNIX_EPOCH_OFFSET as u32;
    let mut mvhd_payload = vec![0, 0, 0, 0];
    mvhd_payload.extend_from_slice(&quicktime_2012.to_be_bytes());
    mvhd_payload.extend_from_slice(&[0; 16]);
    let moov = atom(b"moov", &atom(b"mvhd", &mvhd_payload));
    let ftyp = atom(b"ftyp", b"isom\0\0\0\0isom");
    let mdat = atom(b"mdat", &[0; 32]);
    let mut bytes = ftyp;
    bytes.extend_from_slice(&mdat);
    bytes.extend_from_slice(&moov);

    let result = scan("scan.mp4", &bytes);

    assert_eq!(result.media_type, "MPEG-4 media");
    let expected = chrono::DateTime::from_timestamp(unix_2012 as i64, 0)
        .unwrap()
        .format("%Y-%m-%d %H:%M:%S")
        .to_string();
    assert_eq!(result.media_date, expected);
    assert_eq!(result.metadata_status, "O");
}

#[test]
fn reads_and_writes_quicktime_mov_without_ftyp_atom() {
    let unix_2012 = 1_344_992_400u32;
    let quicktime_2012 = unix_2012 + QUICKTIME_UNIX_EPOCH_OFFSET as u32;
    let mvhd = atom(b"mvhd", &version_zero_date_payload(quicktime_2012));
    let moov = atom(b"moov", &mvhd);
    let mdat = atom(b"mdat", &[0x42; 16]);
    let mut bytes = [moov, mdat].concat();

    let original = scan("quicktime.mov", &bytes);
    assert_eq!(original.media_kind, "mp4");
    assert_eq!(original.media_type, "QuickTime movie");
    assert_eq!(original.metadata_status, "O");

    let updated = "2013-12-18 05:15:08";
    write_mp4_media_date(&mut bytes, true, entered(updated)).unwrap();
    assert_eq!(scan("quicktime.mov", &bytes).media_date, updated);
}

#[test]
fn writes_all_existing_creation_date_fields_in_place_including_zero_values() {
    let original_unix = 1_344_992_400u32;
    let original_quicktime = original_unix + QUICKTIME_UNIX_EPOCH_OFFSET as u32;
    let mvhd = atom(b"mvhd", &version_zero_date_payload(original_quicktime));
    let empty_video_track = atom(
        b"trak",
        &[
            atom(b"tkhd", &version_zero_date_payload(0)),
            atom(b"mdia", &atom(b"mdhd", &version_zero_date_payload(0))),
        ]
        .concat(),
    );
    let dated_audio_track = atom(
        b"trak",
        &[
            atom(b"tkhd", &version_zero_date_payload(original_quicktime)),
            atom(
                b"mdia",
                &atom(b"mdhd", &version_zero_date_payload(original_quicktime)),
            ),
        ]
        .concat(),
    );
    let moov = atom(
        b"moov",
        &[mvhd, empty_video_track, dated_audio_track].concat(),
    );
    let ftyp = atom(b"ftyp", b"isom\0\0\0\0isom");
    let mdat = atom(b"mdat", &[0x5a; 64]);
    let original_bytes = [ftyp, mdat, moov].concat();
    let mut updated_bytes = original_bytes.clone();

    let display_value = "2013-12-18 05:15:08";
    let expected = entered(display_value);
    let before = write_mp4_media_date(&mut updated_bytes, false, expected).unwrap();

    let result = scan("write.mp4", &updated_bytes);
    let fields = find_creation_time_fields(&updated_bytes, false).unwrap();

    assert_eq!(updated_bytes.len(), original_bytes.len());
    assert_eq!(
        &updated_bytes[updated_bytes.len() - 16..],
        &original_bytes[original_bytes.len() - 16..]
    );
    assert_eq!(result.media_date, display_value);
    assert_eq!(fields.iter().filter(|field| field.original == 0).count(), 0);
    assert_eq!(
        fields
            .iter()
            .filter(|field| field.original == expected)
            .count(),
        5
    );

    restore_creation_time_values(&mut updated_bytes, &before);
    assert_eq!(updated_bytes, original_bytes);
}

#[test]
fn writes_an_existing_zero_creation_date_in_place() {
    let ftyp = atom(b"ftyp", b"isom\0\0\0\0isom");
    let mdat = atom(b"mdat", &[0x5a; 32]);
    let moov = atom(b"moov", &atom(b"mvhd", &version_zero_date_payload(0)));
    let original_bytes = [ftyp, mdat, moov].concat();
    let mut updated_bytes = original_bytes.clone();

    let display_value = "2016-04-27 18:10:53";
    write_mp4_media_date(&mut updated_bytes, false, entered(display_value)).unwrap();

    let result = scan("zero.mp4", &updated_bytes);
    assert_eq!(updated_bytes.len(), original_bytes.len());
    assert_eq!(result.media_date, display_value);
}

#[test]
fn ignores_opaque_vendor_metadata_while_writing_creation_date() {
    let ftyp = atom(b"ftyp", b"isom\0\0\0\0isom");
    let mdat = atom(b"mdat", &[0x5a; 32]);
    let mvhd = atom(b"mvhd", &version_zero_date_payload(0));
    // This is not an atom stream: some cameras place payloads of their own
    // inside udta.
    let opaque_udta = atom(b"udta", &[0xff, 0xff, 0xff, 0xff, b'v', b'e', b'n', b'd']);
    let moov = atom(b"moov", &[mvhd, opaque_udta].concat());
    let original_bytes = [ftyp, mdat, moov].concat();
    let mut updated_bytes = original_bytes.clone();

    let display_value = "2016-05-19 20:31:26";
    write_mp4_media_date(&mut updated_bytes, false, entered(display_value)).unwrap();

    let result = scan("opaque.mp4", &updated_bytes);
    assert_eq!(updated_bytes.len(), original_bytes.len());
    assert_eq!(result.media_date, display_value);
    assert_eq!(
        &updated_bytes[updated_bytes.len() - 16..],
        &original_bytes[original_bytes.len() - 16..]
    );
}

#[test]
fn preserves_samsung_seft_footer_after_moov() {
    let ftyp = atom(b"ftyp", b"mp42\0\0\0\0isommp42");
    let mdat = atom(b"mdat", &[0x5a; 32]);
    let moov = atom(b"moov", &atom(b"mvhd", &version_zero_date_payload(0)));
    let seft_footer = b"\0\0A\n\x12\0\0\0BackupRestore_Data_test_SEFHe\0\0\0\x01\0\0\0\0\0A\n,\0\0\0,\0\0\0\x18\0\0\0SEFT";
    let original_bytes = [
        ftyp.as_slice(),
        mdat.as_slice(),
        moov.as_slice(),
        seft_footer.as_slice(),
    ]
    .concat();
    let mut updated_bytes = original_bytes.clone();

    let display_value = "2016-05-19 20:31:26";
    write_mp4_media_date(&mut updated_bytes, false, entered(display_value)).unwrap();

    let result = scan("seft.mp4", &updated_bytes);
    assert_eq!(updated_bytes.len(), original_bytes.len());
    assert_eq!(result.media_date, display_value);
    assert_eq!(
        &updated_bytes[updated_bytes.len() - seft_footer.len()..],
        seft_footer
    );
}

#[test]
fn dates_that_movies_cannot_hold_are_refused() {
    assert_eq!(
        parse_media_date("soon").unwrap_err(),
        "Media Date must be formatted as YYYY-MM-DD or YYYY-MM-DD HH:MM:SS."
    );
    assert!(quicktime_seconds(-QUICKTIME_UNIX_EPOCH_OFFSET).is_err());
    assert_eq!(quicktime_seconds(0).unwrap(), 2_082_844_800);
    assert_eq!(quicktime_moment(u64::MAX), None);
    let ftyp = atom(b"ftyp", b"isom\0\0\0\0isom");
    let moov = atom(b"moov", &atom(b"mvhd", &version_zero_date_payload(0)));
    let mut bytes = [ftyp.clone(), moov.clone()].concat();
    assert_eq!(
        write_mp4_media_date(&mut bytes, false, 1 << 32).unwrap_err(),
        "Media Date is outside the range of an existing version 0 date field."
    );
    let mut empty = [ftyp, atom(b"moov", &[])].concat();
    assert_eq!(
        write_mp4_media_date(&mut empty, false, 1).unwrap_err(),
        "No writable ISO media creation time field was found."
    );
    let mut untyped = moov;
    assert_eq!(
        scan_atoms(&untyped, false).unwrap_err(),
        "MP4/QuickTime ftyp atom was not found."
    );
    assert!(write_mp4_media_date(&mut untyped, false, 1).is_err());
    assert!(write_mp4_media_date(&mut untyped, true, 1).is_ok());
}

#[test]
fn times_of_a_camera_are_taken_as_they_are() {
    let seconds = |text: &str| entered(text);
    let header = MovieHeaderTimeInfo {
        creation_seconds: seconds("2016-07-18 21:02:36"),
        modification_seconds: seconds("2016-07-18 21:07:48"),
        timescale: 1000,
        duration: 311_311,
    };
    assert_eq!(header.duration_units(), Some((311_311, 1000)));
    let local = LocalTimes {
        creation: moment("2016-07-19 06:02:36"),
        modification: Some(moment("2016-07-19 06:07:48")),
        file_modified: Some(moment("2016-07-18 21:07:50")),
    };
    assert_eq!(
        interpret_quicktime_creation_date(header.creation_seconds, Some(header), local),
        (Some("2016-07-18 21:02:36".to_string()), "Camera local time".to_string())
    );
    assert_eq!(
        interpret_quicktime_creation_date(header.creation_seconds, None, local),
        (Some("2016-07-19 06:02:36".to_string()), "UTC (standard)".to_string())
    );
    assert_eq!(interpret_quicktime_creation_date(u64::MAX, None, local).0, None);
}

// PNG images.

#[test]
fn png_accepts_a_media_date_without_a_time() {
    assert_eq!(
        display_to_creation_time("2014-02-04").unwrap(),
        "2014:02:04 00:00:00"
    );
}

fn minimal_png() -> Vec<u8> {
    let mut bytes = PNG_SIGNATURE.to_vec();
    bytes.extend_from_slice(&chunk(b"IHDR", &[0, 0, 0, 1, 0, 0, 0, 1, 8, 6, 0, 0, 0]));
    bytes.extend_from_slice(&chunk(b"IDAT", &[0x78, 0x9c, 0x63, 0, 0, 0, 2, 0, 1]));
    bytes.extend_from_slice(&chunk(b"IEND", &[]));
    bytes
}

fn chunk(kind: &[u8; 4], data: &[u8]) -> Vec<u8> {
    let mut bytes = Vec::new();
    bytes.extend_from_slice(&(data.len() as u32).to_be_bytes());
    bytes.extend_from_slice(kind);
    bytes.extend_from_slice(data);
    bytes.extend_from_slice(&png_crc32(kind, data).to_be_bytes());
    bytes
}

#[test]
fn writes_and_reads_png_creation_time_media_date() {
    let written_bytes = write_png_media_date(&minimal_png(), "2012-08-15 02:30:00").unwrap();
    let result = scan("picture.png", &written_bytes);
    let sources = read_date_sources(&written_bytes);

    assert_eq!(result.media_kind, "png");
    assert_eq!(result.media_type, "PNG image");
    assert_eq!(result.media_date, "2012-08-15 02:30:00");
    assert_eq!(result.metadata_status, "O");
    assert_eq!(sources.creation_time, "2012-08-15 02:30:00");
    assert_eq!(sources.date_time_original, "2012-08-15 02:30:00");
    assert_eq!(
        find_text_chunk(&written_bytes, CREATION_TIME_KEYWORD).as_deref(),
        Some("2012:08:15 02:30:00")
    );
    assert!(find_chunk(&written_bytes, b"eXIf").is_some());
}

#[test]
fn writes_png_media_date_without_backup_when_disabled() {
    let written = write_png_media_date(&minimal_png(), "2014-02-04 14:40:01").unwrap();
    assert_eq!(scan("picture.png", &written).media_date, "2014-02-04 14:40:01");
}

#[test]
fn updates_both_png_date_sources_when_exif_already_exists() {
    let first = write_png_media_date(&minimal_png(), "2015-12-26 03:53:22").unwrap();
    let second = write_png_media_date(&first, "2016-01-02 11:22:33").unwrap();
    let sources = read_date_sources(&second);

    assert_eq!(sources.creation_time, "2016-01-02 11:22:33");
    assert_eq!(sources.date_time_original, "2016-01-02 11:22:33");
    assert_eq!(sources.date_time_digitized, "");
    assert_eq!(sources.image_date_time, "");
    assert_eq!(sources.effective_media_date(), "2016-01-02 11:22:33");
}

#[test]
fn edits_png_date_sources_independently() {
    let first = write_date_sources(&minimal_png(), Some("2015-12-26 03:53:22"), None).unwrap();
    let second = write_date_sources(&first, None, Some("2016-01-02 11:22:33")).unwrap();
    let sources = read_date_sources(&second);

    assert_eq!(sources.creation_time, "2015-12-26 03:53:22");
    assert_eq!(sources.date_time_original, "2016-01-02 11:22:33");
    assert_eq!(sources.effective_media_date(), "2016-01-02 11:22:33");
}

#[test]
fn removes_png_date_metadata_but_preserves_unrelated_text() {
    let mut bytes = minimal_png();
    let iend_start = bytes.len() - chunk(b"IEND", &[]).len();
    bytes.splice(
        iend_start..iend_start,
        chunk(b"tEXt", b"Comment\0keep this text"),
    );
    let dated = write_png_media_date(&bytes, "2015-12-26 03:53:22").unwrap();

    let updated = remove_date_metadata(&dated).unwrap().unwrap();

    assert!(!read_date_sources(&updated).has_existing_date());
    assert_eq!(
        find_text_chunk(&updated, b"Comment").as_deref(),
        Some("keep this text")
    );
    assert!(find_chunk(&updated, b"eXIf").is_none());
    assert!(remove_date_metadata(&updated).unwrap().is_none());
}

#[test]
fn chunks_have_checksums() {
    assert_eq!(png_crc32(b"IEND", &[]), 0xae42_6082);
    assert_eq!(make_chunk(b"IEND", &[]).unwrap(), chunk(b"IEND", &[]));
    let replaced = replace_or_insert_chunk(&minimal_png(), b"eXIf", b"II").unwrap();
    assert_eq!(find_chunk(&replaced, b"eXIf").as_deref(), Some(&b"II"[..]));
    let again = replace_or_insert_chunk(&replaced, b"eXIf", b"MM").unwrap();
    assert_eq!(again.len(), replaced.len());
    assert!(replace_or_insert_chunk(b"text", b"eXIf", b"II").is_err());
    let dated = replace_or_insert_creation_time_chunk(&minimal_png(), "x").unwrap();
    assert_eq!(find_text_chunk(&dated, CREATION_TIME_KEYWORD).as_deref(), Some("x"));
    assert!(write_png_media_date(&minimal_png(), "soon").is_err());
    assert!(remove_date_metadata(b"text").is_err());
}

#[test]
fn complete_files_take_dates() {
    for date in ["0000-01-01 00:00:00", "9999-12-31 23:59:59", " 2012-02-29 12:00:00 "] {
        let written = write_date_sources(&minimal_png(), Some(date), Some(date)).unwrap();
        assert_eq!(read_date_sources(&written).creation_time, date.trim());
        assert_eq!(read_date_sources(&written).date_time_original, date.trim());
    }
    let whole = minimal_png();
    let end = chunk(b"IEND", &[]).len();
    let date = "2012-02-29 12:00:00";
    assert!(write_date_sources(&whole[..whole.len() - end], Some(date), None).is_err());
    let mut headless = PNG_SIGNATURE.to_vec();
    headless.extend_from_slice(&whole[8 + chunk(b"IHDR", &[0; 13]).len()..]);
    assert!(write_date_sources(&headless, Some(date), None).is_err());
    let mut empty = whole[..8 + chunk(b"IHDR", &[0; 13]).len()].to_vec();
    empty.extend_from_slice(&chunk(b"IEND", &[]));
    assert!(write_date_sources(&empty, Some(date), None).is_ok());
    assert!(write_date_sources(&empty, None, Some(date)).is_err());
}

#[test]
fn creation_times_have_several_forms() {
    for value in [
        "2012:08:15 02:30:00",
        "2012-08-15 02:30:00",
        "2012-08-15T02:30:00Z",
        "Wed, 15 Aug 2012 02:30:00 +0000",
    ] {
        assert_eq!(
            creation_time_to_display(value).as_deref(),
            Some("2012-08-15 02:30:00")
        );
    }
    assert_eq!(
        creation_time_to_display("2012-08-15T02:30:00+09:00").as_deref(),
        Some("2012-08-14 17:30:00")
    );
    assert_eq!(creation_time_to_display("soon"), None);
}

#[test]
fn png_dates_can_be_written_in_either_order() {
    let first = write_date_sources(&minimal_png(), None, Some("2016-01-02 11:22:33")).unwrap();
    let second = write_date_sources(&first, Some("2015-12-26 03:53:22"), None).unwrap();
    let sources = read_date_sources(&second);
    assert_eq!(sources.creation_time, "2015-12-26 03:53:22");
    assert_eq!(sources.date_time_original, "2016-01-02 11:22:33");
    assert_eq!(sources.effective_media_date(), "2016-01-02 11:22:33");
}
