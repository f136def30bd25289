//! Kinds of media files, and what a scan of one gives.
use crate::binary;
use crate::exif::{self, read_exif_tiff_metadata, ExifMetadata, ExifNumbers, ExifReading, Field};
use crate::jpeg::{self, has_jpeg_signature, read_jpeg_exif_tiff};
use crate::mp4::{self, has_mp4_signature, has_quicktime_signature, Mp4Summary};
use crate::mpeg_ts::{self, has_transport_stream_signature};
use crate::names::{self, lower_file_extension};
use crate::png::{self, has_png_signature, read_date_sources};
use crate::text::{self, same_text, trimmed};
use crate::entries::FileTime;
use vstd::prelude::*;

verus! {

/// What a scan of a media file gives: texts for the file list, the date as it
/// was recorded and in UTC where these are known, and the EXIF data.
#[derive(Debug)]
pub struct MediaScanResult {
    pub media_kind: String,
    pub media_type: String,
    pub media_date: String,
    pub metadata_status: String,
    pub time_interpretation: String,
    pub recorded_media_date: String,
    pub media_date_utc: Option<i64>,
    pub recorded_offset_minutes: Option<i32>,
    pub exif_metadata: Option<ExifMetadata>,
}

impl Default for MediaScanResult {
    fn default() -> (r: Self)
        ensures
            scanned_as(r, ""@, ""@, ""@, ""@, ""@),
            r.exif_metadata is None,
    {
        MediaScanResult {
            media_kind: "".to_owned(),
            media_type: "".to_owned(),
            media_date: "".to_owned(),
            metadata_status: "".to_owned(),
            time_interpretation: "".to_owned(),
            recorded_media_date: "".to_owned(),
            media_date_utc: None,
            recorded_offset_minutes: None,
            exif_metadata: None,
        }
    }
}

impl Clone for MediaScanResult {
    fn clone(&self) -> (r: Self)
        ensures
            r == *self,
    {
        let exif_metadata = match &self.exif_metadata {
            Some(m) => Some(m.clone()),
            None => None,
        };
        MediaScanResult {
            media_kind: self.media_kind.clone(),
            media_type: self.media_type.clone(),
            media_date: self.media_date.clone(),
            metadata_status: self.metadata_status.clone(),
            time_interpretation: self.time_interpretation.clone(),
            recorded_media_date: self.recorded_media_date.clone(),
            media_date_utc: self.media_date_utc,
            recorded_offset_minutes: self.recorded_offset_minutes,
            exif_metadata,
        }
    }
}

/// A file that is to be scanned, with its size and its time.
#[derive(Debug)]
pub struct MediaScanJob {
    pub path: String,
    pub size: u64,
    pub modified: Option<FileTime>,
}

/// The texts of a result, of which nothing is known beyond them.
pub open spec fn scanned_as(
    r: MediaScanResult,
    kind: Seq<char>,
    media_type: Seq<char>,
    date: Seq<char>,
    status: Seq<char>,
    interpretation: Seq<char>,
) -> bool {
    &&& r.media_kind@ == kind
    &&& r.media_type@ == media_type
    &&& r.media_date@ == date
    &&& r.metadata_status@ == status
    &&& r.time_interpretation@ == interpretation
    &&& r.recorded_media_date@ == ""@
    &&& r.media_date_utc is None
    &&& r.recorded_offset_minutes is None
}

fn make_result(kind: &str, media_type: &str, date: &str, status: &str, interpretation: &str) -> (r:
    MediaScanResult)
    ensures
        scanned_as(r, kind@, media_type@, date@, status@, interpretation@),
        r.exif_metadata is None,
{
    let mut r = MediaScanResult::default();
    r.media_kind = kind.to_owned();
    r.media_type = media_type.to_owned();
    r.media_date = date.to_owned();
    r.metadata_status = status.to_owned();
    r.time_interpretation = interpretation.to_owned();
    r
}

// Kinds of files by their names.

pub open spec fn jpeg_name(name: Seq<char>) -> bool {
    let e = names::lower_extension(name);
    e == "jpg"@ || e == "jpeg"@
}

pub open spec fn png_name(name: Seq<char>) -> bool {
    names::lower_extension(name) == "png"@
}

pub open spec fn image_name(name: Seq<char>) -> bool {
    jpeg_name(name) || png_name(name)
}

pub open spec fn quicktime_name(name: Seq<char>) -> bool {
    let e = names::lower_extension(name);
    e == "mov"@ || e == "qt"@
}

pub open spec fn mp4_name(name: Seq<char>) -> bool {
    let e = names::lower_extension(name);
    quicktime_name(name) || e == "mp4"@ || e == "m4v"@ || e == "3gp"@ || e == "3g2"@
}

pub open spec fn transport_name(name: Seq<char>) -> bool {
    let e = names::lower_extension(name);
    e == "mts"@ || e == "m2ts"@
}

pub open spec fn video_name(name: Seq<char>) -> bool {
    mp4_name(name) || transport_name(name)
}

pub fn is_jpeg_path(name: &str) -> (r: bool)
    ensures
        r == jpeg_name(name@),
{
    let e = lower_file_extension(name);
    same_text(e.as_str(), "jpg") || same_text(e.as_str(), "jpeg")
}

pub fn is_png_path(name: &str) -> (r: bool)
    ensures
        r == png_name(name@),
{
    let e = lower_file_extension(name);
    same_text(e.as_str(), "png")
}

pub fn is_image_path(name: &str) -> (r: bool)
    ensures
        r == image_name(name@),
{
    is_jpeg_path(name) || is_png_path(name)
}

pub fn is_mov_path(name: &str) -> (r: bool)
    ensures
        r == quicktime_name(name@),
{
    let e = lower_file_extension(name);
    same_text(e.as_str(), "mov") || same_text(e.as_str(), "qt")
}

pub fn is_mp4_path(name: &str) -> (r: bool)
    ensures
        r == mp4_name(name@),
{
    let e = lower_file_extension(name);
    is_mov_path(name) || same_text(e.as_str(), "mp4") || same_text(e.as_str(), "m4v") || same_text(
        e.as_str(),
        "3gp",
    ) || same_text(e.as_str(), "3g2")
}

pub fn is_mpeg_ts_path(name: &str) -> (r: bool)
    ensures
        r == transport_name(name@),
{
    let e = lower_file_extension(name);
    same_text(e.as_str(), "mts") || same_text(e.as_str(), "m2ts")
}

pub fn is_video_path(name: &str) -> (r: bool)
    ensures
        r == video_name(name@),
{
    is_mp4_path(name) || is_mpeg_ts_path(name)
}

/// The type that is shown for a video before it was scanned.
pub open spec fn video_type(name: Seq<char>) -> Seq<char> {
    let e = names::lower_extension(name);
    if quicktime_name(name) {
        "QuickTime movie"@
    } else if e == "m4v"@ {
        "MPEG-4 video"@
    } else if e == "3gp"@ {
        "3GPP media"@
    } else if e == "3g2"@ {
        "3GPP2 media"@
    } else if transport_name(name) {
        "AVCHD transport stream"@
    } else {
        "MPEG-4 media"@
    }
}

pub fn fallback_video_media_type(name: &str) -> (r: String)
    ensures
        r@ == video_type(name@),
{
    let e = lower_file_extension(name);
    if is_mov_path(name) {
        "QuickTime movie".to_owned()
    } else if same_text(e.as_str(), "m4v") {
        "MPEG-4 video".to_owned()
    } else if same_text(e.as_str(), "3gp") {
        "3GPP media".to_owned()
    } else if same_text(e.as_str(), "3g2") {
        "3GPP2 media".to_owned()
    } else if is_mpeg_ts_path(name) {
        "AVCHD transport stream".to_owned()
    } else {
        "MPEG-4 media".to_owned()
    }
}

/// The kind and the type that a name stands for.
pub open spec fn expected_kind(name: Seq<char>, other: Seq<char>) -> (Seq<char>, Seq<char>) {
    if jpeg_name(name) {
        ("jpeg"@, "JPEG image"@)
    } else if png_name(name) {
        ("png"@, "PNG image"@)
    } else if mp4_name(name) {
        ("mp4"@, video_type(name))
    } else if transport_name(name) {
        ("mts"@, "AVCHD transport stream"@)
    } else {
        ("other"@, other)
    }
}

fn expected_result(name: &str, other: &str, status: &str) -> (r: MediaScanResult)
    ensures
        scanned_as(
            r,
            expected_kind(name@, other@).0,
            expected_kind(name@, other@).1,
            "-"@,
            status@,
            ""@,
        ),
        r.exif_metadata is None,
{
    if is_jpeg_path(name) {
        make_result("jpeg", "JPEG image", "-", status, "")
    } else if is_png_path(name) {
        make_result("png", "PNG image", "-", status, "")
    } else if is_mp4_path(name) {
        let media_type = fallback_video_media_type(name);
        make_result("mp4", media_type.as_str(), "-", status, "")
    } else if is_mpeg_ts_path(name) {
        make_result("mts", "AVCHD transport stream", "-", status, "")
    } else {
        make_result("other", other, "-", status, "")
    }
}

/// The result for a file whose metadata could not be read.
pub fn failed_result(media_kind: &str, media_type: &str) -> (r: MediaScanResult)
    ensures
        scanned_as(r, media_kind@, media_type@, "-"@, "!"@, ""@),
        r.exif_metadata is None,
{
    make_result(media_kind, media_type, "-", "!", "")
}

/// The result for a file that could not be opened.
pub fn failed_result_for_path(name: &str, fallback_type: &str) -> (r: MediaScanResult)
    ensures
        scanned_as(
            r,
            expected_kind(name@, fallback_type@).0,
            expected_kind(name@, fallback_type@).1,
            "-"@,
            "!"@,
            ""@,
        ),
        r.exif_metadata is None,
{
    expected_result(name, fallback_type, "!")
}

// Choosing how to scan a file.

/// The type of an ISO media file, by the brand in its first bytes and its name.
pub open spec fn iso_type(name: Seq<char>, signature: Seq<u8>) -> Seq<char> {
    let brand = if signature.len() >= 12 {
        signature.subrange(8, 12)
    } else {
        Seq::empty()
    };
    if binary::begins_with(brand, seq![0x33u8, 0x67, 0x70]) {
        "3GPP media"@
    } else if binary::begins_with(brand, seq![0x33u8, 0x67, 0x32]) {
        "3GPP2 media"@
    } else if brand == seq![0x71u8, 0x74, 0x20, 0x20] || quicktime_name(name) {
        "QuickTime movie"@
    } else if names::lower_extension(name) == "m4v"@ {
        "MPEG-4 video"@
    } else {
        "MPEG-4 media"@
    }
}

fn iso_media_type(name: &str, signature: &[u8]) -> (r: String)
    ensures
        r@ == iso_type(name@, signature@),
{
    let n: usize = signature.len();
    let mut gpp = false;
    let mut gpp2 = false;
    let mut quicktime = false;
    if n >= 12 {
        gpp = signature[8] == 0x33 && signature[9] == 0x67 && signature[10] == 0x70;
        gpp2 = signature[8] == 0x33 && signature[9] == 0x67 && signature[10] == 0x32;
        quicktime = signature[8] == 0x71 && signature[9] == 0x74 && signature[10] == 0x20
            && signature[11] == 0x20;
    }
    proof {
        let brand = if n >= 12 {
            signature@.subrange(8, 12)
        } else {
            Seq::empty()
        };
        let a = seq![0x33u8, 0x67, 0x70];
        let b = seq![0x33u8, 0x67, 0x32];
        let c = seq![0x71u8, 0x74, 0x20, 0x20];
        if n >= 12 {
            let t = brand.take(3);
            assert(t[0] == signature@[8] && t[1] == signature@[9] && t[2] == signature@[10]);
            assert(a[0] == 0x33 && a[1] == 0x67 && a[2] == 0x70);
            assert(b[0] == 0x33 && b[1] == 0x67 && b[2] == 0x32);
            assert(brand[0] == signature@[8] && brand[1] == signature@[9] && brand[2]
                == signature@[10] && brand[3] == signature@[11]);
            assert(c[0] == 0x71 && c[1] == 0x74 && c[2] == 0x20 && c[3] == 0x20);
            if gpp {
                assert(t =~= a);
            }
            if gpp2 {
                assert(t =~= b);
            }
            if quicktime {
                assert(brand =~= c);
            }
        }
        assert(gpp == binary::begins_with(brand, a));
        assert(gpp2 == binary::begins_with(brand, b));
        assert(quicktime == (brand == c));
    }
    let e = lower_file_extension(name);
    if gpp {
        "3GPP media".to_owned()
    } else if gpp2 {
        "3GPP2 media".to_owned()
    } else if quicktime || is_mov_path(name) {
        "QuickTime movie".to_owned()
    } else if same_text(e.as_str(), "m4v") {
        "MPEG-4 video".to_owned()
    } else {
        "MPEG-4 media".to_owned()
    }
}

/// How a file is scanned: as what, or with a result that is known already.
#[derive(Debug)]
pub enum ScanPlan {
    Jpeg,
    IsoMedia(String, bool),
    TransportStream,
    Png,
    Known(MediaScanResult),
}

pub open spec fn jpeg_start(signature: Seq<u8>) -> bool {
    signature.len() >= 3 && signature[0] == 0xff && signature[1] == 0xd8 && signature[2] == 0xff
}

pub open spec fn iso_start(name: Seq<char>, signature: Seq<u8>) -> bool {
    (signature.len() >= 12 && mp4::kind_of(signature, 0) == mp4::ftyp()) || (quicktime_name(name)
        && mp4::quicktime_start(signature))
}

/// Chooses by a file's first bytes how to scan it; where these say nothing, the
/// name says what was expected.
pub fn plan_scan(name: &str, signature: &[u8]) -> (r: ScanPlan)
    ensures
        match r {
            ScanPlan::Jpeg => jpeg_start(signature@),
            ScanPlan::IsoMedia(media_type, untyped) => !jpeg_start(signature@) && iso_start(
                name@,
                signature@,
            ) && media_type@ == iso_type(name@, signature@) && untyped == quicktime_name(name@),
            ScanPlan::TransportStream => !jpeg_start(signature@) && !iso_start(name@, signature@)
                && transport_name(name@) && mpeg_ts::is_transport_stream(signature@),
            ScanPlan::Png => !jpeg_start(signature@) && !iso_start(name@, signature@) && !(
            transport_name(name@) && mpeg_ts::is_transport_stream(signature@)) && png::is_png(
                signature@,
            ),
            ScanPlan::Known(k) => !jpeg_start(signature@) && !iso_start(name@, signature@) && !(
            transport_name(name@) && mpeg_ts::is_transport_stream(signature@)) && !png::is_png(
                signature@,
            ) && scanned_as(
                k,
                expected_kind(name@, "Unknown"@).0,
                expected_kind(name@, "Unknown"@).1,
                "-"@,
                if image_name(name@) || video_name(name@) {
                    "!"@
                } else {
                    "-"@
                },
                ""@,
            ) && k.exif_metadata is None,
        },
{
    if has_jpeg_signature(signature) {
        return ScanPlan::Jpeg;
    }
    let untyped = is_mov_path(name);
    if has_mp4_signature(signature) || (untyped && has_quicktime_signature(signature)) {
        return ScanPlan::IsoMedia(iso_media_type(name, signature), untyped);
    }
    if is_mpeg_ts_path(name) && has_transport_stream_signature(signature) {
        return ScanPlan::TransportStream;
    }
    if has_png_signature(signature) {
        return ScanPlan::Png;
    }
    if is_image_path(name) || is_video_path(name) {
        ScanPlan::Known(expected_result(name, "Unknown", "!"))
    } else {
        ScanPlan::Known(expected_result(name, "Unknown", "-"))
    }
}

/// A scanned JPEG file: the result, and the fractions of its EXIF data.
#[derive(Debug)]
pub struct JpegScan {
    pub result: MediaScanResult,
    pub numbers: ExifNumbers,
}

/// The reading of the EXIF data that a scan of a file finds.
pub open spec fn scan_reading(reading: ExifReading, bytes: Seq<u8>) -> bool {
    match jpeg::scanned_tiff(bytes) {
        Some(data) => exif::reads_or_nothing(reading, exif::readable_tiff(data), data),
        None => exif::reads_or_nothing(reading, None, Seq::empty()),
    }
}

/// Reads the EXIF data of a JPEG file for the file list.
pub fn read_exif_metadata_for_scan(bytes: &[u8]) -> (r: ExifReading)
    ensures
        scan_reading(r, bytes@),
{
    match read_jpeg_exif_tiff(bytes) {
        Some(tiff) => read_exif_tiff_metadata(tiff.as_slice()),
        None => exif::nothing_read(),
    }
}

pub open spec fn date_or_dash(date: Seq<char>) -> Seq<char> {
    if text::trim(date).len() == 0 {
        "-"@
    } else {
        date
    }
}

pub fn scan_jpeg(bytes: &[u8]) -> (r: JpegScan)
    ensures
        r.result.exif_metadata matches Some(m) && scan_reading(
            (ExifReading { metadata: m, numbers: r.numbers }),
            bytes@,
        ) && scanned_as(
            r.result,
            "jpeg"@,
            "JPEG image"@,
            date_or_dash(m.taken_date@),
            if m.has_exif {
                "O"@
            } else {
                "X"@
            },
            ""@,
        ),
{
    let reading = read_exif_metadata_for_scan(bytes);
    let date = if trimmed(reading.metadata.taken_date.as_str()).is_empty() {
        "-".to_owned()
    } else {
        reading.metadata.taken_date.clone()
    };
    let status = if reading.metadata.has_exif {
        "O"
    } else {
        "X"
    };
    let mut result = make_result("jpeg", "JPEG image", date.as_str(), status, "");
    result.exif_metadata = Some(reading.metadata);
    JpegScan { result, numbers: reading.numbers }
}

pub open spec fn png_date(bytes: Seq<u8>) -> Seq<char> {
    png::effective_date(
        png::png_exif_date(bytes, Field::DateTimeOriginal),
        png::png_creation_date(bytes),
        png::png_exif_date(bytes, Field::DateTimeDigitized),
        png::png_exif_date(bytes, Field::ImageDateTime),
    )
}

pub open spec fn png_has_date(bytes: Seq<u8>) -> bool {
    png::png_exif_date(bytes, Field::DateTimeOriginal).len() > 0 || png::png_creation_date(
        bytes,
    ).len() > 0 || png::png_exif_date(bytes, Field::DateTimeDigitized).len() > 0
        || png::png_exif_date(bytes, Field::ImageDateTime).len() > 0
}

pub fn scan_png(bytes: &[u8]) -> (r: MediaScanResult)
    ensures
        scanned_as(
            r,
            "png"@,
            "PNG image"@,
            png_date(bytes@),
            if png_has_date(bytes@) {
                "O"@
            } else {
                "X"@
            },
            ""@,
        ),
        r.exif_metadata is None,
{
    let sources = read_date_sources(bytes);
    let date = sources.effective_media_date();
    let status = if sources.has_existing_date() {
        "O"
    } else {
        "X"
    };
    make_result("png", "PNG image", date.as_str(), status, "")
}

/// The result for a movie, with its date and how its time was taken.
pub fn movie_result(
    summary: &Mp4Summary,
    media_type: &str,
    media_date: &Option<String>,
    time_interpretation: &str,
) -> (r: MediaScanResult)
    ensures
        scanned_as(
            r,
            "mp4"@,
            media_type@,
            match *media_date {
                Some(d) => d@,
                None => "-"@,
            },
            if summary.has_metadata {
                "O"@
            } else {
                "X"@
            },
            time_interpretation@,
        ),
        r.exif_metadata is None,
{
    let status = if summary.has_metadata {
        "O"
    } else {
        "X"
    };
    match media_date {
        Some(d) => make_result("mp4", media_type, d.as_str(), status, time_interpretation),
        None => make_result("mp4", media_type, "-", status, time_interpretation),
    }
}

/// The result for a transport stream, which holds no date.
pub fn transport_stream_result() -> (r: MediaScanResult)
    ensures
        scanned_as(
            r,
            "mts"@,
            "AVCHD transport stream"@,
            "-"@,
            "X"@,
            "No standard embedded capture date"@,
        ),
        r.exif_metadata is None,
{
    make_result(
        "mts",
        "AVCHD transport stream",
        "-",
        "X",
        "No standard embedded capture date",
    )
}

/// Which files the file list shows: all media, images, videos, JPEG images or
/// PNG images; any other number shows every file.
pub open spec fn filter_takes(filter: i32, name: Seq<char>) -> bool {
    if filter == 0 {
        image_name(name) || video_name(name)
    } else if filter == 1 {
        image_name(name)
    } else if filter == 2 {
        video_name(name)
    } else if filter == 4 {
        jpeg_name(name)
    } else if filter == 5 {
        png_name(name)
    } else {
        true
    }
}

pub fn matches_file_filter(filter: i32, name: &str) -> (r: bool)
    ensures
        r == filter_takes(filter, name@),
{
    if filter == 0 {
        is_image_path(name) || is_video_path(name)
    } else if filter == 1 {
        is_image_path(name)
    } else if filter == 2 {
        is_video_path(name)
    } else if filter == 4 {
        is_jpeg_path(name)
    } else if filter == 5 {
        is_png_path(name)
    } else {
        true
    }
}

/// The files that the filter for all media takes are those of the filters for
/// images and for videos; JPEG and PNG images are the images.
pub proof fn filters_divide_media(name: Seq<char>)
    ensures
        filter_takes(0, name) == (filter_takes(1, name) || filter_takes(2, name)),
        filter_takes(1, name) == (filter_takes(4, name) || filter_takes(5, name)),
        !(filter_takes(1, name) && filter_takes(2, name)),
        !(filter_takes(4, name) && filter_takes(5, name)),
{
    reveal_strlit("jpg");
    reveal_strlit("jpeg");
    reveal_strlit("png");
    reveal_strlit("mov");
    reveal_strlit("qt");
    reveal_strlit("mp4");
    reveal_strlit("m4v");
    reveal_strlit("3gp");
    reveal_strlit("3g2");
    reveal_strlit("mts");
    reveal_strlit("m2ts");
    let e = names::lower_extension(name);
    if jpeg_name(name) {
        assert(e[0] == 'j');
    }
    if png_name(name) {
        assert(e[0] == 'p');
    }
    if video_name(name) {
        assert(e[0] == 'm' || e[0] == 'q' || e[0] == '3');
    }
}

} // verus!
