//! The preview of the selected picture, and the previews that are kept.
use crate::media;
use crate::names::{self, lower_file_extension};
use crate::paths::{self, comparable_path};
use crate::png::{self, has_png_signature};
use crate::text::{self, decimal_text, same_text};
use image::metadata::Orientation;
use image::ImageDecoder;
use vstd::prelude::*;

verus! {

// Decoding pictures.

/// The longest side of a picture that is decoded.
pub const MAX_SIDE: u32 = 30_000;

/// The largest buffer for a picture.
pub const MAX_ALLOC: u64 = 201_326_592;

pub const SHOWN_WIDTH: u32 = 1200;

pub const SHOWN_HEIGHT: u32 = 900;

/// The pixels of a block whose sum fits 32 bits, where a channel takes two bytes.
pub const DEEP_BLOCK: u64 = 65_536;

/// The pixels of a block whose sum fits 32 bits, where a channel takes one byte.
pub const PLAIN_BLOCK: u64 = 16_777_216;

/// What the header of a picture states: the size, the EXIF number of the
/// orientation, the bits of a pixel and its channels.
#[derive(Clone, Copy, Debug, PartialEq, Eq, Structural)]
pub struct PictureHeader {
    pub width: u32,
    pub height: u32,
    pub orientation: u8,
    pub bits: u16,
    pub channels: u8,
}

/// The shorter side of a picture whose longer side is scaled to a length, rounded
/// to a whole number; half a pixel does not count.
pub open spec fn fitted_side(side: int, longer: int, shown: int) -> int {
    let n = (2 * side * shown + longer - 1) / (2 * longer);
    if n >= 1 {
        n
    } else {
        1
    }
}

/// The size to which a picture is scaled so that it fits what is shown.
pub open spec fn fitted(width: int, height: int) -> (int, int) {
    if SHOWN_WIDTH * height <= SHOWN_HEIGHT * width {
        (SHOWN_WIDTH as int, fitted_side(height, width, SHOWN_WIDTH as int))
    } else {
        (fitted_side(width, height, SHOWN_HEIGHT as int), SHOWN_HEIGHT as int)
    }
}

/// The most pixels of a side that come together in one pixel when the side is
/// scaled, with what single precision adds to them.
pub open spec fn block_side(side: int, scaled: int) -> int {
    let n = side / scaled + 2 + side / 1_000_000;
    if n <= side {
        n
    } else {
        side
    }
}

/// The most pixels that come together in one pixel when a picture is scaled to
/// be shown.
pub open spec fn block_of(width: int, height: int) -> int {
    if width == 0 || height == 0 {
        0
    } else {
        block_side(width, fitted(width, height).0) * block_side(height, fitted(width, height).1)
    }
}

/// The sums over the blocks of a picture, turned by the EXIF number of an
/// orientation, fit 32 bits.
pub open spec fn blocks_fit(header: PictureHeader, orientation: u8) -> bool {
    let (w, h) = turned_size(header.width, header.height, orientation);
    block_of(w as int, h as int) <= if header.bits > 8 * header.channels {
        DEEP_BLOCK
    } else {
        PLAIN_BLOCK
    }
}

fn find_fitted_side(side: u32, longer: u32, shown: u32) -> (r: u64)
    requires
        0 < longer,
        shown <= 1200,
    ensures
        r == fitted_side(side as int, longer as int, shown as int),
        r >= 1,
{
    assert(0 <= 2 * side * shown <= 2 * 4_294_967_295 * 1200) by (nonlinear_arith)
        requires
            0 <= side <= 4_294_967_295,
            0 <= shown <= 1200,
    ;
    assert(2 * side * shown == (2 * side) * shown);
    let n: u64 = (2 * side as u64 * shown as u64 + longer as u64 - 1) / (2 * longer as u64);
    if n >= 1 {
        n
    } else {
        1
    }
}

fn find_block_side(side: u32, scaled: u64) -> (r: u64)
    requires
        scaled >= 1,
    ensures
        r == block_side(side as int, scaled as int),
        r <= side,
{
    assert(side as int / scaled as int <= side) by (nonlinear_arith)
        requires
            side >= 0,
            scaled >= 1,
    ;
    let n: u64 = side as u64 / scaled + 2 + side as u64 / 1_000_000;
    if n <= side as u64 {
        n
    } else {
        side as u64
    }
}

fn do_blocks_fit(header: PictureHeader, orientation: u8) -> (r: bool)
    ensures
        r == blocks_fit(header, orientation),
{
    let (w, h) = oriented_dimensions(header.width, header.height, orientation);
    let limit: u64 = if header.bits as u32 > 8 * header.channels as u32 {
        DEEP_BLOCK
    } else {
        PLAIN_BLOCK
    };
    if w == 0 || h == 0 {
        return true;
    }
    assert(SHOWN_WIDTH * h <= 1200 * 4_294_967_295 && SHOWN_HEIGHT * w <= 900 * 4_294_967_295) by (
    nonlinear_arith)
        requires
            SHOWN_WIDTH == 1200,
            SHOWN_HEIGHT == 900,
            0 <= h <= 4_294_967_295,
            0 <= w <= 4_294_967_295,
    ;
    let (a, b): (u64, u64) = if SHOWN_WIDTH as u64 * h as u64 <= SHOWN_HEIGHT as u64 * w as u64 {
        (SHOWN_WIDTH as u64, find_fitted_side(h, w, SHOWN_WIDTH))
    } else {
        (find_fitted_side(w, h, SHOWN_HEIGHT), SHOWN_HEIGHT as u64)
    };
    let x: u64 = find_block_side(w, a);
    let y: u64 = find_block_side(h, b);
    assert(0 <= x * y <= 4_294_967_295 * 4_294_967_295) by (nonlinear_arith)
        requires
            0 <= x <= 4_294_967_295,
            0 <= y <= 4_294_967_295,
    ;
    x * y <= limit
}

/// A picture that was decoded: its size, and its pixels in a size to be shown,
/// four bytes each.
#[derive(Debug)]
pub struct Picture {
    pub source_width: u32,
    pub source_height: u32,
    pub width: u32,
    pub height: u32,
    pub pixels: Vec<u8>,
}

pub struct PictureModel {
    pub source_width: u32,
    pub source_height: u32,
    pub width: u32,
    pub height: u32,
    pub pixels: Seq<u8>,
}

impl View for Picture {
    type V = PictureModel;

    open spec fn view(&self) -> PictureModel {
        PictureModel {
            source_width: self.source_width,
            source_height: self.source_height,
            width: self.width,
            height: self.height,
            pixels: self.pixels@,
        }
    }
}

pub open spec fn picture_view(p: Option<Picture>) -> Option<PictureModel> {
    match p {
        Some(p) => Some(p@),
        None => None,
    }
}

/// What the header of a picture states, as `image` reads it.
pub uninterp spec fn header_of(bytes: Seq<u8>) -> Option<PictureHeader>;

/// The picture in some bytes as `image` decodes it, turned as its header says
/// and scaled to fit a size; none of its sides and no buffer may be over a
/// limit.
pub uninterp spec fn decoded_picture(
    bytes: Seq<u8>,
    max_side: u32,
    max_alloc: u64,
    width: u32,
    height: u32,
) -> Option<PictureModel>;

/// The picture in some bytes as `image` decodes it with its usual limits, turned
/// by the EXIF number of an orientation and scaled to fit a size.
pub uninterp spec fn turned_picture(
    bytes: Seq<u8>,
    orientation: u8,
    width: u32,
    height: u32,
) -> Option<PictureModel>;

/// `image::ImageReader`: the size, the orientation and the kind of pixels that the
/// header of a picture states, in one of the formats that the crate recognizes.
#[verifier::external_body]
fn read_header(bytes: &[u8]) -> (r: Option<PictureHeader>)
    ensures
        r == header_of(bytes@),
{
    let reader = image::ImageReader::new(std::io::Cursor::new(bytes)).with_guessed_format().ok()?;
    let mut decoder = reader.into_decoder().ok()?;
    let (width, height) = decoder.dimensions();
    let orientation = decoder.orientation().unwrap_or(Orientation::NoTransforms);
    let color = decoder.color_type();
    let (bits, channels) = (color.bits_per_pixel(), color.channel_count());
    Some(PictureHeader { width, height, orientation: orientation.to_exif(), bits, channels })
}

/// `image::ImageReader` with limits, `image::DynamicImage::apply_orientation` and
/// `thumbnail`: the decoded picture. The pixels are a function of the bytes and
/// the numbers alone. Within these limits the sums by which `thumbnail` finds the
/// mean of a block of pixels do not overflow.
#[verifier::external_body]
fn decode_picture(bytes: &[u8], max_side: u32, max_alloc: u64, width: u32, height: u32) -> (r: Option<
    Picture,
>)
    requires
        max_side <= MAX_SIDE,
        width == SHOWN_WIDTH,
        height == SHOWN_HEIGHT,
    ensures
        picture_view(r) == decoded_picture(bytes@, max_side, max_alloc, width, height),
{
    let mut reader = image::ImageReader::new(std::io::Cursor::new(bytes)).with_guessed_format().ok()?;
    let mut limits = image::Limits::default();
    limits.max_image_width = Some(max_side);
    limits.max_image_height = Some(max_side);
    limits.max_alloc = Some(max_alloc);
    reader.limits(limits);
    let mut decoder = reader.into_decoder().ok()?;
    let orientation = decoder.orientation().unwrap_or(Orientation::NoTransforms);
    let mut image = image::DynamicImage::from_decoder(decoder).ok()?;
    image.apply_orientation(orientation);
    let shown = image.thumbnail(width, height).to_rgba8();
    let (width, height) = shown.dimensions();
    Some(Picture { source_width: image.width(), source_height: image.height(), width, height, pixels: shown.into_raw() })
}

/// `image::load_from_memory`, `image::DynamicImage::apply_orientation` and
/// `thumbnail`: the decoded picture, turned by a given number. Its header states
/// a size and a kind of pixels for which the sums of `thumbnail` do not overflow.
#[verifier::external_body]
fn decode_turned(bytes: &[u8], orientation: u8, width: u32, height: u32) -> (r: Option<Picture>)
    requires
        header_of(bytes@) matches Some(h) && blocks_fit(h, orientation),
        width == SHOWN_WIDTH,
        height == SHOWN_HEIGHT,
    ensures
        picture_view(r) == turned_picture(bytes@, orientation, width, height),
{
    let mut image = image::load_from_memory(bytes).ok()?;
    let turn = Orientation::from_exif(orientation);
    image.apply_orientation(turn.unwrap_or(Orientation::NoTransforms));
    let shown = image.thumbnail(width, height).to_rgba8();
    let (width, height) = shown.dimensions();
    Some(Picture { source_width: image.width(), source_height: image.height(), width, height, pixels: shown.into_raw() })
}

// What a preview shows.

#[derive(Clone, Copy, Debug, PartialEq, Eq, Structural)]
pub enum PreviewMediaKind {
    Jpeg,
    Png,
}

pub open spec fn kind_of_start(bytes: Seq<u8>) -> Option<PreviewMediaKind> {
    if bytes.len() >= 2 && bytes[0] == 0xff && bytes[1] == 0xd8 {
        Some(PreviewMediaKind::Jpeg)
    } else if png::is_png(bytes) {
        Some(PreviewMediaKind::Png)
    } else {
        None
    }
}

/// The kind of a picture, by the first bytes of its file.
pub fn preview_media_kind(bytes: &[u8]) -> (r: Option<PreviewMediaKind>)
    ensures
        r == kind_of_start(bytes@),
{
    if bytes.len() >= 2 && bytes[0] == 0xff && bytes[1] == 0xd8 {
        Some(PreviewMediaKind::Jpeg)
    } else if has_png_signature(bytes) {
        Some(PreviewMediaKind::Png)
    } else {
        None
    }
}

/// The size of a picture that is turned.
pub open spec fn turned_size(width: u32, height: u32, orientation: u8) -> (u32, u32) {
    if 5 <= orientation <= 8 {
        (height, width)
    } else {
        (width, height)
    }
}

pub fn oriented_dimensions(width: u32, height: u32, orientation: u8) -> (r: (u32, u32))
    ensures
        r == turned_size(width, height, orientation),
{
    if 5 <= orientation && orientation <= 8 {
        (height, width)
    } else {
        (width, height)
    }
}

pub open spec fn header_size(header: Option<PictureHeader>) -> Option<(u32, u32)> {
    match header {
        Some(h) => Some(turned_size(h.width, h.height, h.orientation)),
        None => None,
    }
}

/// The size of a picture as it is shown.
pub fn preview_dimensions(bytes: &[u8]) -> (r: Option<(u32, u32)>)
    ensures
        r == header_size(header_of(bytes@)),
{
    match read_header(bytes) {
        Some(h) => Some(oriented_dimensions(h.width, h.height, h.orientation)),
        None => None,
    }
}

/// The EXIF number of an orientation that is shown as a text.
pub open spec fn orientation_number(value: Seq<char>) -> Option<u8> {
    if value == "Normal"@ || value == "1"@ {
        Some(1)
    } else if value == "Mirrored horizontal"@ || value == "2"@ {
        Some(2)
    } else if value == "Rotated 180"@ || value == "3"@ {
        Some(3)
    } else if value == "Mirrored vertical"@ || value == "4"@ {
        Some(4)
    } else if value == "Mirrored horizontal rotated 270"@ || value == "5"@ {
        Some(5)
    } else if value == "Rotated 90"@ || value == "6"@ {
        Some(6)
    } else if value == "Mirrored horizontal rotated 90"@ || value == "7"@ {
        Some(7)
    } else if value == "Rotated 270"@ || value == "8"@ {
        Some(8)
    } else {
        None
    }
}

pub fn jpeg_orientation(value: &str) -> (r: Option<u8>)
    ensures
        r == orientation_number(value@),
{
    if same_text(value, "Normal") || same_text(value, "1") {
        Some(1)
    } else if same_text(value, "Mirrored horizontal") || same_text(value, "2") {
        Some(2)
    } else if same_text(value, "Rotated 180") || same_text(value, "3") {
        Some(3)
    } else if same_text(value, "Mirrored vertical") || same_text(value, "4") {
        Some(4)
    } else if same_text(value, "Mirrored horizontal rotated 270") || same_text(value, "5") {
        Some(5)
    } else if same_text(value, "Rotated 90") || same_text(value, "6") {
        Some(6)
    } else if same_text(value, "Mirrored horizontal rotated 90") || same_text(value, "7") {
        Some(7)
    } else if same_text(value, "Rotated 270") || same_text(value, "8") {
        Some(8)
    } else {
        None
    }
}

/// A preview: the size of the picture, and what is shown.
#[derive(Debug)]
pub struct PreviewResult {
    pub pixel_width: u32,
    pub pixel_height: u32,
    pub width: u32,
    pub height: u32,
    pub pixels: Vec<u8>,
    pub status: String,
}

impl Clone for PreviewResult {
    fn clone(&self) -> (r: Self)
        ensures
            r@ == self@,
    {
        PreviewResult {
            pixel_width: self.pixel_width,
            pixel_height: self.pixel_height,
            width: self.width,
            height: self.height,
            pixels: copied(&self.pixels),
            status: self.status.clone(),
        }
    }
}

fn copied(bytes: &Vec<u8>) -> (r: Vec<u8>)
    ensures
        r@ == bytes@,
{
    let n: usize = bytes.len();
    let mut out: Vec<u8> = Vec::new();
    let mut i: usize = 0;
    while i < n
        invariant
            i <= n,
            n == bytes@.len(),
            out@ == bytes@.take(i as int),
        decreases n - i,
    {
        out.push(bytes[i]);
        i += 1;
        assert(out@ =~= bytes@.take(i as int));
    }
    assert(out@ =~= bytes@);
    out
}

pub struct PreviewModel {
    pub pixel_width: u32,
    pub pixel_height: u32,
    pub width: u32,
    pub height: u32,
    pub pixels: Seq<u8>,
    pub status: Seq<char>,
}

impl View for PreviewResult {
    type V = PreviewModel;

    open spec fn view(&self) -> PreviewModel {
        PreviewModel {
            pixel_width: self.pixel_width,
            pixel_height: self.pixel_height,
            width: self.width,
            height: self.height,
            pixels: self.pixels@,
            status: self.status@,
        }
    }
}

/// The preview of a picture; the size that its header states comes first.
pub open spec fn preview_of(p: PictureModel, status: Seq<char>, size: Option<(u32, u32)>) -> PreviewModel {
    PreviewModel {
        pixel_width: match size {
            Some((w, _)) => w,
            None => p.source_width,
        },
        pixel_height: match size {
            Some((_, h)) => h,
            None => p.source_height,
        },
        width: p.width,
        height: p.height,
        pixels: p.pixels,
        status,
    }
}

pub fn preview_result_from_image(image: Picture, status: &str, source_dimensions: Option<(u32, u32)>) -> (r:
    PreviewResult)
    ensures
        r@ == preview_of(image@, status@, source_dimensions),
{
    let (pixel_width, pixel_height) = match source_dimensions {
        Some((w, h)) => (w, h),
        None => (image.source_width, image.source_height),
    };
    PreviewResult {
        pixel_width,
        pixel_height,
        width: image.width,
        height: image.height,
        pixels: image.pixels,
        status: status.to_owned(),
    }
}

/// The EXIF number by which the thumbnail of a file is turned.
pub open spec fn thumbnail_turn(orientation: Seq<char>) -> u8 {
    match orientation_number(orientation) {
        Some(n) => n,
        None => 1,
    }
}

/// The preview of a picture: its own, or that of the thumbnail in a JPEG file
/// that cannot be decoded.
pub open spec fn chosen_preview(
    kind: PreviewMediaKind,
    full: Option<PictureModel>,
    thumbnail: Option<PictureModel>,
    size: Option<(u32, u32)>,
) -> Option<PreviewModel> {
    match (full, thumbnail) {
        (Some(p), _) => Some(preview_of(p, ""@, size)),
        (None, Some(t)) => if kind == PreviewMediaKind::Jpeg {
            Some(preview_of(t, "EXIF Thumbnail — full image could not be decoded"@, size))
        } else {
            None
        },
        (None, None) => None,
    }
}

pub open spec fn preview_view(p: Option<PreviewResult>) -> Option<PreviewModel> {
    match p {
        Some(p) => Some(p@),
        None => None,
    }
}

/// The preview of a picture, given what was decoded.
pub fn choose_preview(
    kind: PreviewMediaKind,
    full: Option<Picture>,
    thumbnail: Option<Picture>,
    source_dimensions: Option<(u32, u32)>,
) -> (r: Option<PreviewResult>)
    ensures
        preview_view(r) == chosen_preview(
            kind,
            picture_view(full),
            picture_view(thumbnail),
            source_dimensions,
        ),
{
    match full {
        Some(p) => Some(preview_result_from_image(p, "", source_dimensions)),
        None => match thumbnail {
            Some(t) => if kind == PreviewMediaKind::Jpeg {
                Some(
                    preview_result_from_image(
                        t,
                        "EXIF Thumbnail — full image could not be decoded",
                        source_dimensions,
                    ),
                )
            } else {
                None
            },
            None => None,
        },
    }
}

/// The picture in a thumbnail. There is none where its header cannot be read, nor
/// where it cannot be scaled: the sum over a block of its pixels could overflow.
pub open spec fn thumbnail_picture(bytes: Seq<u8>, orientation: Seq<char>) -> Option<PictureModel> {
    match header_of(bytes) {
        Some(h) => if blocks_fit(h, thumbnail_turn(orientation)) {
            turned_picture(bytes, thumbnail_turn(orientation), SHOWN_WIDTH, SHOWN_HEIGHT)
        } else {
            None
        },
        None => None,
    }
}

fn decode_thumbnail(bytes: &[u8], orientation: &str) -> (r: Option<Picture>)
    ensures
        picture_view(r) == thumbnail_picture(bytes@, orientation@),
{
    let turn: u8 = match jpeg_orientation(orientation) {
        Some(n) => n,
        None => 1,
    };
    match read_header(bytes) {
        Some(h) => if do_blocks_fit(h, turn) {
            decode_turned(bytes, turn, SHOWN_WIDTH, SHOWN_HEIGHT)
        } else {
            None
        },
        None => None,
    }
}

/// Decodes the preview of a file, given the thumbnail and the orientation in
/// its EXIF data.
pub fn decode_preview(
    bytes: &[u8],
    kind: PreviewMediaKind,
    thumbnail: Option<&[u8]>,
    orientation: &str,
    source_dimensions: Option<(u32, u32)>,
) -> (r: Option<PreviewResult>)
    ensures
        preview_view(r) == chosen_preview(
            kind,
            decoded_picture(bytes@, MAX_SIDE, MAX_ALLOC, SHOWN_WIDTH, SHOWN_HEIGHT),
            match thumbnail {
                Some(t) => thumbnail_picture(t@, orientation@),
                None => None,
            },
            source_dimensions,
        ),
{
    let full = decode_picture(bytes, MAX_SIDE, MAX_ALLOC, SHOWN_WIDTH, SHOWN_HEIGHT);
    if full.is_some() || kind == PreviewMediaKind::Png {
        return choose_preview(kind, full, None, source_dimensions);
    }
    let small = match thumbnail {
        Some(t) => decode_thumbnail(t, orientation),
        None => None,
    };
    choose_preview(kind, None, small, source_dimensions)
}

/// The size of a picture and the time that it took to load.
pub open spec fn info_text(width: u32, height: u32, millis: u64) -> Seq<char> {
    text::decimal(width as nat) + " x "@ + text::decimal(height as nat) + " (loaded in "@
        + text::decimal(millis as nat) + " ms)"@
}

pub fn preview_info_text(width: u32, height: u32, millis: u64) -> (r: String)
    ensures
        r@ == info_text(width, height, millis),
{
    let mut out = decimal_text(width as u64);
    out.append(" x ");
    out.append(decimal_text(height as u64).as_str());
    out.append(" (loaded in ");
    out.append(decimal_text(millis).as_str());
    out.append(" ms)");
    out
}

/// The text for a picture that could not be decoded.
pub fn preview_failed_text(millis: u64) -> (r: String)
    ensures
        r@ == "Preview unavailable (failed in "@ + text::decimal(millis as nat) + " ms)"@,
{
    let mut out = "Preview unavailable (failed in ".to_owned();
    out.append(decimal_text(millis).as_str());
    out.append(" ms)");
    out
}

/// What is shown beside a picture, and whether there is one.
#[derive(Debug)]
pub struct PreviewTexts {
    pub ready: bool,
    pub pixel_width: u32,
    pub pixel_height: u32,
    pub status: String,
    pub info: String,
}

/// What is shown while a picture is loaded.
pub fn preview_while_loading() -> (r: PreviewTexts)
    ensures
        !r.ready,
        r.pixel_width == 0,
        r.pixel_height == 0,
        r.status@ == ""@,
        r.info@ == "Loading image..."@,
{
    PreviewTexts {
        ready: false,
        pixel_width: 0,
        pixel_height: 0,
        status: "".to_owned(),
        info: "Loading image...".to_owned(),
    }
}

/// What is shown once a picture is loaded, or could not be.
pub fn preview_once_loaded(result: &Option<PreviewResult>, millis: u64) -> (r: PreviewTexts)
    ensures
        match *result {
            Some(p) => {
                &&& r.ready
                &&& r.pixel_width == p.pixel_width
                &&& r.pixel_height == p.pixel_height
                &&& r.status@ == p.status@
                &&& r.info@ == info_text(p.pixel_width, p.pixel_height, millis)
            },
            None => {
                &&& !r.ready
                &&& r.pixel_width == 0
                &&& r.pixel_height == 0
                &&& r.status@ == "Image could not be decoded"@
                &&& r.info@ == "Preview unavailable (failed in "@ + text::decimal(millis as nat)
                    + " ms)"@
            },
        },
{
    match result {
        Some(p) => PreviewTexts {
            ready: true,
            pixel_width: p.pixel_width,
            pixel_height: p.pixel_height,
            status: p.status.clone(),
            info: preview_info_text(p.pixel_width, p.pixel_height, millis),
        },
        None => PreviewTexts {
            ready: false,
            pixel_width: 0,
            pixel_height: 0,
            status: "Image could not be decoded".to_owned(),
            info: preview_failed_text(millis),
        },
    }
}

// Previews that are kept.

/// What a preview was made of: a file as it was at a time.
#[derive(Debug)]
pub struct PreviewCacheKey {
    /// By what the path of the file is compared.
    pub path: String,
    pub size: u64,
    pub modified_nanos: u128,
}

pub struct KeyModel {
    pub path: Seq<char>,
    pub size: u64,
    pub modified_nanos: u128,
}

impl View for PreviewCacheKey {
    type V = KeyModel;

    open spec fn view(&self) -> KeyModel {
        KeyModel { path: self.path@, size: self.size, modified_nanos: self.modified_nanos }
    }
}

impl PreviewCacheKey {
    pub fn new(path: &str, windows: bool, size: u64, modified_nanos: u128) -> (r: Self)
        ensures
            r@ == (KeyModel { path: paths::path_id(path@, windows), size, modified_nanos }),
    {
        PreviewCacheKey { path: comparable_path(path, windows), size, modified_nanos }
    }

    pub fn same(&self, other: &PreviewCacheKey) -> (r: bool)
        ensures
            r == (self@ == other@),
    {
        self.size == other.size && self.modified_nanos == other.modified_nanos && same_text(
            self.path.as_str(),
            other.path.as_str(),
        )
    }

    pub fn copy(&self) -> (r: PreviewCacheKey)
        ensures
            r@ == self@,
    {
        PreviewCacheKey {
            path: self.path.clone(),
            size: self.size,
            modified_nanos: self.modified_nanos,
        }
    }
}

/// The bytes that may be kept.
pub const MAX_PREVIEW_CACHE_BYTES: usize = 50_331_648;

/// The previews that may be kept.
pub const MAX_PREVIEW_CACHE_ITEMS: usize = 8;

/// The previews that were used last, the latest at the end.
#[derive(Debug)]
pub struct PreviewCache {
    entries: Vec<(PreviewCacheKey, PreviewResult)>,
}

pub type Kept = (KeyModel, PreviewModel);

impl View for PreviewCache {
    type V = Seq<Kept>;

    closed spec fn view(&self) -> Seq<Kept> {
        kept_views(self.entries@)
    }
}

pub open spec fn kept_views(entries: Seq<(PreviewCacheKey, PreviewResult)>) -> Seq<Kept> {
    Seq::new(entries.len(), |i: int| (entries[i].0@, entries[i].1@))
}

/// The bytes of some previews.
pub open spec fn kept_bytes(kept: Seq<Kept>) -> int
    decreases kept.len(),
{
    if kept.len() == 0 {
        0
    } else {
        kept_bytes(kept.drop_last()) + kept.last().1.pixels.len()
    }
}

/// Where a preview is kept.
pub open spec fn place_of(kept: Seq<Kept>, key: KeyModel, n: int) -> Option<int>
    decreases n,
{
    if n <= 0 {
        None
    } else if kept[n - 1].0 == key {
        Some(n - 1)
    } else {
        place_of(kept, key, n - 1)
    }
}

/// The previews without that of a key.
pub open spec fn without_key(kept: Seq<Kept>, key: KeyModel) -> Seq<Kept> {
    match place_of(kept, key, kept.len() as int) {
        Some(i) => kept.remove(i),
        None => kept,
    }
}

/// The previews are few enough.
pub open spec fn within_limits(kept: Seq<Kept>) -> bool {
    kept_bytes(kept) <= MAX_PREVIEW_CACHE_BYTES && kept.len() <= MAX_PREVIEW_CACHE_ITEMS
}

/// The previews without the oldest ones, as far as there are too many.
pub open spec fn evicted(kept: Seq<Kept>) -> Seq<Kept>
    decreases kept.len(),
{
    if kept.len() == 0 || within_limits(kept) {
        kept
    } else {
        evicted(kept.drop_first())
    }
}

/// Each key is there once.
pub open spec fn keys_differ(kept: Seq<Kept>) -> bool {
    forall|i: int, j: int|
        0 <= i < j < kept.len() ==> (#[trigger] kept[i]).0 != (#[trigger] kept[j]).0
}

proof fn lemma_place(kept: Seq<Kept>, key: KeyModel, n: int)
    requires
        0 <= n <= kept.len(),
    ensures
        match place_of(kept, key, n) {
            Some(i) => 0 <= i < n && kept[i].0 == key,
            None => forall|i: int| 0 <= i < n ==> (#[trigger] kept[i]).0 != key,
        },
    decreases n,
{
    if n > 0 && kept[n - 1].0 != key {
        lemma_place(kept, key, n - 1);
    }
}

proof fn lemma_bytes_after_first(kept: Seq<Kept>)
    requires
        kept.len() > 0,
    ensures
        kept_bytes(kept) == kept[0].1.pixels.len() + kept_bytes(kept.drop_first()),
        kept_bytes(kept.drop_first()) >= 0,
    decreases kept.len(),
{
    if kept.len() > 1 {
        lemma_bytes_after_first(kept.drop_last());
        assert(kept.drop_last().drop_first() =~= kept.drop_first().drop_last());
        assert(kept.drop_first().last() == kept.last());
        assert(kept.drop_last()[0] == kept[0]);
    } else {
        assert(kept.drop_last() =~= Seq::empty());
        assert(kept.drop_first() =~= Seq::empty());
        assert(kept.last() == kept[0]);
    }
}

/// What is kept is within the limits, and consists of the previews that were
/// used last.
pub proof fn kept_previews_are_few_and_recent(kept: Seq<Kept>)
    ensures
        within_limits(evicted(kept)),
        evicted(kept).len() <= kept.len(),
        evicted(kept) == kept.skip(kept.len() - evicted(kept).len()),
    decreases kept.len(),
{
    if kept.len() == 0 || within_limits(kept) {
        assert(kept.skip(0) =~= kept);
    } else {
        let rest = kept.drop_first();
        kept_previews_are_few_and_recent(rest);
        assert(rest.skip(rest.len() - evicted(rest).len()) =~= kept.skip(
            kept.len() - evicted(kept).len(),
        ));
    }
}

/// A preview that is not larger than all that may be kept is kept when it is
/// put in.
pub proof fn new_preview_is_kept(kept: Seq<Kept>, key: KeyModel, value: PreviewModel)
    requires
        value.pixels.len() <= MAX_PREVIEW_CACHE_BYTES,
    ensures
        ({
            let after = evicted(without_key(kept, key).push((key, value)));
            after.len() > 0 && after.last() == (key, value)
        }),
{
    lemma_last_stays(without_key(kept, key), key, value);
}

proof fn lemma_last_stays(kept: Seq<Kept>, key: KeyModel, value: PreviewModel)
    requires
        value.pixels.len() <= MAX_PREVIEW_CACHE_BYTES,
    ensures
        evicted(kept.push((key, value))).len() > 0,
        evicted(kept.push((key, value))).last() == (key, value),
    decreases kept.len(),
{
    let all = kept.push((key, value));
    if !within_limits(all) {
        if kept.len() == 0 {
            assert(all.drop_last() =~= Seq::<Kept>::empty());
            assert(kept_bytes(all.drop_last()) == 0);
            assert(all.last() == (key, value));
            assert(false);
        } else {
            assert(all.drop_first() =~= kept.drop_first().push((key, value)));
            lemma_last_stays(kept.drop_first(), key, value);
        }
    }
}

/// A key is never kept twice.
pub proof fn keys_stay_different(kept: Seq<Kept>, key: KeyModel, value: PreviewModel)
    requires
        keys_differ(kept),
    ensures
        keys_differ(without_key(kept, key).push((key, value))),
        keys_differ(evicted(without_key(kept, key).push((key, value)))),
{
    lemma_place(kept, key, kept.len() as int);
    let all = without_key(kept, key).push((key, value));
    assert(keys_differ(all));
    kept_previews_are_few_and_recent(all);
}

impl PreviewCache {
    pub fn new() -> (r: Self)
        ensures
            r@ == Seq::<Kept>::empty(),
    {
        let r = PreviewCache { entries: Vec::new() };
        assert(r@ =~= Seq::empty());
        r
    }

    fn find(&self, key: &PreviewCacheKey) -> (r: Option<usize>)
        ensures
            match r {
                Some(i) => place_of(self@, key@, self@.len() as int) == Some(i as int) && i
                    < self.entries@.len(),
                None => place_of(self@, key@, self@.len() as int) is None,
            },
    {
        let n: usize = self.entries.len();
        let mut i: usize = n;
        while i > 0
            invariant
                i <= n,
                n == self.entries@.len(),
                n == self@.len(),
                place_of(self@, key@, i as int) == place_of(self@, key@, n as int),
            decreases i,
        {
            if self.entries[i - 1].0.same(key) {
                return Some(i - 1);
            }
            i -= 1;
        }
        None
    }

    /// The preview of a key; it counts as used last.
    pub fn get(&mut self, key: &PreviewCacheKey) -> (r: Option<PreviewResult>)
        ensures
            match place_of(old(self)@, key@, old(self)@.len() as int) {
                Some(i) => r matches Some(v) && v@ == old(self)@[i].1 && final(self)@ == old(self)@.remove(i).push(old(self)@[i]),
                None => r is None && final(self)@ == old(self)@,
            },
    {
        match self.find(key) {
            Some(i) => {
                let ghost before = self.entries@;
                let entry = self.entries.remove(i);
                let value = entry.1.clone();
                let ghost middle = self.entries@;
                self.entries.push(entry);
                assert(self@ =~= kept_views(before).remove(i as int).push(
                    kept_views(before)[i as int],
                ));
                Some(value)
            },
            None => None,
        }
    }

    fn total(&self) -> (r: u128)
        ensures
            r == kept_bytes(self@),
    {
        let n: usize = self.entries.len();
        let mut sum: u128 = 0;
        let mut i: usize = 0;
        proof {
            assert(self@.take(0) =~= Seq::empty());
        }
        while i < n
            invariant
                i <= n,
                n == self.entries@.len(),
                n == self@.len(),
                sum == kept_bytes(self@.take(i as int)),
                sum <= i * usize::MAX,
            decreases n - i,
        {
            proof {
                assert(self@.take(i + 1).drop_last() =~= self@.take(i as int));
                assert((i + 1) * usize::MAX == i * usize::MAX + usize::MAX) by (nonlinear_arith);
                assert(i * usize::MAX <= usize::MAX * usize::MAX) by (nonlinear_arith)
                    requires
                        i <= usize::MAX,
                ;
                assert(usize::MAX * usize::MAX + usize::MAX <= u128::MAX) by (nonlinear_arith)
                    requires
                        usize::MAX <= 0xffff_ffff_ffff_ffff,
                ;
            }
            sum += self.entries[i].1.pixels.len() as u128;
            i += 1;
        }
        assert(self@.take(n as int) =~= self@);
        sum
    }

    /// Keeps a preview; the oldest ones leave as far as there are too many.
    pub fn insert(&mut self, key: PreviewCacheKey, value: PreviewResult)
        ensures
            final(self)@ == evicted(without_key(old(self)@, key@).push((key@, value@))),
    {
        match self.find(&key) {
            Some(i) => {
                let ghost before = self.entries@;
                self.entries.remove(i);
                assert(self@ =~= kept_views(before).remove(i as int));
            },
            None => {},
        }
        let ghost kept = self@;
        let ghost pair = (key@, value@);
        self.entries.push((key, value));
        assert(self@ =~= kept.push(pair));
        let ghost all = self@;
        let mut many = self.total() > MAX_PREVIEW_CACHE_BYTES as u128 || self.entries.len()
            > MAX_PREVIEW_CACHE_ITEMS;
        while many && self.entries.len() > 0
            invariant
                many == !within_limits(self@),
                self@.len() == self.entries@.len(),
                evicted(self@) == evicted(all),
            decreases self.entries@.len(),
        {
            let ghost before = self.entries@;
            let ghost shown = self@;
            self.entries.remove(0);
            assert(self@ =~= shown.drop_first());
            many =
            self.total() > MAX_PREVIEW_CACHE_BYTES as u128 || self.entries.len()
                > MAX_PREVIEW_CACHE_ITEMS;
        }
    }
}

// Which preview is shown.

/// The preview that is shown or is being loaded.
#[derive(Debug)]
pub struct PreviewState {
    pub generation: u64,
    pub current: Option<PreviewCacheKey>,
    pub available: bool,
}

/// What is done when the selection changes.
#[derive(Clone, Copy, Debug, PartialEq, Eq, Structural)]
pub enum PreviewStep {
    /// No preview is shown.
    Clear,
    /// The preview that is shown is the right one.
    Keep,
    /// Another preview is to be shown: one that is kept, or one that is loaded
    /// for this generation.
    Show(u64),
}

pub open spec fn current_key(s: PreviewState) -> Option<KeyModel> {
    match s.current {
        Some(k) => Some(k@),
        None => None,
    }
}

/// A file that is known as a video has no preview.
pub open spec fn video_by_extension(name: Seq<char>) -> bool {
    media::video_name(name) || names::lower_extension(name) == "qt"@
}

fn is_video_by_extension(name: &str) -> (r: bool)
    ensures
        r == video_by_extension(name@),
{
    if media::is_video_path(name) {
        return true;
    }
    let ext = lower_file_extension(name);
    same_text(ext.as_str(), "qt")
}

impl PreviewState {
    pub fn new() -> (r: Self)
        ensures
            r.generation == 0,
            r.current is None,
            !r.available,
    {
        PreviewState { generation: 0, current: None, available: false }
    }

    /// Ends the preview; a load that is under way becomes outdated.
    pub fn clear(&mut self)
        ensures
            final(self).current is None,
            !final(self).available,
            final(self).generation == if old(self).current is Some || old(self).available {
                next_generation(old(self).generation)
            } else {
                old(self).generation
            },
    {
        if self.current.is_some() || self.available {
            self.generation = later_generation(self.generation);
        }
        self.current = None;
        self.available = false;
    }

    /// Takes the selection: the name and the state of the only selected file.
    pub fn update(&mut self, name: Option<&str>, key: Option<PreviewCacheKey>) -> (r: PreviewStep)
        ensures
            match (name, key) {
                (Some(n), Some(k)) => if video_by_extension(n@) {
                    r == PreviewStep::Clear && final(self).current is None
                } else if current_key(*old(self)) == Some(k@) {
                    r == PreviewStep::Keep && *final(self) == *old(self)
                } else {
                    &&& r == PreviewStep::Show(next_generation(old(self).generation))
                    &&& final(self).generation == next_generation(old(self).generation)
                    &&& current_key(*final(self)) == Some(k@)
                    &&& final(self).available
                },
                _ => r == PreviewStep::Clear && final(self).current is None,
            },
            r == PreviewStep::Clear ==> !final(self).available,
            r == PreviewStep::Clear ==> final(self).generation == if old(self).current is Some
                || old(self).available {
                next_generation(old(self).generation)
            } else {
                old(self).generation
            },
    {
        match (name, key) {
            (Some(n), Some(k)) => {
                if is_video_by_extension(n) {
                    self.clear();
                    return PreviewStep::Clear;
                }
                let same = match &self.current {
                    Some(c) => c.same(&k),
                    None => false,
                };
                if same {
                    return PreviewStep::Keep;
                }
                self.current = Some(k);
                self.generation = later_generation(self.generation);
                self.available = true;
                PreviewStep::Show(self.generation)
            },
            _ => {
                self.clear();
                PreviewStep::Clear
            },
        }
    }

    /// Whether what was loaded for a generation is still wanted.
    pub fn is_wanted(&self, generation: u64) -> (r: bool)
        ensures
            r == (self.generation == generation),
    {
        self.generation == generation
    }
}

/// The number of the next preview; after the last number comes the first.
pub open spec fn next_generation(generation: u64) -> u64 {
    if generation == u64::MAX {
        0
    } else {
        (generation + 1) as u64
    }
}

fn later_generation(generation: u64) -> (r: u64)
    ensures
        r == next_generation(generation),
{
    if generation == u64::MAX {
        0
    } else {
        generation + 1
    }
}

} // verus!
