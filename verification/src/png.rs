//! The chunks of a PNG file, and the dates that they hold.
use crate::binary::{self, append_bytes, append_u32, copied, has_bytes_at, read_u32, Endian};
use crate::datetime::{
    self, format_datetime, parse_datetime, parse_display_datetime_or_date, parse_rfc2822,
    parse_rfc3339, Moment, DISPLAY_DATETIME_FORMAT, EXIF_DATETIME_FORMAT,
};
use crate::exif::{self, read_exif_tiff_metadata, Field};
use crate::exif_edit::{self, create_date_only_exif_tiff, rewrite_exif_tiff_dates};
use crate::png_laws;
use crate::text::{self, trimmed};
use vstd::prelude::*;

verus! {

pub open spec fn png_signature() -> Seq<u8> {
    seq![0x89u8, 0x50, 0x4e, 0x47, 0x0d, 0x0a, 0x1a, 0x0a]
}

pub open spec fn is_png(bytes: Seq<u8>) -> bool {
    binary::begins_with(bytes, png_signature())
}

/// The kinds of chunks that matter here, by the letters of their names.
pub open spec fn header_kind() -> Seq<u8> {
    seq![0x49u8, 0x48, 0x44, 0x52]
}

pub open spec fn image_kind() -> Seq<u8> {
    seq![0x49u8, 0x44, 0x41, 0x54]
}

pub open spec fn end_kind() -> Seq<u8> {
    seq![0x49u8, 0x45, 0x4e, 0x44]
}

pub open spec fn text_kind() -> Seq<u8> {
    seq![0x74u8, 0x45, 0x58, 0x74]
}

pub open spec fn exif_kind() -> Seq<u8> {
    seq![0x65u8, 0x58, 0x49, 0x66]
}

/// `Creation Time`.
pub open spec fn creation_keyword() -> Seq<u8> {
    seq![
        0x43u8,
        0x72,
        0x65,
        0x61,
        0x74,
        0x69,
        0x6f,
        0x6e,
        0x20,
        0x54,
        0x69,
        0x6d,
        0x65,
    ]
}

fn signature_bytes() -> (r: Vec<u8>)
    ensures
        r@ == png_signature(),
{
    let v: Vec<u8> = vec![0x89, 0x50, 0x4e, 0x47, 0x0d, 0x0a, 0x1a, 0x0a];
    assert(v@ =~= png_signature());
    v
}

fn kind_bytes(a: u8, b: u8, c: u8, d: u8) -> (r: Vec<u8>)
    ensures
        r@ == seq![a, b, c, d],
{
    let v: Vec<u8> = vec![a, b, c, d];
    assert(v@ =~= seq![a, b, c, d]);
    v
}

fn creation_keyword_bytes() -> (r: Vec<u8>)
    ensures
        r@ == creation_keyword(),
{
    let v: Vec<u8> = vec![
        0x43, 0x72, 0x65, 0x61, 0x74, 0x69, 0x6f, 0x6e, 0x20, 0x54, 0x69, 0x6d, 0x65,
    ];
    assert(v@ =~= creation_keyword());
    v
}

pub fn has_png_signature(bytes: &[u8]) -> (r: bool)
    ensures
        r == is_png(bytes@),
{
    let s = signature_bytes();
    let r = has_bytes_at(bytes, 0, s.as_slice());
    assert(r ==> bytes@.take(8) =~= bytes@.subrange(0, 8));
    assert(is_png(bytes@) ==> bytes@.subrange(0, 8) =~= png_signature());
    r
}

// Walking over chunks.

/// The length that a chunk's header gives.
pub open spec fn chunk_len(bytes: Seq<u8>, at: int) -> int {
    binary::u32_of(bytes[at], bytes[at + 1], bytes[at + 2], bytes[at + 3], Endian::Big) as int
}

/// Where the chunk at a position ends: behind its length, kind, data and checksum.
pub open spec fn chunk_end(bytes: Seq<u8>, at: int) -> int {
    at + 12 + chunk_len(bytes, at)
}

/// Whether the file goes on with a chunk that may or may not be complete.
pub open spec fn chunk_starts(bytes: Seq<u8>, at: int) -> bool {
    0 <= at && at + 12 <= bytes.len()
}

/// Whether a whole chunk stands at a position.
pub open spec fn whole_chunk(bytes: Seq<u8>, at: int) -> bool {
    chunk_starts(bytes, at) && chunk_end(bytes, at) <= bytes.len()
}

pub open spec fn kind_at(bytes: Seq<u8>, at: int) -> Seq<u8> {
    bytes.subrange(at + 4, at + 8)
}

pub open spec fn data_at(bytes: Seq<u8>, at: int) -> Seq<u8> {
    bytes.subrange(at + 8, chunk_end(bytes, at) - 4)
}

/// The end of the chunk at a position, if it lies within the bytes.
fn read_chunk_end(bytes: &[u8], at: usize) -> (r: Option<usize>)
    requires
        chunk_starts(bytes@, at as int),
    ensures
        match r {
            Some(e) => whole_chunk(bytes@, at as int) && e == chunk_end(bytes@, at as int),
            None => !whole_chunk(bytes@, at as int),
        },
{
    let n: usize = bytes.len();
    match read_u32(bytes, at, Endian::Big) {
        None => None,
        Some(len) => {
            let end: u128 = at as u128 + 12 + len as u128;
            if end <= n as u128 {
                Some(end as usize)
            } else {
                None
            }
        },
    }
}

fn is_kind(bytes: &[u8], at: usize, kind: &[u8]) -> (r: bool)
    requires
        chunk_starts(bytes@, at as int),
        kind@.len() == 4,
    ensures
        r == (kind_at(bytes@, at as int) == kind@),
{
    let n: usize = bytes.len();
    has_bytes_at(bytes, at + 4, kind)
}

/// The text of a chunk's data for a keyword: what follows the keyword and a
/// zero, if it is UTF-8.
pub open spec fn text_value(data: Seq<u8>, keyword: Seq<u8>) -> Option<Seq<char>> {
    let separator = exif::zero_from(data, 0);
    if separator >= data.len() || data.take(separator) != keyword {
        None
    } else if vstd::utf8::valid_utf8(data.skip(separator + 1)) {
        Some(vstd::utf8::decode_utf8(data.skip(separator + 1)))
    } else {
        None
    }
}

/// The text of bytes, made with `String::from_utf8`; none if they are not UTF-8.
#[verifier::external_body]
fn utf8_string(bytes: Vec<u8>) -> (r: Option<String>)
    ensures
        match r {
            Some(s) => vstd::utf8::valid_utf8(bytes@) && s@ == vstd::utf8::decode_utf8(bytes@),
            None => !vstd::utf8::valid_utf8(bytes@),
        },
{
    String::from_utf8(bytes).ok()
}

fn text_chunk_value(data: &[u8], keyword: &[u8]) -> (r: Option<String>)
    ensures
        match r {
            Some(t) => text_value(data@, keyword@) == Some(t@),
            None => text_value(data@, keyword@) is None,
        },
{
    let separator: usize = exif::find_zero(data);
    let n: usize = data.len();
    if separator >= n {
        return None;
    }
    if separator != keyword.len() || !has_bytes_at(data, 0, keyword) {
        assert(data@.take(separator as int) =~= data@.subrange(0, separator as int));
        return None;
    }
    assert(data@.take(separator as int) =~= data@.subrange(0, separator as int));
    let value = copied(data, separator + 1, n);
    assert(value@ =~= data@.skip(separator + 1));
    utf8_string(value)
}

/// The text with a keyword, in the chunks from a position on.
pub open spec fn text_from(bytes: Seq<u8>, keyword: Seq<u8>, at: int) -> Option<Seq<char>>
    decreases bytes.len() - at,
{
    if !whole_chunk(bytes, at) {
        None
    } else if kind_at(bytes, at) == text_kind() && text_value(data_at(bytes, at), keyword) is Some {
        text_value(data_at(bytes, at), keyword)
    } else if kind_at(bytes, at) == end_kind() {
        None
    } else {
        text_from(bytes, keyword, chunk_end(bytes, at))
    }
}

/// The first text with a keyword that a PNG file has.
pub open spec fn png_text(bytes: Seq<u8>, keyword: Seq<u8>) -> Option<Seq<char>> {
    if is_png(bytes) {
        text_from(bytes, keyword, 8)
    } else {
        None
    }
}

pub fn find_text_chunk(bytes: &[u8], keyword: &[u8]) -> (r: Option<String>)
    ensures
        match r {
            Some(t) => png_text(bytes@, keyword@) == Some(t@),
            None => png_text(bytes@, keyword@) is None,
        },
{
    if !has_png_signature(bytes) {
        return None;
    }
    let text = kind_bytes(0x74, 0x45, 0x58, 0x74);
    let end = kind_bytes(0x49, 0x45, 0x4e, 0x44);
    let n: usize = bytes.len();
    let mut at: usize = 8;
    while n >= 12 && at <= n - 12
        invariant
            8 <= at <= n,
            n == bytes@.len(),
            text@ == text_kind(),
            end@ == end_kind(),
            png_text(bytes@, keyword@) == text_from(bytes@, keyword@, at as int),
        decreases n - at,
    {
        let stop: usize = match read_chunk_end(bytes, at) {
            None => {
                return None;
            },
            Some(e) => e,
        };
        if is_kind(bytes, at, text.as_slice()) {
            let data = copied(bytes, at + 8, stop - 4);
            match text_chunk_value(data.as_slice(), keyword) {
                Some(value) => {
                    return Some(value);
                },
                None => {},
            }
        }
        if is_kind(bytes, at, end.as_slice()) {
            return None;
        }
        at = stop;
    }
    None
}

/// The data of the first chunk of a kind, from a position on.
pub open spec fn chunk_from(bytes: Seq<u8>, kind: Seq<u8>, at: int) -> Option<Seq<u8>>
    decreases bytes.len() - at,
{
    if !whole_chunk(bytes, at) {
        None
    } else if kind_at(bytes, at) == kind {
        Some(data_at(bytes, at))
    } else if kind_at(bytes, at) == end_kind() {
        None
    } else {
        chunk_from(bytes, kind, chunk_end(bytes, at))
    }
}

pub open spec fn png_chunk(bytes: Seq<u8>, kind: Seq<u8>) -> Option<Seq<u8>> {
    if is_png(bytes) {
        chunk_from(bytes, kind, 8)
    } else {
        None
    }
}

pub fn find_chunk(bytes: &[u8], wanted_kind: &[u8]) -> (r: Option<Vec<u8>>)
    requires
        wanted_kind@.len() == 4,
    ensures
        match r {
            Some(d) => png_chunk(bytes@, wanted_kind@) == Some(d@),
            None => png_chunk(bytes@, wanted_kind@) is None,
        },
{
    if !has_png_signature(bytes) {
        return None;
    }
    let end = kind_bytes(0x49, 0x45, 0x4e, 0x44);
    let n: usize = bytes.len();
    let mut at: usize = 8;
    while n >= 12 && at <= n - 12
        invariant
            8 <= at <= n,
            n == bytes@.len(),
            wanted_kind@.len() == 4,
            end@ == end_kind(),
            png_chunk(bytes@, wanted_kind@) == chunk_from(bytes@, wanted_kind@, at as int),
        decreases n - at,
    {
        let stop: usize = match read_chunk_end(bytes, at) {
            None => {
                return None;
            },
            Some(e) => e,
        };
        if is_kind(bytes, at, wanted_kind) {
            return Some(copied(bytes, at + 8, stop - 4));
        }
        if is_kind(bytes, at, end.as_slice()) {
            return None;
        }
        at = stop;
    }
    None
}

// Writing chunks.

/// One step of the checksum, for one bit.
pub open spec fn crc_bit(crc: u32) -> u32 {
    if crc & 1 == 1 {
        (crc >> 1) ^ 0xedb8_8320u32
    } else {
        crc >> 1
    }
}

pub open spec fn crc_bits(crc: u32, n: nat) -> u32
    decreases n,
{
    if n == 0 {
        crc
    } else {
        crc_bit(crc_bits(crc, (n - 1) as nat))
    }
}

/// The checksum over bytes, before its last inversion.
pub open spec fn crc_over(bytes: Seq<u8>) -> u32
    decreases bytes.len(),
{
    if bytes.len() == 0 {
        0xffff_ffff
    } else {
        crc_bits(crc_over(bytes.drop_last()) ^ (bytes.last() as u32), 8)
    }
}

/// The checksum of a chunk, over its kind and its data.
pub open spec fn png_crc(kind: Seq<u8>, data: Seq<u8>) -> u32 {
    !crc_over(kind + data)
}

fn crc_step(crc: u32, byte: u8) -> (r: u32)
    ensures
        r == crc_bits(crc ^ (byte as u32), 8),
{
    let mut c: u32 = crc ^ (byte as u32);
    let mut k: usize = 0;
    while k < 8
        invariant
            k <= 8,
            c == crc_bits(crc ^ (byte as u32), k as nat),
        decreases 8 - k,
    {
        c = if c & 1 == 1 {
            (c >> 1) ^ 0xedb8_8320u32
        } else {
            c >> 1
        };
        k += 1;
    }
    c
}

pub fn png_crc32(kind: &[u8], data: &[u8]) -> (r: u32)
    ensures
        r == png_crc(kind@, data@),
{
    let mut all: Vec<u8> = Vec::new();
    append_bytes(&mut all, kind);
    append_bytes(&mut all, data);
    assert(all@ =~= kind@ + data@);
    let n: usize = all.len();
    let mut crc: u32 = 0xffff_ffff;
    let mut i: usize = 0;
    assert(all@.take(0) =~= Seq::<u8>::empty());
    while i < n
        invariant
            i <= n,
            n == all@.len(),
            crc == crc_over(all@.take(i as int)),
        decreases n - i,
    {
        crc = crc_step(crc, all[i]);
        i += 1;
        assert(all@.take(i as int).drop_last() =~= all@.take(i - 1));
        assert(all@.take(i as int).last() == all@[i - 1]);
    }
    assert(all@.take(n as int) =~= all@);
    !crc
}

/// A chunk with its length and its checksum.
pub open spec fn new_chunk(kind: Seq<u8>, data: Seq<u8>) -> Result<Seq<u8>, Seq<char>> {
    if data.len() > u32::MAX {
        Err("PNG EXIF chunk is too large."@)
    } else {
        Ok(
            binary::u32_bytes(data.len() as u32, Endian::Big) + kind + data + binary::u32_bytes(
                png_crc(kind, data),
                Endian::Big,
            ),
        )
    }
}

pub fn make_chunk(kind: &[u8], data: &[u8]) -> (r: Result<Vec<u8>, String>)
    ensures
        match r {
            Ok(c) => new_chunk(kind@, data@) == Ok::<Seq<u8>, Seq<char>>(c@),
            Err(e) => new_chunk(kind@, data@) == Err::<Seq<u8>, Seq<char>>(e@),
        },
{
    let n: usize = data.len();
    if n as u64 > u32::MAX as u64 {
        return Err("PNG EXIF chunk is too large.".to_owned());
    }
    let mut out: Vec<u8> = Vec::new();
    append_u32(&mut out, n as u32, Endian::Big);
    append_bytes(&mut out, kind);
    append_bytes(&mut out, data);
    append_u32(&mut out, png_crc32(kind, data), Endian::Big);
    assert(out@ =~= binary::u32_bytes(data@.len() as u32, Endian::Big) + kind@ + data@
        + binary::u32_bytes(png_crc(kind@, data@), Endian::Big));
    Ok(out)
}

/// Bytes before an outcome.
pub open spec fn prepended(front: Seq<u8>, rest: Result<Seq<u8>, Seq<char>>) -> Result<
    Seq<u8>,
    Seq<char>,
> {
    match rest {
        Ok(r) => Ok(front + r),
        Err(e) => Err(e),
    }
}

/// Two outcomes, one behind the other; the first error counts.
pub open spec fn both(
    front: Result<Seq<u8>, Seq<char>>,
    rest: Result<Seq<u8>, Seq<char>>,
) -> Result<Seq<u8>, Seq<char>> {
    match front {
        Ok(f) => prepended(f, rest),
        Err(e) => Err(e),
    }
}

/// The chunks from a position on, with the chunks of a kind replaced by a new
/// one. Where there is none it goes before the image data, or behind the end
/// of an image without any.
pub open spec fn chunk_replaced_from(
    bytes: Seq<u8>,
    kind: Seq<u8>,
    chunk: Result<Seq<u8>, Seq<char>>,
    at: int,
    inserted: bool,
    saw_header: bool,
) -> Result<Seq<u8>, Seq<char>>
    decreases bytes.len() - at,
{
    let none = Ok::<Seq<u8>, Seq<char>>(Seq::empty());
    if !chunk_starts(bytes, at) {
        Err("PNG IEND chunk was not found."@)
    } else if !whole_chunk(bytes, at) {
        Err("PNG chunk extends beyond the end of the file."@)
    } else {
        let end = chunk_end(bytes, at);
        let header = saw_header || kind_at(bytes, at) == header_kind();
        let own = Ok::<Seq<u8>, Seq<char>>(bytes.subrange(at, end));
        if kind_at(bytes, at) == kind {
            both(
                if inserted {
                    none
                } else {
                    chunk
                },
                chunk_replaced_from(bytes, kind, chunk, end, true, header),
            )
        } else if !inserted && kind_at(bytes, at) == image_kind() {
            if !header {
                Err("PNG IHDR chunk was not found."@)
            } else {
                both(
                    chunk,
                    both(own, chunk_replaced_from(bytes, kind, chunk, end, true, header)),
                )
            }
        } else if kind_at(bytes, at) == end_kind() {
            both(
                own,
                if inserted {
                    none
                } else {
                    chunk
                },
            )
        } else {
            both(own, chunk_replaced_from(bytes, kind, chunk, end, inserted, header))
        }
    }
}

/// The file with the chunks of a kind replaced by one with other data.
pub open spec fn chunk_replaced(bytes: Seq<u8>, kind: Seq<u8>, data: Seq<u8>) -> Result<
    Seq<u8>,
    Seq<char>,
> {
    if !is_png(bytes) {
        Err("Selected file is not a PNG image."@)
    } else {
        prepended(
            png_signature(),
            chunk_replaced_from(bytes, kind, new_chunk(kind, data), 8, false, false),
        )
    }
}

proof fn lemma_prepended(a: Seq<u8>, b: Seq<u8>, r: Result<Seq<u8>, Seq<char>>)
    ensures
        prepended(a, prepended(b, r)) == prepended(a + b, r),
        prepended(a, both(Ok(b), r)) == prepended(a + b, r),
        prepended(a, Ok(b)) == Ok::<Seq<u8>, Seq<char>>(a + b),
        prepended(a, both(Ok(Seq::empty()), r)) == prepended(a, r),
        prepended(a, both(r, Ok(Seq::empty()))) == prepended(a, r),
{
    match r {
        Ok(v) => {
            assert(a + (b + v) =~= (a + b) + v);
            assert(Seq::<u8>::empty() + v =~= v);
            assert(v + Seq::<u8>::empty() =~= v);
        },
        Err(_) => {},
    }
}

fn add_chunk(out: &mut Vec<u8>, kind: &[u8], data: &[u8]) -> (r: Result<(), String>)
    ensures
        match r {
            Ok(_) => new_chunk(kind@, data@) matches Ok(c) && final(out)@ == old(out)@ + c,
            Err(e) => new_chunk(kind@, data@) == Err::<Seq<u8>, Seq<char>>(e@),
        },
{
    match make_chunk(kind, data) {
        Ok(chunk) => {
            append_bytes(out, chunk.as_slice());
            Ok(())
        },
        Err(e) => Err(e),
    }
}

pub fn replace_or_insert_chunk(bytes: &[u8], wanted_kind: &[u8], data: &[u8]) -> (r: Result<
    Vec<u8>,
    String,
>)
    requires
        wanted_kind@.len() == 4,
    ensures
        match r {
            Ok(v) => chunk_replaced(bytes@, wanted_kind@, data@) == Ok::<Seq<u8>, Seq<char>>(v@),
            Err(e) => chunk_replaced(bytes@, wanted_kind@, data@) == Err::<Seq<u8>, Seq<char>>(e@),
        },
{
    if !has_png_signature(bytes) {
        return Err("Selected file is not a PNG image.".to_owned());
    }
    let header = kind_bytes(0x49, 0x48, 0x44, 0x52);
    let image = kind_bytes(0x49, 0x44, 0x41, 0x54);
    let end = kind_bytes(0x49, 0x45, 0x4e, 0x44);
    let mut out: Vec<u8> = signature_bytes();
    let n: usize = bytes.len();
    let mut at: usize = 8;
    let mut inserted = false;
    let mut saw_header = false;
    let ghost chunk = new_chunk(wanted_kind@, data@);
    let ghost wanted = chunk_replaced(bytes@, wanted_kind@, data@);
    while n >= 12 && at <= n - 12
        invariant
            8 <= at <= n,
            n == bytes@.len(),
            wanted_kind@.len() == 4,
            header@ == header_kind(),
            image@ == image_kind(),
            end@ == end_kind(),
            chunk == new_chunk(wanted_kind@, data@),
            wanted == chunk_replaced(bytes@, wanted_kind@, data@),
            wanted == prepended(
                out@,
                chunk_replaced_from(
                    bytes@,
                    wanted_kind@,
                    chunk,
                    at as int,
                    inserted,
                    saw_header,
                ),
            ),
        decreases n - at,
    {
        let ghost rest = chunk_replaced_from(
            bytes@,
            wanted_kind@,
            chunk,
            at as int,
            inserted,
            saw_header,
        );
        let ghost before = out@;
        let stop: usize = match read_chunk_end(bytes, at) {
            None => {
                return Err("PNG chunk extends beyond the end of the file.".to_owned());
            },
            Some(e) => e,
        };
        if is_kind(bytes, at, header.as_slice()) {
            saw_header = true;
        }
        if is_kind(bytes, at, wanted_kind) {
            let ghost next = chunk_replaced_from(
                bytes@,
                wanted_kind@,
                chunk,
                stop as int,
                true,
                saw_header,
            );
            if !inserted {
                match add_chunk(&mut out, wanted_kind, data) {
                    Ok(_) => {},
                    Err(e) => {
                        return Err(e);
                    },
                }
                inserted = true;
                proof {
                    lemma_prepended(before, chunk->Ok_0, next);
                }
            } else {
                proof {
                    lemma_prepended(before, Seq::empty(), next);
                }
            }
            at = stop;
        } else {
            if !inserted && is_kind(bytes, at, image.as_slice()) {
                if !saw_header {
                    return Err("PNG IHDR chunk was not found.".to_owned());
                }
                match add_chunk(&mut out, wanted_kind, data) {
                    Ok(_) => {},
                    Err(e) => {
                        return Err(e);
                    },
                }
                inserted = true;
                proof {
                    let own = bytes@.subrange(at as int, stop as int);
                    let next = chunk_replaced_from(
                        bytes@,
                        wanted_kind@,
                        chunk,
                        stop as int,
                        true,
                        saw_header,
                    );
                    lemma_prepended(
                        before,
                        chunk->Ok_0,
                        both(Ok::<Seq<u8>, Seq<char>>(own), next),
                    );
                    lemma_prepended(out@, own, next);
                }
                assert(wanted == prepended(
                    out@ + bytes@.subrange(at as int, stop as int),
                    chunk_replaced_from(
                        bytes@,
                        wanted_kind@,
                        chunk,
                        stop as int,
                        true,
                        saw_header,
                    ),
                ));
                append_bytes(&mut out, &bytes[at..stop]);
                at = stop;
            } else {
                proof {
                    let own = bytes@.subrange(at as int, stop as int);
                    let next = chunk_replaced_from(
                        bytes@,
                        wanted_kind@,
                        chunk,
                        stop as int,
                        inserted,
                        saw_header,
                    );
                    lemma_prepended(before, own, next);
                    lemma_prepended(before, own, chunk);
                    lemma_prepended(before, own, Ok(Seq::empty()));
                    assert(before + own + Seq::<u8>::empty() =~= before + own);
                }
                append_bytes(&mut out, &bytes[at..stop]);
                if is_kind(bytes, at, end.as_slice()) {
                    if !inserted {
                        match add_chunk(&mut out, wanted_kind, data) {
                            Ok(_) => {},
                            Err(e) => {
                                return Err(e);
                            },
                        }
                    }
                    return Ok(out);
                }
                at = stop;
            }
        }
    }
    Err("PNG IEND chunk was not found.".to_owned())
}

// The creation time.

/// The data of the chunk that holds the creation time.
pub open spec fn creation_data(value: Seq<char>) -> Seq<u8> {
    creation_keyword() + seq![0u8] + vstd::utf8::encode_utf8(value)
}

fn creation_time_text_data(creation_time: &str) -> (r: Vec<u8>)
    ensures
        r@ == creation_data(creation_time@),
{
    let mut data = creation_keyword_bytes();
    data.push(0);
    append_bytes(&mut data, creation_time.as_bytes());
    assert(data@ =~= creation_data(creation_time@));
    data
}

/// Whether the chunk at a position holds a creation time.
pub open spec fn is_creation_chunk(bytes: Seq<u8>, at: int) -> bool {
    kind_at(bytes, at) == text_kind() && text_value(data_at(bytes, at), creation_keyword()) is Some
}

fn holds_creation_time(bytes: &[u8], at: usize, stop: usize) -> (r: bool)
    requires
        whole_chunk(bytes@, at as int),
        stop == chunk_end(bytes@, at as int),
    ensures
        r == is_creation_chunk(bytes@, at as int),
{
    let n: usize = bytes.len();
    let text = kind_bytes(0x74, 0x45, 0x58, 0x74);
    if !is_kind(bytes, at, text.as_slice()) {
        return false;
    }
    let keyword = creation_keyword_bytes();
    let data = copied(bytes, at + 8, stop - 4);
    text_chunk_value(data.as_slice(), keyword.as_slice()).is_some()
}

/// The chunks from a position on, with a new creation time before the image
/// data in place of those that are there.
pub open spec fn creation_replaced_from(
    bytes: Seq<u8>,
    chunk: Result<Seq<u8>, Seq<char>>,
    at: int,
    inserted: bool,
    saw_header: bool,
) -> Result<Seq<u8>, Seq<char>>
    decreases bytes.len() - at,
{
    if !chunk_starts(bytes, at) {
        Err("PNG IEND chunk was not found."@)
    } else if !whole_chunk(bytes, at) {
        Err("PNG chunk extends beyond the end of the file."@)
    } else {
        let end = chunk_end(bytes, at);
        let header = saw_header || kind_at(bytes, at) == header_kind();
        let own = Ok::<Seq<u8>, Seq<char>>(bytes.subrange(at, end));
        let is_end = kind_at(bytes, at) == end_kind();
        if is_creation_chunk(bytes, at) {
            creation_replaced_from(bytes, chunk, end, inserted, header)
        } else if !inserted && (kind_at(bytes, at) == image_kind() || is_end) {
            if !header {
                Err("PNG IHDR chunk was not found."@)
            } else {
                both(
                    chunk,
                    if is_end {
                        own
                    } else {
                        both(own, creation_replaced_from(bytes, chunk, end, true, header))
                    },
                )
            }
        } else if is_end {
            own
        } else {
            both(own, creation_replaced_from(bytes, chunk, end, inserted, header))
        }
    }
}

/// The file with another creation time.
pub open spec fn creation_replaced(bytes: Seq<u8>, value: Seq<char>) -> Result<
    Seq<u8>,
    Seq<char>,
> {
    if !is_png(bytes) {
        Err("Selected file is not a PNG image."@)
    } else {
        prepended(
            png_signature(),
            creation_replaced_from(
                bytes,
                new_chunk(text_kind(), creation_data(value)),
                8,
                false,
                false,
            ),
        )
    }
}

pub fn replace_or_insert_creation_time_chunk(bytes: &[u8], creation_time: &str) -> (r: Result<
    Vec<u8>,
    String,
>)
    ensures
        match r {
            Ok(v) => creation_replaced(bytes@, creation_time@) == Ok::<Seq<u8>, Seq<char>>(v@),
            Err(e) => creation_replaced(bytes@, creation_time@) == Err::<Seq<u8>, Seq<char>>(e@),
        },
{
    if !has_png_signature(bytes) {
        return Err("Selected file is not a PNG image.".to_owned());
    }
    let data = creation_time_text_data(creation_time);
    let text = kind_bytes(0x74, 0x45, 0x58, 0x74);
    let header = kind_bytes(0x49, 0x48, 0x44, 0x52);
    let image = kind_bytes(0x49, 0x44, 0x41, 0x54);
    let end = kind_bytes(0x49, 0x45, 0x4e, 0x44);
    let mut out: Vec<u8> = signature_bytes();
    let n: usize = bytes.len();
    let mut at: usize = 8;
    let mut inserted = false;
    let mut saw_header = false;
    let ghost chunk = new_chunk(text_kind(), creation_data(creation_time@));
    let ghost wanted = creation_replaced(bytes@, creation_time@);
    while n >= 12 && at <= n - 12
        invariant
            8 <= at <= n,
            n == bytes@.len(),
            data@ == creation_data(creation_time@),
            text@ == text_kind(),
            header@ == header_kind(),
            image@ == image_kind(),
            end@ == end_kind(),
            chunk == new_chunk(text@, data@),
            wanted == creation_replaced(bytes@, creation_time@),
            wanted == prepended(
                out@,
                creation_replaced_from(bytes@, chunk, at as int, inserted, saw_header),
            ),
        decreases n - at,
    {
        let ghost before = out@;
        let stop: usize = match read_chunk_end(bytes, at) {
            None => {
                return Err("PNG chunk extends beyond the end of the file.".to_owned());
            },
            Some(e) => e,
        };
        let ghost own = bytes@.subrange(at as int, stop as int);
        if is_kind(bytes, at, header.as_slice()) {
            saw_header = true;
        }
        if !holds_creation_time(bytes, at, stop) {
            let is_end = is_kind(bytes, at, end.as_slice());
            if !inserted && (is_kind(bytes, at, image.as_slice()) || is_end) {
                if !saw_header {
                    return Err("PNG IHDR chunk was not found.".to_owned());
                }
                match add_chunk(&mut out, text.as_slice(), data.as_slice()) {
                    Ok(_) => {},
                    Err(e) => {
                        return Err(e);
                    },
                }
                inserted = true;
                proof {
                    let next = creation_replaced_from(bytes@, chunk, stop as int, true, saw_header);
                    let after = if is_end {
                        Ok::<Seq<u8>, Seq<char>>(own)
                    } else {
                        both(Ok::<Seq<u8>, Seq<char>>(own), next)
                    };
                    lemma_prepended(before, chunk->Ok_0, after);
                    lemma_prepended(out@, own, next);
                }
            } else {
                proof {
                    let next = creation_replaced_from(
                        bytes@,
                        chunk,
                        stop as int,
                        inserted,
                        saw_header,
                    );
                    lemma_prepended(before, own, next);
                }
            }
            append_bytes(&mut out, &bytes[at..stop]);
            if is_end {
                return Ok(out);
            }
        }
        at = stop;
    }
    Err("PNG IEND chunk was not found.".to_owned())
}

// Removing dates.

pub open spec fn is_date_chunk(bytes: Seq<u8>, at: int) -> bool {
    kind_at(bytes, at) == exif_kind() || is_creation_chunk(bytes, at)
}

/// The chunks from a position on, without those that hold dates.
pub open spec fn undated_from(bytes: Seq<u8>, at: int) -> Result<Seq<u8>, Seq<char>>
    decreases bytes.len() - at,
{
    if !chunk_starts(bytes, at) {
        if at == bytes.len() {
            Ok(Seq::empty())
        } else {
            Err("PNG contains invalid trailing chunk data."@)
        }
    } else if !whole_chunk(bytes, at) {
        Err("PNG chunk is truncated."@)
    } else {
        let end = chunk_end(bytes, at);
        let own = bytes.subrange(at, end);
        if is_date_chunk(bytes, at) {
            undated_from(bytes, end)
        } else if kind_at(bytes, at) == end_kind() {
            Ok(own + bytes.skip(end))
        } else {
            prepended(own, undated_from(bytes, end))
        }
    }
}

/// Whether a chunk that holds a date stands among the chunks from a position on.
pub open spec fn dated_from(bytes: Seq<u8>, at: int) -> bool
    decreases bytes.len() - at,
{
    if !whole_chunk(bytes, at) {
        false
    } else if is_date_chunk(bytes, at) {
        true
    } else if kind_at(bytes, at) == end_kind() {
        false
    } else {
        dated_from(bytes, chunk_end(bytes, at))
    }
}

/// The file without the chunks that hold dates.
pub open spec fn undated(bytes: Seq<u8>) -> Result<Seq<u8>, Seq<char>> {
    if !is_png(bytes) {
        Err("The selected file is not a valid PNG image."@)
    } else {
        prepended(png_signature(), undated_from(bytes, 8))
    }
}

/// Takes the dates out of a PNG file; none if it has no chunk with a date.
pub fn remove_date_metadata(bytes: &[u8]) -> (r: Result<Option<Vec<u8>>, String>)
    ensures
        match r {
            Ok(Some(v)) => undated(bytes@) == Ok::<Seq<u8>, Seq<char>>(v@) && dated_from(bytes@, 8),
            Ok(None) => undated(bytes@) is Ok && !dated_from(bytes@, 8),
            Err(e) => undated(bytes@) == Err::<Seq<u8>, Seq<char>>(e@),
        },
{
    if !has_png_signature(bytes) {
        return Err("The selected file is not a valid PNG image.".to_owned());
    }
    let exif = kind_bytes(0x65, 0x58, 0x49, 0x66);
    let end = kind_bytes(0x49, 0x45, 0x4e, 0x44);
    let mut out: Vec<u8> = signature_bytes();
    let n: usize = bytes.len();
    let mut at: usize = 8;
    let mut removed = false;
    let ghost wanted = undated(bytes@);
    while n >= 12 && at <= n - 12
        invariant
            8 <= at <= n,
            n == bytes@.len(),
            exif@ == exif_kind(),
            end@ == end_kind(),
            wanted == undated(bytes@),
            wanted == prepended(out@, undated_from(bytes@, at as int)),
            dated_from(bytes@, 8) == (removed || dated_from(bytes@, at as int)),
        decreases n - at,
    {
        let ghost before = out@;
        let stop: usize = match read_chunk_end(bytes, at) {
            None => {
                return Err("PNG chunk is truncated.".to_owned());
            },
            Some(e) => e,
        };
        let ghost own = bytes@.subrange(at as int, stop as int);
        if is_kind(bytes, at, exif.as_slice()) || holds_creation_time(bytes, at, stop) {
            removed = true;
        } else {
            proof {
                lemma_prepended(before, own, undated_from(bytes@, stop as int));
            }
            append_bytes(&mut out, &bytes[at..stop]);
            if is_kind(bytes, at, end.as_slice()) {
                append_bytes(&mut out, &bytes[stop..n]);
                assert(bytes@.subrange(stop as int, n as int) =~= bytes@.skip(stop as int));
                assert(before + (own + bytes@.skip(stop as int)) =~= before + own + bytes@.skip(
                    stop as int,
                ));
                return Ok(
                    if removed {
                        Some(out)
                    } else {
                        None
                    },
                );
            }
        }
        at = stop;
    }
    if at != n {
        return Err("PNG contains invalid trailing chunk data.".to_owned());
    }
    assert(out@ + Seq::<u8>::empty() =~= out@);
    Ok(
        if removed {
            Some(out)
        } else {
            None
        },
    )
}

// The dates of a PNG file.

/// The moment that a creation time stands for, by the first of the ways to
/// read it that takes it.
pub open spec fn creation_moment(
    windows: Option<Moment>,
    rfc3339: Option<Moment>,
    rfc2822: Option<Moment>,
    display: Option<Moment>,
) -> Option<Moment> {
    datetime::first_moment(
        windows,
        datetime::first_moment(rfc3339, datetime::first_moment(rfc2822, display)),
    )
}

pub open spec fn creation_read(value: Seq<char>) -> Option<Moment> {
    let t = text::trim(value);
    creation_moment(
        datetime::parsed_datetime(t, EXIF_DATETIME_FORMAT@),
        datetime::parsed_rfc3339(t),
        datetime::parsed_rfc2822(t),
        datetime::parsed_datetime(t, DISPLAY_DATETIME_FORMAT@),
    )
}

pub open spec fn shown_moment(m: Option<Moment>) -> Option<Seq<char>> {
    match m {
        Some(m) => Some(datetime::display_text(m)),
        None => None,
    }
}

pub fn creation_time_to_display(value: &str) -> (r: Option<String>)
    ensures
        match r {
            Some(t) => shown_moment(creation_read(value@)) == Some(t@),
            None => creation_read(value@) is None,
        },
        forall|m: Moment|
            datetime::plain(m) && text::trim(value@) == #[trigger] datetime::exif_text(m) ==> (
            r matches Some(t) && t@ == datetime::display_text(m)),
{
    let t = trimmed(value);
    let m = match parse_datetime(t, EXIF_DATETIME_FORMAT) {
        Some(m) => Some(m),
        None => match parse_rfc3339(t) {
            Some(m) => Some(m),
            None => match parse_rfc2822(t) {
                Some(m) => Some(m),
                None => parse_datetime(t, DISPLAY_DATETIME_FORMAT),
            },
        },
    };
    match m {
        Some(m) => Some(format_datetime(m, DISPLAY_DATETIME_FORMAT)),
        None => None,
    }
}

/// The text of a creation time for a moment that was entered.
pub open spec fn creation_text_of(m: Option<Moment>) -> Result<Seq<char>, Seq<char>> {
    match m {
        Some(m) => Ok(datetime::exif_text(m)),
        None => Err("PNG Media Date must be formatted as YYYY-MM-DD or YYYY-MM-DD HH:MM:SS."@),
    }
}

/// The text of a creation time for a moment, if there is one.
pub fn creation_text_or_error(m: Option<Moment>) -> (r: Result<String, String>)
    requires
        m matches Some(x) ==> datetime::valid_moment(x),
    ensures
        match r {
            Ok(t) => creation_text_of(m) == Ok::<Seq<char>, Seq<char>>(t@),
            Err(e) => creation_text_of(m) == Err::<Seq<char>, Seq<char>>(e@),
        },
{
    match m {
        Some(m) => Ok(format_datetime(m, EXIF_DATETIME_FORMAT)),
        None => Err(
            "PNG Media Date must be formatted as YYYY-MM-DD or YYYY-MM-DD HH:MM:SS.".to_owned(),
        ),
    }
}

pub fn display_to_creation_time(display_value: &str) -> (r: Result<String, String>)
    ensures
        match r {
            Ok(t) => creation_text_of(datetime::display_datetime(text::trim(display_value@)))
                == Ok::<Seq<char>, Seq<char>>(t@),
            Err(e) => creation_text_of(datetime::display_datetime(text::trim(display_value@)))
                == Err::<Seq<char>, Seq<char>>(e@),
        },
        forall|m: Moment|
            datetime::plain(m) && text::trim(display_value@) == #[trigger] datetime::display_text(m)
                ==> (r matches Ok(t) && t@ == datetime::exif_text(m)),
{
    creation_text_or_error(parse_display_datetime_or_date(trimmed(display_value)))
}

/// The dates that a PNG file has, each as it is shown; empty where there is none.
#[derive(Debug)]
pub struct PngDateSources {
    pub creation_time: String,
    pub date_time_original: String,
    pub date_time_digitized: String,
    pub image_date_time: String,
}

impl Default for PngDateSources {
    fn default() -> (r: Self)
        ensures
            r.creation_time@.len() == 0,
            r.date_time_original@.len() == 0,
            r.date_time_digitized@.len() == 0,
            r.image_date_time@.len() == 0,
    {
        PngDateSources {
            creation_time: String::new(),
            date_time_original: String::new(),
            date_time_digitized: String::new(),
            image_date_time: String::new(),
        }
    }
}

impl Clone for PngDateSources {
    fn clone(&self) -> (r: Self)
        ensures
            r == *self,
    {
        PngDateSources {
            creation_time: self.creation_time.clone(),
            date_time_original: self.date_time_original.clone(),
            date_time_digitized: self.date_time_digitized.clone(),
            image_date_time: self.image_date_time.clone(),
        }
    }
}

/// The date that counts: the first of several that there is.
pub open spec fn effective_date(
    original: Seq<char>,
    creation: Seq<char>,
    digitized: Seq<char>,
    image: Seq<char>,
) -> Seq<char> {
    if original.len() > 0 {
        original
    } else if creation.len() > 0 {
        creation
    } else if digitized.len() > 0 {
        digitized
    } else if image.len() > 0 {
        image
    } else {
        "-"@
    }
}

impl PngDateSources {
    pub open spec fn is_empty(self) -> bool {
        &&& self.creation_time@.len() == 0
        &&& self.date_time_original@.len() == 0
        &&& self.date_time_digitized@.len() == 0
        &&& self.image_date_time@.len() == 0
    }

    pub fn effective_media_date(&self) -> (r: String)
        ensures
            r@ == effective_date(
                self.date_time_original@,
                self.creation_time@,
                self.date_time_digitized@,
                self.image_date_time@,
            ),
    {
        if self.date_time_original.as_str().unicode_len() > 0 {
            self.date_time_original.clone()
        } else if self.creation_time.as_str().unicode_len() > 0 {
            self.creation_time.clone()
        } else if self.date_time_digitized.as_str().unicode_len() > 0 {
            self.date_time_digitized.clone()
        } else if self.image_date_time.as_str().unicode_len() > 0 {
            self.image_date_time.clone()
        } else {
            "-".to_owned()
        }
    }

    pub fn has_existing_date(&self) -> (r: bool)
        ensures
            r == !self.is_empty(),
    {
        self.creation_time.as_str().unicode_len() > 0
            || self.date_time_original.as_str().unicode_len() > 0
            || self.date_time_digitized.as_str().unicode_len() > 0
            || self.image_date_time.as_str().unicode_len() > 0
    }
}

/// A date in the EXIF data of a PNG file, as it is shown.
pub open spec fn png_exif_date(bytes: Seq<u8>, f: Field) -> Seq<char> {
    match png_chunk(bytes, exif_kind()) {
        None => Seq::empty(),
        Some(data) => match exif::readable_tiff(data) {
            None => Seq::empty(),
            Some((endian, ifd0)) => exif::field_in(data, endian, ifd0, f),
        },
    }
}

/// The creation time of a PNG file, as it is shown.
pub open spec fn png_creation_date(bytes: Seq<u8>) -> Seq<char> {
    match png_text(bytes, creation_keyword()) {
        None => Seq::empty(),
        Some(value) => match shown_moment(creation_read(value)) {
            Some(t) => t,
            None => Seq::empty(),
        },
    }
}

pub fn read_date_sources(bytes: &[u8]) -> (r: PngDateSources)
    ensures
        r.creation_time@ == png_creation_date(bytes@),
        r.date_time_original@ == png_exif_date(bytes@, Field::DateTimeOriginal),
        r.date_time_digitized@ == png_exif_date(bytes@, Field::DateTimeDigitized),
        r.image_date_time@ == png_exif_date(bytes@, Field::ImageDateTime),
{
    let keyword = creation_keyword_bytes();
    let exif = kind_bytes(0x65, 0x58, 0x49, 0x66);
    let mut sources = PngDateSources::default();
    assert(sources.creation_time@ =~= Seq::<char>::empty());
    assert(sources.date_time_original@ =~= Seq::<char>::empty());
    assert(sources.date_time_digitized@ =~= Seq::<char>::empty());
    assert(sources.image_date_time@ =~= Seq::<char>::empty());
    match find_text_chunk(bytes, keyword.as_slice()) {
        Some(value) => {
            match creation_time_to_display(value.as_str()) {
                Some(t) => {
                    sources.creation_time = t;
                },
                None => {},
            }
        },
        None => {},
    }
    match find_chunk(bytes, exif.as_slice()) {
        Some(data) => {
            let reading = read_exif_tiff_metadata(data.as_slice());
            proof {
                let m = reading.metadata;
                assert(m.field(Field::DateTimeOriginal) == m.date_time_original@);
                assert(m.field(Field::DateTimeDigitized) == m.date_time_digitized@);
                assert(m.field(Field::ImageDateTime) == m.image_date_time@);
            }
            sources.date_time_original = reading.metadata.date_time_original;
            sources.date_time_digitized = reading.metadata.date_time_digitized;
            sources.image_date_time = reading.metadata.image_date_time;
        },
        None => {},
    }
    sources
}

// Writing dates.

/// The file with a date, in the form of EXIF, in its EXIF data.
pub open spec fn exif_date_replaced(bytes: Seq<u8>, date: Result<Seq<char>, Seq<char>>) -> Result<
    Seq<u8>,
    Seq<char>,
> {
    let tiff = match png_chunk(bytes, exif_kind()) {
        Some(data) => exif_edit::with_date(data, date),
        None => exif_edit::with_date(exif_edit::empty_tiff(), date),
    };
    match tiff {
        Ok(t) => chunk_replaced(bytes, exif_kind(), t),
        Err(e) => Err(e),
    }
}

fn replace_or_insert_exif_chunk(bytes: &[u8], display_value: &str) -> (r: Result<Vec<u8>, String>)
    ensures
        match r {
            Ok(v) => exif_date_replaced(
                bytes@,
                datetime::exif_date_of(datetime::known_datetime(display_value@)),
            ) == Ok::<Seq<u8>, Seq<char>>(v@),
            Err(e) => exif_date_replaced(
                bytes@,
                datetime::exif_date_of(datetime::known_datetime(display_value@)),
            ) == Err::<Seq<u8>, Seq<char>>(e@),
        },
        datetime::reads_back(display_value@),
{
    let exif = kind_bytes(0x65, 0x58, 0x49, 0x66);
    let tiff = match find_chunk(bytes, exif.as_slice()) {
        Some(value) => rewrite_exif_tiff_dates(value.as_slice(), display_value),
        None => create_date_only_exif_tiff(display_value),
    };
    match tiff {
        Ok(t) => replace_or_insert_chunk(bytes, exif.as_slice(), t.as_slice()),
        Err(e) => Err(e),
    }
}

/// The chunks from a position on are complete: the header stands before the image
/// data and before the end, and the end is there.
pub open spec fn complete_from(bytes: Seq<u8>, at: int, saw_header: bool) -> bool
    decreases bytes.len() - at,
{
    if !whole_chunk(bytes, at) {
        false
    } else {
        let header = saw_header || kind_at(bytes, at) == header_kind();
        if kind_at(bytes, at) == end_kind() {
            header
        } else {
            (kind_at(bytes, at) == image_kind() ==> header) && complete_from(
                bytes,
                chunk_end(bytes, at),
                header,
            )
        }
    }
}

/// A file with a header, image data and an end.
pub open spec fn is_complete(bytes: Seq<u8>) -> bool {
    is_png(bytes) && complete_from(bytes, 8, false) && png_chunk(bytes, image_kind()) is Some
}

/// A date in the form in which dates are shown, with a four-digit year.
pub open spec fn is_plain_date(value: Seq<char>) -> bool {
    exists|m: Moment|
        datetime::plain(m) && text::trim(value) == #[trigger] datetime::display_text(m)
}

/// The EXIF data of a file take a date, or there are none yet.
pub open spec fn exif_takes(bytes: Seq<u8>, date: Seq<char>) -> bool {
    png_chunk(bytes, exif_kind()) matches Some(data) ==> (exif_edit::with_date(
        data,
        Ok(date),
    ) matches Ok(v) && v.len() <= u32::MAX)
}

/// The EXIF data of a file take the date that was entered, or there are none yet.
pub open spec fn exif_takes_entered(bytes: Seq<u8>, value: Seq<char>) -> bool {
    forall|m: Moment|
        datetime::plain(m) && text::trim(value) == #[trigger] datetime::display_text(m)
            ==> exif_takes(bytes, datetime::exif_text(m))
}

/// The text that is stored for a date that was entered, and what is then shown
/// for it.
pub open spec fn entered_creation(value: Seq<char>, complaint: Seq<char>) -> Result<
    (Seq<char>, Seq<char>),
    Seq<char>,
> {
    match creation_text_of(datetime::display_datetime(text::trim(value))) {
        Err(e) => Err(e),
        Ok(stored) => match shown_moment(creation_read(stored)) {
            Some(shown) => Ok((stored, shown)),
            None => Err(complaint),
        },
    }
}

/// A date that was entered in the form in which dates are shown is taken, and
/// shown as it was entered.
pub open spec fn entered_as_shown(value: Seq<char>, complaint: Seq<char>) -> bool {
    forall|m: Moment|
        datetime::plain(m) && text::trim(value) == #[trigger] datetime::display_text(m)
            ==> entered_creation(value, complaint) == Ok::<(Seq<char>, Seq<char>), Seq<char>>(
            (datetime::exif_text(m), datetime::display_text(m)),
        )
}

fn read_entered_creation(value: &str, complaint: &str) -> (r: Result<(String, String), String>)
    ensures
        match r {
            Ok((a, b)) => entered_creation(value@, complaint@) == Ok::<
                (Seq<char>, Seq<char>),
                Seq<char>,
            >((a@, b@)),
            Err(e) => entered_creation(value@, complaint@) == Err::<
                (Seq<char>, Seq<char>),
                Seq<char>,
            >(e@),
        },
        entered_as_shown(value@, complaint@),
{
    proof {
        assert forall|m: Moment| #[trigger] datetime::plain(m) implies text::trim(
            datetime::exif_text(m),
        ) == datetime::exif_text(m) by {
            datetime::lemma_date_texts(m);
            datetime::lemma_date_like(datetime::exif_text(m));
        }
    }
    match display_to_creation_time(value) {
        Err(e) => Err(e),
        Ok(stored) => match creation_time_to_display(stored.as_str()) {
            Some(shown) => Ok((stored, shown)),
            None => Err(complaint.to_owned()),
        },
    }
}

/// The file with a creation time and a date in its EXIF data, each where one
/// is given, if they are then found in it.
pub open spec fn dates_put(
    bytes: Seq<u8>,
    creation: Option<(Seq<char>, Seq<char>)>,
    exif: Option<Seq<char>>,
) -> Result<Seq<u8>, Seq<char>> {
    let first = match creation {
        Some((stored, _)) => creation_replaced(bytes, stored),
        None => Ok(bytes),
    };
    let second = match first {
        Err(e) => Err(e),
        Ok(b) => match exif {
            Some(shown) => exif_date_replaced(
                b,
                datetime::exif_date_of(datetime::known_datetime(shown)),
            ),
            None => Ok(b),
        },
    };
    match second {
        Err(e) => Err(e),
        Ok(b) => if (creation matches Some((_, shown)) ==> png_creation_date(b) == shown) && (
        exif matches Some(shown) ==> png_exif_date(b, Field::DateTimeOriginal) == shown) {
            Ok(b)
        } else {
            Err("PNG date metadata verification failed."@)
        },
    }
}

/// The file with the dates that were entered.
pub open spec fn dates_written(
    bytes: Seq<u8>,
    creation: Option<Seq<char>>,
    exif: Option<Seq<char>>,
) -> Result<Seq<u8>, Seq<char>> {
    match creation {
        None => match exif {
            None => Ok(bytes),
            Some(e) => match entered_creation(
                e,
                "PNG EXIF DateTimeOriginal normalization failed."@,
            ) {
                Err(x) => Err(x),
                Ok((_, shown)) => dates_put(bytes, None, Some(shown)),
            },
        },
        Some(c) => match entered_creation(c, "PNG Creation Time normalization failed."@) {
            Err(x) => Err(x),
            Ok(pair) => match exif {
                None => dates_put(bytes, Some(pair), None),
                Some(e) => match entered_creation(
                    e,
                    "PNG EXIF DateTimeOriginal normalization failed."@,
                ) {
                    Err(x) => Err(x),
                    Ok((_, shown)) => dates_put(bytes, Some(pair), Some(shown)),
                },
            },
        },
    }
}

pub open spec fn text_view(value: Option<&str>) -> Option<Seq<char>> {
    match value {
        Some(t) => Some(t@),
        None => None,
    }
}

fn put_dates(bytes: &[u8], creation: &Option<(String, String)>, exif: &Option<String>) -> (r: Result<
    Vec<u8>,
    String,
>)
    ensures
        ({
            let c = match *creation {
                Some((a, b)) => Some((a@, b@)),
                None => None,
            };
            let e = match *exif {
                Some(t) => Some(t@),
                None => None,
            };
            match r {
                Ok(v) => dates_put(bytes@, c, e) == Ok::<Seq<u8>, Seq<char>>(v@),
                Err(x) => dates_put(bytes@, c, e) == Err::<Seq<u8>, Seq<char>>(x@),
            }
        }),
        (creation matches Some((stored, _)) ==> creation_replaced(bytes@, stored@) is Ok) ==> (
        exif matches Some(shown) ==> datetime::reads_back(shown@)),
{
    let first = match creation {
        Some((stored, _)) => match replace_or_insert_creation_time_chunk(bytes, stored.as_str()) {
            Ok(v) => v,
            Err(e) => {
                return Err(e);
            },
        },
        None => {
            let n: usize = bytes.len();
            let v = copied(bytes, 0, n);
            assert(v@ =~= bytes@);
            v
        },
    };
    let updated = match exif {
        Some(shown) => match replace_or_insert_exif_chunk(first.as_slice(), shown.as_str()) {
            Ok(v) => v,
            Err(e) => {
                return Err(e);
            },
        },
        None => first,
    };
    let written = read_date_sources(updated.as_slice());
    let creation_verified = match creation {
        Some((_, shown)) => written.creation_time == *shown,
        None => true,
    };
    let exif_verified = match exif {
        Some(shown) => written.date_time_original == *shown,
        None => true,
    };
    if !creation_verified || !exif_verified {
        return Err("PNG date metadata verification failed.".to_owned());
    }
    Ok(updated)
}

/// Writes a creation time and a date in the EXIF data, each where one is given. A
/// complete file takes dates with four-digit years.
pub fn write_date_sources(
    bytes: &[u8],
    creation_time_value: Option<&str>,
    exif_original_value: Option<&str>,
) -> (r: Result<Vec<u8>, String>)
    ensures
        match r {
            Ok(v) => dates_written(
                bytes@,
                text_view(creation_time_value),
                text_view(exif_original_value),
            ) == Ok::<Seq<u8>, Seq<char>>(v@),
            Err(e) => dates_written(
                bytes@,
                text_view(creation_time_value),
                text_view(exif_original_value),
            ) == Err::<Seq<u8>, Seq<char>>(e@),
        },
        creation_time_value matches Some(c) ==> entered_as_shown(
            c@,
            "PNG Creation Time normalization failed."@,
        ),
        r is Ok ==> (exif_original_value matches Some(e) ==> entered_as_shown(
            e@,
            "PNG EXIF DateTimeOriginal normalization failed."@,
        )),
        is_complete(bytes@) && (creation_time_value matches Some(c) ==> is_plain_date(c@)) && (
        exif_original_value matches Some(e) ==> is_plain_date(e@) && exif_takes_entered(
            bytes@,
            e@,
        )) ==> r is Ok,
{
    let creation = match creation_time_value {
        None => None,
        Some(value) => match read_entered_creation(
            value,
            "PNG Creation Time normalization failed.",
        ) {
            Ok(pair) => Some(pair),
            Err(e) => {
                return Err(e);
            },
        },
    };
    let exif = match exif_original_value {
        None => None,
        Some(value) => match read_entered_creation(
            value,
            "PNG EXIF DateTimeOriginal normalization failed.",
        ) {
            Ok((_, shown)) => Some(shown),
            Err(e) => {
                return Err(e);
            },
        },
    };
    if creation_time_value.is_none() && exif_original_value.is_none() {
        let n: usize = bytes.len();
        let v = copied(bytes, 0, n);
        assert(v@ =~= bytes@);
        return Ok(v);
    }
    let r = put_dates(bytes, &creation, &exif);
    proof {
        let c = text_view(creation_time_value);
        let e = text_view(exif_original_value);
        if is_complete(bytes@) && (c matches Some(c) ==> is_plain_date(c)) && (e matches Some(
            e,
        ) ==> is_plain_date(e) && exif_takes_entered(bytes@, e)) {
            let cm = match c {
                Some(c) => Some(png_laws::entered_moment(c)),
                None => None,
            };
            let em = match e {
                Some(e) => Some(png_laws::entered_moment(e)),
                None => None,
            };
            if cm is Some {
                png_laws::creation_time_is_taken(bytes@, cm->0);
            }
            png_laws::complete_files_take_dates(bytes@, cm, em);
        }
    }
    r
}

/// Writes one date to both places. A complete file takes a date with a four-digit
/// year.
pub fn write_png_media_date(bytes: &[u8], display_value: &str) -> (r: Result<Vec<u8>, String>)
    ensures
        match r {
            Ok(v) => dates_written(bytes@, Some(display_value@), Some(display_value@)) == Ok::<
                Seq<u8>,
                Seq<char>,
            >(v@),
            Err(e) => dates_written(bytes@, Some(display_value@), Some(display_value@)) == Err::<
                Seq<u8>,
                Seq<char>,
            >(e@),
        },
        is_complete(bytes@) && is_plain_date(display_value@) && exif_takes_entered(
            bytes@,
            display_value@,
        ) ==> r is Ok,
{
    write_date_sources(bytes, Some(display_value), Some(display_value))
}

} // verus!
