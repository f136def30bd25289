//! The segments of a JPEG file, and the EXIF segment among them.
use crate::binary::{self, append_bytes, append_u16, has_bytes_at, Endian};
use vstd::prelude::*;

verus! {

/// The bytes that an EXIF segment's payload begins with: `Exif` and two zeros.
pub open spec fn exif_marker() -> Seq<u8> {
    seq![0x45u8, 0x78, 0x69, 0x66, 0, 0]
}

pub open spec fn is_jpeg(bytes: Seq<u8>) -> bool {
    bytes.len() >= 4 && bytes[0] == 0xff && bytes[1] == 0xd8
}

/// The end of the segment that begins at `pos`, if a whole segment with a
/// length field stands there before the image data.
pub open spec fn segment_end(bytes: Seq<u8>, pos: int) -> Option<int> {
    if 0 <= pos && pos + 4 <= bytes.len() && bytes[pos] == 0xff && bytes[pos + 1] != 0xda
        && bytes[pos + 1] != 0xd9 {
        let len = binary::u16_of(bytes[pos + 2], bytes[pos + 3], Endian::Big) as int;
        if len >= 2 && pos + 2 + len <= bytes.len() {
            Some(pos + 2 + len)
        } else {
            None
        }
    } else {
        None
    }
}

/// Whether the segment from `pos` to `end` is an APP1 segment that holds EXIF data.
pub open spec fn is_exif_segment(bytes: Seq<u8>, pos: int, end: int) -> bool {
    bytes[pos + 1] == 0xe1 && pos + 10 <= end && binary::stands_at(bytes, pos + 4, exif_marker())
}

/// The first EXIF segment at `pos` or behind it, as its two ends.
pub open spec fn exif_segment_from(bytes: Seq<u8>, pos: int) -> Option<(int, int)>
    decreases bytes.len() - pos,
{
    match segment_end(bytes, pos) {
        None => None,
        Some(end) => if is_exif_segment(bytes, pos, end) {
            Some((pos, end))
        } else {
            exif_segment_from(bytes, end)
        },
    }
}

/// The first EXIF segment of a JPEG file.
pub open spec fn exif_app1_range(bytes: Seq<u8>) -> Option<(int, int)> {
    if is_jpeg(bytes) {
        exif_segment_from(bytes, 2)
    } else {
        None
    }
}

/// Where the TIFF structure of the first EXIF segment begins.
pub open spec fn exif_tiff_start(bytes: Seq<u8>) -> Option<int> {
    match exif_app1_range(bytes) {
        Some((start, _)) => Some(start + 10),
        None => None,
    }
}

/// What remains from `pos` on when every EXIF segment is left out.
pub open spec fn kept_from(bytes: Seq<u8>, pos: int) -> Seq<u8>
    decreases bytes.len() - pos,
{
    match segment_end(bytes, pos) {
        None => bytes.skip(pos),
        Some(end) => if is_exif_segment(bytes, pos, end) {
            kept_from(bytes, end)
        } else {
            bytes.subrange(pos, end) + kept_from(bytes, end)
        },
    }
}

/// The file without its EXIF segments; everything else stays as it is.
pub open spec fn without_exif(bytes: Seq<u8>) -> Seq<u8> {
    bytes.take(2) + kept_from(bytes, 2)
}

fn exif_marker_bytes() -> (r: Vec<u8>)
    ensures
        r@ == exif_marker(),
{
    let r: Vec<u8> = vec![0x45, 0x78, 0x69, 0x66, 0, 0];
    assert(r@ =~= exif_marker());
    r
}

fn starts_as_jpeg(bytes: &[u8]) -> (r: bool)
    ensures
        r == is_jpeg(bytes@),
{
    bytes.len() >= 4 && bytes[0] == 0xff && bytes[1] == 0xd8
}

fn read_segment_end(bytes: &[u8], pos: usize) -> (r: Option<usize>)
    ensures
        match r {
            Some(end) => segment_end(bytes@, pos as int) == Some(end as int),
            None => segment_end(bytes@, pos as int) is None,
        },
{
    let n: usize = bytes.len();
    if n < 4 || pos > n - 4 || bytes[pos] != 0xff || bytes[pos + 1] == 0xda || bytes[pos + 1]
        == 0xd9 {
        return None;
    }
    let len: usize = bytes[pos + 3] as usize + 256 * (bytes[pos + 2] as usize);
    if len < 2 || len > n - pos - 2 {
        return None;
    }
    Some(pos + 2 + len)
}

fn holds_exif(bytes: &[u8], pos: usize, end: usize) -> (r: bool)
    requires
        segment_end(bytes@, pos as int) == Some(end as int),
    ensures
        r == is_exif_segment(bytes@, pos as int, end as int),
{
    bytes[pos + 1] == 0xe1 && end - pos >= 10 && has_bytes_at(
        bytes,
        pos + 4,
        exif_marker_bytes().as_slice(),
    )
}

/// The two ends of the first EXIF segment.
pub fn find_exif_app1_range(bytes: &[u8]) -> (r: Option<(usize, usize)>)
    ensures
        match r {
            Some((start, end)) => exif_app1_range(bytes@) == Some((start as int, end as int))
                && start + 10 <= end <= bytes@.len(),
            None => exif_app1_range(bytes@) is None,
        },
{
    if !starts_as_jpeg(bytes) {
        return None;
    }
    let mut pos: usize = 2;
    loop
        invariant
            is_jpeg(bytes@),
            pos <= bytes@.len(),
            exif_app1_range(bytes@) == exif_segment_from(bytes@, pos as int),
        decreases bytes@.len() - pos,
    {
        match read_segment_end(bytes, pos) {
            None => {
                return None;
            },
            Some(end) => {
                if holds_exif(bytes, pos, end) {
                    return Some((pos, end));
                }
                pos = end;
            },
        }
    }
}

/// Where the TIFF structure of the first EXIF segment begins.
pub fn find_exif_tiff_start(bytes: &[u8]) -> (r: Option<usize>)
    ensures
        match r {
            Some(start) => exif_tiff_start(bytes@) == Some(start as int) && start <= bytes@.len(),
            None => exif_tiff_start(bytes@) is None,
        },
{
    match find_exif_app1_range(bytes) {
        Some((start, _)) => Some(start + 10),
        None => None,
    }
}

/// The position at which a new EXIF segment goes into a JPEG file: behind the
/// JFIF segments that stand at its start. A file that has no readable segment
/// there takes it right behind the start marker.
pub open spec fn exif_insert_pos(bytes: Seq<u8>, pos: int) -> Result<int, Seq<char>>
    decreases bytes.len() - pos,
{
    if pos + 4 > bytes.len() {
        Ok(2int)
    } else if bytes[pos] != 0xff {
        Ok(2int)
    } else if bytes[pos + 1] == 0xda || bytes[pos + 1] == 0xd9 {
        Ok(pos)
    } else {
        match segment_end(bytes, pos) {
            None => Err("Invalid JPEG segment length."@),
            Some(end) => if bytes[pos + 1] == 0xe0 {
                exif_insert_pos(bytes, end)
            } else {
                Ok(pos)
            },
        }
    }
}

fn jpeg_exif_insert_pos(bytes: &[u8]) -> (r: Result<usize, String>)
    requires
        is_jpeg(bytes@),
    ensures
        match r {
            Ok(pos) => exif_insert_pos(bytes@, 2) == Ok::<int, Seq<char>>(pos as int) && 2 <= pos
                <= bytes@.len(),
            Err(e) => exif_insert_pos(bytes@, 2) == Err::<int, Seq<char>>(e@),
        },
{
    let mut pos: usize = 2;
    let n: usize = bytes.len();
    while n >= 4 && pos <= n - 4
        invariant
            n == bytes@.len(),
            is_jpeg(bytes@),
            2 <= pos <= n,
            exif_insert_pos(bytes@, 2) == exif_insert_pos(bytes@, pos as int),
        decreases n - pos,
    {
        if bytes[pos] != 0xff {
            return Ok(2);
        }
        let marker: u8 = bytes[pos + 1];
        if marker == 0xda || marker == 0xd9 {
            return Ok(pos);
        }
        match read_segment_end(bytes, pos) {
            None => {
                return Err("Invalid JPEG segment length.".to_owned());
            },
            Some(end) => {
                if marker != 0xe0 {
                    return Ok(pos);
                }
                pos = end;
            },
        }
    }
    Ok(2)
}

/// The file with the segment in place of its first EXIF segment, or put in
/// where a new one goes.
pub open spec fn with_exif_segment(bytes: Seq<u8>, segment: Seq<u8>) -> Result<
    Seq<u8>,
    Seq<char>,
> {
    if !is_jpeg(bytes) {
        Err("Only JPEG files are supported for EXIF creation."@)
    } else {
        match exif_segment_from(bytes, 2) {
            Some((start, end)) => Ok(bytes.take(start) + segment + bytes.skip(end)),
            None => match exif_insert_pos(bytes, 2) {
                Ok(pos) => Ok(bytes.take(pos) + segment + bytes.skip(pos)),
                Err(e) => Err(e),
            },
        }
    }
}

fn replaced(bytes: &[u8], start: usize, end: usize, middle: &[u8]) -> (r: Vec<u8>)
    requires
        start <= end <= bytes@.len(),
    ensures
        r@ == bytes@.take(start as int) + middle@ + bytes@.skip(end as int),
{
    let n: usize = bytes.len();
    let mut out: Vec<u8> = Vec::new();
    append_bytes(&mut out, &bytes[0..start]);
    append_bytes(&mut out, middle);
    append_bytes(&mut out, &bytes[end..n]);
    assert(out@ =~= bytes@.take(start as int) + middle@ + bytes@.skip(end as int));
    out
}

pub fn replace_or_insert_exif_app1(bytes: &[u8], exif_segment: &[u8]) -> (r: Result<
    Vec<u8>,
    String,
>)
    ensures
        match r {
            Ok(v) => with_exif_segment(bytes@, exif_segment@) == Ok::<Seq<u8>, Seq<char>>(v@),
            Err(e) => with_exif_segment(bytes@, exif_segment@) == Err::<Seq<u8>, Seq<char>>(e@),
        },
{
    if !starts_as_jpeg(bytes) {
        return Err("Only JPEG files are supported for EXIF creation.".to_owned());
    }
    match find_exif_app1_range(bytes) {
        Some((start, end)) => Ok(replaced(bytes, start, end, exif_segment)),
        None => match jpeg_exif_insert_pos(bytes) {
            Ok(pos) => Ok(replaced(bytes, pos, pos, exif_segment)),
            Err(e) => Err(e),
        },
    }
}

/// The APP1 segment that holds a TIFF structure.
pub open spec fn exif_app1(tiff: Seq<u8>) -> Result<Seq<u8>, Seq<char>> {
    if tiff.len() + 8 > u16::MAX {
        Err("EXIF segment is too large for JPEG APP1."@)
    } else {
        Ok(
            seq![0xffu8, 0xe1] + binary::u16_bytes((tiff.len() + 8) as u16, Endian::Big) + exif_marker()
                + tiff,
        )
    }
}

pub fn build_exif_app1_from_tiff(tiff: &[u8]) -> (r: Result<Vec<u8>, String>)
    ensures
        match r {
            Ok(v) => exif_app1(tiff@) == Ok::<Seq<u8>, Seq<char>>(v@),
            Err(e) => exif_app1(tiff@) == Err::<Seq<u8>, Seq<char>>(e@),
        },
{
    if tiff.len() > 65527 {
        return Err("EXIF segment is too large for JPEG APP1.".to_owned());
    }
    let segment_len: u16 = (tiff.len() + 8) as u16;
    let mut segment: Vec<u8> = vec![0xff, 0xe1];
    append_u16(&mut segment, segment_len, Endian::Big);
    append_bytes(&mut segment, exif_marker_bytes().as_slice());
    append_bytes(&mut segment, tiff);
    assert(segment@ =~= seq![0xffu8, 0xe1] + binary::u16_bytes(segment_len, Endian::Big) + exif_marker()
        + tiff@);
    Ok(segment)
}

/// The outcome of taking the EXIF data out of a file.
pub open spec fn exif_removed(bytes: Seq<u8>) -> Result<Seq<u8>, Seq<char>> {
    if !is_jpeg(bytes) {
        Err("Only JPEG files are supported for EXIF removal."@)
    } else {
        Ok(without_exif(bytes))
    }
}

/// Takes every EXIF segment out of a JPEG file. The flag says whether there was one.
pub fn remove_exif_metadata(bytes: &[u8]) -> (r: Result<(Vec<u8>, bool), String>)
    ensures
        match r {
            Ok((v, removed)) => exif_removed(bytes@) == Ok::<Seq<u8>, Seq<char>>(v@) && removed
                == (exif_app1_range(bytes@) is Some),
            Err(e) => exif_removed(bytes@) == Err::<Seq<u8>, Seq<char>>(e@),
        },
{
    if !starts_as_jpeg(bytes) {
        return Err("Only JPEG files are supported for EXIF removal.".to_owned());
    }
    let n: usize = bytes.len();
    let mut out: Vec<u8> = Vec::new();
    append_bytes(&mut out, &bytes[0..2]);
    assert(out@ =~= bytes@.take(2));
    let mut removed: bool = false;
    let mut pos: usize = 2;
    loop
        invariant
            n == bytes@.len(),
            2 <= pos <= n,
            is_jpeg(bytes@),
            out@ + kept_from(bytes@, pos as int) == without_exif(bytes@),
            removed ==> exif_app1_range(bytes@) is Some,
            !removed ==> exif_app1_range(bytes@) == exif_segment_from(bytes@, pos as int),
        decreases n - pos,
    {
        match read_segment_end(bytes, pos) {
            None => {
                append_bytes(&mut out, &bytes[pos..n]);
                assert(bytes@.subrange(pos as int, n as int) =~= bytes@.skip(pos as int));
                return Ok((out, removed));
            },
            Some(end) => {
                let ghost before = out@;
                if holds_exif(bytes, pos, end) {
                    removed = true;
                } else {
                    append_bytes(&mut out, &bytes[pos..end]);
                    assert(before + (bytes@.subrange(pos as int, end as int) + kept_from(
                        bytes@,
                        end as int,
                    )) =~= out@ + kept_from(bytes@, end as int));
                }
                pos = end;
            },
        }
    }
}

/// A segment reads the same wherever its bytes stand.
proof fn lemma_segment_moved(a: Seq<u8>, pos: int, b: Seq<u8>, at: int)
    requires
        0 <= pos,
        0 <= at,
        segment_end(a, pos) is Some,
        at + (segment_end(a, pos)->0 - pos) <= b.len(),
        b.subrange(at, at + (segment_end(a, pos)->0 - pos)) == a.subrange(
            pos,
            segment_end(a, pos)->0,
        ),
    ensures
        segment_end(b, at) == Some(at + (segment_end(a, pos)->0 - pos)),
        is_exif_segment(b, at, at + (segment_end(a, pos)->0 - pos)) == is_exif_segment(
            a,
            pos,
            segment_end(a, pos)->0,
        ),
{
    let end = segment_end(a, pos)->0;
    let sa = a.subrange(pos, end);
    let sb = b.subrange(at, at + (end - pos));
    assert(forall|i: int| 0 <= i < end - pos ==> a[pos + i] == #[trigger] sa[i]);
    assert(forall|i: int| 0 <= i < end - pos ==> b[at + i] == #[trigger] sb[i]);
    assert(sa[0] == a[pos] && sa[1] == a[pos + 1] && sa[2] == a[pos + 2] && sa[3] == a[pos + 3]);
    assert(sb[0] == b[at] && sb[1] == b[at + 1] && sb[2] == b[at + 2] && sb[3] == b[at + 3]);
    if pos + 10 <= end {
        assert(a.subrange(pos + 4, pos + 10) =~= sa.subrange(4, 10));
        assert(b.subrange(at + 4, at + 10) =~= sb.subrange(4, 10));
    }
}

/// What is kept holds no EXIF segment, wherever it stands.
proof fn lemma_kept_has_no_exif(bytes: Seq<u8>, pos: int, prefix: Seq<u8>)
    requires
        0 <= pos <= bytes.len(),
    ensures
        exif_segment_from(prefix + kept_from(bytes, pos), prefix.len() as int) is None,
    decreases bytes.len() - pos,
{
    let v = prefix + kept_from(bytes, pos);
    let at = prefix.len() as int;
    match segment_end(bytes, pos) {
        None => {
            assert(v.len() - at == bytes.len() - pos);
            if at + 4 <= v.len() {
                assert(v[at] == bytes[pos] && v[at + 1] == bytes[pos + 1] && v[at + 2] == bytes[pos
                    + 2] && v[at + 3] == bytes[pos + 3]);
            }
            assert(segment_end(v, at) is None);
        },
        Some(end) => {
            if is_exif_segment(bytes, pos, end) {
                lemma_kept_has_no_exif(bytes, end, prefix);
            } else {
                let segment = bytes.subrange(pos, end);
                lemma_kept_has_no_exif(bytes, end, prefix + segment);
                assert(v =~= (prefix + segment) + kept_from(bytes, end));
                assert(v.subrange(at, at + (end - pos)) =~= segment);
                lemma_segment_moved(bytes, pos, v, at);
            }
        },
    }
}

/// A file whose EXIF data was taken out has no EXIF segment left.
pub proof fn removal_leaves_no_exif(bytes: Seq<u8>)
    requires
        is_jpeg(bytes),
    ensures
        exif_app1_range(without_exif(bytes)) is None,
{
    lemma_kept_has_no_exif(bytes, 2, bytes.take(2));
}

/// A file without an EXIF segment is left as it is.
pub proof fn removal_keeps_a_file_without_exif(bytes: Seq<u8>)
    requires
        is_jpeg(bytes),
        exif_app1_range(bytes) is None,
    ensures
        without_exif(bytes) == bytes,
{
    lemma_kept_whole(bytes, 2);
    assert(bytes.take(2) + bytes.skip(2) =~= bytes);
}

proof fn lemma_kept_whole(bytes: Seq<u8>, pos: int)
    requires
        0 <= pos <= bytes.len(),
        exif_segment_from(bytes, pos) is None,
    ensures
        kept_from(bytes, pos) == bytes.skip(pos),
    decreases bytes.len() - pos,
{
    match segment_end(bytes, pos) {
        None => {},
        Some(end) => {
            lemma_kept_whole(bytes, end);
            assert(bytes.subrange(pos, end) + bytes.skip(end) =~= bytes.skip(pos));
        },
    }
}

/// An EXIF segment that stands behind segments of a readable file is the first
/// one found, if none stands before it.
proof fn lemma_first_exif_kept(a: Seq<u8>, b: Seq<u8>, pos: int, k: int, end: int)
    requires
        0 <= pos <= a.len(),
        exif_segment_from(a, pos) is Some,
        (exif_segment_from(a, pos)->0).0 == k,
        k <= b.len(),
        a.take(k) == b.take(k),
        segment_end(b, k) == Some(end),
        is_exif_segment(b, k, end),
    ensures
        exif_segment_from(b, pos) == Some((k, end)),
        k >= pos,
    decreases a.len() - pos,
{
    let e = segment_end(a, pos)->0;
    lemma_exif_segment_bounds(a, pos);
    if !is_exif_segment(a, pos, e) {
        lemma_first_exif_kept(a, b, e, k, end);
        assert(a.subrange(pos, e) =~= a.take(k).subrange(pos, e));
        assert(b.subrange(pos, e) =~= b.take(k).subrange(pos, e));
        lemma_segment_moved(a, pos, b, pos);
    }
}

proof fn lemma_insert_pos_prefix(a: Seq<u8>, b: Seq<u8>, pos: int, k: int, end: int)
    requires
        2 <= pos,
        exif_insert_pos(a, pos) == Ok::<int, Seq<char>>(k),
        k <= b.len(),
        2 < k <= a.len(),
        a.take(k) == b.take(k),
        segment_end(b, k) == Some(end),
        is_exif_segment(b, k, end),
    ensures
        exif_segment_from(b, pos) == Some((k, end)),
        pos <= k,
    decreases a.len() - pos,
{
    if pos + 4 > a.len() || a[pos] != 0xff || a[pos + 1] == 0xda || a[pos + 1] == 0xd9 {
    } else {
        let e = segment_end(a, pos)->0;
        if a[pos + 1] == 0xe0 {
            lemma_insert_pos_prefix(a, b, e, k, end);
            assert(a.subrange(pos, e) =~= a.take(k).subrange(pos, e));
            assert(b.subrange(pos, e) =~= b.take(k).subrange(pos, e));
            assert(!is_exif_segment(a, pos, e));
            lemma_segment_moved(a, pos, b, pos);
        }
    }
}

proof fn lemma_insert_pos_bounds(a: Seq<u8>, pos: int)
    requires
        2 <= pos <= a.len(),
    ensures
        exif_insert_pos(a, pos) matches Ok(k) ==> 2 <= k <= a.len(),
    decreases a.len() - pos,
{
    if pos + 4 > a.len() || a[pos] != 0xff || a[pos + 1] == 0xda || a[pos + 1] == 0xd9 {
    } else {
        match segment_end(a, pos) {
            None => {},
            Some(e) => {
                if a[pos + 1] == 0xe0 {
                    lemma_insert_pos_bounds(a, e);
                }
            },
        }
    }
}

proof fn lemma_exif_segment_bounds(a: Seq<u8>, pos: int)
    requires
        0 <= pos <= a.len(),
    ensures
        exif_segment_from(a, pos) matches Some((s, e)) ==> pos <= s && s + 10 <= e <= a.len()
            && segment_end(a, s) == Some(e) && is_exif_segment(a, s, e),
    decreases a.len() - pos,
{
    match segment_end(a, pos) {
        None => {},
        Some(e) => {
            if !is_exif_segment(a, pos, e) {
                lemma_exif_segment_bounds(a, e);
            }
        },
    }
}

/// The segment made of a TIFF structure reads as an EXIF segment that holds it.
proof fn lemma_app1_is_segment(tiff: Seq<u8>, b: Seq<u8>, at: int)
    requires
        exif_app1(tiff) is Ok,
        0 <= at,
        at + 10 + tiff.len() <= b.len(),
        b.subrange(at, at + 10 + tiff.len()) == exif_app1(tiff)->Ok_0,
    ensures
        segment_end(b, at) == Some(at + 10 + tiff.len()),
        is_exif_segment(b, at, at + 10 + tiff.len()),
        b.subrange(at + 10, at + 10 + tiff.len()) == tiff,
{
    let segment = exif_app1(tiff)->Ok_0;
    let n = (tiff.len() + 8) as u16;
    binary::u16_bytes_read_back(n, Endian::Big);
    let head = seq![0xffu8, 0xe1] + binary::u16_bytes(n, Endian::Big);
    assert(segment =~= head + exif_marker() + tiff);
    assert(segment.len() == 10 + tiff.len());
    assert(forall|i: int| 0 <= i < segment.len() ==> #[trigger] b[at + i] == b.subrange(
        at,
        at + 10 + tiff.len(),
    )[i]);
    assert(b[at + 0] == 0xff && b[at + 1] == 0xe1);
    assert(b[at + 2] == segment[2] && b[at + 3] == segment[3]);
    assert(segment[2] == binary::u16_bytes(n, Endian::Big)[0]);
    assert(segment[3] == binary::u16_bytes(n, Endian::Big)[1]);
    assert(b.subrange(at + 4, at + 10) =~= segment.subrange(4, 10));
    assert(segment.subrange(4, 10) =~= exif_marker());
    assert(b.subrange(at + 10, at + 10 + tiff.len()) =~= segment.skip(10));
    assert(segment.skip(10) =~= tiff);
}

/// A TIFF structure that was put into a JPEG file is what the file's EXIF data
/// begins with when it is looked for again; whatever stood around the segment
/// stays.
pub proof fn written_exif_is_found(bytes: Seq<u8>, tiff: Seq<u8>)
    requires
        exif_app1(tiff) is Ok,
        with_exif_segment(bytes, exif_app1(tiff)->Ok_0) is Ok,
    ensures
        ({
            let updated = with_exif_segment(bytes, exif_app1(tiff)->Ok_0)->Ok_0;
            exif_tiff_start(updated) matches Some(start) && start + tiff.len() <= updated.len()
                && updated.subrange(start, start + tiff.len()) == tiff
        }),
{
    let segment = exif_app1(tiff)->Ok_0;
    let updated = with_exif_segment(bytes, segment)->Ok_0;
    binary::u16_bytes_read_back((tiff.len() + 8) as u16, Endian::Big);
    assert(segment.len() == 10 + tiff.len());
    lemma_exif_segment_bounds(bytes, 2);
    lemma_insert_pos_bounds(bytes, 2);
    match exif_segment_from(bytes, 2) {
        Some((start, end)) => {
            assert(updated =~= bytes.take(start) + segment + bytes.skip(end));
            assert(updated.subrange(start, start + 10 + tiff.len()) =~= segment);
            lemma_app1_is_segment(tiff, updated, start);
            assert(updated.take(start) =~= bytes.take(start));
            assert(updated[0] == bytes.take(start)[0] && updated[1] == bytes.take(start)[1]);
            lemma_first_exif_kept(bytes, updated, 2, start, start + 10 + tiff.len());
        },
        None => {
            let pos = exif_insert_pos(bytes, 2)->Ok_0;
            assert(updated =~= bytes.take(pos) + segment + bytes.skip(pos));
            assert(updated.subrange(pos, pos + 10 + tiff.len()) =~= segment);
            lemma_app1_is_segment(tiff, updated, pos);
            assert(updated.take(pos) =~= bytes.take(pos));
            assert(updated[0] == bytes.take(pos)[0] && updated[1] == bytes.take(pos)[1]);
            if pos > 2 {
                lemma_insert_pos_prefix(bytes, updated, 2, pos, pos + 10 + tiff.len());
            }
        },
    }
}

// Scanning past anything that is no marker.

/// The first byte from a position on that is a marker's prefix, or is none.
pub open spec fn next_byte(bytes: Seq<u8>, pos: int, prefix: bool) -> Option<int>
    decreases bytes.len() - pos,
{
    if pos < 0 || pos >= bytes.len() {
        None
    } else if (bytes[pos] == 0xff) == prefix {
        Some(pos)
    } else {
        next_byte(bytes, pos + 1, prefix)
    }
}

/// A marker that stands alone, without a length.
pub open spec fn is_bare_marker(marker: u8) -> bool {
    marker == 0x00 || marker == 0x01 || 0xd0 <= marker <= 0xd7
}

/// The TIFF structure of the first EXIF segment from a position on, where
/// stray bytes between segments are passed over.
pub open spec fn scanned_tiff_from(bytes: Seq<u8>, pos: int) -> Option<Seq<u8>>
    decreases bytes.len() - pos,
{
    match next_byte(bytes, pos, true) {
        None => None,
        Some(i) => match next_byte(bytes, i + 1, false) {
            None => None,
            Some(k) => {
                let marker = bytes[k];
                if !(pos <= k < bytes.len()) {
                    None
                } else if is_bare_marker(marker) {
                    scanned_tiff_from(bytes, k + 1)
                } else if marker == 0xda || marker == 0xd9 || k + 3 > bytes.len() {
                    None
                } else {
                    let len = binary::u16_of(bytes[k + 1], bytes[k + 2], Endian::Big) as int;
                    let end = k + 1 + len;
                    if len < 2 || end > bytes.len() {
                        None
                    } else if marker == 0xe1 && binary::begins_with(
                        bytes.subrange(k + 3, end),
                        exif_marker(),
                    ) {
                        Some(bytes.subrange(k + 3, end).skip(6))
                    } else {
                        scanned_tiff_from(bytes, end)
                    }
                }
            },
        },
    }
}

/// The TIFF structure that a scan of a file finds.
pub open spec fn scanned_tiff(bytes: Seq<u8>) -> Option<Seq<u8>> {
    if bytes.len() >= 2 && bytes[0] == 0xff && bytes[1] == 0xd8 {
        scanned_tiff_from(bytes, 2)
    } else {
        None
    }
}

fn find_next_byte(bytes: &[u8], pos: usize, prefix: bool) -> (r: Option<usize>)
    ensures
        match r {
            Some(i) => next_byte(bytes@, pos as int, prefix) == Some(i as int) && pos <= i
                < bytes@.len(),
            None => next_byte(bytes@, pos as int, prefix) is None,
        },
{
    let n: usize = bytes.len();
    let mut i: usize = pos;
    while i < n
        invariant
            pos <= i,
            n == bytes@.len(),
            next_byte(bytes@, pos as int, prefix) == next_byte(bytes@, i as int, prefix),
        decreases n - i,
    {
        if (bytes[i] == 0xff) == prefix {
            return Some(i);
        }
        i += 1;
    }
    None
}

/// Finds the TIFF structure of the EXIF data on a scan.
pub fn read_jpeg_exif_tiff(bytes: &[u8]) -> (r: Option<Vec<u8>>)
    ensures
        match r {
            Some(t) => scanned_tiff(bytes@) == Some(t@),
            None => scanned_tiff(bytes@) is None,
        },
{
    let n: usize = bytes.len();
    if n < 2 || bytes[0] != 0xff || bytes[1] != 0xd8 {
        return None;
    }
    let mark = exif_marker_bytes();
    let mut pos: usize = 2;
    while pos < n
        invariant
            n == bytes@.len(),
            mark@ == exif_marker(),
            scanned_tiff(bytes@) == scanned_tiff_from(bytes@, pos as int),
        decreases n - pos,
    {
        let i: usize = match find_next_byte(bytes, pos, true) {
            None => {
                return None;
            },
            Some(i) => i,
        };
        let k: usize = match find_next_byte(bytes, i + 1, false) {
            None => {
                return None;
            },
            Some(k) => k,
        };
        let marker: u8 = bytes[k];
        if marker == 0x00 || marker == 0x01 || (0xd0 <= marker && marker <= 0xd7) {
            pos = k + 1;
        } else {
            if marker == 0xda || marker == 0xd9 || n - k < 3 {
                return None;
            }
            let len: usize = match binary::read_u16(bytes, k + 1, Endian::Big) {
                None => {
                    return None;
                },
                Some(v) => v as usize,
            };
            if len < 2 {
                return None;
            }
            if len > n - k - 1 {
                return None;
            }
            let end: usize = k + 1 + len;
            if marker == 0xe1 && len >= 8 && has_bytes_at(bytes, k + 3, mark.as_slice()) {
                let tiff = binary::copied(bytes, k + 9, end);
                proof {
                    let payload = bytes@.subrange(k + 3, end as int);
                    assert(payload.take(6) =~= bytes@.subrange(k + 3, k + 9));
                    assert(payload.skip(6) =~= bytes@.subrange(k + 9, end as int));
                }
                return Some(tiff);
            }
            proof {
                if marker == 0xe1 {
                    let payload = bytes@.subrange(k + 3, end as int);
                    if binary::begins_with(payload, exif_marker()) {
                        assert(payload.take(6) =~= bytes@.subrange(k + 3, k + 9));
                    }
                }
            }
            pos = end;
        }
    }
    None
}

/// The segments before the EXIF segment have markers with a length.
pub open spec fn regular_from(bytes: Seq<u8>, pos: int) -> bool
    decreases bytes.len() - pos,
{
    match segment_end(bytes, pos) {
        None => false,
        Some(end) => !is_bare_marker(bytes[pos + 1]) && bytes[pos + 1] != 0xff && (is_exif_segment(
            bytes,
            pos,
            end,
        ) || regular_from(bytes, end)),
    }
}

proof fn lemma_scan_agrees(bytes: Seq<u8>, pos: int)
    requires
        0 <= pos,
        regular_from(bytes, pos),
        exif_segment_from(bytes, pos) is Some,
    ensures
        ({
            let (start, end) = exif_segment_from(bytes, pos)->0;
            scanned_tiff_from(bytes, pos) == Some(bytes.subrange(start + 10, end))
        }),
    decreases bytes.len() - pos,
{
    let end = segment_end(bytes, pos)->0;
    assert(next_byte(bytes, pos, true) == Some(pos));
    assert(next_byte(bytes, pos + 1, false) == Some(pos + 1));
    if is_exif_segment(bytes, pos, end) {
        let payload = bytes.subrange(pos + 4, end);
        assert(payload.take(6) =~= bytes.subrange(pos + 4, pos + 10));
        assert(payload.skip(6) =~= bytes.subrange(pos + 10, end));
    } else {
        lemma_scan_agrees(bytes, end);
        if bytes[pos + 1] == 0xe1 {
            let payload = bytes.subrange(pos + 4, end);
            if binary::begins_with(payload, exif_marker()) {
                assert(bytes.subrange(pos + 4, pos + 10) =~= payload.take(6));
                assert(false);
            }
        }
    }
}

/// In a file of regular segments a scan finds the EXIF segment that a search
/// for it finds.
pub proof fn scan_finds_the_exif_segment(bytes: Seq<u8>)
    requires
        is_jpeg(bytes),
        regular_from(bytes, 2),
        exif_app1_range(bytes) is Some,
    ensures
        ({
            let (start, end) = exif_app1_range(bytes)->0;
            scanned_tiff(bytes) == Some(bytes.subrange(start + 10, end))
        }),
{
    lemma_scan_agrees(bytes, 2);
}

pub fn has_jpeg_signature(bytes: &[u8]) -> (r: bool)
    ensures
        r == (bytes@.len() >= 3 && bytes@[0] == 0xff && bytes@[1] == 0xd8 && bytes@[2] == 0xff),
{
    bytes.len() >= 3 && bytes[0] == 0xff && bytes[1] == 0xd8 && bytes[2] == 0xff
}

} // verus!
