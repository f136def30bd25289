//! Where the EXIF data of a JPEG file stand, for files that are put together from
//! segments.
use crate::binary::{self, Endian};
use crate::exif;
use crate::jpeg;
use vstd::prelude::*;

verus! {

/// A segment: `ff`, its marker, its length with the length itself, and its content.
pub open spec fn segment(marker: u8, content: Seq<u8>) -> Seq<u8> {
    seq![
        0xffu8,
        marker,
        ((content.len() + 2) / 256) as u8,
        ((content.len() + 2) % 256) as u8,
    ] + content
}

/// Segments one behind the other.
pub open spec fn segments(list: Seq<(u8, Seq<u8>)>) -> Seq<u8>
    decreases list.len(),
{
    if list.len() == 0 {
        Seq::empty()
    } else {
        segment(list[0].0, list[0].1) + segments(list.skip(1))
    }
}

/// A segment with a length that stands before the image data.
pub open spec fn has_length(marker: u8, content: Seq<u8>) -> bool {
    &&& content.len() <= 65533
    &&& marker != 0xd9 && marker != 0xda
    &&& marker != 0x00 && marker != 0x01 && !(0xd0 <= marker <= 0xd7) && marker != 0xff
}

/// A segment that holds EXIF data: its marker is `e1`, and its content begins with
/// `Exif` and two zeros.
pub open spec fn holds_exif(marker: u8, content: Seq<u8>) -> bool {
    &&& marker == 0xe1
    &&& content.len() >= 6
    &&& content[0] == 'E' as u8 && content[1] == 'x' as u8 && content[2] == 'i' as u8 && content[3]
        == 'f' as u8 && content[4] == 0 && content[5] == 0
}

/// Segments of which none holds EXIF data.
pub open spec fn without_exif_data(list: Seq<(u8, Seq<u8>)>) -> bool {
    forall|i: int|
        0 <= i < list.len() ==> has_length((#[trigger] list[i]).0, list[i].1) && !holds_exif(
            list[i].0,
            list[i].1,
        )
}

/// A segment that holds a TIFF structure.
pub open spec fn exif_segment(tiff: Seq<u8>) -> Seq<u8> {
    segment(0xe1, seq!['E' as u8, 'x' as u8, 'i' as u8, 'f' as u8, 0, 0] + tiff)
}

proof fn lemma_segment(bytes: Seq<u8>, pos: int, marker: u8, content: Seq<u8>, tail: Seq<u8>)
    requires
        0 <= pos <= bytes.len(),
        bytes.skip(pos) == segment(marker, content) + tail,
        has_length(marker, content),
    ensures
        jpeg::segment_end(bytes, pos) == Some(pos + 4 + content.len()),
        jpeg::is_exif_segment(bytes, pos, pos + 4 + content.len()) == holds_exif(marker, content),
        bytes.skip(pos + 4 + content.len()) == tail,
        bytes.subrange(pos, pos + 4 + content.len()) == segment(marker, content),
        bytes[pos] == 0xff,
        bytes[pos + 1] == marker,
        bytes.subrange(pos + 4, pos + 4 + content.len()) == content,
        pos + 4 + content.len() + tail.len() == bytes.len(),
{
    let s = segment(marker, content);
    let all = s + tail;
    let rest = bytes.skip(pos);
    let n = content.len() as int;
    assert(rest[0] == s[0] && rest[1] == s[1] && rest[2] == s[2] && rest[3] == s[3]);
    assert(bytes[pos] == rest[0] && bytes[pos + 1] == rest[1] && bytes[pos + 2] == rest[2]
        && bytes[pos + 3] == rest[3]);
    assert(bytes.skip(pos + 4 + n) =~= tail) by {
        assert(rest.skip(4 + n) =~= tail);
        assert(bytes.skip(pos + 4 + n) =~= rest.skip(4 + n));
    }
    assert(bytes.subrange(pos, pos + 4 + n) =~= s) by {
        assert(rest.take(4 + n) =~= s);
        assert(bytes.subrange(pos, pos + 4 + n) =~= rest.take(4 + n));
    }
    assert forall|k: int| 0 <= k < n implies bytes[pos + 4 + k] == content[k] by {
        assert(rest[4 + k] == s[4 + k]);
        assert(bytes[pos + 4 + k] == rest[4 + k]);
    }
    assert(bytes.subrange(pos + 4, pos + 4 + n) =~= content);
    assert(binary::u16_of(bytes[pos + 2], bytes[pos + 3], Endian::Big) == n + 2);
    if n >= 6 {
        lemma_marker(bytes, pos + 4);
        assert(bytes[pos + 4 + 0] == content[0] && bytes[pos + 4 + 1] == content[1] && bytes[pos + 4
            + 2] == content[2] && bytes[pos + 4 + 3] == content[3] && bytes[pos + 4 + 4]
            == content[4] && bytes[pos + 4 + 5] == content[5]);
    }
}

proof fn lemma_marker(bytes: Seq<u8>, at: int)
    requires
        0 <= at,
        at + 6 <= bytes.len(),
    ensures
        binary::stands_at(bytes, at, jpeg::exif_marker()) == (bytes[at] == 0x45 && bytes[at + 1]
            == 0x78 && bytes[at + 2] == 0x69 && bytes[at + 3] == 0x66 && bytes[at + 4] == 0 && bytes[at
            + 5] == 0),
{
    let m = jpeg::exif_marker();
    let s = bytes.subrange(at, at + 6);
    assert(m[0] == 0x45 && m[1] == 0x78 && m[2] == 0x69 && m[3] == 0x66 && m[4] == 0 && m[5] == 0);
    assert(s[0] == bytes[at] && s[1] == bytes[at + 1] && s[2] == bytes[at + 2] && s[3] == bytes[at
        + 3] && s[4] == bytes[at + 4] && s[5] == bytes[at + 5]);
    if bytes[at] == 0x45 && bytes[at + 1] == 0x78 && bytes[at + 2] == 0x69 && bytes[at + 3] == 0x66
        && bytes[at + 4] == 0 && bytes[at + 5] == 0 {
        assert(s =~= m);
    }
}

proof fn lemma_pass(bytes: Seq<u8>, pos: int, list: Seq<(u8, Seq<u8>)>, tail: Seq<u8>)
    requires
        0 <= pos <= bytes.len(),
        bytes.skip(pos) == segments(list) + tail,
        without_exif_data(list),
    ensures
        ({
            let end = pos + segments(list).len();
            &&& bytes.skip(end) == tail
            &&& pos <= end <= bytes.len()
            &&& jpeg::exif_segment_from(bytes, pos) == jpeg::exif_segment_from(bytes, end)
            &&& jpeg::scanned_tiff_from(bytes, pos) == jpeg::scanned_tiff_from(bytes, end)
            &&& jpeg::kept_from(bytes, pos) == segments(list) + jpeg::kept_from(bytes, end)
        }),
    decreases list.len(),
{
    if list.len() == 0 {
        assert(segments(list) + tail =~= tail);
        assert(segments(list) + jpeg::kept_from(bytes, pos) =~= jpeg::kept_from(bytes, pos));
    } else {
        let (marker, content) = list[0];
        let more = list.skip(1);
        let next = segments(more) + tail;
        assert(segments(list) + tail =~= segment(marker, content) + next);
        lemma_segment(bytes, pos, marker, content, next);
        assert forall|i: int| 0 <= i < more.len() implies has_length(
            (#[trigger] more[i]).0,
            more[i].1,
        ) && !holds_exif(more[i].0, more[i].1) by {
            assert(more[i] == list[i + 1]);
        }
        let mid = pos + 4 + content.len();
        lemma_pass(bytes, mid, more, tail);
        assert(segments(list).len() == 4 + content.len() + segments(more).len());
        lemma_scan_step(bytes, pos, mid);
        assert(segment(marker, content) + (segments(more) + jpeg::kept_from(
            bytes,
            mid + segments(more).len(),
        )) =~= segments(list) + jpeg::kept_from(bytes, mid + segments(more).len()));
    }
}

proof fn lemma_scan_step(bytes: Seq<u8>, pos: int, end: int)
    requires
        0 <= pos,
        jpeg::segment_end(bytes, pos) == Some(end),
        !jpeg::is_bare_marker(bytes[pos + 1]),
        bytes[pos + 1] != 0xff,
    ensures
        jpeg::is_exif_segment(bytes, pos, end) ==> jpeg::scanned_tiff_from(bytes, pos) == Some(
            bytes.subrange(pos + 10, end),
        ),
        !jpeg::is_exif_segment(bytes, pos, end) ==> jpeg::scanned_tiff_from(bytes, pos)
            == jpeg::scanned_tiff_from(bytes, end),
{
    assert(jpeg::next_byte(bytes, pos, true) == Some(pos));
    assert(jpeg::next_byte(bytes, pos + 1, false) == Some(pos + 1));
    let part = bytes.subrange(pos + 4, end);
    assert(part.skip(6) =~= bytes.subrange(pos + 10, end) || part.len() < 6);
    if part.len() >= 6 {
        assert(part.take(6) =~= bytes.subrange(pos + 4, pos + 10));
    }
}

/// The file that begins a JPEG image, then has segments without EXIF data, and then
/// what is given.
pub open spec fn jpeg_file(list: Seq<(u8, Seq<u8>)>, rest: Seq<u8>) -> Seq<u8> {
    seq![0xffu8, 0xd8] + segments(list) + rest
}

proof fn lemma_file(list: Seq<(u8, Seq<u8>)>, rest: Seq<u8>)
    requires
        without_exif_data(list),
        list.len() > 0 || rest.len() >= 2,
    ensures
        ({
            let bytes = jpeg_file(list, rest);
            let at = 2 + segments(list).len() as int;
            &&& jpeg::is_jpeg(bytes)
            &&& bytes.take(2) == seq![0xffu8, 0xd8]
            &&& bytes.take(at) == seq![0xffu8, 0xd8] + segments(list)
            &&& bytes.skip(at) == rest
            &&& jpeg::exif_app1_range(bytes) == jpeg::exif_segment_from(bytes, at)
            &&& jpeg::scanned_tiff(bytes) == jpeg::scanned_tiff_from(bytes, at)
            &&& jpeg::without_exif(bytes) == seq![0xffu8, 0xd8] + (segments(list) + jpeg::kept_from(
                bytes,
                at,
            ))
        }),
{
    let bytes = jpeg_file(list, rest);
    let at = 2 + segments(list).len() as int;
    assert(bytes.skip(2) =~= segments(list) + rest);
    assert(bytes.take(2) =~= seq![0xffu8, 0xd8]);
    assert(bytes.take(at) =~= seq![0xffu8, 0xd8] + segments(list));
    assert(bytes[0] == bytes.take(2)[0] && bytes[1] == bytes.take(2)[1]);
    lemma_pass(bytes, 2, list, rest);
    if list.len() > 0 {
        assert(segments(list).len() >= 4);
    }
}

/// The EXIF data of a file are the content of the first segment that holds some, behind
/// `Exif` and two zeros, whatever segments stand before it.
pub proof fn exif_data_are_found(list: Seq<(u8, Seq<u8>)>, tiff: Seq<u8>, rest: Seq<u8>)
    requires
        without_exif_data(list),
        tiff.len() <= 65527,
    ensures
        ({
            let bytes = jpeg_file(list, exif_segment(tiff) + rest);
            let at = 2 + segments(list).len() as int;
            &&& jpeg::exif_app1_range(bytes) == Some((at, at + 10 + tiff.len()))
            &&& jpeg::exif_tiff_start(bytes) == Some(at + 10)
            &&& exif::exif_tiff(bytes) == Some(tiff + rest)
            &&& jpeg::scanned_tiff(bytes) == Some(tiff)
        }),
{
    let head = seq!['E' as u8, 'x' as u8, 'i' as u8, 'f' as u8, 0u8, 0u8];
    let content = head + tiff;
    let all = exif_segment(tiff) + rest;
    let bytes = jpeg_file(list, all);
    let at = 2 + segments(list).len() as int;
    lemma_file(list, all);
    assert(content[0] == head[0] && content[1] == head[1] && content[2] == head[2] && content[3]
        == head[3] && content[4] == head[4] && content[5] == head[5]);
    lemma_segment(bytes, at, 0xe1, content, rest);
    lemma_scan_step(bytes, at, at + 4 + content.len());
    let end = at + 4 + content.len();
    assert(bytes.subrange(at + 10, end) =~= tiff) by {
        let c = bytes.subrange(at + 4, end);
        assert(c =~= content);
        assert(content.skip(6) =~= tiff);
        assert(bytes.subrange(at + 10, end) =~= c.skip(6));
    }
    assert(bytes.skip(at + 10) =~= tiff + rest) by {
        assert(bytes.skip(end) =~= rest);
        assert(bytes.skip(at + 10) =~= bytes.subrange(at + 10, end) + bytes.skip(end));
    }
}

/// A file whose segments hold no EXIF data up to the image has none.
pub proof fn files_without_exif_data_have_none(list: Seq<(u8, Seq<u8>)>, image: Seq<u8>)
    requires
        without_exif_data(list),
        image.len() >= 2,
        image[0] == 0xff,
        image[1] == 0xda || image[1] == 0xd9,
    ensures
        jpeg::exif_app1_range(jpeg_file(list, image)) is None,
        exif::exif_tiff(jpeg_file(list, image)) is None,
        jpeg::scanned_tiff(jpeg_file(list, image)) is None,
        jpeg::without_exif(jpeg_file(list, image)) == jpeg_file(list, image),
{
    let bytes = jpeg_file(list, image);
    let at = 2 + segments(list).len() as int;
    lemma_file(list, image);
    assert(bytes.skip(at)[0] == bytes[at]);
    assert(bytes.skip(at)[1] == bytes[at + 1]);
    assert(jpeg::segment_end(bytes, at) is None);
    assert(jpeg::next_byte(bytes, at, true) == Some(at));
    assert(jpeg::next_byte(bytes, at + 1, false) == Some(at + 1));
    assert(seq![0xffu8, 0xd8] + (segments(list) + image) =~= bytes);
}

/// New EXIF data take the place of the old ones, and the rest of the file stays.
pub proof fn new_exif_data_replace_the_old(
    list: Seq<(u8, Seq<u8>)>,
    tiff: Seq<u8>,
    rest: Seq<u8>,
    new: Seq<u8>,
)
    requires
        without_exif_data(list),
        tiff.len() <= 65527,
    ensures
        jpeg::with_exif_segment(jpeg_file(list, exif_segment(tiff) + rest), new) == Ok::<
            Seq<u8>,
            Seq<char>,
        >(jpeg_file(list, new + rest)),
{
    let all = exif_segment(tiff) + rest;
    let bytes = jpeg_file(list, all);
    let at = 2 + segments(list).len() as int;
    exif_data_are_found(list, tiff, rest);
    lemma_file(list, all);
    assert(exif_segment(tiff).len() == 10 + tiff.len());
    assert(bytes.skip(at + 10 + tiff.len()) =~= rest) by {
        assert(all.skip(10 + tiff.len() as int) =~= rest);
        assert(bytes.skip(at).skip(10 + tiff.len() as int) =~= bytes.skip(
            at + 10 + tiff.len(),
        ));
    }
    assert(bytes.take(at) + new + rest =~= jpeg_file(list, new + rest));
}

/// Only segments with the marker `e0`.
pub open spec fn only_jfif(list: Seq<(u8, Seq<u8>)>) -> bool {
    forall|i: int|
        0 <= i < list.len() ==> (#[trigger] list[i]).0 == 0xe0 && list[i].1.len() <= 65533
}

proof fn lemma_insert(bytes: Seq<u8>, pos: int, list: Seq<(u8, Seq<u8>)>, tail: Seq<u8>)
    requires
        0 <= pos <= bytes.len(),
        bytes.skip(pos) == segments(list) + tail,
        only_jfif(list),
    ensures
        jpeg::exif_insert_pos(bytes, pos) == jpeg::exif_insert_pos(
            bytes,
            pos + segments(list).len(),
        ),
    decreases list.len(),
{
    if list.len() == 0 {
    } else {
        let (marker, content) = list[0];
        let more = list.skip(1);
        let next = segments(more) + tail;
        assert(segments(list) + tail =~= segment(marker, content) + next);
        lemma_segment(bytes, pos, marker, content, next);
        assert forall|i: int| 0 <= i < more.len() implies (#[trigger] more[i]).0 == 0xe0
            && more[i].1.len() <= 65533 by {
            assert(more[i] == list[i + 1]);
        }
        lemma_insert(bytes, pos + 4 + content.len(), more, tail);
        assert(segments(list).len() == 4 + content.len() + segments(more).len());
    }
}

/// A file without EXIF data takes new ones behind the `e0` segments that it begins with,
/// before all other segments.
pub proof fn new_exif_data_stand_behind_the_first_segments(
    jfif: Seq<(u8, Seq<u8>)>,
    others: Seq<(u8, Seq<u8>)>,
    image: Seq<u8>,
    new: Seq<u8>,
)
    requires
        only_jfif(jfif),
        without_exif_data(others),
        others.len() > 0 ==> others[0].0 != 0xe0,
        image.len() >= 4,
        image[0] == 0xff,
        image[1] == 0xda || image[1] == 0xd9,
    ensures
        jpeg::with_exif_segment(jpeg_file(jfif, segments(others) + image), new) == Ok::<
            Seq<u8>,
            Seq<char>,
        >(jpeg_file(jfif, new + segments(others) + image)),
{
    assert(without_exif_data(jfif)) by {
        assert forall|i: int| 0 <= i < jfif.len() implies has_length(
            (#[trigger] jfif[i]).0,
            jfif[i].1,
        ) && !holds_exif(jfif[i].0, jfif[i].1) by {}
    }
    let rest = segments(others) + image;
    let bytes = jpeg_file(jfif, rest);
    let at = 2 + segments(jfif).len() as int;
    lemma_file(jfif, rest);
    lemma_pass(bytes, at, others, image);
    let end = at + segments(others).len();
    assert(bytes.skip(end)[0] == bytes[end]);
    assert(bytes.skip(end)[1] == bytes[end + 1]);
    assert(jpeg::segment_end(bytes, end) is None);
    assert(jpeg::exif_app1_range(bytes) is None);
    assert(bytes.skip(2) =~= segments(jfif) + rest);
    lemma_insert(bytes, 2, jfif, rest);
    if others.len() > 0 {
        let (marker, content) = others[0];
        let next = segments(others.skip(1)) + image;
        assert(rest =~= segment(marker, content) + next);
        lemma_segment(bytes, at, marker, content, next);
    }
    assert(jpeg::exif_insert_pos(bytes, at) == Ok::<int, Seq<char>>(at));
    assert(bytes.take(at) + new + rest =~= jpeg_file(jfif, new + segments(others) + image));
}

/// All segments that hold EXIF data are taken out, and nothing else.
#[verifier::rlimit(60)]
#[verifier::spinoff_prover]
pub proof fn removal_takes_out_exif_data_only(
    list: Seq<(u8, Seq<u8>)>,
    tiff: Seq<u8>,
    others: Seq<(u8, Seq<u8>)>,
    image: Seq<u8>,
)
    requires
        without_exif_data(list),
        without_exif_data(others),
        tiff.len() <= 65527,
        image.len() >= 2,
        image[0] == 0xff,
        image[1] == 0xda || image[1] == 0xd9,
    ensures
        jpeg::exif_removed(jpeg_file(list, exif_segment(tiff) + segments(others) + image)) == Ok::<
            Seq<u8>,
            Seq<char>,
        >(jpeg_file(list, segments(others) + image)),
{
    let after = segments(others) + image;
    let all = exif_segment(tiff) + after;
    assert(exif_segment(tiff) + segments(others) + image =~= all);
    let bytes = jpeg_file(list, all);
    let at = 2 + segments(list).len() as int;
    lemma_file(list, all);
    let head = seq!['E' as u8, 'x' as u8, 'i' as u8, 'f' as u8, 0u8, 0u8];
    let content = head + tiff;
    assert(content[0] == head[0] && content[1] == head[1] && content[2] == head[2] && content[3]
        == head[3] && content[4] == head[4] && content[5] == head[5]);
    lemma_segment(bytes, at, 0xe1, content, after);
    let mid = at + 4 + content.len();
    lemma_pass(bytes, mid, others, image);
    let end = mid + segments(others).len();
    assert(bytes.skip(end)[0] == bytes[end]);
    assert(bytes.skip(end)[1] == bytes[end + 1]);
    assert(jpeg::segment_end(bytes, end) is None);
    assert(jpeg::kept_from(bytes, end) == image);
    assert(jpeg::kept_from(bytes, at) == segments(others) + image);
    assert(seq![0xffu8, 0xd8] + (segments(list) + after) =~= jpeg_file(list, after));
}

/// A segment is built of the marker `e1`, its length, `Exif`, two zeros and the TIFF
/// structure; a structure that makes it too long is refused.
pub proof fn exif_segments_are_built(tiff: Seq<u8>)
    ensures
        tiff.len() <= 65527 ==> jpeg::exif_app1(tiff) == Ok::<Seq<u8>, Seq<char>>(
            exif_segment(tiff),
        ),
        tiff.len() > 65527 ==> jpeg::exif_app1(tiff) == Err::<Seq<u8>, Seq<char>>(
            "EXIF segment is too large for JPEG APP1."@,
        ),
{
    reveal(binary::u16_bytes);
    if tiff.len() <= 65527 {
        assert(exif_segment(tiff) =~= seq![0xffu8, 0xe1] + binary::u16_bytes(
            (tiff.len() + 8) as u16,
            Endian::Big,
        ) + jpeg::exif_marker() + tiff);
    }
}

} // verus!
