//! Kinds of media files by their names and by their first bytes.
use crate::media;
use crate::names;
use crate::rename_name_laws;
use crate::text;
use vstd::prelude::*;

verus! {

proof fn lemma_extension(stem: Seq<char>, e: Seq<char>)
    requires
        stem.len() > 0,
        forall|k: int| 0 <= k < e.len() ==> #[trigger] e[k] != '.',
    ensures
        names::lower_extension(stem + seq!['.'] + e) == text::lower(e),
{
    let tail = seq!['.'] + e;
    assert forall|k: int| 0 < k < tail.len() implies #[trigger] tail[k] != '.' by {
        assert(tail[k] == e[k - 1]);
    }
    rename_name_laws::name_splits_into_its_parts(stem, tail);
    assert(tail.skip(1) =~= e);
    assert(stem + tail =~= stem + seq!['.'] + e);
}

/// The kind of a file is told by what stands behind the last dot of its name, in
/// capitals or small letters: JPEG and PNG images, movies of QuickTime and of the
/// MPEG-4 family, and transport streams.
pub proof fn extensions_tell_the_kind(stem: Seq<char>, e: Seq<char>)
    requires
        stem.len() > 0,
        forall|k: int| 0 <= k < e.len() ==> #[trigger] e[k] != '.',
    ensures
        ({
            let name = stem + seq!['.'] + e;
            let l = text::lower(e);
            &&& media::jpeg_name(name) <==> l == "jpg"@ || l == "jpeg"@
            &&& media::png_name(name) <==> l == "png"@
            &&& media::image_name(name) <==> l == "jpg"@ || l == "jpeg"@ || l == "png"@
            &&& media::quicktime_name(name) <==> l == "mov"@ || l == "qt"@
            &&& media::mp4_name(name) <==> l == "mov"@ || l == "qt"@ || l == "mp4"@ || l == "m4v"@
                || l == "3gp"@ || l == "3g2"@
            &&& media::transport_name(name) <==> l == "mts"@ || l == "m2ts"@
            &&& media::video_name(name) <==> l == "mov"@ || l == "qt"@ || l == "mp4"@ || l
                == "m4v"@ || l == "3gp"@ || l == "3g2"@ || l == "mts"@ || l == "m2ts"@
        }),
{
    lemma_extension(stem, e);
}

/// A name without a dot behind its first character has no kind.
pub proof fn names_without_an_extension_have_no_kind(name: Seq<char>)
    requires
        name.len() > 0,
        forall|k: int| 0 < k < name.len() ==> #[trigger] name[k] != '.',
    ensures
        !media::image_name(name),
        !media::video_name(name),
{
    rename_name_laws::name_splits_into_its_parts(name, Seq::empty());
    assert(name + Seq::<char>::empty() =~= name);
    lemma_literals();
}

proof fn lemma_literals()
    ensures
        "jpg"@.len() > 0,
        "jpeg"@.len() > 0,
        "png"@.len() > 0,
        "mov"@.len() > 0,
        "qt"@.len() > 0,
        "mp4"@.len() > 0,
        "m4v"@.len() > 0,
        "3gp"@.len() > 0,
        "3g2"@.len() > 0,
        "mts"@.len() > 0,
        "m2ts"@.len() > 0,
{
    reveal_strlit("jpg");
    reveal_strlit("jpeg");
    reveal_strlit("png");
    reveal_strlit("mov");
    reveal_strlit("qt");
    reveal_strlit("mp4");
    reveal_strlit("m4v");
    reveal_strlit("3gp");
    reveal_strlit("3g2");
    reveal_strlit("mts");
    reveal_strlit("m2ts");
}

/// The filters of the list take all media, images, videos, JPEG images and PNG images;
/// the third takes every file, whatever its kind is.
pub proof fn filters_take_their_kinds(stem: Seq<char>, e: Seq<char>)
    requires
        stem.len() > 0,
        forall|k: int| 0 <= k < e.len() ==> #[trigger] e[k] != '.',
    ensures
        ({
            let name = stem + seq!['.'] + e;
            let l = text::lower(e);
            let jpeg = l == "jpg"@ || l == "jpeg"@;
            let png = l == "png"@;
            let video = l == "mov"@ || l == "qt"@ || l == "mp4"@ || l == "m4v"@ || l == "3gp"@ || l
                == "3g2"@ || l == "mts"@ || l == "m2ts"@;
            &&& media::filter_takes(0, name) <==> jpeg || png || video
            &&& media::filter_takes(1, name) <==> jpeg || png
            &&& media::filter_takes(2, name) <==> video
            &&& media::filter_takes(3, name)
            &&& media::filter_takes(4, name) <==> jpeg
            &&& media::filter_takes(5, name) <==> png
        }),
{
    extensions_tell_the_kind(stem, e);
}

/// The types that are shown for videos before they are scanned, by their extensions.
pub proof fn videos_are_called_by_their_extensions(stem: Seq<char>, e: Seq<char>)
    requires
        stem.len() > 0,
        forall|k: int| 0 <= k < e.len() ==> #[trigger] e[k] != '.',
    ensures
        ({
            let name = stem + seq!['.'] + e;
            let l = text::lower(e);
            &&& l == "mov"@ || l == "qt"@ ==> media::video_type(name) == "QuickTime movie"@
            &&& l == "mp4"@ ==> media::video_type(name) == "MPEG-4 media"@
            &&& l == "m4v"@ ==> media::video_type(name) == "MPEG-4 video"@
            &&& l == "3gp"@ ==> media::video_type(name) == "3GPP media"@
            &&& l == "3g2"@ ==> media::video_type(name) == "3GPP2 media"@
            &&& l == "mts"@ || l == "m2ts"@ ==> media::video_type(name)
                == "AVCHD transport stream"@
        }),
{
    extensions_tell_the_kind(stem, e);
    lemma_extension(stem, e);
    lemma_different();
}

proof fn lemma_different()
    ensures
        "mov"@ != "m4v"@ && "mov"@ != "3gp"@ && "mov"@ != "3g2"@ && "mov"@ != "mp4"@,
        "qt"@ != "m4v"@ && "qt"@ != "3gp"@ && "qt"@ != "3g2"@ && "qt"@ != "mp4"@,
        "mp4"@ != "m4v"@ && "mp4"@ != "3gp"@ && "mp4"@ != "3g2"@ && "mp4"@ != "mts"@ && "mp4"@
            != "m2ts"@,
        "m4v"@ != "3gp"@ && "m4v"@ != "3g2"@,
        "3gp"@ != "3g2"@,
        "mts"@ != "mov"@ && "mts"@ != "qt"@ && "mts"@ != "m4v"@ && "mts"@ != "3gp"@ && "mts"@
            != "3g2"@,
        "m2ts"@ != "mov"@ && "m2ts"@ != "qt"@ && "m2ts"@ != "m4v"@ && "m2ts"@ != "3gp"@ && "m2ts"@
            != "3g2"@,
{
    reveal_strlit("mov");
    reveal_strlit("qt");
    reveal_strlit("mp4");
    reveal_strlit("m4v");
    reveal_strlit("3gp");
    reveal_strlit("3g2");
    reveal_strlit("mts");
    reveal_strlit("m2ts");
    assert("mov"@[1] == 'o' && "mp4"@[1] == 'p' && "m4v"@[1] == '4' && "mts"@[1] == 't');
    assert("3gp"@[0] == '3' && "3g2"@[0] == '3' && "3gp"@[2] == 'p' && "3g2"@[2] == '2');
    assert("mov"@[0] == 'm' && "mp4"@[0] == 'm' && "m4v"@[0] == 'm' && "mts"@[0] == 'm');
    assert("qt"@.len() == 2 && "m2ts"@.len() == 4 && "mov"@.len() == 3);
    assert("mts"@.len() == 3 && "mp4"@.len() == 3 && "m4v"@.len() == 3 && "3gp"@.len() == 3 && "3g2"@.len()
        == 3);
}

/// The type of an ISO media file is told by the brand behind its eighth byte: `3gp`
/// and `3g2` with any fourth character, and `qt` with two blanks; otherwise by the
/// extension.
pub proof fn brands_tell_the_type(stem: Seq<char>, e: Seq<char>, signature: Seq<u8>)
    requires
        stem.len() > 0,
        forall|k: int| 0 <= k < e.len() ==> #[trigger] e[k] != '.',
        signature.len() >= 12,
    ensures
        ({
            let name = stem + seq!['.'] + e;
            let l = text::lower(e);
            let a = signature[8];
            let b = signature[9];
            let c = signature[10];
            let d = signature[11];
            let gpp = a == '3' as u8 && b == 'g' as u8 && c == 'p' as u8;
            let gpp2 = a == '3' as u8 && b == 'g' as u8 && c == '2' as u8;
            let qt = a == 'q' as u8 && b == 't' as u8 && c == ' ' as u8 && d == ' ' as u8;
            &&& gpp ==> media::iso_type(name, signature) == "3GPP media"@
            &&& gpp2 ==> media::iso_type(name, signature) == "3GPP2 media"@
            &&& qt ==> media::iso_type(name, signature) == "QuickTime movie"@
            &&& !gpp && !gpp2 && !qt && (l == "mov"@ || l == "qt"@) ==> media::iso_type(
                name,
                signature,
            ) == "QuickTime movie"@
            &&& !gpp && !gpp2 && !qt && l == "m4v"@ ==> media::iso_type(name, signature)
                == "MPEG-4 video"@
            &&& !gpp && !gpp2 && !qt && l != "m4v"@ && l != "mov"@ && l != "qt"@
                ==> media::iso_type(name, signature) == "MPEG-4 media"@
        }),
{
    extensions_tell_the_kind(stem, e);
    lemma_extension(stem, e);
    lemma_different();
    let brand = signature.subrange(8, 12);
    let t = brand.take(3);
    assert(t[0] == signature[8] && t[1] == signature[9] && t[2] == signature[10]);
    assert(brand[0] == signature[8] && brand[1] == signature[9] && brand[2] == signature[10]
        && brand[3] == signature[11]);
    let x = seq![0x33u8, 0x67, 0x70];
    let y = seq![0x33u8, 0x67, 0x32];
    let z = seq![0x71u8, 0x74, 0x20, 0x20];
    assert(x[0] == 0x33 && x[1] == 0x67 && x[2] == 0x70);
    assert(y[0] == 0x33 && y[1] == 0x67 && y[2] == 0x32);
    assert(z[0] == 0x71 && z[1] == 0x74 && z[2] == 0x20 && z[3] == 0x20);
    if signature[8] == 0x33 && signature[9] == 0x67 && signature[10] == 0x70 {
        assert(t =~= x);
    }
    if signature[8] == 0x33 && signature[9] == 0x67 && signature[10] == 0x32 {
        assert(t =~= y);
    }
    if signature[8] == 0x71 && signature[9] == 0x74 && signature[10] == 0x20 && signature[11]
        == 0x20 {
        assert(brand =~= z);
    }
}

/// What a file is taken for when it cannot be read, by its extension.
pub proof fn unreadable_files_are_taken_for_their_kind(
    stem: Seq<char>,
    e: Seq<char>,
    other: Seq<char>,
)
    requires
        stem.len() > 0,
        forall|k: int| 0 <= k < e.len() ==> #[trigger] e[k] != '.',
    ensures
        ({
            let name = stem + seq!['.'] + e;
            let l = text::lower(e);
            let r = media::expected_kind(name, other);
            &&& l == "jpg"@ || l == "jpeg"@ ==> r == ("jpeg"@, "JPEG image"@)
            &&& l == "png"@ ==> r == ("png"@, "PNG image"@)
            &&& l == "mts"@ || l == "m2ts"@ ==> r == ("mts"@, "AVCHD transport stream"@)
            &&& l == "mov"@ || l == "qt"@ ==> r == ("mp4"@, "QuickTime movie"@)
            &&& l == "mp4"@ ==> r == ("mp4"@, "MPEG-4 media"@)
            &&& !media::filter_takes(0, name) ==> r == ("other"@, other)
        }),
{
    extensions_tell_the_kind(stem, e);
    videos_are_called_by_their_extensions(stem, e);
    media::filters_divide_media(stem + seq!['.'] + e);
    lemma_different();
    lemma_images_differ();
}

proof fn lemma_images_differ()
    ensures
        "png"@ != "jpg"@ && "png"@ != "jpeg"@,
        "mts"@ != "png"@ && "mts"@ != "jpg"@ && "mts"@ != "jpeg"@ && "mts"@ != "mp4"@,
        "m2ts"@ != "png"@ && "m2ts"@ != "jpg"@ && "m2ts"@ != "jpeg"@ && "m2ts"@ != "mp4"@,
        "mov"@ != "png"@ && "mov"@ != "jpg"@ && "mov"@ != "jpeg"@,
        "qt"@ != "png"@ && "qt"@ != "jpg"@ && "qt"@ != "jpeg"@,
        "mp4"@ != "png"@ && "mp4"@ != "jpg"@ && "mp4"@ != "jpeg"@,
{
    reveal_strlit("png");
    reveal_strlit("jpg");
    reveal_strlit("jpeg");
    reveal_strlit("mov");
    reveal_strlit("qt");
    reveal_strlit("mp4");
    reveal_strlit("mts");
    reveal_strlit("m2ts");
    assert("png"@[0] == 'p' && "jpg"@[0] == 'j' && "jpeg"@[0] == 'j');
    assert("mov"@[0] == 'm' && "mp4"@[0] == 'm' && "mts"@[0] == 'm' && "m2ts"@[0] == 'm' && "qt"@[0]
        == 'q');
    assert("m2ts"@.len() == 4 && "mp4"@.len() == 3 && "mts"@[1] == 't' && "mp4"@[1] == 'p');
}

} // verus!
