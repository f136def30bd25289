//! How PNG files are put together from chunks, and what becomes of the chunks.
use crate::binary;
use crate::datetime::{self, Moment};
use crate::exif;
use crate::movie_laws;
use crate::png;
use vstd::prelude::*;

verus! {

// Letters.

/// A file begins as a PNG file: the byte 137, `PNG`, a carriage return and a line feed,
/// the byte 26 and a line feed.
pub open spec fn begins_as_png(bytes: Seq<u8>) -> bool {
    &&& bytes.len() >= 8
    &&& bytes[0] == 137
    &&& bytes[1] == 'P' as u8 && bytes[2] == 'N' as u8 && bytes[3] == 'G' as u8
    &&& bytes[4] == '\r' as u8 && bytes[5] == '\n' as u8 && bytes[6] == 26 && bytes[7]
        == '\n' as u8
}

/// PNG files are told by their first eight bytes.
pub proof fn png_files_are_told_by_their_beginning(bytes: Seq<u8>)
    ensures
        png::is_png(bytes) <==> begins_as_png(bytes),
{
    let s = png::png_signature();
    assert(s[0] == 137 && s[1] == 0x50 && s[2] == 0x4e && s[3] == 0x47 && s[4] == 0x0d && s[5]
        == 0x0a && s[6] == 0x1a && s[7] == 0x0a);
    if bytes.len() >= 8 {
        let t = bytes.take(8);
        assert(t[0] == bytes[0] && t[1] == bytes[1] && t[2] == bytes[2] && t[3] == bytes[3] && t[4]
            == bytes[4] && t[5] == bytes[5] && t[6] == bytes[6] && t[7] == bytes[7]);
        if begins_as_png(bytes) {
            assert(t =~= s);
        }
    }
}

/// The letters of a text as bytes.
pub open spec fn letters(t: Seq<char>) -> Seq<u8> {
    Seq::new(t.len(), |i: int| t[i] as u8)
}

/// Chunks are called `IHDR` for the header, `IDAT` for the image, `IEND` for the end,
/// `tEXt` for texts and `eXIf` for EXIF data; a creation time is the text with the
/// keyword `Creation Time`.
pub proof fn chunks_are_told_by_their_letters()
    ensures
        png::header_kind() == letters("IHDR"@),
        png::image_kind() == letters("IDAT"@),
        png::end_kind() == letters("IEND"@),
        png::text_kind() == letters("tEXt"@),
        png::exif_kind() == letters("eXIf"@),
        png::creation_keyword() == letters("Creation Time"@),
{
    reveal_strlit("IHDR");
    reveal_strlit("IDAT");
    reveal_strlit("IEND");
    reveal_strlit("tEXt");
    reveal_strlit("eXIf");
    reveal_strlit("Creation Time");
    assert(png::header_kind() =~= letters("IHDR"@));
    assert(png::image_kind() =~= letters("IDAT"@));
    assert(png::end_kind() =~= letters("IEND"@));
    assert(png::text_kind() =~= letters("tEXt"@));
    assert(png::exif_kind() =~= letters("eXIf"@));
    assert(png::creation_keyword() =~= letters("Creation Time"@));
}

// Chunks.

/// A chunk as it stands in a file: the length of its data, its letters, its data and a
/// checksum.
pub open spec fn stands(bytes: Seq<u8>, at: int, kind: Seq<u8>, data: Seq<u8>) -> bool {
    &&& 0 <= at
    &&& kind.len() == 4
    &&& at + 12 + data.len() <= bytes.len()
    &&& movie_laws::big4(bytes, at) == data.len()
    &&& bytes.subrange(at + 4, at + 8) == kind
    &&& bytes.subrange(at + 8, at + 8 + data.len()) == data
}

proof fn lemma_stands(bytes: Seq<u8>, at: int, kind: Seq<u8>, data: Seq<u8>)
    requires
        stands(bytes, at, kind, data),
    ensures
        png::whole_chunk(bytes, at),
        png::chunk_end(bytes, at) == at + 12 + data.len(),
        png::kind_at(bytes, at) == kind,
        png::data_at(bytes, at) == data,
{
    assert(png::chunk_len(bytes, at) == movie_laws::big4(bytes, at));
}

/// The first chunk of a kind is the one that counts: chunks of other kinds before it
/// are passed over, and behind the end nothing is looked for.
pub proof fn the_first_chunk_of_a_kind_counts(
    bytes: Seq<u8>,
    at: int,
    kind: Seq<u8>,
    data: Seq<u8>,
    wanted: Seq<u8>,
)
    requires
        stands(bytes, at, kind, data),
    ensures
        kind == wanted ==> png::chunk_from(bytes, wanted, at) == Some(data),
        kind != wanted && kind == letters("IEND"@) ==> png::chunk_from(bytes, wanted, at) is None,
        kind != wanted && kind != letters("IEND"@) ==> png::chunk_from(bytes, wanted, at)
            == png::chunk_from(bytes, wanted, at + 12 + data.len()),
{
    chunks_are_told_by_their_letters();
    lemma_stands(bytes, at, kind, data);
}

/// A text stands behind its keyword and a zero.
pub proof fn texts_stand_behind_their_keyword(keyword: Seq<u8>, value: Seq<char>, other: Seq<u8>)
    requires
        forall|k: int| 0 <= k < keyword.len() ==> #[trigger] keyword[k] != 0,
        other != keyword,
    ensures
        png::text_value(keyword + seq![0u8] + vstd::utf8::encode_utf8(value), keyword) == Some(
            value,
        ),
        png::text_value(keyword + seq![0u8] + vstd::utf8::encode_utf8(value), other) is None,
{
    let bytes = vstd::utf8::encode_utf8(value);
    let data = keyword + seq![0u8] + bytes;
    let n = keyword.len() as int;
    lemma_zero(data, 0, n);
    assert(data.take(n) =~= keyword);
    assert(data.skip(n + 1) =~= bytes);
    vstd::utf8::encode_utf8_valid_utf8(value);
    vstd::utf8::encode_utf8_decode_utf8(value);
}

proof fn lemma_zero(data: Seq<u8>, i: int, n: int)
    requires
        0 <= i <= n < data.len(),
        forall|k: int| 0 <= k < n ==> #[trigger] data[k] != 0,
        data[n] == 0,
    ensures
        exif::zero_from(data, i) == n,
    decreases n - i,
{
    if i < n {
        assert(data[i] != 0);
        lemma_zero(data, i + 1, n);
    }
}

/// The first text with a keyword is the one that counts.
pub proof fn the_first_text_with_a_keyword_counts(
    bytes: Seq<u8>,
    at: int,
    kind: Seq<u8>,
    data: Seq<u8>,
    keyword: Seq<u8>,
    value: Seq<char>,
)
    requires
        stands(bytes, at, kind, data),
    ensures
        kind == letters("tEXt"@) && png::text_value(data, keyword) == Some(value)
            ==> png::text_from(bytes, keyword, at) == Some(value),
        kind == letters("IEND"@) ==> png::text_from(bytes, keyword, at) is None,
        kind != letters("IEND"@) && (kind != letters("tEXt"@) || png::text_value(data, keyword)
            is None) ==> png::text_from(bytes, keyword, at) == png::text_from(
            bytes,
            keyword,
            at + 12 + data.len(),
        ),
{
    chunks_are_told_by_their_letters();
    lemma_stands(bytes, at, kind, data);
    reveal_strlit("IEND");
    reveal_strlit("tEXt");
    assert(letters("IEND"@)[0] != letters("tEXt"@)[0]);
}

/// A new chunk stands as it was made: the length of its data first, then its letters,
/// then the data, then the four bytes of its checksum.
pub proof fn new_chunks_stand(kind: Seq<u8>, data: Seq<u8>)
    requires
        kind.len() == 4,
    ensures
        data.len() <= u32::MAX ==> png::new_chunk(kind, data) is Ok && stands(
            png::new_chunk(kind, data)->Ok_0,
            0,
            kind,
            data,
        ) && png::new_chunk(kind, data)->Ok_0.len() == 12 + data.len() && movie_laws::big4(
            png::new_chunk(kind, data)->Ok_0,
            8 + data.len() as int,
        ) == png::png_crc(kind, data),
        data.len() > u32::MAX ==> png::new_chunk(kind, data) is Err,
{
    if data.len() <= u32::MAX {
        let a = binary::u32_bytes(data.len() as u32, binary::Endian::Big);
        let d = binary::u32_bytes(png::png_crc(kind, data), binary::Endian::Big);
        binary::u32_bytes_read_back(data.len() as u32, binary::Endian::Big);
        binary::u32_bytes_read_back(png::png_crc(kind, data), binary::Endian::Big);
        let c = a + kind + data + d;
        assert(c[0] == a[0] && c[1] == a[1] && c[2] == a[2] && c[3] == a[3]);
        assert(c.subrange(4, 8) =~= kind);
        assert(c.subrange(8, 8 + data.len() as int) =~= data);
        let n = 8 + data.len() as int;
        assert(c[n] == d[0] && c[n + 1] == d[1] && c[n + 2] == d[2] && c[n + 3] == d[3]);
    }
}

// Putting chunks in.

/// A chunk takes the place of those of its kind: the first of them is replaced, and
/// any more are left out.
pub proof fn chunks_of_the_kind_are_replaced(
    bytes: Seq<u8>,
    at: int,
    kind: Seq<u8>,
    old: Seq<u8>,
    new: Seq<u8>,
    header: bool,
)
    requires
        stands(bytes, at, kind, old),
    ensures
        ({
            let rest = png::chunk_replaced_from(
                bytes,
                kind,
                Ok(new),
                at + 12 + old.len(),
                true,
                header || kind == letters("IHDR"@),
            );
            &&& rest is Ok ==> png::chunk_replaced_from(bytes, kind, Ok(new), at, false, header)
                == Ok::<Seq<u8>, Seq<char>>(new + rest->Ok_0)
            &&& rest is Ok ==> png::chunk_replaced_from(bytes, kind, Ok(new), at, true, header)
                == Ok::<Seq<u8>, Seq<char>>(rest->Ok_0)
        }),
{
    chunks_are_told_by_their_letters();
    lemma_stands(bytes, at, kind, old);
    let rest = png::chunk_replaced_from(
        bytes,
        kind,
        Ok(new),
        at + 12 + old.len(),
        true,
        header || kind == letters("IHDR"@),
    );
    if rest is Ok {
        assert(Seq::<u8>::empty() + rest->Ok_0 =~= rest->Ok_0);
    }
}

/// Where no chunk of the kind stands before the image, the new chunk stands right
/// before it; an image without a header before it is refused.
pub proof fn new_chunks_stand_before_the_image(
    bytes: Seq<u8>,
    at: int,
    kind: Seq<u8>,
    image: Seq<u8>,
    new: Seq<u8>,
    header: bool,
)
    requires
        stands(bytes, at, letters("IDAT"@), image),
        kind != letters("IDAT"@),
    ensures
        ({
            let end = at + 12 + image.len();
            let rest = png::chunk_replaced_from(bytes, kind, Ok(new), end, true, header);
            &&& header && rest is Ok ==> png::chunk_replaced_from(
                bytes,
                kind,
                Ok(new),
                at,
                false,
                header,
            ) == Ok::<Seq<u8>, Seq<char>>(new + (bytes.subrange(at, end) + rest->Ok_0))
            &&& !header ==> png::chunk_replaced_from(bytes, kind, Ok(new), at, false, header)
                == Err::<Seq<u8>, Seq<char>>("PNG IHDR chunk was not found."@)
        }),
{
    chunks_are_told_by_their_letters();
    lemma_stands(bytes, at, letters("IDAT"@), image);
    reveal_strlit("IDAT");
    reveal_strlit("IHDR");
    assert(letters("IDAT"@)[1] != letters("IHDR"@)[1]);
}

/// Other chunks stay, and the file ends with its end; a chunk that was not put in
/// before then stands behind it.
pub proof fn other_chunks_stay(
    bytes: Seq<u8>,
    at: int,
    other: Seq<u8>,
    data: Seq<u8>,
    kind: Seq<u8>,
    new: Seq<u8>,
    inserted: bool,
    header: bool,
)
    requires
        stands(bytes, at, other, data),
        other != kind,
        other != letters("IDAT"@) || inserted,
    ensures
        ({
            let end = at + 12 + data.len();
            let own = bytes.subrange(at, end);
            let rest = png::chunk_replaced_from(
                bytes,
                kind,
                Ok(new),
                end,
                inserted,
                header || other == letters("IHDR"@),
            );
            let all = png::chunk_replaced_from(bytes, kind, Ok(new), at, inserted, header);
            &&& other != letters("IEND"@) && rest is Ok ==> all == Ok::<Seq<u8>, Seq<char>>(
                own + rest->Ok_0,
            )
            &&& other == letters("IEND"@) && inserted ==> all == Ok::<Seq<u8>, Seq<char>>(own)
            &&& other == letters("IEND"@) && !inserted ==> all == Ok::<Seq<u8>, Seq<char>>(
                own + new,
            )
        }),
{
    chunks_are_told_by_their_letters();
    lemma_stands(bytes, at, other, data);
    assert(bytes.subrange(at, at + 12 + data.len()) + Seq::<u8>::empty() =~= bytes.subrange(
        at,
        at + 12 + data.len(),
    ));
}

/// A file without its dates: chunks with EXIF data and texts with a creation time are
/// left out, other chunks stay, and so does all that stands behind the end.
pub proof fn date_chunks_are_left_out(
    bytes: Seq<u8>,
    at: int,
    kind: Seq<u8>,
    data: Seq<u8>,
)
    requires
        stands(bytes, at, kind, data),
    ensures
        ({
            let end = at + 12 + data.len();
            let own = bytes.subrange(at, end);
            let rest = png::undated_from(bytes, end);
            let all = png::undated_from(bytes, at);
            let dated = kind == letters("eXIf"@) || (kind == letters("tEXt"@) && png::text_value(
                data,
                letters("Creation Time"@),
            ) is Some);
            &&& dated ==> all == rest
            &&& !dated && kind == letters("IEND"@) ==> all == Ok::<Seq<u8>, Seq<char>>(
                own + bytes.skip(end),
            )
            &&& !dated && kind != letters("IEND"@) && rest is Ok ==> all == Ok::<
                Seq<u8>,
                Seq<char>,
            >(own + rest->Ok_0)
        }),
{
    chunks_are_told_by_their_letters();
    lemma_stands(bytes, at, kind, data);
}

/// A new creation time stands right before the image, or before the end where there is
/// no image; the creation times that were there are left out, and other chunks stay.
pub proof fn creation_times_stand_before_the_image(
    bytes: Seq<u8>,
    at: int,
    kind: Seq<u8>,
    data: Seq<u8>,
    new: Seq<u8>,
    inserted: bool,
    header: bool,
)
    requires
        stands(bytes, at, kind, data),
    ensures
        ({
            let end = at + 12 + data.len();
            let own = bytes.subrange(at, end);
            let old = kind == letters("tEXt"@) && png::text_value(
                data,
                letters("Creation Time"@),
            ) is Some;
            let all = png::creation_replaced_from(bytes, Ok(new), at, inserted, header);
            let seen = header || kind == letters("IHDR"@);
            let same = png::creation_replaced_from(bytes, Ok(new), end, inserted, seen);
            let after = png::creation_replaced_from(bytes, Ok(new), end, true, seen);
            &&& old ==> all == same
            &&& !old && !inserted && kind == letters("IDAT"@) && header && after is Ok ==> all
                == Ok::<Seq<u8>, Seq<char>>(new + (own + after->Ok_0))
            &&& !old && !inserted && kind == letters("IEND"@) && header ==> all == Ok::<
                Seq<u8>,
                Seq<char>,
            >(new + own)
            &&& !old && inserted && kind == letters("IEND"@) ==> all == Ok::<Seq<u8>, Seq<char>>(
                own,
            )
            &&& !old && kind != letters("IEND"@) && (inserted || kind != letters("IDAT"@)) && same
                is Ok ==> all == Ok::<Seq<u8>, Seq<char>>(own + same->Ok_0)
        }),
{
    chunks_are_told_by_their_letters();
    lemma_stands(bytes, at, kind, data);
}

// Dates.

/// The date of a PNG file is the first that there is of four: the one on which it was
/// taken, its creation time, the one on which it was stored and the one of the image.
pub proof fn png_dates_are_taken_in_order(
    original: Seq<char>,
    creation: Seq<char>,
    digitized: Seq<char>,
    image: Seq<char>,
)
    ensures
        ({
            let d = png::effective_date(original, creation, digitized, image);
            let none = Seq::<char>::empty();
            &&& original.len() > 0 ==> d == original
            &&& original.len() == 0 && creation.len() > 0 ==> d == creation
            &&& original.len() == 0 && creation.len() == 0 && digitized.len() > 0 ==> d == digitized
            &&& original.len() == 0 && creation.len() == 0 && digitized.len() == 0 && image.len()
                > 0 ==> d == image
            &&& original.len() == 0 && creation.len() == 0 && digitized.len() == 0 && image.len()
                == 0 ==> d == "-"@
        }),
{
}

/// A creation time is stored as dates are in EXIF data, and one that cannot be read is
/// refused.
pub proof fn creation_times_are_stored_as_exif_dates(m: Moment)
    requires
        datetime::plain(m),
    ensures
        png::creation_text_of(Some(m)) matches Ok(t) && crate::moment_laws::writes_moment(
            t,
            ':',
            m,
        ),
        png::creation_text_of(None) is Err,
{
    crate::moment_laws::dates_are_written_from_the_year_to_the_second(m);
}

// Checksums.

/// The bits of a number from the last to the first.
pub open spec fn mirrored(x: u32) -> u32 {
    let a = ((x >> 1) & 0x5555_5555u32) | ((x & 0x5555_5555u32) << 1);
    let b = ((a >> 2) & 0x3333_3333u32) | ((a & 0x3333_3333u32) << 2);
    let c = ((b >> 4) & 0x0f0f_0f0fu32) | ((b & 0x0f0f_0f0fu32) << 4);
    let d = ((c >> 8) & 0x00ff_00ffu32) | ((c & 0x00ff_00ffu32) << 8);
    (d >> 16) | (d << 16)
}

/// A checksum is the remainder of a division of polynomials: with the bits mirrored, each
/// step multiplies by two and takes away `04c11db7` where a bit is carried out.
pub proof fn checksums_are_remainders(x: u32)
    ensures
        mirrored(x) & 0x8000_0000u32 == 0 ==> mirrored(png::crc_bit(x)) == mirrored(x) << 1,
        mirrored(x) & 0x8000_0000u32 != 0 ==> mirrored(png::crc_bit(x)) == (mirrored(x) << 1)
            ^ 0x04c1_1db7u32,
        mirrored(mirrored(x)) == x,
{
    assert(mirrored(x) & 0x8000_0000u32 == 0 ==> mirrored(png::crc_bit(x)) == mirrored(x) << 1)
        by (bit_vector);
    assert(mirrored(x) & 0x8000_0000u32 != 0 ==> mirrored(png::crc_bit(x)) == (mirrored(x) << 1)
        ^ 0x04c1_1db7u32) by (bit_vector);
    assert(mirrored(mirrored(x)) == x) by (bit_vector);
}

/// A checksum begins with all bits set, takes each byte in eight steps, and is turned
/// over at the end; it covers the letters of a chunk and its data.
pub proof fn checksums_take_each_byte(kind: Seq<u8>, data: Seq<u8>, byte: u8, x: u32)
    ensures
        png::crc_over(Seq::empty()) == 0xffff_ffff,
        png::crc_over(data.push(byte)) == png::crc_bits(
            png::crc_over(data) ^ (byte as u32),
            8,
        ),
        png::crc_bits(x, 8) == png::crc_bit(
            png::crc_bit(
                png::crc_bit(
                    png::crc_bit(
                        png::crc_bit(png::crc_bit(png::crc_bit(png::crc_bit(x)))),
                    ),
                ),
            ),
        ),
        png::png_crc(kind, data) == !png::crc_over(kind + data),
{
    reveal_with_fuel(png::crc_bits, 9);
    assert(data.push(byte).drop_last() =~= data);
}

// Files with dates.

/// A file has a date to remove where a chunk of EXIF data or a creation time stands
/// before its end.
pub proof fn files_with_a_date_chunk_are_dated(
    bytes: Seq<u8>,
    at: int,
    kind: Seq<u8>,
    data: Seq<u8>,
)
    requires
        stands(bytes, at, kind, data),
    ensures
        kind == letters("eXIf"@) ==> png::dated_from(bytes, at),
        kind == letters("tEXt"@) && png::text_value(data, letters("Creation Time"@)) is Some
            ==> png::dated_from(bytes, at),
        kind == letters("IEND"@) ==> !png::dated_from(bytes, at),
        kind != letters("eXIf"@) && kind != letters("tEXt"@) && kind != letters("IEND"@)
            ==> png::dated_from(bytes, at) == png::dated_from(bytes, at + 12 + data.len()),
        kind == letters("tEXt"@) && png::text_value(data, letters("Creation Time"@)) is None
            ==> png::dated_from(bytes, at) == png::dated_from(bytes, at + 12 + data.len()),
{
    chunks_are_told_by_their_letters();
    lemma_stands(bytes, at, kind, data);
    reveal_strlit("eXIf");
    reveal_strlit("tEXt");
    reveal_strlit("IEND");
    assert(letters("eXIf"@)[0] == 'e' as u8);
    assert(letters("tEXt"@)[0] == 't' as u8);
    assert(letters("IEND"@)[0] == 'I' as u8);
}

} // verus!
