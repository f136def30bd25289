//! What holds of a PNG file once its chunks were written or removed.
use crate::binary::{self, Endian};
use crate::datetime::{self, Moment};
use crate::exif::{self, Field};
use crate::exif_build;
use crate::exif_edit;
use crate::exif_laws;
use crate::exif_write;
use crate::png;
use crate::text;
use crate::tiff;
use crate::tiff_laws;
use vstd::prelude::*;

verus! {

/// A chunk stands in two files alike.
spec fn same_chunk(a: Seq<u8>, at: int, b: Seq<u8>, from: int) -> bool {
    &&& png::whole_chunk(b, from)
    &&& 0 <= at
    &&& at + (png::chunk_end(b, from) - from) <= a.len()
    &&& a.subrange(at, at + (png::chunk_end(b, from) - from)) == b.subrange(
        from,
        png::chunk_end(b, from),
    )
}

proof fn lemma_same_chunk(a: Seq<u8>, at: int, b: Seq<u8>, from: int)
    requires
        same_chunk(a, at, b, from),
    ensures
        png::whole_chunk(a, at),
        png::chunk_end(a, at) - at == png::chunk_end(b, from) - from,
        png::kind_at(a, at) == png::kind_at(b, from),
        png::data_at(a, at) == png::data_at(b, from),
        png::is_creation_chunk(a, at) == png::is_creation_chunk(b, from),
{
    let end = png::chunk_end(b, from);
    let x = a.subrange(at, at + (end - from));
    let y = b.subrange(from, end);
    let n = end - from;
    assert(x[0] == a[at] && x[1] == a[at + 1] && x[2] == a[at + 2] && x[3] == a[at + 3]);
    assert(y[0] == b[from] && y[1] == b[from + 1] && y[2] == b[from + 2] && y[3] == b[from + 3]);
    assert(png::chunk_len(a, at) == png::chunk_len(b, from));
    assert(png::kind_at(a, at) =~= x.subrange(4, 8));
    assert(png::kind_at(b, from) =~= y.subrange(4, 8));
    assert(png::data_at(a, at) =~= x.subrange(8, n - 4));
    assert(png::data_at(b, from) =~= y.subrange(8, n - 4));
}

/// A chunk that was made is read with its kind and its data.
pub proof fn made_chunk_reads_back(front: Seq<u8>, kind: Seq<u8>, data: Seq<u8>, rest: Seq<u8>)
    requires
        kind.len() == 4,
        data.len() <= u32::MAX,
    ensures
        ({
            let bytes = front + png::new_chunk(kind, data)->Ok_0 + rest;
            let at = front.len() as int;
            &&& png::whole_chunk(bytes, at)
            &&& png::chunk_end(bytes, at) == at + 12 + data.len()
            &&& png::new_chunk(kind, data)->Ok_0.len() == 12 + data.len()
            &&& png::kind_at(bytes, at) == kind
            &&& png::data_at(bytes, at) == data
        }),
{
    let a = binary::u32_bytes(data.len() as u32, Endian::Big);
    let d = binary::u32_bytes(png::png_crc(kind, data), Endian::Big);
    binary::u32_bytes_read_back(data.len() as u32, Endian::Big);
    binary::u32_bytes_read_back(png::png_crc(kind, data), Endian::Big);
    let chunk = a + kind + data + d;
    let bytes = front + chunk + rest;
    let at = front.len() as int;
    assert(bytes[at] == a[0] && bytes[at + 1] == a[1] && bytes[at + 2] == a[2] && bytes[at + 3]
        == a[3]);
    assert(png::kind_at(bytes, at) =~= kind);
    assert(png::data_at(bytes, at) =~= data);
}

proof fn lemma_signature(rest: Seq<u8>)
    ensures
        png::is_png(png::png_signature() + rest),
        png::png_signature().len() == 8,
{
    assert((png::png_signature() + rest).take(8) =~= png::png_signature());
}

proof fn lemma_keyword_data(value: Seq<char>)
    ensures
        png::text_value(png::creation_data(value), png::creation_keyword()) == Some(value),
{
    let data = png::creation_data(value);
    let k = png::creation_keyword();
    assert(forall|i: int| 0 <= i < 13 ==> data[i] == k[i]);
    assert(forall|i: int| 0 <= i < 13 ==> k[i] != 0);
    assert(data[13] == 0);
    exif_laws::lemma_zero_from(data, 0, 13);
    assert(data.take(13) =~= k);
    assert(data.skip(14) =~= vstd::utf8::encode_utf8(value));
    vstd::utf8::encode_utf8_valid_utf8(value);
    vstd::utf8::encode_utf8_decode_utf8(value);
}

/// What is found from the place on where a file's rewritten chunks begin.
proof fn lemma_creation_replaced(
    bytes: Seq<u8>,
    value: Seq<char>,
    at: int,
    header: bool,
    front: Seq<u8>,
)
    requires
        0 <= at,
        png::creation_data(value).len() <= u32::MAX,
        png::creation_replaced_from(
            bytes,
            png::new_chunk(png::text_kind(), png::creation_data(value)),
            at,
            false,
            header,
        ) is Ok,
    ensures
        ({
            let out = png::creation_replaced_from(
                bytes,
                png::new_chunk(png::text_kind(), png::creation_data(value)),
                at,
                false,
                header,
            )->Ok_0;
            png::text_from(front + out, png::creation_keyword(), front.len() as int) == Some(value)
        }),
    decreases bytes.len() - at,
{
    let chunk = png::new_chunk(png::text_kind(), png::creation_data(value));
    let out = png::creation_replaced_from(bytes, chunk, at, false, header)->Ok_0;
    let end = png::chunk_end(bytes, at);
    let now = header || png::kind_at(bytes, at) == png::header_kind();
    let own = bytes.subrange(at, end);
    let is_end = png::kind_at(bytes, at) == png::end_kind();
    if png::is_creation_chunk(bytes, at) {
        lemma_creation_replaced(bytes, value, end, now, front);
    } else if png::kind_at(bytes, at) == png::image_kind() || is_end {
        let rest = if is_end {
            own
        } else {
            own + png::creation_replaced_from(bytes, chunk, end, true, now)->Ok_0
        };
        assert(out == chunk->Ok_0 + rest);
        assert(front + out =~= front + chunk->Ok_0 + rest);
        made_chunk_reads_back(front, png::text_kind(), png::creation_data(value), rest);
        lemma_keyword_data(value);
    } else {
        let next = png::creation_replaced_from(bytes, chunk, end, false, now)->Ok_0;
        lemma_creation_replaced(bytes, value, end, now, front + own);
        assert(front + out =~= front + own + next);
        assert((front + out).subrange(
            front.len() as int,
            front.len() + (end - at),
        ) =~= own);
        lemma_same_chunk(front + out, front.len() as int, bytes, at);
        assert((front + own).len() == png::chunk_end(front + out, front.len() as int));
    }
}

/// A file that got a creation time got its chunk, so the text fitted one.
proof fn lemma_creation_chunk_made(
    bytes: Seq<u8>,
    chunk: Result<Seq<u8>, Seq<char>>,
    at: int,
    header: bool,
)
    requires
        png::creation_replaced_from(bytes, chunk, at, false, header) is Ok,
    ensures
        chunk is Ok,
    decreases bytes.len() - at,
{
    let end = png::chunk_end(bytes, at);
    let now = header || png::kind_at(bytes, at) == png::header_kind();
    let is_end = png::kind_at(bytes, at) == png::end_kind();
    if png::is_creation_chunk(bytes, at) {
        lemma_creation_chunk_made(bytes, chunk, end, now);
    } else if png::kind_at(bytes, at) != png::image_kind() && !is_end {
        lemma_creation_chunk_made(bytes, chunk, end, now);
    }
}

/// A file that got other data of a kind got their chunk, so the data fitted one.
proof fn lemma_chunk_made(
    bytes: Seq<u8>,
    kind: Seq<u8>,
    chunk: Result<Seq<u8>, Seq<char>>,
    at: int,
    header: bool,
)
    requires
        png::chunk_replaced_from(bytes, kind, chunk, at, false, header) is Ok,
    ensures
        chunk is Ok,
    decreases bytes.len() - at,
{
    let end = png::chunk_end(bytes, at);
    let now = header || png::kind_at(bytes, at) == png::header_kind();
    if png::kind_at(bytes, at) != kind && png::kind_at(bytes, at) != png::image_kind()
        && png::kind_at(bytes, at) != png::end_kind() {
        lemma_chunk_made(bytes, kind, chunk, end, now);
    }
}

/// A creation time that was written is the one that is found.
pub proof fn written_creation_time_is_found(bytes: Seq<u8>, value: Seq<char>)
    requires
        png::creation_replaced(bytes, value) is Ok,
    ensures
        png::png_text(png::creation_replaced(bytes, value)->Ok_0, png::creation_keyword()) == Some(
            value,
        ),
{
    let chunk = png::new_chunk(png::text_kind(), png::creation_data(value));
    let rest = png::creation_replaced_from(bytes, chunk, 8, false, false)->Ok_0;
    lemma_signature(rest);
    lemma_creation_chunk_made(bytes, chunk, 8, false);
    lemma_creation_replaced(bytes, value, 8, false, png::png_signature());
}

#[verifier::rlimit(60)]
proof fn lemma_creation_keeps(
    bytes: Seq<u8>,
    value: Seq<char>,
    kind: Seq<u8>,
    at: int,
    inserted: bool,
    header: bool,
    front: Seq<u8>,
)
    requires
        0 <= at,
        kind != png::text_kind(),
        png::creation_data(value).len() <= u32::MAX,
        png::creation_replaced_from(
            bytes,
            png::new_chunk(png::text_kind(), png::creation_data(value)),
            at,
            inserted,
            header,
        ) is Ok,
    ensures
        ({
            let out = png::creation_replaced_from(
                bytes,
                png::new_chunk(png::text_kind(), png::creation_data(value)),
                at,
                inserted,
                header,
            )->Ok_0;
            png::chunk_from(front + out, kind, front.len() as int) == png::chunk_from(
                bytes,
                kind,
                at,
            )
        }),
    decreases bytes.len() - at,
{
    let chunk = png::new_chunk(png::text_kind(), png::creation_data(value));
    let out = png::creation_replaced_from(bytes, chunk, at, inserted, header)->Ok_0;
    let end = png::chunk_end(bytes, at);
    let now = header || png::kind_at(bytes, at) == png::header_kind();
    let own = bytes.subrange(at, end);
    let is_end = png::kind_at(bytes, at) == png::end_kind();
    if png::is_creation_chunk(bytes, at) {
        lemma_creation_keeps(bytes, value, kind, end, inserted, now, front);
    } else if !inserted && (png::kind_at(bytes, at) == png::image_kind() || is_end) {
        let c = chunk->Ok_0;
        let next = if is_end {
            Seq::<u8>::empty()
        } else {
            png::creation_replaced_from(bytes, chunk, end, true, now)->Ok_0
        };
        assert(front + out =~= front + c + (own + next));
        assert(front + out =~= front + c + own + next);
        lemma_not_end_kind();
        lemma_new_step(front, png::text_kind(), png::creation_data(value), own + next);
        lemma_own_step(front + c, own, next, bytes, at, kind);
        if !is_end {
            lemma_creation_keeps(bytes, value, kind, end, true, now, front + c + own);
        }
    } else {
        let next = if is_end {
            Seq::<u8>::empty()
        } else {
            png::creation_replaced_from(bytes, chunk, end, inserted, now)->Ok_0
        };
        assert(front + out =~= front + own + next);
        lemma_own_step(front, own, next, bytes, at, kind);
        if !is_end {
            lemma_creation_keeps(bytes, value, kind, end, inserted, now, front + own);
        }
    }
}

proof fn lemma_not_end_kind()
    ensures
        png::text_kind() != png::end_kind(),
        png::exif_kind() != png::end_kind(),
        png::image_kind() != png::end_kind(),
{
    assert(png::text_kind()[0] == 0x74 && png::exif_kind()[0] == 0x65 && png::image_kind()[1]
        == 0x44);
    assert(png::end_kind()[0] == 0x49 && png::end_kind()[1] == 0x45);
}

/// A chunk that was made, before others.
proof fn lemma_new_step(front: Seq<u8>, made: Seq<u8>, data: Seq<u8>, next: Seq<u8>)
    requires
        made.len() == 4,
        made != png::end_kind(),
        data.len() <= u32::MAX,
    ensures
        ({
            let c = png::new_chunk(made, data)->Ok_0;
            let all = front + c + next;
            let p = front.len() as int;
            &&& forall|kind: Seq<u8>|
                kind != made ==> #[trigger] png::chunk_from(all, kind, p) == png::chunk_from(
                    all,
                    kind,
                    (front + c).len() as int,
                )
            &&& made != png::text_kind() ==> forall|keyword: Seq<u8>| #[trigger]
                png::text_from(all, keyword, p) == png::text_from(
                    all,
                    keyword,
                    (front + c).len() as int,
                )
        }),
{
    made_chunk_reads_back(front, made, data, next);
}

/// A chunk that was copied, before others.
proof fn lemma_own_step(
    front: Seq<u8>,
    own: Seq<u8>,
    next: Seq<u8>,
    bytes: Seq<u8>,
    at: int,
    kind: Seq<u8>,
)
    requires
        png::whole_chunk(bytes, at),
        own == bytes.subrange(at, png::chunk_end(bytes, at)),
    ensures
        ({
            let all = front + own + next;
            let p = front.len() as int;
            &&& png::chunk_from(all, kind, p) == if png::kind_at(bytes, at) == kind {
                Some(png::data_at(bytes, at))
            } else if png::kind_at(bytes, at) == png::end_kind() {
                None
            } else {
                png::chunk_from(all, kind, (front + own).len() as int)
            }
            &&& forall|keyword: Seq<u8>| #[trigger]
                png::text_from(all, keyword, p) == if png::kind_at(bytes, at) == png::text_kind()
                    && png::text_value(png::data_at(bytes, at), keyword) is Some {
                    png::text_value(png::data_at(bytes, at), keyword)
                } else if png::kind_at(bytes, at) == png::end_kind() {
                    None
                } else {
                    png::text_from(all, keyword, (front + own).len() as int)
                }
            &&& png::dated_from(all, p) == if png::kind_at(bytes, at) == png::exif_kind()
                || png::is_creation_chunk(bytes, at) {
                true
            } else if png::kind_at(bytes, at) == png::end_kind() {
                false
            } else {
                png::dated_from(all, (front + own).len() as int)
            }
        }),
{
    let all = front + own + next;
    let p = front.len() as int;
    assert(all.subrange(p, p + (png::chunk_end(bytes, at) - at)) =~= own);
    lemma_same_chunk(all, p, bytes, at);
}

/// Writing a creation time changes no chunk of another kind.
pub proof fn creation_time_leaves_other_chunks(bytes: Seq<u8>, value: Seq<char>, kind: Seq<u8>)
    requires
        kind != png::text_kind(),
        png::creation_replaced(bytes, value) is Ok,
    ensures
        png::png_chunk(png::creation_replaced(bytes, value)->Ok_0, kind) == png::png_chunk(
            bytes,
            kind,
        ),
{
    let chunk = png::new_chunk(png::text_kind(), png::creation_data(value));
    let rest = png::creation_replaced_from(bytes, chunk, 8, false, false)->Ok_0;
    lemma_signature(rest);
    lemma_creation_chunk_made(bytes, chunk, 8, false);
    lemma_creation_keeps(bytes, value, kind, 8, false, false, png::png_signature());
}

proof fn lemma_chunk_replaced(
    bytes: Seq<u8>,
    kind: Seq<u8>,
    data: Seq<u8>,
    at: int,
    header: bool,
    front: Seq<u8>,
)
    requires
        0 <= at,
        kind.len() == 4,
        kind != png::end_kind(),
        data.len() <= u32::MAX,
        png::chunk_from(bytes, kind, at) is Some || png::chunk_from(bytes, png::image_kind(), at)
            is Some,
        png::chunk_replaced_from(bytes, kind, png::new_chunk(kind, data), at, false, header) is Ok,
    ensures
        ({
            let out = png::chunk_replaced_from(
                bytes,
                kind,
                png::new_chunk(kind, data),
                at,
                false,
                header,
            )->Ok_0;
            png::chunk_from(front + out, kind, front.len() as int) == Some(data)
        }),
    decreases bytes.len() - at,
{
    let chunk = png::new_chunk(kind, data);
    let c = chunk->Ok_0;
    let out = png::chunk_replaced_from(bytes, kind, chunk, at, false, header)->Ok_0;
    let end = png::chunk_end(bytes, at);
    let now = header || png::kind_at(bytes, at) == png::header_kind();
    let own = bytes.subrange(at, end);
    if png::kind_at(bytes, at) == kind {
        let next = png::chunk_replaced_from(bytes, kind, chunk, end, true, now)->Ok_0;
        assert(front + out =~= front + c + next);
        made_chunk_reads_back(front, kind, data, next);
    } else if png::kind_at(bytes, at) == png::image_kind() {
        let next = png::chunk_replaced_from(bytes, kind, chunk, end, true, now)->Ok_0;
        assert(front + out =~= front + c + (own + next));
        made_chunk_reads_back(front, kind, data, own + next);
    } else {
        let next = png::chunk_replaced_from(bytes, kind, chunk, end, false, now)->Ok_0;
        assert(front + out =~= front + own + next);
        lemma_own_step(front, own, next, bytes, at, kind);
        lemma_chunk_replaced(bytes, kind, data, end, now, front + own);
    }
}

/// The data of a chunk that was written are found, where the file has a chunk
/// of the kind or image data to put it before.
pub proof fn written_chunk_is_found(bytes: Seq<u8>, kind: Seq<u8>, data: Seq<u8>)
    requires
        kind.len() == 4,
        kind != png::end_kind(),
        png::png_chunk(bytes, kind) is Some || png::png_chunk(bytes, png::image_kind()) is Some,
        png::chunk_replaced(bytes, kind, data) is Ok,
    ensures
        png::png_chunk(png::chunk_replaced(bytes, kind, data)->Ok_0, kind) == Some(data),
{
    let rest = png::chunk_replaced_from(
        bytes,
        kind,
        png::new_chunk(kind, data),
        8,
        false,
        false,
    )->Ok_0;
    lemma_signature(rest);
    lemma_chunk_made(bytes, kind, png::new_chunk(kind, data), 8, false);
    lemma_chunk_replaced(bytes, kind, data, 8, false, png::png_signature());
}

#[verifier::rlimit(60)]
proof fn lemma_chunk_keeps(
    bytes: Seq<u8>,
    kind: Seq<u8>,
    data: Seq<u8>,
    keyword: Seq<u8>,
    at: int,
    inserted: bool,
    header: bool,
    front: Seq<u8>,
)
    requires
        0 <= at,
        kind.len() == 4,
        kind != png::end_kind(),
        kind != png::text_kind(),
        data.len() <= u32::MAX,
        png::chunk_replaced_from(bytes, kind, png::new_chunk(kind, data), at, inserted, header)
            is Ok,
    ensures
        ({
            let out = png::chunk_replaced_from(
                bytes,
                kind,
                png::new_chunk(kind, data),
                at,
                inserted,
                header,
            )->Ok_0;
            png::text_from(front + out, keyword, front.len() as int) == png::text_from(
                bytes,
                keyword,
                at,
            )
        }),
    decreases bytes.len() - at,
{
    let chunk = png::new_chunk(kind, data);
    let c = chunk->Ok_0;
    let out = png::chunk_replaced_from(bytes, kind, chunk, at, inserted, header)->Ok_0;
    let end = png::chunk_end(bytes, at);
    let now = header || png::kind_at(bytes, at) == png::header_kind();
    let own = bytes.subrange(at, end);
    if png::kind_at(bytes, at) == kind {
        let next = png::chunk_replaced_from(bytes, kind, chunk, end, true, now)->Ok_0;
        if inserted {
            assert(out =~= next);
            lemma_chunk_keeps(bytes, kind, data, keyword, end, true, now, front);
        } else {
            assert(front + out =~= front + c + next);
            lemma_new_step(front, kind, data, next);
            lemma_chunk_keeps(bytes, kind, data, keyword, end, true, now, front + c);
        }
    } else if !inserted && png::kind_at(bytes, at) == png::image_kind() {
        let next = png::chunk_replaced_from(bytes, kind, chunk, end, true, now)->Ok_0;
        assert(front + out =~= front + c + (own + next));
        assert(front + out =~= front + c + own + next);
        lemma_not_end_kind();
        lemma_new_step(front, kind, data, own + next);
        lemma_own_step(front + c, own, next, bytes, at, kind);
        lemma_chunk_keeps(bytes, kind, data, keyword, end, true, now, front + c + own);
    } else if png::kind_at(bytes, at) == png::end_kind() {
        let next = if inserted {
            Seq::<u8>::empty()
        } else {
            c
        };
        assert(front + out =~= front + own + next);
        lemma_own_step(front, own, next, bytes, at, kind);
    } else {
        let next = png::chunk_replaced_from(bytes, kind, chunk, end, inserted, now)->Ok_0;
        assert(front + out =~= front + own + next);
        lemma_own_step(front, own, next, bytes, at, kind);
        lemma_chunk_keeps(bytes, kind, data, keyword, end, inserted, now, front + own);
    }
}

/// Writing a chunk of another kind changes no text.
pub proof fn written_chunk_leaves_texts(
    bytes: Seq<u8>,
    kind: Seq<u8>,
    data: Seq<u8>,
    keyword: Seq<u8>,
)
    requires
        kind.len() == 4,
        kind != png::end_kind(),
        kind != png::text_kind(),
        png::chunk_replaced(bytes, kind, data) is Ok,
    ensures
        png::png_text(png::chunk_replaced(bytes, kind, data)->Ok_0, keyword) == png::png_text(
            bytes,
            keyword,
        ),
{
    let rest = png::chunk_replaced_from(
        bytes,
        kind,
        png::new_chunk(kind, data),
        8,
        false,
        false,
    )->Ok_0;
    lemma_signature(rest);
    lemma_chunk_made(bytes, kind, png::new_chunk(kind, data), 8, false);
    lemma_chunk_keeps(bytes, kind, data, keyword, 8, false, false, png::png_signature());
}

proof fn lemma_undated(bytes: Seq<u8>, keyword: Seq<u8>, kind: Seq<u8>, at: int, front: Seq<u8>)
    requires
        0 <= at,
        png::undated_from(bytes, at) is Ok,
    ensures
        ({
            let all = front + png::undated_from(bytes, at)->Ok_0;
            let p = front.len() as int;
            &&& !png::dated_from(all, p)
            &&& png::chunk_from(all, png::exif_kind(), p) is None
            &&& png::text_from(all, png::creation_keyword(), p) is None
            &&& keyword != png::creation_keyword() ==> png::text_from(all, keyword, p)
                == png::text_from(bytes, keyword, at)
            &&& kind != png::exif_kind() && kind != png::text_kind() ==> png::chunk_from(
                all,
                kind,
                p,
            ) == png::chunk_from(bytes, kind, at)
        }),
    decreases bytes.len() - at,
{
    let out = png::undated_from(bytes, at)->Ok_0;
    if !png::chunk_starts(bytes, at) {
        assert(front + out =~= front);
    } else {
        let end = png::chunk_end(bytes, at);
        let own = bytes.subrange(at, end);
        if png::is_date_chunk(bytes, at) {
            lemma_undated(bytes, keyword, kind, end, front);
            if png::is_creation_chunk(bytes, at) && keyword != png::creation_keyword() {
                assert(png::text_value(png::data_at(bytes, at), keyword) is None);
            }
        } else if png::kind_at(bytes, at) == png::end_kind() {
            assert(front + out =~= front + own + bytes.skip(end));
            lemma_own_step(front, own, bytes.skip(end), bytes, at, kind);
            lemma_own_step(front, own, bytes.skip(end), bytes, at, png::exif_kind());
        } else {
            let next = png::undated_from(bytes, end)->Ok_0;
            assert(front + out =~= front + own + next);
            lemma_own_step(front, own, next, bytes, at, kind);
            lemma_own_step(front, own, next, bytes, at, png::exif_kind());
            lemma_undated(bytes, keyword, kind, end, front + own);
        }
    }
}

/// A file whose dates were removed has no EXIF data and no creation time; its
/// other texts and its other chunks are those that it had.
pub proof fn removed_dates_are_gone(bytes: Seq<u8>, keyword: Seq<u8>, kind: Seq<u8>)
    requires
        png::undated(bytes) is Ok,
    ensures
        ({
            let out = png::undated(bytes)->Ok_0;
            &&& png::is_png(out)
            &&& !png::dated_from(out, 8)
            &&& png::png_chunk(out, png::exif_kind()) is None
            &&& png::png_text(out, png::creation_keyword()) is None
            &&& keyword != png::creation_keyword() ==> png::png_text(out, keyword)
                == png::png_text(bytes, keyword)
            &&& kind != png::exif_kind() && kind != png::text_kind() ==> png::png_chunk(out, kind)
                == png::png_chunk(bytes, kind)
        }),
{
    lemma_signature(png::undated_from(bytes, 8)->Ok_0);
    lemma_undated(bytes, keyword, kind, 8, png::png_signature());
}

/// A date that was written into a structure is the date that is read from it.
pub proof fn written_date_is_read(data: Seq<u8>, value: Seq<char>)
    requires
        tiff::dated(data, exif_write::text_bytes(value)) is Ok,
        tiff::dated(data, exif_write::text_bytes(value))->Ok_0.len() <= u32::MAX,
        exif_laws::without_zero(value),
        text::trim(value) == value,
        exif_write::text_bytes(value).len() > 4,
    ensures
        ({
            let v = tiff::dated(data, exif_write::text_bytes(value))->Ok_0;
            let endian = tiff::tiff_endian(data)->0;
            &&& exif::readable_tiff(v) matches Some((e, ifd0))
            &&& e == endian
            &&& exif::text_in(v, exif::exif_dir(v, endian, ifd0), endian, 0x9003) == Some(value)
        }),
{
    tiff_laws::written_date_is_found(data, exif_write::text_bytes(value));
    let v = tiff::dated(data, exif_write::text_bytes(value))->Ok_0;
    let endian = tiff::tiff_endian(data)->0;
    let ifd0 = binary::u32_at(v, 4, endian)->0;
    let at = tiff::pointed_offset(v, ifd0 as int, endian, tiff::EXIF_POINTER);
    reveal(exif::text_in);
    reveal(exif::long_in);
    let b = exif_write::text_bytes(value);
    assert(b + exif_build::zeros(0) =~= b);
    exif_laws::stored_text_reads_back(value, 0);
    if value.len() == 0 {
        assert(vstd::utf8::encode_utf8(value).len() == 0);
    }
}

/// The dates that were written to a file are those that are read from it.
pub proof fn written_dates_are_read(
    bytes: Seq<u8>,
    creation: Option<Seq<char>>,
    exif: Option<Seq<char>>,
)
    requires
        png::dates_written(bytes, creation, exif) is Ok,
    ensures
        ({
            let out = png::dates_written(bytes, creation, exif)->Ok_0;
            &&& creation matches Some(c) ==> png::entered_creation(
                c,
                "PNG Creation Time normalization failed."@,
            ) matches Ok((_, shown)) && png::png_creation_date(out) == shown
            &&& exif matches Some(e) ==> png::entered_creation(
                e,
                "PNG EXIF DateTimeOriginal normalization failed."@,
            ) matches Ok((_, shown)) && png::png_exif_date(out, Field::DateTimeOriginal) == shown
            &&& creation is None && exif is None ==> out == bytes
        }),
{
}

proof fn lemma_creation_alone(bytes: Seq<u8>, value: Seq<char>)
    requires
        png::dates_written(bytes, Some(value), None) is Ok,
    ensures
        png::entered_creation(value, "PNG Creation Time normalization failed."@) is Ok,
        png::dates_written(bytes, Some(value), None) == png::creation_replaced(
            bytes,
            (png::entered_creation(value, "PNG Creation Time normalization failed."@)->Ok_0).0,
        ),
{
}

proof fn lemma_same_exif_dates(a: Seq<u8>, b: Seq<u8>, f: Field)
    requires
        png::png_chunk(a, png::exif_kind()) == png::png_chunk(b, png::exif_kind()),
    ensures
        png::png_exif_date(a, f) == png::png_exif_date(b, f),
{
}

proof fn lemma_kinds_differ()
    ensures
        png::exif_kind() != png::text_kind(),
        png::exif_kind() != png::end_kind(),
        png::exif_kind().len() == 4,
{
    assert(png::exif_kind()[0] != png::text_kind()[0]);
    assert(png::exif_kind()[0] != png::end_kind()[0]);
}

/// A creation time that is written alone changes no date in the EXIF data.
pub proof fn creation_time_leaves_exif_dates(bytes: Seq<u8>, value: Seq<char>, f: Field)
    requires
        png::dates_written(bytes, Some(value), None) is Ok,
    ensures
        png::png_exif_date(png::dates_written(bytes, Some(value), None)->Ok_0, f)
            == png::png_exif_date(bytes, f),
{
    lemma_creation_alone(bytes, value);
    lemma_kinds_differ();
    let stored = (png::entered_creation(
        value,
        "PNG Creation Time normalization failed."@,
    )->Ok_0).0;
    creation_time_leaves_other_chunks(bytes, stored, png::exif_kind());
    lemma_same_exif_dates(png::creation_replaced(bytes, stored)->Ok_0, bytes, f);
}

/// The EXIF data that a date is put into, with the date.
pub open spec fn exif_data_dated(bytes: Seq<u8>, date: Result<Seq<char>, Seq<char>>) -> Result<
    Seq<u8>,
    Seq<char>,
> {
    match png::png_chunk(bytes, png::exif_kind()) {
        Some(data) => exif_edit::with_date(data, date),
        None => exif_edit::with_date(exif_edit::empty_tiff(), date),
    }
}

proof fn lemma_exif_alone(bytes: Seq<u8>, value: Seq<char>)
    requires
        png::dates_written(bytes, None, Some(value)) is Ok,
    ensures
        png::entered_creation(value, "PNG EXIF DateTimeOriginal normalization failed."@) is Ok,
        ({
            let shown = (png::entered_creation(
                value,
                "PNG EXIF DateTimeOriginal normalization failed."@,
            )->Ok_0).1;
            let data = exif_data_dated(
                bytes,
                datetime::exif_date_of(datetime::known_datetime(shown)),
            );
            &&& data is Ok
            &&& png::dates_written(bytes, None, Some(value)) == png::chunk_replaced(
                bytes,
                png::exif_kind(),
                data->Ok_0,
            )
        }),
{
}

proof fn lemma_same_creation_date(a: Seq<u8>, b: Seq<u8>)
    requires
        png::png_text(a, png::creation_keyword()) == png::png_text(b, png::creation_keyword()),
    ensures
        png::png_creation_date(a) == png::png_creation_date(b),
{
}

/// A date that is written to the EXIF data alone leaves the creation time.
pub proof fn exif_date_leaves_creation_time(bytes: Seq<u8>, value: Seq<char>)
    requires
        png::dates_written(bytes, None, Some(value)) is Ok,
    ensures
        png::png_creation_date(png::dates_written(bytes, None, Some(value))->Ok_0)
            == png::png_creation_date(bytes),
{
    lemma_exif_alone(bytes, value);
    lemma_kinds_differ();
    let shown = (png::entered_creation(
        value,
        "PNG EXIF DateTimeOriginal normalization failed."@,
    )->Ok_0).1;
    let data = exif_data_dated(
        bytes,
        datetime::exif_date_of(datetime::known_datetime(shown)),
    )->Ok_0;
    written_chunk_leaves_texts(bytes, png::exif_kind(), data, png::creation_keyword());
    lemma_same_creation_date(
        png::chunk_replaced(bytes, png::exif_kind(), data)->Ok_0,
        bytes,
    );
}

/// A creation time that is written first, and a date in the EXIF data that is
/// written afterwards, are both read from the file; the second is its media date.
pub proof fn dates_written_one_after_the_other_are_read(
    bytes: Seq<u8>,
    creation: Seq<char>,
    exif: Seq<char>,
)
    requires
        png::dates_written(bytes, Some(creation), None) is Ok,
        png::dates_written(
            png::dates_written(bytes, Some(creation), None)->Ok_0,
            None,
            Some(exif),
        ) is Ok,
    ensures
        ({
            let first = png::dates_written(bytes, Some(creation), None)->Ok_0;
            let out = png::dates_written(first, None, Some(exif))->Ok_0;
            let a = png::entered_creation(creation, "PNG Creation Time normalization failed."@);
            let b = png::entered_creation(
                exif,
                "PNG EXIF DateTimeOriginal normalization failed."@,
            );
            &&& a matches Ok((_, shown)) && png::png_creation_date(out) == shown
            &&& b matches Ok((_, shown)) && png::png_exif_date(out, Field::DateTimeOriginal)
                == shown && png::effective_date(
                png::png_exif_date(out, Field::DateTimeOriginal),
                png::png_creation_date(out),
                png::png_exif_date(out, Field::DateTimeDigitized),
                png::png_exif_date(out, Field::ImageDateTime),
            ) == shown
        }),
{
    let first = png::dates_written(bytes, Some(creation), None)->Ok_0;
    written_dates_are_read(bytes, Some(creation), None);
    written_dates_are_read(first, None, Some(exif));
    exif_date_leaves_creation_time(first, exif);
    let stored = (png::entered_creation(
        exif,
        "PNG EXIF DateTimeOriginal normalization failed."@,
    )->Ok_0).0;
    datetime::lemma_date_texts(png::creation_read(stored)->0);
}

/// A date in the EXIF data that is written first, and a creation time that is
/// written afterwards, are both read from the file; the first is its media date.
pub proof fn dates_written_the_other_way_round_are_read(
    bytes: Seq<u8>,
    creation: Seq<char>,
    exif: Seq<char>,
)
    requires
        png::dates_written(bytes, None, Some(exif)) is Ok,
        png::dates_written(
            png::dates_written(bytes, None, Some(exif))->Ok_0,
            Some(creation),
            None,
        ) is Ok,
    ensures
        ({
            let first = png::dates_written(bytes, None, Some(exif))->Ok_0;
            let out = png::dates_written(first, Some(creation), None)->Ok_0;
            let a = png::entered_creation(creation, "PNG Creation Time normalization failed."@);
            let b = png::entered_creation(
                exif,
                "PNG EXIF DateTimeOriginal normalization failed."@,
            );
            &&& a matches Ok((_, shown)) && png::png_creation_date(out) == shown
            &&& b matches Ok((_, shown)) && png::png_exif_date(out, Field::DateTimeOriginal)
                == shown && png::effective_date(
                png::png_exif_date(out, Field::DateTimeOriginal),
                png::png_creation_date(out),
                png::png_exif_date(out, Field::DateTimeDigitized),
                png::png_exif_date(out, Field::ImageDateTime),
            ) == shown
        }),
{
    let first = png::dates_written(bytes, None, Some(exif))->Ok_0;
    written_dates_are_read(bytes, None, Some(exif));
    written_dates_are_read(first, Some(creation), None);
    creation_time_leaves_exif_dates(first, creation, Field::DateTimeOriginal);
    let stored = (png::entered_creation(
        exif,
        "PNG EXIF DateTimeOriginal normalization failed."@,
    )->Ok_0).0;
    datetime::lemma_date_texts(png::creation_read(stored)->0);
}

// Files that take dates.

/// A complete file has a place for a creation time.
proof fn lemma_creation_fits(
    bytes: Seq<u8>,
    chunk: Result<Seq<u8>, Seq<char>>,
    at: int,
    inserted: bool,
    header: bool,
)
    requires
        png::complete_from(bytes, at, header),
        chunk is Ok,
    ensures
        png::creation_replaced_from(bytes, chunk, at, inserted, header) is Ok,
    decreases bytes.len() - at,
{
    lemma_not_end_kind();
    let end = png::chunk_end(bytes, at);
    let now = header || png::kind_at(bytes, at) == png::header_kind();
    if png::kind_at(bytes, at) != png::end_kind() {
        lemma_creation_fits(bytes, chunk, end, inserted, now);
        lemma_creation_fits(bytes, chunk, end, true, now);
    }
}

/// A complete file has a place for a chunk.
proof fn lemma_chunk_fits(
    bytes: Seq<u8>,
    kind: Seq<u8>,
    chunk: Result<Seq<u8>, Seq<char>>,
    at: int,
    inserted: bool,
    header: bool,
)
    requires
        png::complete_from(bytes, at, header),
        kind != png::end_kind(),
        chunk is Ok,
    ensures
        png::chunk_replaced_from(bytes, kind, chunk, at, inserted, header) is Ok,
    decreases bytes.len() - at,
{
    let end = png::chunk_end(bytes, at);
    let now = header || png::kind_at(bytes, at) == png::header_kind();
    if png::kind_at(bytes, at) != png::end_kind() {
        lemma_chunk_fits(bytes, kind, chunk, end, inserted, now);
        lemma_chunk_fits(bytes, kind, chunk, end, true, now);
    }
}

proof fn lemma_text_kind()
    ensures
        png::text_kind() != png::end_kind(),
        png::text_kind() != png::header_kind(),
        png::text_kind() != png::image_kind(),
        png::text_kind().len() == 4,
{
    assert(png::text_kind()[0] == 0x74);
    assert(png::end_kind()[0] == 0x49 && png::header_kind()[0] == 0x49 && png::image_kind()[0]
        == 0x49);
}

/// A copied chunk before complete chunks.
proof fn lemma_own_complete(
    front: Seq<u8>,
    own: Seq<u8>,
    next: Seq<u8>,
    bytes: Seq<u8>,
    at: int,
    header: bool,
)
    requires
        png::whole_chunk(bytes, at),
        own == bytes.subrange(at, png::chunk_end(bytes, at)),
    ensures
        png::complete_from(front + own + next, front.len() as int, header) == ({
            let now = header || png::kind_at(bytes, at) == png::header_kind();
            if png::kind_at(bytes, at) == png::end_kind() {
                now
            } else {
                (png::kind_at(bytes, at) == png::image_kind() ==> now) && png::complete_from(
                    front + own + next,
                    (front + own).len() as int,
                    now,
                )
            }
        }),
{
    let all = front + own + next;
    let p = front.len() as int;
    assert(all.subrange(p, p + (png::chunk_end(bytes, at) - at)) =~= own);
    lemma_same_chunk(all, p, bytes, at);
}

/// A text before complete chunks.
proof fn lemma_text_complete(front: Seq<u8>, data: Seq<u8>, next: Seq<u8>, header: bool)
    requires
        data.len() <= u32::MAX,
    ensures
        ({
            let c = png::new_chunk(png::text_kind(), data)->Ok_0;
            png::complete_from(front + c + next, front.len() as int, header) == png::complete_from(
                front + c + next,
                (front + c).len() as int,
                header,
            )
        }),
{
    lemma_text_kind();
    made_chunk_reads_back(front, png::text_kind(), data, next);
}

/// A complete file is complete with another creation time.
#[verifier::rlimit(60)]
proof fn lemma_creation_complete(
    bytes: Seq<u8>,
    value: Seq<char>,
    at: int,
    inserted: bool,
    header: bool,
    front: Seq<u8>,
)
    requires
        0 <= at,
        png::complete_from(bytes, at, header),
        png::creation_data(value).len() <= u32::MAX,
    ensures
        ({
            let out = png::creation_replaced_from(
                bytes,
                png::new_chunk(png::text_kind(), png::creation_data(value)),
                at,
                inserted,
                header,
            );
            &&& out is Ok
            &&& png::complete_from(front + out->Ok_0, front.len() as int, header)
        }),
    decreases bytes.len() - at,
{
    let chunk = png::new_chunk(png::text_kind(), png::creation_data(value));
    lemma_creation_fits(bytes, chunk, at, inserted, header);
    lemma_text_kind();
    let out = png::creation_replaced_from(bytes, chunk, at, inserted, header)->Ok_0;
    let end = png::chunk_end(bytes, at);
    let now = header || png::kind_at(bytes, at) == png::header_kind();
    let own = bytes.subrange(at, end);
    let is_end = png::kind_at(bytes, at) == png::end_kind();
    if png::is_creation_chunk(bytes, at) {
        lemma_creation_complete(bytes, value, end, inserted, now, front);
    } else if !inserted && (png::kind_at(bytes, at) == png::image_kind() || is_end) {
        let c = chunk->Ok_0;
        let next = if is_end {
            Seq::<u8>::empty()
        } else {
            lemma_creation_complete(bytes, value, end, true, now, front + c + own);
            png::creation_replaced_from(bytes, chunk, end, true, now)->Ok_0
        };
        assert(front + out =~= front + c + (own + next));
        assert(front + out =~= front + c + own + next);
        lemma_own_complete(front + c, own, next, bytes, at, header);
        lemma_text_complete(front, png::creation_data(value), own + next, header);
    } else {
        let next = if is_end {
            Seq::<u8>::empty()
        } else {
            lemma_creation_complete(bytes, value, end, inserted, now, front + own);
            png::creation_replaced_from(bytes, chunk, end, inserted, now)->Ok_0
        };
        assert(front + out =~= front + own + next);
        lemma_own_complete(front, own, next, bytes, at, header);
    }
}

/// A structure without entries takes a date.
proof fn lemma_empty_takes_date(t: Seq<char>)
    requires
        exif_write::text_bytes(t).len() <= 12_000,
    ensures
        exif_edit::with_date(exif_edit::empty_tiff(), Ok(t)) matches Ok(v) && v.len() <= u32::MAX,
{
    let data = exif_edit::empty_tiff();
    let endian = Endian::Little;
    let mark = binary::u16_bytes(42, endian);
    let first = binary::u32_bytes(8, endian);
    let count = binary::u16_bytes(0, endian);
    let next = binary::u32_bytes(0, endian);
    binary::u16_bytes_read_back(42, endian);
    binary::u32_bytes_read_back(8, endian);
    binary::u16_bytes_read_back(0, endian);
    binary::u32_bytes_read_back(0, endian);
    assert(data =~= seq![0x49u8, 0x49] + mark + first + count + next);
    assert(data.len() == 14);
    assert(data[0] == 0x49 && data[1] == 0x49);
    binary::lemma_u16_at_frame(mark, data, 0, 2, endian);
    binary::lemma_u32_at_frame(first, data, 0, 4, endian);
    binary::lemma_u16_at_frame(count, data, 0, 8, endian);
    binary::lemma_u32_at_frame(next, data, 0, 10, endian);
    assert(tiff::raw_ifd(data, 8, endian)->Ok_0 =~= Seq::<Seq<u8>>::empty());
    tiff_laws::dated_length(data, exif_write::text_bytes(t));
}

/// The moment that was entered in the form in which dates are shown.
pub open spec fn entered_moment(value: Seq<char>) -> Moment {
    choose|m: Moment|
        datetime::plain(m) && text::trim(value) == #[trigger] datetime::display_text(m)
}

/// A complete file takes a creation time with a four-digit year, and is complete
/// with it.
pub proof fn creation_time_is_taken(bytes: Seq<u8>, m: Moment)
    requires
        png::is_complete(bytes),
        datetime::plain(m),
    ensures
        png::creation_replaced(bytes, datetime::exif_text(m)) matches Ok(out) && png::is_complete(
            out,
        ),
{
    let value = datetime::exif_text(m);
    datetime::lemma_exif_date_bytes(m);
    lemma_text_kind();
    lemma_creation_complete(bytes, value, 8, false, false, png::png_signature());
    let chunk = png::new_chunk(png::text_kind(), png::creation_data(value));
    lemma_signature(png::creation_replaced_from(bytes, chunk, 8, false, false)->Ok_0);
    creation_time_leaves_other_chunks(bytes, value, png::image_kind());
}

/// The EXIF data of a complete file take a date with a four-digit year, which is
/// then read from it; the creation time stays.
proof fn lemma_exif_taken(bytes: Seq<u8>, m: Moment)
    requires
        png::is_complete(bytes),
        datetime::plain(m),
        datetime::known_datetime(datetime::exif_text(m)) == Some(m),
        png::exif_takes(bytes, datetime::exif_text(m)),
    ensures
        png::exif_date_replaced(bytes, Ok(datetime::exif_text(m))) matches Ok(out)
            && png::png_exif_date(out, Field::DateTimeOriginal) == datetime::display_text(m)
            && png::png_creation_date(out) == png::png_creation_date(bytes),
{
    let t = datetime::exif_text(m);
    lemma_kinds_differ();
    datetime::lemma_exif_date_bytes(m);
    datetime::lemma_date_texts(m);
    datetime::lemma_date_like(t);
    lemma_empty_takes_date(t);
    let old_data = match png::png_chunk(bytes, png::exif_kind()) {
        Some(data) => data,
        None => exif_edit::empty_tiff(),
    };
    let data = exif_edit::with_date(old_data, Ok(t))->Ok_0;
    lemma_chunk_fits(
        bytes,
        png::exif_kind(),
        png::new_chunk(png::exif_kind(), data),
        8,
        false,
        false,
    );
    written_chunk_is_found(bytes, png::exif_kind(), data);
    written_date_is_read(old_data, t);
    reveal(exif::date_in);
    let out = png::chunk_replaced(bytes, png::exif_kind(), data)->Ok_0;
    assert(png::png_exif_date(out, Field::DateTimeOriginal) == datetime::display_text(m));
    written_chunk_leaves_texts(bytes, png::exif_kind(), data, png::creation_keyword());
    lemma_same_creation_date(out, bytes);
}

/// A file with a header, image data and an end takes a creation time and a date in
/// its EXIF data, each with a four-digit year, where the dates read back and EXIF
/// data that are there take a date.
pub proof fn complete_files_take_dates(
    bytes: Seq<u8>,
    creation: Option<Moment>,
    exif: Option<Moment>,
)
    requires
        png::is_complete(bytes),
        creation matches Some(m) ==> datetime::plain(m) && png::shown_moment(
            png::creation_read(datetime::exif_text(m)),
        ) == Some(datetime::display_text(m)),
        exif matches Some(m) ==> datetime::plain(m) && datetime::reads_back(
            datetime::display_text(m),
        ) && png::exif_takes(bytes, datetime::exif_text(m)),
    ensures
        png::dates_put(
            bytes,
            match creation {
                Some(m) => Some((datetime::exif_text(m), datetime::display_text(m))),
                None => None,
            },
            match exif {
                Some(m) => Some(datetime::display_text(m)),
                None => None,
            },
        ) is Ok,
{
    lemma_kinds_differ();
    let first = match creation {
        Some(m) => {
            creation_time_is_taken(bytes, m);
            written_creation_time_is_found(bytes, datetime::exif_text(m));
            creation_time_leaves_other_chunks(bytes, datetime::exif_text(m), png::exif_kind());
            png::creation_replaced(bytes, datetime::exif_text(m))->Ok_0
        },
        None => bytes,
    };
    match exif {
        Some(m) => {
            assert(png::exif_takes(first, datetime::exif_text(m)));
            lemma_exif_taken(first, m);
        },
        None => {},
    }
}

} // verus!
