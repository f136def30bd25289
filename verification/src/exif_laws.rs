//! What holds of EXIF data once they were written, built or removed.
use crate::binary::{self, Endian};
use crate::datetime;
use crate::exif;
use crate::exif_build;
use crate::exif_edit;
use crate::exif_write::{self, StoreModel, ValueModel};
use crate::jpeg;
use crate::text;
use crate::tiff;
use vstd::prelude::*;

verus! {

// Texts with a zero behind them.

proof fn lemma_scalar_has_no_zero(c: u32)
    requires
        c != 0,
        vstd::utf8::is_scalar(c),
    ensures
        forall|i: int|
            0 <= i < vstd::utf8::encode_scalar(c).len() ==> #[trigger] vstd::utf8::encode_scalar(
                c,
            )[i] != 0,
{
    assert(c <= 0x7f && c != 0 ==> ((c & 0x7F) as u8) != 0) by (bit_vector);
    assert(0xC0 | (((c >> 6) & 0x1F) as u8) != 0) by (bit_vector);
    assert(0xE0 | (((c >> 12) & 0x0F) as u8) != 0) by (bit_vector);
    assert(0xF0 | (((c >> 18) & 0x7) as u8) != 0) by (bit_vector);
    assert(0x80 | ((c & 0x3F) as u8) != 0) by (bit_vector);
    assert(0x80 | (((c >> 6) & 0x3F) as u8) != 0) by (bit_vector);
    assert(0x80 | (((c >> 12) & 0x3F) as u8) != 0) by (bit_vector);
}

/// No character of the text is the zero character.
pub open spec fn without_zero(s: Seq<char>) -> bool {
    forall|i: int| 0 <= i < s.len() ==> #[trigger] s[i] != '\0'
}

pub proof fn lemma_text_has_no_zero(s: Seq<char>)
    requires
        without_zero(s),
    ensures
        forall|i: int|
            0 <= i < vstd::utf8::encode_utf8(s).len() ==> #[trigger] vstd::utf8::encode_utf8(s)[i]
                != 0,
    decreases s.len(),
{
    if s.len() > 0 {
        assert(s[0] != '\0');
        let c: char = s[0];
        vstd::utf8::char_is_scalar(c);
        if c as u32 == 0 {
            vstd::utf8::char_u32_cast(c, 0);
        }
        lemma_scalar_has_no_zero(c as u32);
        assert forall|i: int| 0 <= i < s.drop_first().len() implies #[trigger] s.drop_first()[i]
            != '\0' by {
            assert(s[i + 1] != '\0');
        }
        lemma_text_has_no_zero(s.drop_first());
        let a = vstd::utf8::encode_scalar(c as u32);
        let b = vstd::utf8::encode_utf8(s.drop_first());
        assert(vstd::utf8::encode_utf8(s) == a + b);
    }
}

pub proof fn lemma_zero_from(bytes: Seq<u8>, i: int, n: int)
    requires
        0 <= i <= n < bytes.len(),
        forall|k: int| i <= k < n ==> bytes[k] != 0,
        bytes[n] == 0,
    ensures
        exif::zero_from(bytes, i) == n,
    decreases n - i,
{
    if i < n {
        lemma_zero_from(bytes, i + 1, n);
    }
}

/// A text that was stored with a zero behind it is read as that text, without
/// the white space around it.
pub proof fn stored_text_reads_back(value: Seq<char>, rest: int)
    requires
        without_zero(value),
        0 <= rest,
    ensures
        exif::terminated_text(exif_write::text_bytes(value) + exif_build::zeros(rest))
            == text::trim(value),
{
    let e = vstd::utf8::encode_utf8(value);
    let bytes = exif_write::text_bytes(value) + exif_build::zeros(rest);
    lemma_text_has_no_zero(value);
    assert forall|k: int| 0 <= k < e.len() implies bytes[k] != 0 by {
        assert(bytes[k] == e[k]);
    }
    lemma_zero_from(bytes, 0, e.len() as int);
    assert(bytes.take(e.len() as int) =~= e);
    vstd::utf8::encode_utf8_valid_utf8(value);
    vstd::utf8::encode_utf8_decode_utf8(value);
}

// Values written in place.

/// A byte lies in the place of one of the stores.
pub open spec fn in_some_place(stores: Seq<StoreModel>, base: int, i: int) -> bool {
    exists|k: int|
        0 <= k < stores.len() && base + (#[trigger] stores[k]).start <= i < base + stores[k].start
            + stores[k].len
}

pub open spec fn places_within(stores: Seq<StoreModel>, base: int, len: int) -> bool {
    forall|k: int|
        0 <= k < stores.len() ==> 0 <= base + (#[trigger] stores[k]).start && 0 <= stores[k].len
            && base + stores[k].start + stores[k].len <= len
}

/// Stores change nothing but the bytes in their places, and the length stays.
pub proof fn stores_change_their_places_only(bytes: Seq<u8>, base: int, stores: Seq<StoreModel>)
    requires
        exif_write::all_fit(stores),
        places_within(stores, base, bytes.len() as int),
    ensures
        exif_write::stored(bytes, base, stores).len() == bytes.len(),
        forall|i: int|
            0 <= i < bytes.len() && !in_some_place(stores, base, i)
                ==> #[trigger] exif_write::stored(bytes, base, stores)[i] == bytes[i],
    decreases stores.len(),
{
    if stores.len() > 0 {
        let before = stores.drop_last();
        assert forall|k: int| 0 <= k < before.len() implies (#[trigger] before[k]).bytes.len()
            <= before[k].len by {
            assert(before[k] == stores[k]);
        }
        assert forall|k: int| 0 <= k < before.len() implies 0 <= base + (
        #[trigger] before[k]).start && 0 <= before[k].len && base + before[k].start + before[k].len
            <= bytes.len() by {
            assert(before[k] == stores[k]);
        }
        stores_change_their_places_only(bytes, base, before);
        let s = stores.last();
        assert(s == stores[stores.len() - 1]);
        assert forall|i: int|
            0 <= i < bytes.len() && !in_some_place(stores, base, i) implies
            #[trigger] exif_write::stored(bytes, base, stores)[i] == bytes[i] by {
            if in_some_place(before, base, i) {
                let k = choose|k: int|
                    0 <= k < before.len() && base + (#[trigger] before[k]).start <= i < base
                        + before[k].start + before[k].len;
                assert(stores[k] == before[k]);
                assert(in_some_place(stores, base, i));
            }
            assert(!(base + s.start <= i < base + s.start + s.len)) by {
                if base + s.start <= i < base + s.start + s.len {
                    assert(stores[stores.len() - 1] == s);
                    assert(in_some_place(stores, base, i));
                }
            }
        }
    }
}

/// No two stores share a byte.
pub open spec fn stores_apart(stores: Seq<StoreModel>) -> bool {
    forall|i: int, j: int|
        0 <= i < j < stores.len() ==> (#[trigger] stores[i]).start + stores[i].len <= (
        #[trigger] stores[j]).start || stores[j].start + stores[j].len <= stores[i].start
}

/// Where stores do not overlap, each of them leaves its bytes in its place, with
/// zeros behind them.
proof fn lemma_stored_value(bytes: Seq<u8>, base: int, stores: Seq<StoreModel>, k: int)
    requires
        exif_write::all_fit(stores),
        places_within(stores, base, bytes.len() as int),
        stores_apart(stores),
        0 <= k < stores.len(),
    ensures
        exif_write::stored(bytes, base, stores).subrange(
            base + stores[k].start,
            base + stores[k].start + stores[k].len,
        ) == stores[k].bytes + exif_build::zeros(stores[k].len - stores[k].bytes.len()),
    decreases stores.len(),
{
    let before = stores.drop_last();
    let last = stores.last();
    assert(last == stores[stores.len() - 1]);
    assert forall|i: int| 0 <= i < before.len() implies #[trigger] before[i] == stores[i] by {}
    assert(exif_write::all_fit(before));
    assert(places_within(before, base, bytes.len() as int)) by {
        assert forall|i: int| 0 <= i < before.len() implies 0 <= base + (
        #[trigger] before[i]).start && 0 <= before[i].len && base + before[i].start + before[i].len
            <= bytes.len() by {
            assert(before[i] == stores[i]);
        }
    }
    assert(stores_apart(before)) by {
        assert forall|i: int, j: int| 0 <= i < j < before.len() implies (#[trigger] before[i]).start
            + before[i].len <= (#[trigger] before[j]).start || before[j].start + before[j].len
            <= before[i].start by {
            assert(before[i] == stores[i] && before[j] == stores[j]);
        }
    }
    stores_change_their_places_only(bytes, base, before);
    let first = exif_write::stored(bytes, base, before);
    let after = exif_write::stored(bytes, base, stores);
    let from = base + stores[k].start;
    let to = from + stores[k].len;
    if k == stores.len() - 1 {
        assert(after.subrange(from, to) =~= last.bytes + exif_build::zeros(
            last.len - last.bytes.len(),
        ));
    } else {
        lemma_stored_value(bytes, base, before, k);
        assert(before[k] == stores[k]);
        assert(stores[k].start + stores[k].len <= last.start || last.start + last.len
            <= stores[k].start);
        assert(after.subrange(from, to) =~= first.subrange(from, to));
    }
}

/// No store touches the bytes from one place to another.
pub open spec fn clear_of(stores: Seq<StoreModel>, from: int, to: int) -> bool {
    forall|k: int|
        0 <= k < stores.len() ==> (#[trigger] stores[k]).start + stores[k].len <= from || to
            <= stores[k].start
}

/// The two texts of bytes are of one length and agree outside the stores.
pub open spec fn agree_but(a: Seq<u8>, b: Seq<u8>, stores: Seq<StoreModel>) -> bool {
    &&& a.len() == b.len()
    &&& forall|i: int| 0 <= i < a.len() && !in_some_place(stores, 0, i) ==> #[trigger] b[i] == a[i]
}

proof fn lemma_clear(a: Seq<u8>, b: Seq<u8>, stores: Seq<StoreModel>, from: int, to: int)
    requires
        agree_but(a, b, stores),
        clear_of(stores, from, to),
        0 <= from,
        to <= a.len(),
    ensures
        forall|i: int| from <= i < to ==> #[trigger] b[i] == a[i],
{
    assert forall|i: int| from <= i < to implies #[trigger] b[i] == a[i] by {
        if in_some_place(stores, 0, i) {
            let k = choose|k: int|
                0 <= k < stores.len() && 0 + (#[trigger] stores[k]).start <= i < 0 + stores[k].start
                    + stores[k].len;
            assert(stores[k].start + stores[k].len <= from || to <= stores[k].start);
        }
    }
}

/// No store touches the directory at an offset, but for the values that stand in
/// its entries.
pub open spec fn spares(data: Seq<u8>, dir: int, endian: Endian, stores: Seq<StoreModel>) -> bool {
    tiff::ifd_len(data, dir, endian) matches Some(n) && {
        &&& clear_of(stores, dir, dir + 2)
        &&& forall|i: int|
            0 <= i < n ==> clear_of(
                stores,
                #[trigger] tiff::entry_pos(dir, i),
                tiff::entry_pos(dir, i) + 8,
            )
    }
}

/// No store touches the value of an entry, wherever it stands.
pub open spec fn spares_value(
    data: Seq<u8>,
    pos: int,
    endian: Endian,
    stores: Seq<StoreModel>,
) -> bool {
    &&& clear_of(stores, pos + 8, pos + 12)
    &&& tiff::value_range(data, pos, endian) matches Some((from, to)) ==> clear_of(stores, from, to)
}

proof fn lemma_spared_directory(
    a: Seq<u8>,
    b: Seq<u8>,
    dir: int,
    endian: Endian,
    stores: Seq<StoreModel>,
)
    requires
        agree_but(a, b, stores),
        0 <= dir,
        spares(a, dir, endian, stores),
    ensures
        tiff::ifd_len(b, dir, endian) == tiff::ifd_len(a, dir, endian),
        forall|i: int|
            0 <= i < tiff::ifd_len(a, dir, endian)->0 ==> {
                let p = #[trigger] tiff::entry_pos(dir, i);
                &&& tiff::tag_at(b, p, endian) == tiff::tag_at(a, p, endian)
                &&& tiff::type_at(b, p, endian) == tiff::type_at(a, p, endian)
                &&& tiff::count_at(b, p, endian) == tiff::count_at(a, p, endian)
            },
{
    let n = tiff::ifd_len(a, dir, endian)->0;
    lemma_clear(a, b, stores, dir, dir + 2);
    assert(b[dir] == a[dir] && b[dir + 1] == a[dir + 1]);
    assert forall|i: int| 0 <= i < n implies {
        let p = #[trigger] tiff::entry_pos(dir, i);
        &&& tiff::tag_at(b, p, endian) == tiff::tag_at(a, p, endian)
        &&& tiff::type_at(b, p, endian) == tiff::type_at(a, p, endian)
        &&& tiff::count_at(b, p, endian) == tiff::count_at(a, p, endian)
    } by {
        let p = tiff::entry_pos(dir, i);
        lemma_clear(a, b, stores, p, p + 8);
        assert(b[p] == a[p] && b[p + 1] == a[p + 1] && b[p + 2] == a[p + 2] && b[p + 3] == a[p
            + 3]);
        assert(b[p + 4] == a[p + 4] && b[p + 5] == a[p + 5] && b[p + 6] == a[p + 6] && b[p + 7]
            == a[p + 7]);
    }
}

proof fn lemma_same_last(a: Seq<u8>, b: Seq<u8>, dir: int, endian: Endian, tag: u16, n: int)
    requires
        forall|i: int|
            0 <= i < n ==> tiff::tag_at(b, #[trigger] tiff::entry_pos(dir, i), endian)
                == tiff::tag_at(a, tiff::entry_pos(dir, i), endian),
    ensures
        tiff::last_among(b, dir, endian, tag, n) == tiff::last_among(a, dir, endian, tag, n),
    decreases n,
{
    if n > 0 {
        assert(tiff::tag_at(b, tiff::entry_pos(dir, n - 1), endian) == tiff::tag_at(
            a,
            tiff::entry_pos(dir, n - 1),
            endian,
        ));
        lemma_same_last(a, b, dir, endian, tag, n - 1);
    }
}

proof fn lemma_last_pos(a: Seq<u8>, dir: int, endian: Endian, tag: u16, n: int)
    ensures
        tiff::last_among(a, dir, endian, tag, n) matches Some(p) ==> (exists|i: int|
            0 <= i < n && p == #[trigger] tiff::entry_pos(dir, i)) && tiff::tag_at(a, p, endian)
            == tag,
    decreases n,
{
    if n > 0 {
        lemma_last_pos(a, dir, endian, tag, n - 1);
        assert(tiff::entry_pos(dir, n - 1) == tiff::entry_pos(dir, n - 1));
        match tiff::last_among(a, dir, endian, tag, n) {
            Some(p) => {
                if tiff::tag_at(a, tiff::entry_pos(dir, n - 1), endian) != tag {
                    let i = choose|i: int| 0 <= i < n - 1 && p == #[trigger] tiff::entry_pos(dir, i);
                    assert(0 <= i < n && p == tiff::entry_pos(dir, i));
                }
            },
            None => {},
        }
    }
}

proof fn lemma_same_segments(a: Seq<u8>, b: Seq<u8>, pos: int, start: int)
    requires
        0 <= pos,
        a.len() == b.len(),
        jpeg::exif_segment_from(a, pos) matches Some((s, _)) && s + 10 == start,
        start <= a.len(),
        forall|i: int| 0 <= i < start ==> #[trigger] b[i] == a[i],
    ensures
        jpeg::exif_segment_from(b, pos) == jpeg::exif_segment_from(a, pos),
        pos <= start - 10,
    decreases a.len() - pos,
{
    match jpeg::segment_end(a, pos) {
        None => {},
        Some(end) => {
            if jpeg::is_exif_segment(a, pos, end) {
                assert(b.subrange(pos + 4, pos + 10) =~= a.subrange(pos + 4, pos + 10));
                assert(jpeg::segment_end(b, pos) == Some(end));
            } else {
                lemma_same_segments(a, b, end, start);
                assert(end <= start - 10);
                assert(jpeg::segment_end(b, pos) == Some(end));
                assert(jpeg::is_exif_segment(b, pos, end) == jpeg::is_exif_segment(a, pos, end))
                    by {
                    if pos + 10 <= end {
                        assert(b.subrange(pos + 4, pos + 10) =~= a.subrange(pos + 4, pos + 10));
                    }
                }
            }
        },
    }
}

/// Where the TIFF structure of a file stands depends on the bytes before it only.
proof fn lemma_same_start(a: Seq<u8>, b: Seq<u8>, start: int)
    requires
        jpeg::exif_tiff_start(a) == Some(start),
        start <= a.len(),
        a.len() == b.len(),
        forall|i: int| 0 <= i < start ==> #[trigger] b[i] == a[i],
    ensures
        jpeg::exif_tiff_start(b) == Some(start),
{
    lemma_same_segments(a, b, 2, start);
    assert(b[0] == a[0] && b[1] == a[1]);
}

pub proof fn lemma_start_bounds(a: Seq<u8>, pos: int)
    requires
        0 <= pos,
    ensures
        jpeg::exif_segment_from(a, pos) matches Some((s, e)) ==> pos <= s && s + 10 <= e <= a.len(),
    decreases a.len() - pos,
{
    match jpeg::segment_end(a, pos) {
        None => {},
        Some(end) => {
            if !jpeg::is_exif_segment(a, pos, end) {
                lemma_start_bounds(a, end);
            }
        },
    }
}

proof fn lemma_stores_within(
    data: Seq<u8>,
    dir: int,
    endian: Endian,
    tags: Seq<u16>,
    value: ValueModel,
    n: int,
)
    requires
        0 <= dir,
        dir + 2 + 12 * n <= data.len(),
    ensures
        places_within(
            exif_write::stores_among(data, dir, endian, tags, value, n),
            0,
            data.len() as int,
        ),
    decreases n,
{
    if n > 0 {
        lemma_stores_within(data, dir, endian, tags, value, n - 1);
        let before = exif_write::stores_among(data, dir, endian, tags, value, n - 1);
        let all = exif_write::stores_among(data, dir, endian, tags, value, n);
        assert forall|k: int| 0 <= k < all.len() implies 0 <= 0 + (#[trigger] all[k]).start && 0
            <= all[k].len && 0 + all[k].start + all[k].len <= data.len() by {
            if k < before.len() {
                assert(all[k] == before[k]);
            }
        }
    }
}

/// All that is stored in a file lies within its TIFF structure.
proof fn lemma_file_stores_within(bytes: Seq<u8>, tags: Seq<u16>, value: ValueModel)
    requires
        exif_write::located_tiff(bytes) is Ok,
    ensures
        ({
            let start = (exif_write::located_tiff(bytes)->Ok_0).0;
            places_within(
                exif_write::file_stores(bytes, tags, value),
                0,
                bytes.skip(start).len() as int,
            )
        }),
{
    let (start, endian, ifd0) = exif_write::located_tiff(bytes)->Ok_0;
    let data = bytes.skip(start);
    let a = exif_write::stores_in(data, ifd0 as int, endian, tags, value);
    match tiff::ifd_len(data, ifd0 as int, endian) {
        Some(n) => lemma_stores_within(data, ifd0 as int, endian, tags, value, n as int),
        None => {},
    }
    let b = match tiff::pointed_offset(data, ifd0 as int, endian, tiff::EXIF_POINTER) {
        Some(at) => exif_write::stores_in(data, at as int, endian, tags, value),
        None => Seq::empty(),
    };
    match tiff::pointed_offset(data, ifd0 as int, endian, tiff::EXIF_POINTER) {
        Some(at) => match tiff::ifd_len(data, at as int, endian) {
            Some(n) => lemma_stores_within(data, at as int, endian, tags, value, n as int),
            None => {},
        },
        None => {},
    }
    let all = a + b;
    assert forall|k: int| 0 <= k < all.len() implies 0 <= 0 + (#[trigger] all[k]).start && 0
        <= all[k].len && 0 + all[k].start + all[k].len <= data.len() by {
        if k < a.len() {
            assert(all[k] == a[k]);
        } else {
            assert(all[k] == b[k - a.len()]);
        }
    }
}

/// The stores fit, do not overlap, and leave alone the header, two directories and
/// the pointer to the second one.
pub open spec fn orderly(
    data: Seq<u8>,
    endian: Endian,
    ifd0: u32,
    dir: u32,
    stores: Seq<StoreModel>,
) -> bool {
    &&& exif_write::all_fit(stores)
    &&& stores_apart(stores)
    &&& clear_of(stores, 0, 8)
    &&& spares(data, ifd0 as int, endian, stores)
    &&& spares(data, dir as int, endian, stores)
    &&& tiff::last_entry(data, ifd0 as int, endian, tiff::EXIF_POINTER) matches Some(p)
        ==> spares_value(data, p, endian, stores)
}

/// An entry is the last one with its tag in one of the two directories that
/// values are written to, a value is stored for it, and all that is stored leaves
/// the structure around the values alone.
pub open spec fn writable(
    bytes: Seq<u8>,
    tags: Seq<u16>,
    value: ValueModel,
    dir: u32,
    tag: u16,
    pos: int,
) -> bool {
    exif_write::located_tiff(bytes) matches Ok((start, endian, ifd0)) && {
        let data = bytes.skip(start);
        let stores = exif_write::file_stores(bytes, tags, value);
        &&& binary::u16_at(data, 2, endian) == Some(42u16)
        &&& dir == ifd0 || Some(dir) == exif::exif_dir(data, endian, ifd0)
        &&& tiff::last_entry(data, dir as int, endian, tag) == Some(pos)
        &&& orderly(data, endian, ifd0, dir, stores)
        &&& exif_write::store_of(data, pos, endian, tags, value) matches Some(s) && {
            &&& stores.contains(s)
            &&& tiff::value_range(data, pos, endian) == Some((s.start, s.start + s.len))
            &&& s.len <= 4 || clear_of(stores, pos + 8, pos + 12)
        }
    }
}

/// What is stored for an entry.
pub open spec fn store_for(bytes: Seq<u8>, tags: Seq<u16>, value: ValueModel, pos: int) -> StoreModel {
    let (start, endian, ifd0) = exif_write::located_tiff(bytes)->Ok_0;
    exif_write::store_of(bytes.skip(start), pos, endian, tags, value)->0
}

/// A value that was written over entries is the value that each of them has
/// afterwards, and each is found in its directory as before.
pub proof fn written_value_reads_back(
    bytes: Seq<u8>,
    tags: Seq<u16>,
    value: ValueModel,
    dir: u32,
    tag: u16,
    pos: int,
)
    requires
        writable(bytes, tags, value, dir, tag, pos),
    ensures
        ({
            let (start, endian, ifd0) = exif_write::located_tiff(bytes)->Ok_0;
            let s = store_for(bytes, tags, value, pos);
            let data = exif_write::tag_written(bytes, tags, value)->Ok_0.skip(start);
            &&& exif_write::tag_written(bytes, tags, value) is Ok
            &&& jpeg::exif_tiff_start(exif_write::tag_written(bytes, tags, value)->Ok_0) == Some(
                start,
            )
            &&& exif::readable_tiff(data) == Some((endian, ifd0))
            &&& exif::exif_dir(data, endian, ifd0) == exif::exif_dir(
                bytes.skip(start),
                endian,
                ifd0,
            )
            &&& tiff::last_entry(data, dir as int, endian, tag) == Some(pos)
            &&& tiff::type_at(data, pos, endian) == tiff::type_at(bytes.skip(start), pos, endian)
            &&& s.bytes.len() <= s.len
            &&& tiff::value_bytes(data, pos, endian) == Some(
                s.bytes + exif_build::zeros(s.len - s.bytes.len()),
            )
        }),
{
    let (start, endian, ifd0) = exif_write::located_tiff(bytes)->Ok_0;
    let old_data = bytes.skip(start);
    let stores = exif_write::file_stores(bytes, tags, value);
    let s = store_for(bytes, tags, value, pos);
    let k = choose|k: int| 0 <= k < stores.len() && stores[k] == s;
    assert(2 <= start <= bytes.len()) by {
        lemma_start_bounds(bytes, 2);
    }
    lemma_file_stores_within(bytes, tags, value);
    assert(places_within(stores, start, bytes.len() as int)) by {
        assert forall|i: int| 0 <= i < stores.len() implies 0 <= start + (
        #[trigger] stores[i]).start && 0 <= stores[i].len && start + stores[i].start + stores[i].len
            <= bytes.len() by {
            assert(0 <= 0 + stores[i].start);
        }
    }
    stores_change_their_places_only(bytes, start, stores);
    lemma_stored_value(bytes, start, stores, k);
    let after = exif_write::stored(bytes, start, stores);
    let data = after.skip(start);
    assert forall|i: int| 0 <= i < start implies #[trigger] after[i] == bytes[i] by {
        if in_some_place(stores, start, i) {
            let j = choose|j: int|
                0 <= j < stores.len() && start + (#[trigger] stores[j]).start <= i < start
                    + stores[j].start + stores[j].len;
            assert(0 <= 0 + stores[j].start);
        }
    }
    assert(agree_but(old_data, data, stores)) by {
        assert forall|i: int| 0 <= i < old_data.len() && !in_some_place(stores, 0, i) implies
            #[trigger] data[i] == old_data[i] by {
            if in_some_place(stores, start, start + i) {
                let j = choose|j: int|
                    0 <= j < stores.len() && start + (#[trigger] stores[j]).start <= start + i
                        < start + stores[j].start + stores[j].len;
                assert(0 + stores[j].start <= i < 0 + stores[j].start + stores[j].len);
            }
            assert(after[start + i] == bytes[start + i]);
        }
    }
    lemma_same_start(bytes, after, start);
    lemma_same_header(old_data, data, endian, stores);
    lemma_spared_directory(old_data, data, ifd0 as int, endian, stores);
    lemma_same_exif_dir(old_data, data, ifd0, endian, stores);
    lemma_value_of_spared(old_data, data, dir as int, endian, stores, pos, tag, s);
    assert(data.subrange(s.start, s.start + s.len) =~= after.subrange(
        start + s.start,
        start + s.start + s.len,
    ));
}

proof fn lemma_same_header(a: Seq<u8>, b: Seq<u8>, endian: Endian, stores: Seq<StoreModel>)
    requires
        agree_but(a, b, stores),
        clear_of(stores, 0, 8),
        tiff::tiff_endian(a) == Some(endian),
        binary::u32_at(a, 4, endian) is Some,
    ensures
        tiff::tiff_endian(b) == Some(endian),
        binary::u16_at(b, 2, endian) == binary::u16_at(a, 2, endian),
        binary::u32_at(b, 4, endian) == binary::u32_at(a, 4, endian),
{
    lemma_clear(a, b, stores, 0, 8);
    assert(b[0] == a[0] && b[1] == a[1]);
    binary::lemma_u16_at_frame(a, b, 2, 0, endian);
    binary::lemma_u32_at_frame(a, b, 4, 0, endian);
}

proof fn lemma_value_of_spared(
    a: Seq<u8>,
    b: Seq<u8>,
    dir: int,
    endian: Endian,
    stores: Seq<StoreModel>,
    pos: int,
    tag: u16,
    s: StoreModel,
)
    requires
        agree_but(a, b, stores),
        0 <= dir,
        spares(a, dir, endian, stores),
        tiff::last_entry(a, dir, endian, tag) == Some(pos),
        tiff::value_range(a, pos, endian) == Some((s.start, s.start + s.len)),
        s.len <= 4 || clear_of(stores, pos + 8, pos + 12),
    ensures
        tiff::last_entry(b, dir, endian, tag) == Some(pos),
        tiff::type_at(b, pos, endian) == tiff::type_at(a, pos, endian),
        tiff::value_range(b, pos, endian) == Some((s.start, s.start + s.len)),
{
    reveal(tiff::value_range);
    let n = tiff::ifd_len(a, dir, endian)->0 as int;
    lemma_spared_directory(a, b, dir, endian, stores);
    lemma_same_last(a, b, dir, endian, tag, n);
    lemma_last_pos(a, dir, endian, tag, n);
    let i = choose|i: int| 0 <= i < n && pos == #[trigger] tiff::entry_pos(dir, i);
    assert(tiff::entry_pos(dir, i) == pos);
    if clear_of(stores, pos + 8, pos + 12) {
        lemma_clear(a, b, stores, pos + 8, pos + 12);
        assert(b[pos + 8] == a[pos + 8] && b[pos + 9] == a[pos + 9] && b[pos + 10] == a[pos + 10]
            && b[pos + 11] == a[pos + 11]);
    }
}

proof fn lemma_same_exif_dir(
    a: Seq<u8>,
    b: Seq<u8>,
    ifd0: u32,
    endian: Endian,
    stores: Seq<StoreModel>,
)
    requires
        agree_but(a, b, stores),
        spares(a, ifd0 as int, endian, stores),
        tiff::last_entry(a, ifd0 as int, endian, tiff::EXIF_POINTER) matches Some(p)
            ==> spares_value(a, p, endian, stores),
    ensures
        exif::exif_dir(b, endian, ifd0) == exif::exif_dir(a, endian, ifd0),
{
    reveal(exif::long_in);
    let n = tiff::ifd_len(a, ifd0 as int, endian)->0 as int;
    lemma_spared_directory(a, b, ifd0 as int, endian, stores);
    lemma_same_last(a, b, ifd0 as int, endian, tiff::EXIF_POINTER, n);
    lemma_last_pos(a, ifd0 as int, endian, tiff::EXIF_POINTER, n);
    match tiff::last_entry(a, ifd0 as int, endian, tiff::EXIF_POINTER) {
        Some(p) => {
            let k = choose|k: int| 0 <= k < n && p == #[trigger] tiff::entry_pos(ifd0 as int, k);
            assert(tiff::entry_pos(ifd0 as int, k) == p);
            lemma_clear(a, b, stores, p + 8, p + 12);
            assert(b[p + 8] == a[p + 8] && b[p + 9] == a[p + 9] && b[p + 10] == a[p + 10] && b[p
                + 11] == a[p + 11]);
            assert(tiff::value_range(b, p, endian) == tiff::value_range(a, p, endian)) by {
                reveal(tiff::value_range);
            }
            match tiff::value_range(a, p, endian) {
                Some((x, y)) => {
                    assert(0 <= x <= y <= a.len()) by {
                        reveal(tiff::value_range);
                    }
                    lemma_clear(a, b, stores, x, y);
                    assert(b.subrange(x, y) =~= a.subrange(x, y));
                },
                None => {},
            }
        },
        None => {},
    }
}

/// A text that was written over entries is shown for each of them afterwards,
/// without the white space around it.
pub proof fn written_text_is_shown(
    bytes: Seq<u8>,
    tags: Seq<u16>,
    value: Seq<char>,
    dir: u32,
    tag: u16,
    pos: int,
)
    requires
        writable(bytes, tags, exif_write::text_model(value), dir, tag, pos),
        without_zero(value),
        exif_write::located_tiff(bytes) matches Ok((start, endian, _)) && tiff::type_at(
            bytes.skip(start),
            pos,
            endian,
        ) == 2,
    ensures
        ({
            let (start, endian, ifd0) = exif_write::located_tiff(bytes)->Ok_0;
            let data = exif_write::tag_written(
                bytes,
                tags,
                exif_write::text_model(value),
            )->Ok_0.skip(start);
            exif::text_or_empty(exif::text_in(data, Some(dir), endian, tag)) == text::trim(value)
        }),
{
    reveal(exif::text_in);
    written_value_reads_back(bytes, tags, exif_write::text_model(value), dir, tag, pos);
    let s = store_for(bytes, tags, exif_write::text_model(value), pos);
    assert(s.bytes == exif_write::text_bytes(value));
    stored_text_reads_back(value, s.len - s.bytes.len());
    if text::trim(value).len() == 0 {
        assert(text::trim(value) =~= Seq::<char>::empty());
    }
}

/// A date that was written over the dates of a file is read from each of them
/// afterwards.
pub proof fn written_date_is_shown(bytes: Seq<u8>, date: Seq<char>, dir: u32, tag: u16, pos: int)
    requires
        writable(
            bytes,
            exif_write::date_tags(),
            exif_write::text_model(date),
            dir,
            tag,
            pos,
        ),
        without_zero(date),
        text::trim(date) == date,
        date.len() > 0,
        exif_write::located_tiff(bytes) matches Ok((start, endian, _)) && tiff::type_at(
            bytes.skip(start),
            pos,
            endian,
        ) == 2,
    ensures
        ({
            let (start, endian, ifd0) = exif_write::located_tiff(bytes)->Ok_0;
            let after = exif_write::taken_date_written(bytes, Ok(date));
            &&& after is Ok
            &&& exif::readable_tiff(after->Ok_0.skip(start)) == Some((endian, ifd0))
            &&& exif::date_in(after->Ok_0.skip(start), Some(dir), endian, tag)
                == datetime::display_of(datetime::known_datetime(date), date)
        }),
{
    reveal(exif::date_in);
    written_text_is_shown(bytes, exif_write::date_tags(), date, dir, tag, pos);
    written_value_reads_back(
        bytes,
        exif_write::date_tags(),
        exif_write::text_model(date),
        dir,
        tag,
        pos,
    );
}

/// A number that was written over entries is read from each of them afterwards.
pub proof fn written_number_is_read(
    bytes: Seq<u8>,
    tags: Seq<u16>,
    value: u16,
    dir: u32,
    tag: u16,
    pos: int,
)
    requires
        writable(bytes, tags, ValueModel::Short(value), dir, tag, pos),
    ensures
        ({
            let (start, endian, ifd0) = exif_write::located_tiff(bytes)->Ok_0;
            let data = exif_write::tag_written(bytes, tags, ValueModel::Short(value))->Ok_0.skip(
                start,
            );
            exif::short_in(data, Some(dir), endian, tag) == Some(value)
        }),
{
    reveal(exif::short_in);
    written_value_reads_back(bytes, tags, ValueModel::Short(value), dir, tag, pos);
    let s = store_for(bytes, tags, ValueModel::Short(value), pos);
    let (start, endian, ifd0) = exif_write::located_tiff(bytes)->Ok_0;
    binary::u16_bytes_read_back(value, endian);
    assert(s.bytes + exif_build::zeros(s.len - s.bytes.len()) =~= binary::u16_bytes(value, endian));
}

/// A fraction that was written over entries is read from each of them afterwards.
pub proof fn written_fraction_is_read(
    bytes: Seq<u8>,
    tags: Seq<u16>,
    value: (u32, u32),
    dir: u32,
    tag: u16,
    pos: int,
)
    requires
        writable(bytes, tags, ValueModel::Rational(value.0, value.1), dir, tag, pos),
    ensures
        ({
            let (start, endian, ifd0) = exif_write::located_tiff(bytes)->Ok_0;
            let data = exif_write::tag_written(
                bytes,
                tags,
                ValueModel::Rational(value.0, value.1),
            )->Ok_0.skip(start);
            exif::rational_in(data, Some(dir), endian, tag) == Some(value)
        }),
{
    reveal(exif::rational_in);
    let v = ValueModel::Rational(value.0, value.1);
    written_value_reads_back(bytes, tags, v, dir, tag, pos);
    let s = store_for(bytes, tags, v, pos);
    let (start, endian, ifd0) = exif_write::located_tiff(bytes)->Ok_0;
    let a = binary::u32_bytes(value.0, endian);
    let b = binary::u32_bytes(value.1, endian);
    binary::u32_bytes_read_back(value.0, endian);
    binary::u32_bytes_read_back(value.1, endian);
    assert(s.bytes + exif_build::zeros(s.len - s.bytes.len()) =~= a + b);
    binary::lemma_u32_at_frame(a, a + b, 0, 0, endian);
    binary::lemma_u32_at_frame(b, a + b, 0, 4, endian);
}

// GPS information.

pub open spec fn in_some_range(ranges: Seq<(int, int)>, base: int, i: int) -> bool {
    exists|k: int|
        0 <= k < ranges.len() && base + (#[trigger] ranges[k]).0 <= i < base + ranges[k].0
            + ranges[k].1
}

pub open spec fn ranges_within(ranges: Seq<(int, int)>, base: int, len: int) -> bool {
    forall|k: int|
        0 <= k < ranges.len() ==> 0 <= base + (#[trigger] ranges[k]).0 && 0 <= ranges[k].1 && base
            + ranges[k].0 + ranges[k].1 <= len
}

/// Clearing places makes every byte in them zero and changes no other.
pub proof fn cleared_places_are_zero(bytes: Seq<u8>, base: int, ranges: Seq<(int, int)>)
    requires
        ranges_within(ranges, base, bytes.len() as int),
    ensures
        exif_edit::zeroed(bytes, base, ranges).len() == bytes.len(),
        forall|i: int|
            0 <= i < bytes.len() ==> #[trigger] exif_edit::zeroed(bytes, base, ranges)[i]
                == if in_some_range(ranges, base, i) {
                0u8
            } else {
                bytes[i]
            },
    decreases ranges.len(),
{
    if ranges.len() > 0 {
        let before = ranges.drop_last();
        let r = ranges.last();
        assert(r == ranges[ranges.len() - 1]);
        assert forall|k: int| 0 <= k < before.len() implies 0 <= base + (#[trigger] before[k]).0 && 0
            <= before[k].1 && base + before[k].0 + before[k].1 <= bytes.len() by {
            assert(before[k] == ranges[k]);
        }
        cleared_places_are_zero(bytes, base, before);
        assert forall|i: int| 0 <= i < bytes.len() implies #[trigger] exif_edit::zeroed(
            bytes,
            base,
            ranges,
        )[i] == if in_some_range(ranges, base, i) {
            0u8
        } else {
            bytes[i]
        } by {
            if in_some_range(before, base, i) {
                let k = choose|k: int|
                    0 <= k < before.len() && base + (#[trigger] before[k]).0 <= i < base
                        + before[k].0 + before[k].1;
                assert(ranges[k] == before[k]);
                assert(in_some_range(ranges, base, i));
            } else if in_some_range(ranges, base, i) {
                let k = choose|k: int|
                    0 <= k < ranges.len() && base + (#[trigger] ranges[k]).0 <= i < base
                        + ranges[k].0 + ranges[k].1;
                if k < before.len() {
                    assert(before[k] == ranges[k]);
                    assert(in_some_range(before, base, i));
                }
            }
        }
    } else {
        assert forall|i: int| 0 <= i < bytes.len() implies !in_some_range(ranges, base, i) by {}
    }
}

/// The first directory has one link to GPS information, which it holds itself,
/// and the information does not lie over the header or the first directory.
pub open spec fn gps_apart(bytes: Seq<u8>, pos: int) -> bool {
    exif_write::located_tiff(bytes) matches Ok((start, endian, ifd0)) && {
        let data = bytes.skip(start);
        let ranges = exif_edit::gps_ranges(data, ifd0 as int, endian);
        &&& tiff::first_entry(data, ifd0 as int, endian, tiff::GPS_POINTER) == Some(pos)
        &&& tiff::last_entry(data, ifd0 as int, endian, tiff::GPS_POINTER) == Some(pos)
        &&& tiff::unit_size(tiff::type_at(data, pos, endian)) matches Some(size) && size
            * tiff::count_at(data, pos, endian) <= 4
        &&& ranges_within(ranges, start, bytes.len() as int)
        &&& forall|k: int|
            1 <= k < ranges.len() ==> 8 <= (#[trigger] ranges[k]).0 && (ranges[k].0 + ranges[k].1
                <= ifd0 || ifd0 + 2 + 12 * tiff::ifd_len(data, ifd0 as int, endian)->0
                <= ranges[k].0)
        &&& 8 <= ifd0
    }
}

/// After GPS information was removed a file has none: no link leads to it.
pub proof fn removed_gps_is_gone(bytes: Seq<u8>, pos: int)
    requires
        gps_apart(bytes, pos),
    ensures
        exif_edit::gps_removed(bytes) is Ok,
        ({
            let (start, endian, ifd0) = exif_write::located_tiff(bytes)->Ok_0;
            let after = exif_edit::gps_removed(bytes)->Ok_0;
            &&& after.len() == bytes.len()
            &&& jpeg::exif_tiff_start(after) == Some(start)
            &&& exif_write::located_tiff(after) == exif_write::located_tiff(bytes)
            &&& exif::gps_dir(after.skip(start), endian, ifd0) is None
        }),
{
    let (start, endian, ifd0) = exif_write::located_tiff(bytes)->Ok_0;
    let data = bytes.skip(start);
    let ranges = exif_edit::gps_ranges(data, ifd0 as int, endian);
    let after = exif_edit::zeroed(bytes, start, ranges);
    assert(2 <= start <= bytes.len()) by {
        lemma_start_bounds(bytes, 2);
    }
    let n = tiff::ifd_len(data, ifd0 as int, endian)->0 as int;
    lemma_last_pos(data, ifd0 as int, endian, tiff::GPS_POINTER, n);
    let i = choose|i: int| 0 <= i < n && pos == #[trigger] tiff::entry_pos(ifd0 as int, i);
    cleared_places_are_zero(bytes, start, ranges);
    let d = after.skip(start);
    lemma_cleared_table(bytes, after, start, ranges, ifd0 as int, n, pos, i);
    assert forall|k: int| 0 <= k < start implies #[trigger] after[k] == bytes[k] by {
        if in_some_range(ranges, start, k) {
            let x = choose|x: int|
                0 <= x < ranges.len() && start + (#[trigger] ranges[x]).0 <= k < start
                    + ranges[x].0 + ranges[x].1;
            assert(x == 0 || 8 <= ranges[x].0);
            assert(ranges[0] == (pos + 8, 4int));
        }
    }
    lemma_same_start(bytes, after, start);
    lemma_same_header_bytes(data, d, endian);
    assert(d[ifd0 as int] == data[ifd0 as int]);
    assert(d[ifd0 + 1] == data[ifd0 + 1]);
    assert(tiff::ifd_len(d, ifd0 as int, endian) == Some(n as nat));
    assert forall|k: int| 0 <= k < n implies tiff::tag_at(
        d,
        #[trigger] tiff::entry_pos(ifd0 as int, k),
        endian,
    ) == tiff::tag_at(data, tiff::entry_pos(ifd0 as int, k), endian) by {
        let p = tiff::entry_pos(ifd0 as int, k);
        assert(d[p] == data[p] && d[p + 1] == data[p + 1]);
    }
    lemma_same_last(data, d, ifd0 as int, endian, tiff::GPS_POINTER, n);
    if tiff::long_value(data, pos, endian) matches Some(at) && at != 0 {
        assert(ranges[0] == (pos + 8, 4int));
        lemma_zero_link(data, d, pos, endian);
    } else {
        assert(ranges =~= Seq::<(int, int)>::empty());
        assert(after =~= bytes);
    }
    reveal(exif::long_in);
}

proof fn lemma_same_header_bytes(a: Seq<u8>, b: Seq<u8>, endian: Endian)
    requires
        a.len() == b.len(),
        8 <= a.len(),
        forall|i: int| 0 <= i < 8 ==> #[trigger] b[i] == a[i],
    ensures
        tiff::tiff_endian(b) == tiff::tiff_endian(a),
        binary::u16_at(b, 2, endian) == binary::u16_at(a, 2, endian),
        binary::u32_at(b, 4, endian) == binary::u32_at(a, 4, endian),
{
    assert(b[0] == a[0] && b[1] == a[1]);
    binary::lemma_u16_at_frame(a, b, 2, 0, endian);
    binary::lemma_u32_at_frame(a, b, 4, 0, endian);
}

proof fn lemma_cleared_table(
    bytes: Seq<u8>,
    after: Seq<u8>,
    base: int,
    ranges: Seq<(int, int)>,
    ifd0: int,
    n: int,
    pos: int,
    i: int,
)
    requires
        0 <= base,
        8 <= ifd0,
        0 <= i < n,
        pos == tiff::entry_pos(ifd0, i),
        base + ifd0 + 2 + 12 * n <= bytes.len(),
        after.len() == bytes.len(),
        forall|k: int|
            0 <= k < bytes.len() ==> #[trigger] after[k] == if in_some_range(ranges, base, k) {
                0u8
            } else {
                bytes[k]
            },
        ranges.len() > 0 ==> ranges[0] == (pos + 8, 4int),
        forall|k: int|
            1 <= k < ranges.len() ==> 8 <= (#[trigger] ranges[k]).0 && (ranges[k].0 + ranges[k].1
                <= ifd0 || ifd0 + 2 + 12 * n <= ranges[k].0),
    ensures
        forall|k: int| 0 <= k < 8 ==> #[trigger] after.skip(base)[k] == bytes.skip(base)[k],
        forall|k: int|
            ifd0 <= k < ifd0 + 2 + 12 * n && !(pos + 8 <= k < pos + 12)
                ==> #[trigger] after.skip(base)[k] == bytes.skip(base)[k],
        ranges.len() > 0 ==> forall|k: int|
            pos + 8 <= k < pos + 12 ==> #[trigger] after.skip(base)[k] == 0,
{
    assert forall|k: int|
        (0 <= k < 8 || ifd0 <= k < ifd0 + 2 + 12 * n) && !(pos + 8 <= k < pos
            + 12) implies #[trigger] after.skip(base)[k] == bytes.skip(base)[k] by {
        assert(after[base + k] == after.skip(base)[k]);
        if in_some_range(ranges, base, base + k) {
            let x = choose|x: int|
                0 <= x < ranges.len() && base + (#[trigger] ranges[x]).0 <= base + k < base
                    + ranges[x].0 + ranges[x].1;
            assert(x == 0 || 8 <= ranges[x].0);
        }
    }
    if ranges.len() > 0 {
        assert forall|k: int| pos + 8 <= k < pos + 12 implies #[trigger] after.skip(base)[k]
            == 0 by {
            assert(base + ranges[0].0 <= base + k < base + ranges[0].0 + ranges[0].1);
            assert(in_some_range(ranges, base, base + k));
            assert(after[base + k] == 0);
        }
    }
}

proof fn lemma_zero_link(a: Seq<u8>, b: Seq<u8>, pos: int, endian: Endian)
    requires
        0 <= pos,
        pos + 12 <= a.len(),
        a.len() == b.len(),
        forall|k: int| pos <= k < pos + 8 ==> #[trigger] b[k] == a[k],
        forall|k: int| pos + 8 <= k < pos + 12 ==> #[trigger] b[k] == 0,
        tiff::unit_size(tiff::type_at(a, pos, endian)) matches Some(size) && size * tiff::count_at(
            a,
            pos,
            endian,
        ) <= 4,
    ensures
        match tiff::long_value(b, pos, endian) {
            Some(v) => v == 0,
            None => true,
        },
{
    reveal(tiff::value_range);
    assert(b[pos + 0] == a[pos + 0] && b[pos + 1] == a[pos + 1] && b[pos + 2] == a[pos + 2] && b[pos
        + 3] == a[pos + 3]);
    assert(b[pos + 4] == a[pos + 4] && b[pos + 5] == a[pos + 5] && b[pos + 6] == a[pos + 6] && b[pos
        + 7] == a[pos + 7]);
    match tiff::value_bytes(b, pos, endian) {
        Some(v) => {
            assert(forall|k: int| 0 <= k < v.len() ==> v[k] == 0) by {
                assert forall|k: int| 0 <= k < v.len() implies v[k] == 0 by {
                    assert(v[k] == b[pos + 8 + k]);
                }
            }
        },
        None => {},
    }
}

} // verus!
