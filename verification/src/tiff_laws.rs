//! What rewriting a TIFF structure keeps, takes out and gives back.
use crate::binary::{self, Endian};
use crate::tiff::{self, EXIF_POINTER, GPS_POINTER};
use vstd::prelude::*;

verus! {

/// The entries that have a tag, in their order.
pub open spec fn with_tag(entries: Seq<Seq<u8>>, tag: u16, endian: Endian) -> Seq<Seq<u8>>
    decreases entries.len(),
{
    if entries.len() == 0 {
        Seq::empty()
    } else {
        let rest = with_tag(entries.drop_last(), tag, endian);
        if tiff::raw_tag(entries.last(), endian) == tag {
            rest.push(entries.last())
        } else {
            rest
        }
    }
}

pub open spec fn all_entries(entries: Seq<Seq<u8>>) -> bool {
    forall|i: int| 0 <= i < entries.len() ==> (#[trigger] entries[i]).len() == 12
}

proof fn lemma_joined(entries: Seq<Seq<u8>>)
    requires
        all_entries(entries),
    ensures
        tiff::joined(entries).len() == 12 * entries.len(),
        forall|i: int|
            0 <= i < entries.len() ==> #[trigger] tiff::joined(entries).subrange(
                12 * i,
                12 * i + 12,
            ) == entries[i],
    decreases entries.len(),
{
    if entries.len() > 0 {
        let rest = entries.drop_last();
        lemma_joined(rest);
        let all = tiff::joined(entries);
        assert(all.len() == 12 * entries.len());
        assert forall|i: int| 0 <= i < entries.len() implies #[trigger] all.subrange(
            12 * i,
            12 * i + 12,
        ) == entries[i] by {
            if i < rest.len() {
                assert(all.subrange(12 * i, 12 * i + 12) =~= tiff::joined(rest).subrange(
                    12 * i,
                    12 * i + 12,
                ));
                assert(rest[i] == entries[i]);
            } else {
                assert(all.subrange(12 * i, 12 * i + 12) =~= entries.last());
            }
        }
    }
}

/// A directory that was written reads back: its entries and the offset behind
/// them, wherever it stands.
pub proof fn directory_reads_back(
    before: Seq<u8>,
    entries: Seq<Seq<u8>>,
    next: u32,
    endian: Endian,
    after: Seq<u8>,
)
    requires
        all_entries(entries),
        entries.len() <= u16::MAX,
    ensures
        ({
            let data = before + tiff::ifd_bytes(entries, next, endian) + after;
            let at = before.len() as int;
            &&& tiff::raw_ifd(data, at, endian) == Ok::<Seq<Seq<u8>>, Seq<char>>(entries)
            &&& tiff::raw_next(data, at, entries.len() as int, endian) == Ok::<u32, Seq<char>>(next)
            &&& tiff::ifd_bytes(entries, next, endian).len() == 6 + 12 * entries.len()
        }),
{
    let n = entries.len();
    let dir = tiff::ifd_bytes(entries, next, endian);
    let data = before + dir + after;
    let at = before.len() as int;
    lemma_joined(entries);
    binary::u16_bytes_read_back(n as u16, endian);
    binary::u32_bytes_read_back(next, endian);
    let count = binary::u16_bytes(n as u16, endian);
    let tail = binary::u32_bytes(next, endian);
    assert(dir.len() == 6 + 12 * n);
    assert(data[at] == count[0] && data[at + 1] == count[1]);
    assert(binary::u16_at(data, at, endian) == Some(n as u16));
    let read = tiff::raw_ifd(data, at, endian)->Ok_0;
    assert forall|i: int| 0 <= i < n implies read[i] == #[trigger] entries[i] by {
        let p = tiff::entry_pos(at, i);
        assert(data.subrange(p, p + 12) =~= tiff::joined(entries).subrange(12 * i, 12 * i + 12));
    }
    assert(read =~= entries);
    let p = tiff::entry_pos(at, n as int);
    assert(data[p] == tail[0] && data[p + 1] == tail[1] && data[p + 2] == tail[2] && data[p + 3]
        == tail[3]);
}

proof fn lemma_with_tag_prefix(entries: Seq<Seq<u8>>, i: int, n: int, tag: u16, endian: Endian)
    requires
        0 <= i <= n <= entries.len(),
    ensures
        ({
            let a = with_tag(entries.take(i), tag, endian);
            let b = with_tag(entries.take(n), tag, endian);
            a.len() <= b.len() && b.take(a.len() as int) == a
        }),
    decreases n - i,
{
    let a = with_tag(entries.take(i), tag, endian);
    if i < n {
        lemma_with_tag_prefix(entries, i, n - 1, tag, endian);
        let m = with_tag(entries.take(n - 1), tag, endian);
        let b = with_tag(entries.take(n), tag, endian);
        assert(entries.take(n).drop_last() =~= entries.take(n - 1));
        assert(b.take(a.len() as int) =~= m.take(a.len() as int));
    } else {
        assert(a.take(a.len() as int) =~= a);
    }
}

proof fn lemma_last_among(
    data: Seq<u8>,
    offset: int,
    endian: Endian,
    tag: u16,
    entries: Seq<Seq<u8>>,
    n: int,
)
    requires
        tiff::raw_ifd(data, offset, endian) == Ok::<Seq<Seq<u8>>, Seq<char>>(entries),
        0 <= n <= entries.len(),
        0 <= offset,
    ensures
        match tiff::last_among(data, offset, endian, tag, n) {
            Some(p) => with_tag(entries.take(n), tag, endian).len() > 0 && 0 <= p && p + 12
                <= data.len() && data.subrange(p, p + 12) == with_tag(
                entries.take(n),
                tag,
                endian,
            ).last() && tiff::tag_at(data, p, endian) == tag,
            None => with_tag(entries.take(n), tag, endian).len() == 0,
        },
    decreases n,
{
    if n > 0 {
        lemma_last_among(data, offset, endian, tag, entries, n - 1);
        assert(entries.take(n).drop_last() =~= entries.take(n - 1));
        let p = tiff::entry_pos(offset, n - 1);
        assert(entries.take(n).last() == data.subrange(p, p + 12));
        assert(data.subrange(p, p + 12)[0] == data[p]);
        assert(data.subrange(p, p + 12)[1] == data[p + 1]);
    }
}

proof fn lemma_first_from(
    data: Seq<u8>,
    offset: int,
    endian: Endian,
    tag: u16,
    entries: Seq<Seq<u8>>,
    i: int,
)
    requires
        tiff::raw_ifd(data, offset, endian) == Ok::<Seq<Seq<u8>>, Seq<char>>(entries),
        0 <= i <= entries.len(),
        0 <= offset,
        with_tag(entries.take(i), tag, endian).len() == 0,
    ensures
        match tiff::first_from(data, offset, endian, tag, i, entries.len() as int) {
            Some(p) => with_tag(entries, tag, endian).len() > 0 && 0 <= p && p + 12 <= data.len()
                && data.subrange(p, p + 12) == with_tag(entries, tag, endian)[0] && tiff::tag_at(
                data,
                p,
                endian,
            ) == tag,
            None => with_tag(entries, tag, endian).len() == 0,
        },
    decreases entries.len() - i,
{
    let n = entries.len() as int;
    assert(entries.take(n) =~= entries);
    if i < n {
        let p = tiff::entry_pos(offset, i);
        assert(entries.take(i + 1).drop_last() =~= entries.take(i));
        assert(entries.take(i + 1).last() == data.subrange(p, p + 12));
        assert(data.subrange(p, p + 12)[0] == data[p]);
        assert(data.subrange(p, p + 12)[1] == data[p + 1]);
        if tiff::tag_at(data, p, endian) == tag {
            lemma_with_tag_prefix(entries, i + 1, n, tag, endian);
            let a = with_tag(entries.take(i + 1), tag, endian);
            assert(a.len() == 1 && a[0] == data.subrange(p, p + 12));
            assert(with_tag(entries, tag, endian).take(1)[0] == a[0]);
        } else {
            lemma_first_from(data, offset, endian, tag, entries, i + 1);
        }
    }
}

/// An entry whose tag no other entry of its directory has is both the first
/// and the last one with that tag.
proof fn lemma_only_entry(
    data: Seq<u8>,
    offset: int,
    endian: Endian,
    tag: u16,
    entries: Seq<Seq<u8>>,
    raw: Seq<u8>,
)
    requires
        tiff::raw_ifd(data, offset, endian) == Ok::<Seq<Seq<u8>>, Seq<char>>(entries),
        0 <= offset,
        with_tag(entries, tag, endian) == seq![raw],
    ensures
        tiff::first_entry(data, offset, endian, tag) matches Some(p) && 0 <= p && p + 12
            <= data.len() && data.subrange(p, p + 12) == raw,
        tiff::last_entry(data, offset, endian, tag) matches Some(p) && 0 <= p && p + 12
            <= data.len() && data.subrange(p, p + 12) == raw,
{
    assert(entries.take(0) =~= Seq::<Seq<u8>>::empty());
    lemma_first_from(data, offset, endian, tag, entries, 0);
    assert(entries.take(entries.len() as int) =~= entries);
    lemma_last_among(data, offset, endian, tag, entries, entries.len() as int);
    assert(tiff::ifd_len(data, offset, endian) == Some(entries.len()));
}

proof fn lemma_no_entry(
    data: Seq<u8>,
    offset: int,
    endian: Endian,
    tag: u16,
    entries: Seq<Seq<u8>>,
)
    requires
        tiff::raw_ifd(data, offset, endian) == Ok::<Seq<Seq<u8>>, Seq<char>>(entries),
        0 <= offset,
        with_tag(entries, tag, endian).len() == 0,
    ensures
        tiff::first_entry(data, offset, endian, tag) is None,
        tiff::last_entry(data, offset, endian, tag) is None,
{
    assert(entries.take(0) =~= Seq::<Seq<u8>>::empty());
    lemma_first_from(data, offset, endian, tag, entries, 0);
    assert(entries.take(entries.len() as int) =~= entries);
    lemma_last_among(data, offset, endian, tag, entries, entries.len() as int);
}

proof fn lemma_without_with(
    entries: Seq<Seq<u8>>,
    tags: Seq<u16>,
    tag: u16,
    endian: Endian,
)
    ensures
        with_tag(tiff::without_tags(entries, tags, endian), tag, endian) == if tags.contains(tag) {
            Seq::<Seq<u8>>::empty()
        } else {
            with_tag(entries, tag, endian)
        },
    decreases entries.len(),
{
    if entries.len() > 0 {
        lemma_without_with(entries.drop_last(), tags, tag, endian);
        let rest = tiff::without_tags(entries.drop_last(), tags, endian);
        if !tags.contains(tiff::raw_tag(entries.last(), endian)) {
            assert(rest.push(entries.last()).drop_last() =~= rest);
        }
    }
}

proof fn lemma_slot(entries: Seq<Seq<u8>>, tag: u16, endian: Endian)
    ensures
        ({
            let s = tiff::slot_for(entries, tag, endian);
            &&& 0 <= s <= entries.len()
            &&& s > 0 ==> tiff::raw_tag(entries[s - 1], endian) <= tag
            &&& forall|i: int|
                s <= i < entries.len() ==> tiff::raw_tag(#[trigger] entries[i], endian) > tag
        }),
    decreases entries.len(),
{
    if entries.len() > 0 && tiff::raw_tag(entries.last(), endian) > tag {
        lemma_slot(entries.drop_last(), tag, endian);
        let s = tiff::slot_for(entries, tag, endian);
        assert forall|i: int| s <= i < entries.len() implies tiff::raw_tag(
            #[trigger] entries[i],
            endian,
        ) > tag by {
            if i < entries.len() - 1 {
                assert(entries.drop_last()[i] == entries[i]);
            }
        }
        if s > 0 {
            assert(entries.drop_last()[s - 1] == entries[s - 1]);
        }
    }
}

proof fn lemma_with_tag_concat(a: Seq<Seq<u8>>, b: Seq<Seq<u8>>, tag: u16, endian: Endian)
    ensures
        with_tag(a + b, tag, endian) == with_tag(a, tag, endian) + with_tag(b, tag, endian),
    decreases b.len(),
{
    if b.len() == 0 {
        assert(a + b =~= a);
    } else {
        lemma_with_tag_concat(a, b.drop_last(), tag, endian);
        assert((a + b).drop_last() =~= a + b.drop_last());
        assert((a + b).last() == b.last());
    }
    assert(with_tag(a + b, tag, endian) =~= with_tag(a, tag, endian) + with_tag(b, tag, endian));
}

proof fn lemma_with_tag_none(a: Seq<Seq<u8>>, tag: u16, endian: Endian)
    requires
        forall|i: int| 0 <= i < a.len() ==> tiff::raw_tag(#[trigger] a[i], endian) != tag,
    ensures
        with_tag(a, tag, endian).len() == 0,
    decreases a.len(),
{
    if a.len() > 0 {
        assert(tiff::raw_tag(a[a.len() - 1], endian) != tag);
        assert forall|i: int| 0 <= i < a.drop_last().len() implies tiff::raw_tag(
            #[trigger] a.drop_last()[i],
            endian,
        ) != tag by {
            assert(a.drop_last()[i] == a[i]);
        }
        lemma_with_tag_none(a.drop_last(), tag, endian);
    }
}

/// Sorting keeps, for every tag, the entries that have it, in their order.
pub proof fn sorting_keeps_entries(entries: Seq<Seq<u8>>, tag: u16, endian: Endian)
    ensures
        with_tag(tiff::sorted_by_tag(entries, endian), tag, endian) == with_tag(
            entries,
            tag,
            endian,
        ),
    decreases entries.len(),
{
    if entries.len() > 0 {
        sorting_keeps_entries(entries.drop_last(), tag, endian);
        let rest = tiff::sorted_by_tag(entries.drop_last(), endian);
        let x = entries.last();
        let s = tiff::slot_for(rest, tiff::raw_tag(x, endian), endian);
        lemma_slot(rest, tiff::raw_tag(x, endian), endian);
        let a = rest.take(s);
        let b = rest.skip(s);
        assert(rest =~= a + b);
        assert(rest.insert(s, x) =~= a.push(x) + b);
        lemma_with_tag_concat(a, b, tag, endian);
        lemma_with_tag_concat(a.push(x), b, tag, endian);
        assert(a.push(x).drop_last() =~= a);
        if tiff::raw_tag(x, endian) == tag {
            assert forall|i: int| 0 <= i < b.len() implies tiff::raw_tag(#[trigger] b[i], endian)
                != tag by {
                assert(b[i] == rest[s + i]);
            }
            lemma_with_tag_none(b, tag, endian);
            assert(with_tag(b, tag, endian) =~= Seq::<Seq<u8>>::empty());
            assert(with_tag(a.push(x), tag, endian) + with_tag(b, tag, endian) =~= with_tag(
                rest,
                tag,
                endian,
            ).push(x));
        }
    }
}

/// The entries stand in the order of their tags.
pub open spec fn in_order(entries: Seq<Seq<u8>>, endian: Endian) -> bool {
    forall|i: int, j: int|
        0 <= i <= j < entries.len() ==> tiff::raw_tag(#[trigger] entries[i], endian)
            <= tiff::raw_tag(#[trigger] entries[j], endian)
}

/// The entries stand in the order of their tags after sorting.
pub proof fn sorting_orders_entries(entries: Seq<Seq<u8>>, endian: Endian)
    ensures
        tiff::sorted_by_tag(entries, endian).len() == entries.len(),
        in_order(tiff::sorted_by_tag(entries, endian), endian),
        all_entries(entries) ==> all_entries(tiff::sorted_by_tag(entries, endian)),
    decreases entries.len(),
{
    if entries.len() > 0 {
        let init = entries.drop_last();
        sorting_orders_entries(init, endian);
        let rest = tiff::sorted_by_tag(init, endian);
        let x = entries.last();
        let s = tiff::slot_for(rest, tiff::raw_tag(x, endian), endian);
        lemma_slot(rest, tiff::raw_tag(x, endian), endian);
        let out = rest.insert(s, x);
        assert forall|i: int, j: int| 0 <= i <= j < out.len() implies tiff::raw_tag(
            #[trigger] out[i],
            endian,
        ) <= tiff::raw_tag(#[trigger] out[j], endian) by {
            let ii = if i < s {
                i
            } else {
                i - 1
            };
            let jj = if j < s {
                j
            } else {
                j - 1
            };
            if i != s && j != s {
                assert(out[i] == rest[ii] && out[j] == rest[jj]);
            } else if i == s && j != s {
                assert(out[j] == rest[jj]);
            } else if j == s && i != s {
                assert(out[i] == rest[ii]);
                assert(rest[s - 1] == rest[s - 1]);
            }
        }
        if all_entries(entries) {
            assert forall|i: int| 0 <= i < init.len() implies (#[trigger] init[i]).len() == 12 by {
                assert(init[i] == entries[i]);
            }
            assert forall|i: int| 0 <= i < out.len() implies (#[trigger] out[i]).len() == 12 by {
                if i < s {
                    assert(out[i] == rest[i]);
                } else if i > s {
                    assert(out[i] == rest[i - 1]);
                } else {
                    assert(entries[entries.len() - 1].len() == 12);
                }
            }
        }
    }
}

proof fn lemma_without_entries(entries: Seq<Seq<u8>>, tags: Seq<u16>, endian: Endian)
    requires
        all_entries(entries),
    ensures
        all_entries(tiff::without_tags(entries, tags, endian)),
        tiff::without_tags(entries, tags, endian).len() <= entries.len(),
    decreases entries.len(),
{
    if entries.len() > 0 {
        assert forall|i: int| 0 <= i < entries.drop_last().len() implies (
        #[trigger] entries.drop_last()[i]).len() == 12 by {
            assert(entries.drop_last()[i] == entries[i]);
        }
        lemma_without_entries(entries.drop_last(), tags, endian);
        assert(entries[entries.len() - 1].len() == 12);
    }
}

proof fn lemma_raw_ifd_entries(data: Seq<u8>, offset: int, endian: Endian)
    requires
        0 <= offset,
        tiff::raw_ifd(data, offset, endian) is Ok,
    ensures
        all_entries(tiff::raw_ifd(data, offset, endian)->Ok_0),
        tiff::raw_ifd(data, offset, endian)->Ok_0.len() <= u16::MAX,
{
}

/// Pointing the header to another first directory changes four bytes only.
proof fn lemma_pointed_to(data: Seq<u8>, at: int, endian: Endian)
    requires
        data.len() >= 8,
        0 <= at <= u32::MAX,
    ensures
        ({
            let v = tiff::pointed_to(data, at, endian);
            &&& v.len() == data.len()
            &&& forall|i: int| 0 <= i < data.len() && !(4 <= i < 8) ==> #[trigger] v[i] == data[i]
            &&& binary::u32_at(v, 4, endian) == Some(at as u32)
            &&& tiff::tiff_endian(v) == tiff::tiff_endian(data)
            &&& binary::u16_at(v, 2, endian) == binary::u16_at(data, 2, endian)
            &&& v.skip(8) == data.skip(8)
        }),
{
    let v = tiff::pointed_to(data, at, endian);
    let b = binary::u32_bytes(at as u32, endian);
    binary::u32_bytes_read_back(at as u32, endian);
    assert(v[4] == b[0] && v[5] == b[1] && v[6] == b[2] && v[7] == b[3]);
    assert(v.skip(8) =~= data.skip(8));
}

/// A directory behind the header reads the same in data that agree behind the header.
proof fn lemma_raw_ifd_frame(a: Seq<u8>, b: Seq<u8>, offset: int, endian: Endian)
    requires
        a.len() == b.len(),
        a.len() >= 8,
        a.skip(8) == b.skip(8),
        offset >= 8,
    ensures
        tiff::raw_ifd(a, offset, endian) == tiff::raw_ifd(b, offset, endian),
        forall|n: int|
            0 <= n ==> #[trigger] tiff::raw_next(a, offset, n, endian) == tiff::raw_next(
                b,
                offset,
                n,
                endian,
            ),
{
    assert forall|i: int| 8 <= i < a.len() implies a[i] == b[i] by {
        assert(a.skip(8)[i - 8] == b.skip(8)[i - 8]);
    }
    match binary::u16_at(a, offset, endian) {
        Some(n) => {
            assert(binary::u16_at(b, offset, endian) == Some(n));
            if offset + 2 + 12 * n <= a.len() {
                let ra = tiff::raw_ifd(a, offset, endian)->Ok_0;
                let rb = tiff::raw_ifd(b, offset, endian)->Ok_0;
                assert forall|i: int| 0 <= i < n implies ra[i] == rb[i] by {
                    let p = tiff::entry_pos(offset, i);
                    assert(a.subrange(p, p + 12) =~= b.subrange(p, p + 12));
                }
                assert(ra =~= rb);
            }
        },
        None => {},
    }
    assert forall|n: int| 0 <= n implies #[trigger] tiff::raw_next(a, offset, n, endian)
        == tiff::raw_next(b, offset, n, endian) by {}
}

/// An entry that holds one 32-bit number gives that number.
proof fn lemma_pointer_value(data: Seq<u8>, pos: int, tag: u16, value: u32, endian: Endian)
    requires
        0 <= pos,
        pos + 12 <= data.len(),
        data.subrange(pos, pos + 12) == tiff::entry_bytes(tag, 4, 1, value, endian),
    ensures
        tiff::long_value(data, pos, endian) == Some(value),
{
    reveal(tiff::value_range);
    let raw = data.subrange(pos, pos + 12);
    lemma_entry_fields(data, pos, tag, 4, 1, value, endian);
    binary::u16_bytes_read_back(tag, endian);
    binary::u16_bytes_read_back(4, endian);
    binary::u32_bytes_read_back(1, endian);
    binary::u32_bytes_read_back(value, endian);
    assert(data.subrange(pos + 8, pos + 12) =~= binary::u32_bytes(value, endian)) by {
        assert(data.subrange(pos + 8, pos + 12) =~= raw.subrange(8, 12));
        assert(raw.subrange(8, 12) =~= binary::u32_bytes(value, endian));
    }
    binary::u32_bytes_read_back(value, endian);
}

proof fn lemma_entry_fields(
    data: Seq<u8>,
    pos: int,
    tag: u16,
    field_type: u16,
    count: u32,
    value: u32,
    endian: Endian,
)
    requires
        0 <= pos,
        pos + 12 <= data.len(),
        data.subrange(pos, pos + 12) == tiff::entry_bytes(tag, field_type, count, value, endian),
    ensures
        tiff::tag_at(data, pos, endian) == tag,
        tiff::type_at(data, pos, endian) == field_type,
        tiff::count_at(data, pos, endian) == count,
        tiff::offset_at(data, pos, endian) == value,
        tiff::raw_tag(data.subrange(pos, pos + 12), endian) == tag,
{
    let raw = data.subrange(pos, pos + 12);
    binary::u16_bytes_read_back(tag, endian);
    binary::u16_bytes_read_back(field_type, endian);
    binary::u32_bytes_read_back(count, endian);
    binary::u32_bytes_read_back(value, endian);
    let a = binary::u16_bytes(tag, endian);
    let b = binary::u16_bytes(field_type, endian);
    let c = binary::u32_bytes(count, endian);
    let d = binary::u32_bytes(value, endian);
    assert(raw == a + b + c + d);
    assert(forall|i: int| 0 <= i < 12 ==> data[pos + i] == #[trigger] raw[i]);
    assert(raw[0] == a[0] && raw[1] == a[1] && raw[2] == b[0] && raw[3] == b[1]);
    assert(raw[4] == c[0] && raw[5] == c[1] && raw[6] == c[2] && raw[7] == c[3]);
    assert(raw[8] == d[0] && raw[9] == d[1] && raw[10] == d[2] && raw[11] == d[3]);
}

proof fn lemma_entry_bytes_tag(tag: u16, field_type: u16, count: u32, value: u32, endian: Endian)
    ensures
        tiff::raw_tag(tiff::entry_bytes(tag, field_type, count, value, endian), endian) == tag,
        tiff::entry_bytes(tag, field_type, count, value, endian).len() == 12,
{
    let raw = tiff::entry_bytes(tag, field_type, count, value, endian);
    binary::u16_bytes_read_back(tag, endian);
    binary::u16_bytes_read_back(field_type, endian);
    binary::u32_bytes_read_back(count, endian);
    binary::u32_bytes_read_back(value, endian);
    assert(raw[0] == binary::u16_bytes(tag, endian)[0]);
    assert(raw[1] == binary::u16_bytes(tag, endian)[1]);
}

/// For every tag, the new directory has the entries of the old one, or none
/// where the tag was to go.
pub open spec fn kept_but(
    new: Seq<Seq<u8>>,
    old_entries: Seq<Seq<u8>>,
    gone: Seq<u16>,
    endian: Endian,
) -> bool {
    forall|tag: u16| #[trigger]
        with_tag(new, tag, endian) == if gone.contains(tag) {
            Seq::<Seq<u8>>::empty()
        } else {
            with_tag(old_entries, tag, endian)
        }
}

/// The same, but for the tags that point to another directory.
pub open spec fn kept_but_pointers(
    new: Seq<Seq<u8>>,
    old_entries: Seq<Seq<u8>>,
    gone: Seq<u16>,
    pointers: Seq<u16>,
    endian: Endian,
) -> bool {
    forall|tag: u16|
        !pointers.contains(tag) ==> #[trigger] with_tag(new, tag, endian) == if gone.contains(tag) {
            Seq::<Seq<u8>>::empty()
        } else {
            with_tag(old_entries, tag, endian)
        }
}

/// A directory in which one entry replaces all that had its tag.
proof fn lemma_replaced_entry(old_entries: Seq<Seq<u8>>, tag: u16, raw: Seq<u8>, endian: Endian)
    requires
        all_entries(old_entries),
        raw.len() == 12,
        tiff::raw_tag(raw, endian) == tag,
    ensures
        ({
            let kept = tiff::without_tags(old_entries, seq![tag], endian);
            let new = tiff::sorted_by_tag(kept.push(raw), endian);
            &&& all_entries(new)
            &&& new.len() == kept.len() + 1
            &&& kept.len() <= old_entries.len()
            &&& with_tag(new, tag, endian) == seq![raw]
            &&& kept_but_pointers(new, old_entries, Seq::empty(), seq![tag], endian)
        }),
{
    let kept = tiff::without_tags(old_entries, seq![tag], endian);
    let new = tiff::sorted_by_tag(kept.push(raw), endian);
    lemma_without_entries(old_entries, seq![tag], endian);
    sorting_orders_entries(kept.push(raw), endian);
    assert(seq![tag][0] == tag);
    assert(kept.push(raw).drop_last() =~= kept);
    assert forall|t: u16| !seq![tag].contains(t) implies #[trigger] with_tag(new, t, endian)
        == with_tag(old_entries, t, endian) by {
        sorting_keeps_entries(kept.push(raw), t, endian);
        lemma_without_with(old_entries, seq![tag], t, endian);
    }
    sorting_keeps_entries(kept.push(raw), tag, endian);
    lemma_without_with(old_entries, seq![tag], tag, endian);
    assert(seq![tag].contains(tag));
    assert(with_tag(new, tag, endian) =~= seq![raw]);
}

/// Two directories and a text behind some data, with the header pointed to the first.
proof fn lemma_two_directories(
    base: Seq<u8>,
    new0: Seq<Seq<u8>>,
    next0: u32,
    new1: Seq<Seq<u8>>,
    next1: u32,
    date: Seq<u8>,
    endian: Endian,
)
    requires
        base.len() >= 8,
        all_entries(new0),
        all_entries(new1),
        new0.len() <= u16::MAX,
        new1.len() <= u16::MAX,
        base.len() + 12 + 12 * new0.len() + 12 * new1.len() + date.len() <= u32::MAX,
    ensures
        ({
            let at0 = base.len() as int;
            let at1 = at0 + 6 + 12 * new0.len();
            let at2 = at1 + 6 + 12 * new1.len();
            let v = tiff::pointed_to(
                base + tiff::ifd_bytes(new0, next0, endian) + tiff::ifd_bytes(new1, next1, endian)
                    + date,
                at0,
                endian,
            );
            &&& v.len() == at2 + date.len()
            &&& tiff::tiff_endian(v) == tiff::tiff_endian(base)
            &&& binary::u16_at(v, 2, endian) == binary::u16_at(base, 2, endian)
            &&& binary::u32_at(v, 4, endian) == Some(at0 as u32)
            &&& tiff::raw_ifd(v, at0, endian) == Ok::<Seq<Seq<u8>>, Seq<char>>(new0)
            &&& tiff::raw_next(v, at0, new0.len() as int, endian) == Ok::<u32, Seq<char>>(next0)
            &&& tiff::raw_ifd(v, at1, endian) == Ok::<Seq<Seq<u8>>, Seq<char>>(new1)
            &&& tiff::raw_next(v, at1, new1.len() as int, endian) == Ok::<u32, Seq<char>>(next1)
            &&& v.subrange(at2, at2 + date.len()) == date
            &&& forall|i: int| 0 <= i < base.len() && !(4 <= i < 8) ==> #[trigger] v[i] == base[i]
        }),
{
    let d0 = tiff::ifd_bytes(new0, next0, endian);
    let d1 = tiff::ifd_bytes(new1, next1, endian);
    let at0 = base.len() as int;
    let at1 = at0 + 6 + 12 * new0.len();
    let at2 = at1 + 6 + 12 * new1.len();
    let plain = base + d0 + d1 + date;
    let v = tiff::pointed_to(plain, at0, endian);
    directory_reads_back(base, new0, next0, endian, d1 + date);
    directory_reads_back(base + d0, new1, next1, endian, date);
    assert(base + d0 + (d1 + date) =~= plain);
    assert((base + d0).len() == at1);
    assert(plain.len() == at2 + date.len());
    lemma_pointed_to(plain, at0, endian);
    lemma_raw_ifd_frame(plain, v, at0, endian);
    lemma_raw_ifd_frame(plain, v, at1, endian);
    assert forall|i: int| 0 <= i < date.len() implies v[at2 + i] == #[trigger] date[i] by {
        assert(v[at2 + i] == plain[at2 + i]);
    }
    assert(v.subrange(at2, at2 + date.len()) =~= date);
    assert forall|i: int| 0 <= i < base.len() && !(4 <= i < 8) implies #[trigger] v[i]
        == base[i] by {
        assert(v[i] == plain[i]);
    }
}

/// What the directories behind the data hold once a date was written.
proof fn lemma_dated_parts(
    base: Seq<u8>,
    endian: Endian,
    dir0: (Seq<Seq<u8>>, u32),
    dir1: (Seq<Seq<u8>>, u32),
    date: Seq<u8>,
    v: Seq<u8>,
    at1: int,
    at2: int,
    new0: Seq<Seq<u8>>,
    new1: Seq<Seq<u8>>,
)
    requires
        base.len() >= 8,
        date.len() > 4,
        all_entries(dir0.0),
        all_entries(dir1.0),
        at1 == base.len() + 6 + 12 * (tiff::without_tags(
            dir0.0,
            seq![EXIF_POINTER],
            endian,
        ).len() + 1),
        at2 == at1 + 6 + 12 * (tiff::without_tags(dir1.0, seq![0x9003u16], endian).len() + 1),
        new0 == tiff::sorted_by_tag(
            tiff::without_tags(dir0.0, seq![EXIF_POINTER], endian).push(
                tiff::entry_bytes(EXIF_POINTER, 4, 1, at1 as u32, endian),
            ),
            endian,
        ),
        new1 == tiff::sorted_by_tag(
            tiff::without_tags(dir1.0, seq![0x9003u16], endian).push(
                tiff::entry_bytes(0x9003, 2, date.len() as u32, at2 as u32, endian),
            ),
            endian,
        ),
        tiff::without_tags(dir0.0, seq![EXIF_POINTER], endian).len() + 1 <= u16::MAX,
        tiff::without_tags(dir1.0, seq![0x9003u16], endian).len() + 1 <= u16::MAX,
        v == tiff::pointed_to(
            base + tiff::ifd_bytes(new0, dir0.1, endian) + tiff::ifd_bytes(new1, dir1.1, endian)
                + date,
            base.len() as int,
            endian,
        ),
        v.len() <= u32::MAX,
    ensures
        tiff::tiff_endian(v) == tiff::tiff_endian(base),
        binary::u16_at(v, 2, endian) == binary::u16_at(base, 2, endian),
        binary::u32_at(v, 4, endian) == Some(base.len() as u32),
        base.len() <= u32::MAX,
        at1 <= u32::MAX,
        tiff::raw_directory(v, Some(base.len() as u32), endian) == Ok::<
            (Seq<Seq<u8>>, u32),
            Seq<char>,
        >((new0, dir0.1)),
        kept_but_pointers(new0, dir0.0, Seq::empty(), seq![EXIF_POINTER], endian),
        tiff::pointed_offset(v, base.len() as int, endian, EXIF_POINTER) == Some(at1 as u32),
        tiff::last_entry(v, base.len() as int, endian, EXIF_POINTER) matches Some(q)
            && tiff::long_value(v, q, endian) == Some(at1 as u32),
        tiff::raw_directory(v, Some(at1 as u32), endian) == Ok::<(Seq<Seq<u8>>, u32), Seq<char>>(
            (new1, dir1.1),
        ),
        kept_but_pointers(new1, dir1.0, Seq::empty(), seq![0x9003u16], endian),
        tiff::last_entry(v, at1, endian, 0x9003) matches Some(pos) && tiff::type_at(v, pos, endian)
            == 2 && tiff::value_bytes(v, pos, endian) == Some(date),
        base.len() <= v.len(),
        forall|i: int| 0 <= i < base.len() && !(4 <= i < 8) ==> #[trigger] v[i] == base[i],
{
    let at0 = base.len() as int;
    let raw0 = tiff::entry_bytes(EXIF_POINTER, 4, 1, at1 as u32, endian);
    let raw1 = tiff::entry_bytes(0x9003, 2, date.len() as u32, at2 as u32, endian);
    lemma_entry_bytes_tag(EXIF_POINTER, 4, 1, at1 as u32, endian);
    lemma_entry_bytes_tag(0x9003, 2, date.len() as u32, at2 as u32, endian);
    lemma_replaced_entry(dir0.0, EXIF_POINTER, raw0, endian);
    lemma_replaced_entry(dir1.0, 0x9003, raw1, endian);
    lemma_dated_len(base, new0, dir0.1, new1, dir1.1, date, endian);
    lemma_two_directories(base, new0, dir0.1, new1, dir1.1, date, endian);
    lemma_only_entry(v, at0, endian, EXIF_POINTER, new0, raw0);
    let p0 = tiff::first_entry(v, at0, endian, EXIF_POINTER)->0;
    lemma_pointer_value(v, p0, EXIF_POINTER, at1 as u32, endian);
    let q0 = tiff::last_entry(v, at0, endian, EXIF_POINTER)->0;
    lemma_pointer_value(v, q0, EXIF_POINTER, at1 as u32, endian);
    lemma_only_entry(v, at1, endian, 0x9003, new1, raw1);
    let p1 = tiff::last_entry(v, at1, endian, 0x9003)->0;
    lemma_text_value(v, p1, 0x9003, date, at2, endian);
}

/// An entry that gives the place of a text has it as its value.
proof fn lemma_text_value(
    data: Seq<u8>,
    pos: int,
    tag: u16,
    value: Seq<u8>,
    at: int,
    endian: Endian,
)
    requires
        0 <= pos,
        pos + 12 <= data.len(),
        4 < value.len(),
        0 <= at,
        at + value.len() <= data.len() <= u32::MAX,
        data.subrange(pos, pos + 12) == tiff::entry_bytes(
            tag,
            2,
            value.len() as u32,
            at as u32,
            endian,
        ),
        data.subrange(at, at + value.len()) == value,
    ensures
        tiff::type_at(data, pos, endian) == 2,
        tiff::value_bytes(data, pos, endian) == Some(value),
{
    reveal(tiff::value_range);
    lemma_entry_fields(data, pos, tag, 2, value.len() as u32, at as u32, endian);
    assert(tiff::unit_size(2) == Some(1nat));
    assert(1nat * (value.len() as u32) == value.len());
    assert(tiff::value_range(data, pos, endian) == Some((at, at + value.len())));
}

/// After a date was written, the EXIF directory has one entry for it, whose
/// value is the date's text; every other entry of both directories stays, as do
/// the offsets of the directories that follow them. The entries stand in the order
/// of their tags. Every byte of the old data but for the header's pointer stays.
pub proof fn written_date_is_found(tiff: Seq<u8>, date: Seq<u8>)
    requires
        tiff::dated(tiff, date) is Ok,
        tiff::dated(tiff, date)->Ok_0.len() <= u32::MAX,
        date.len() > 4,
    ensures
        ({
            let endian = tiff::tiff_endian(tiff)->0;
            let old0 = binary::u32_at(tiff, 4, endian)->0;
            let old1 = tiff::pointed_offset(tiff, old0 as int, endian, EXIF_POINTER);
            let v = tiff::dated(tiff, date)->Ok_0;
            let new0 = binary::u32_at(v, 4, endian)->0;
            let new1 = tiff::pointed_offset(v, new0 as int, endian, EXIF_POINTER);
            &&& tiff::tiff_endian(v) == Some(endian)
            &&& binary::u16_at(v, 2, endian) == Some(42u16)
            &&& tiff::raw_directory(v, Some(new0), endian) matches Ok((entries, next))
                && kept_but_pointers(
                entries,
                (tiff::raw_directory(tiff, Some(old0), endian)->Ok_0).0,
                Seq::empty(),
                seq![EXIF_POINTER],
                endian,
            ) && in_order(entries, endian) && next == (tiff::raw_directory(
                tiff,
                Some(old0),
                endian,
            )->Ok_0).1
            &&& new1 is Some
            &&& tiff::last_entry(v, new0 as int, endian, EXIF_POINTER) matches Some(q)
                && tiff::long_value(v, q, endian) == new1
            &&& tiff::raw_directory(v, new1, endian) matches Ok((entries, next))
                && kept_but_pointers(
                entries,
                (tiff::raw_directory(tiff, old1, endian)->Ok_0).0,
                Seq::empty(),
                seq![0x9003u16],
                endian,
            ) && in_order(entries, endian) && next == (tiff::raw_directory(
                tiff,
                old1,
                endian,
            )->Ok_0).1
            &&& tiff::last_entry(v, new1->0 as int, endian, 0x9003) matches Some(pos)
                && tiff::type_at(v, pos, endian) == 2 && tiff::value_bytes(v, pos, endian) == Some(
                date,
            )
            &&& tiff.len() <= v.len()
            &&& forall|i: int| 0 <= i < tiff.len() && !(4 <= i < 8) ==> #[trigger] v[i] == tiff[i]
        }),
{
    let endian = tiff::tiff_endian(tiff)->0;
    let old0 = binary::u32_at(tiff, 4, endian)->0;
    let dir0 = tiff::raw_directory(tiff, Some(old0), endian)->Ok_0;
    let old1 = tiff::pointed_offset(tiff, old0 as int, endian, EXIF_POINTER);
    let dir1 = tiff::raw_directory(tiff, old1, endian)->Ok_0;
    let base = tiff::even(tiff);
    let at1 = base.len() + 6 + 12 * (tiff::without_tags(
        dir0.0,
        seq![EXIF_POINTER],
        endian,
    ).len() + 1);
    let at2 = at1 + 6 + 12 * (tiff::without_tags(dir1.0, seq![0x9003u16], endian).len() + 1);
    let new0 = tiff::sorted_by_tag(
        tiff::without_tags(dir0.0, seq![EXIF_POINTER], endian).push(
            tiff::entry_bytes(EXIF_POINTER, 4, 1, at1 as u32, endian),
        ),
        endian,
    );
    let new1 = tiff::sorted_by_tag(
        tiff::without_tags(dir1.0, seq![0x9003u16], endian).push(
            tiff::entry_bytes(0x9003, 2, date.len() as u32, at2 as u32, endian),
        ),
        endian,
    );
    sorting_orders_entries(
        tiff::without_tags(dir0.0, seq![EXIF_POINTER], endian).push(
            tiff::entry_bytes(EXIF_POINTER, 4, 1, at1 as u32, endian),
        ),
        endian,
    );
    sorting_orders_entries(
        tiff::without_tags(dir1.0, seq![0x9003u16], endian).push(
            tiff::entry_bytes(0x9003, 2, date.len() as u32, at2 as u32, endian),
        ),
        endian,
    );
    lemma_raw_ifd_entries(tiff, old0 as int, endian);
    if old1 is Some {
        lemma_raw_ifd_entries(tiff, old1->0 as int, endian);
    }
    lemma_dated_parts(
        base,
        endian,
        dir0,
        dir1,
        date,
        tiff::dated(tiff, date)->Ok_0,
        at1 as int,
        at2 as int,
        new0,
        new1,
    );
}

/// A date adds two directories and its text to a structure, behind a byte that
/// makes its length even.
pub proof fn dated_length(tiff: Seq<u8>, date: Seq<u8>)
    requires
        tiff::dated(tiff, date) is Ok,
    ensures
        ({
            let endian = tiff::tiff_endian(tiff)->0;
            let at = binary::u32_at(tiff, 4, endian)->0;
            let dir0 = tiff::raw_directory(tiff, Some(at), endian)->Ok_0;
            let dir1 = tiff::raw_directory(
                tiff,
                tiff::pointed_offset(tiff, at as int, endian, EXIF_POINTER),
                endian,
            )->Ok_0;
            tiff::dated(tiff, date)->Ok_0.len() == tiff::even(tiff).len() + 36 + 12
                * tiff::without_tags(dir0.0, seq![EXIF_POINTER], endian).len() + 12
                * tiff::without_tags(dir1.0, seq![0x9003u16], endian).len() + date.len()
        }),
{
    let endian = tiff::tiff_endian(tiff)->0;
    let old0 = binary::u32_at(tiff, 4, endian)->0;
    let dir0 = tiff::raw_directory(tiff, Some(old0), endian)->Ok_0;
    let old1 = tiff::pointed_offset(tiff, old0 as int, endian, EXIF_POINTER);
    let dir1 = tiff::raw_directory(tiff, old1, endian)->Ok_0;
    let kept0 = tiff::without_tags(dir0.0, seq![EXIF_POINTER], endian);
    let kept1 = tiff::without_tags(dir1.0, seq![0x9003u16], endian);
    let base = tiff::even(tiff);
    let at1 = base.len() + 6 + 12 * (kept0.len() + 1);
    let at2 = at1 + 6 + 12 * (kept1.len() + 1);
    let raw0 = tiff::entry_bytes(EXIF_POINTER, 4, 1, at1 as u32, endian);
    let raw1 = tiff::entry_bytes(0x9003, 2, date.len() as u32, at2 as u32, endian);
    lemma_raw_ifd_entries(tiff, old0 as int, endian);
    if old1 is Some {
        lemma_raw_ifd_entries(tiff, old1->0 as int, endian);
    }
    lemma_entry_bytes_tag(EXIF_POINTER, 4, 1, at1 as u32, endian);
    lemma_entry_bytes_tag(0x9003, 2, date.len() as u32, at2 as u32, endian);
    lemma_replaced_entry(dir0.0, EXIF_POINTER, raw0, endian);
    lemma_replaced_entry(dir1.0, 0x9003, raw1, endian);
    lemma_dated_len(
        base,
        tiff::sorted_by_tag(kept0.push(raw0), endian),
        dir0.1,
        tiff::sorted_by_tag(kept1.push(raw1), endian),
        dir1.1,
        date,
        endian,
    );
}

proof fn lemma_dated_len(
    base: Seq<u8>,
    new0: Seq<Seq<u8>>,
    next0: u32,
    new1: Seq<Seq<u8>>,
    next1: u32,
    date: Seq<u8>,
    endian: Endian,
)
    requires
        base.len() >= 8,
        all_entries(new0),
        all_entries(new1),
    ensures
        tiff::pointed_to(
            base + tiff::ifd_bytes(new0, next0, endian) + tiff::ifd_bytes(new1, next1, endian)
                + date,
            base.len() as int,
            endian,
        ).len() == base.len() + 12 + 12 * new0.len() + 12 * new1.len() + date.len(),
{
    lemma_joined(new0);
    lemma_joined(new1);
    binary::u16_bytes_read_back(new0.len() as u16, endian);
    binary::u16_bytes_read_back(new1.len() as u16, endian);
    binary::u32_bytes_read_back(next0, endian);
    binary::u32_bytes_read_back(next1, endian);
    binary::u32_bytes_read_back(base.len() as u32, endian);
}

/// The directory that the only entry with a tag points to.
proof fn lemma_points_to(
    v: Seq<u8>,
    at0: int,
    endian: Endian,
    new0: Seq<Seq<u8>>,
    tag: u16,
    at: int,
)
    requires
        0 <= at0,
        0 <= at <= u32::MAX,
        tiff::raw_ifd(v, at0, endian) == Ok::<Seq<Seq<u8>>, Seq<char>>(new0),
        with_tag(new0, tag, endian) == seq![tiff::entry_bytes(tag, 4, 1, at as u32, endian)],
    ensures
        tiff::pointed_offset(v, at0, endian, tag) == Some(at as u32),
{
    let raw = tiff::entry_bytes(tag, 4, 1, at as u32, endian);
    lemma_only_entry(v, at0, endian, tag, new0, raw);
    let p = tiff::first_entry(v, at0, endian, tag)->0;
    lemma_pointer_value(v, p, tag, at as u32, endian);
}

proof fn lemma_with_tag_pointer(
    entries: Seq<Seq<u8>>,
    offset: Option<u32>,
    pointer: u16,
    at: int,
    tag: u16,
    endian: Endian,
)
    ensures
        with_tag(tiff::with_pointer(entries, offset, pointer, at, endian), tag, endian) == if offset
            is Some && pointer == tag {
            with_tag(entries, tag, endian).push(
                tiff::entry_bytes(pointer, 4, 1, at as u32, endian),
            )
        } else {
            with_tag(entries, tag, endian)
        },
{
    lemma_entry_bytes_tag(pointer, 4, 1, at as u32, endian);
    let raw = tiff::entry_bytes(pointer, 4, 1, at as u32, endian);
    assert(entries.push(raw).drop_last() =~= entries);
}

/// The entries of the first directory once tags were taken out of it.
proof fn lemma_new_first_directory(
    old_entries: Seq<Seq<u8>>,
    gone: Seq<u16>,
    exif_at: Option<u32>,
    at1: int,
    gps_at: Option<u32>,
    at2: int,
    endian: Endian,
    new0: Seq<Seq<u8>>,
)
    requires
        all_entries(old_entries),
        new0 == tiff::sorted_by_tag(
            tiff::with_pointer(
                tiff::with_pointer(
                    tiff::without_tags(
                        old_entries,
                        gone + seq![EXIF_POINTER, GPS_POINTER],
                        endian,
                    ),
                    exif_at,
                    EXIF_POINTER,
                    at1,
                    endian,
                ),
                gps_at,
                GPS_POINTER,
                at2,
                endian,
            ),
            endian,
        ),
    ensures
        all_entries(new0),
        kept_but_pointers(new0, old_entries, gone, seq![EXIF_POINTER, GPS_POINTER], endian),
        with_tag(new0, EXIF_POINTER, endian) == (if exif_at is Some {
            seq![tiff::entry_bytes(EXIF_POINTER, 4, 1, at1 as u32, endian)]
        } else {
            Seq::<Seq<u8>>::empty()
        }),
        with_tag(new0, GPS_POINTER, endian) == (if gps_at is Some {
            seq![tiff::entry_bytes(GPS_POINTER, 4, 1, at2 as u32, endian)]
        } else {
            Seq::<Seq<u8>>::empty()
        }),
{
    let both = seq![EXIF_POINTER, GPS_POINTER];
    let all_gone = gone + both;
    let kept0 = tiff::without_tags(old_entries, all_gone, endian);
    lemma_without_entries(old_entries, all_gone, endian);
    lemma_entry_bytes_tag(EXIF_POINTER, 4, 1, at1 as u32, endian);
    lemma_entry_bytes_tag(GPS_POINTER, 4, 1, at2 as u32, endian);
    let step1 = tiff::with_pointer(kept0, exif_at, EXIF_POINTER, at1, endian);
    let step2 = tiff::with_pointer(step1, gps_at, GPS_POINTER, at2, endian);
    assert(all_entries(step1));
    assert(all_entries(step2));
    sorting_orders_entries(step2, endian);
    assert(all_gone[gone.len() as int] == EXIF_POINTER);
    assert(all_gone[gone.len() as int + 1] == GPS_POINTER);
    assert(all_gone.contains(EXIF_POINTER));
    assert(all_gone.contains(GPS_POINTER));
    assert(both[0] == EXIF_POINTER && both[1] == GPS_POINTER);
    assert forall|tag: u16| !both.contains(tag) implies #[trigger] with_tag(new0, tag, endian)
        == if gone.contains(tag) {
        Seq::<Seq<u8>>::empty()
    } else {
        with_tag(old_entries, tag, endian)
    } by {
        assert(tag != both[0] && tag != both[1]);
        lemma_with_tag_pointer(kept0, exif_at, EXIF_POINTER, at1, tag, endian);
        lemma_with_tag_pointer(step1, gps_at, GPS_POINTER, at2, tag, endian);
        sorting_keeps_entries(step2, tag, endian);
        lemma_without_with(old_entries, all_gone, tag, endian);
        lemma_contains_split(gone, both, tag);
    }
    sorting_keeps_entries(step2, EXIF_POINTER, endian);
    lemma_without_with(old_entries, all_gone, EXIF_POINTER, endian);
    sorting_keeps_entries(step2, GPS_POINTER, endian);
    lemma_without_with(old_entries, all_gone, GPS_POINTER, endian);
    lemma_with_tag_pointer(kept0, exif_at, EXIF_POINTER, at1, EXIF_POINTER, endian);
    lemma_with_tag_pointer(step1, gps_at, GPS_POINTER, at2, EXIF_POINTER, endian);
    lemma_with_tag_pointer(kept0, exif_at, EXIF_POINTER, at1, GPS_POINTER, endian);
    lemma_with_tag_pointer(step1, gps_at, GPS_POINTER, at2, GPS_POINTER, endian);
    assert(seq![tiff::entry_bytes(EXIF_POINTER, 4, 1, at1 as u32, endian)] =~= Seq::<
        Seq<u8>,
    >::empty().push(tiff::entry_bytes(EXIF_POINTER, 4, 1, at1 as u32, endian)));
    assert(seq![tiff::entry_bytes(GPS_POINTER, 4, 1, at2 as u32, endian)] =~= Seq::<
        Seq<u8>,
    >::empty().push(tiff::entry_bytes(GPS_POINTER, 4, 1, at2 as u32, endian)));
}

/// A kept directory, put behind some data, reads back from the whole.
proof fn lemma_kept_directory(
    before: Seq<u8>,
    directory: (Seq<Seq<u8>>, u32),
    gone: Seq<u16>,
    after: Seq<u8>,
    at0: int,
    endian: Endian,
)
    requires
        before.len() >= 8,
        before.len() <= u32::MAX,
        0 <= at0 <= u32::MAX,
        all_entries(directory.0),
        directory.0.len() <= u16::MAX,
    ensures
        ({
            let kept = tiff::without_tags(directory.0, gone, endian);
            let v = tiff::pointed_to(
                before + tiff::ifd_bytes(kept, directory.1, endian) + after,
                at0,
                endian,
            );
            &&& tiff::raw_directory(v, Some(before.len() as u32), endian) == Ok::<
                (Seq<Seq<u8>>, u32),
                Seq<char>,
            >((kept, directory.1))
            &&& kept_but(kept, directory.0, gone, endian)
        }),
{
    let kept = tiff::without_tags(directory.0, gone, endian);
    lemma_without_entries(directory.0, gone, endian);
    let plain = before + tiff::ifd_bytes(kept, directory.1, endian) + after;
    let v = tiff::pointed_to(plain, at0, endian);
    directory_reads_back(before, kept, directory.1, endian, after);
    lemma_pointed_to(plain, at0, endian);
    lemma_raw_ifd_frame(plain, v, before.len() as int, endian);
    assert forall|tag: u16| #[trigger] with_tag(kept, tag, endian) == if gone.contains(tag) {
        Seq::<Seq<u8>>::empty()
    } else {
        with_tag(directory.0, tag, endian)
    } by {
        lemma_without_with(directory.0, gone, tag, endian);
    }
}

/// After entries were taken out, each of the three directories has, for every
/// other tag, the entries that it had, in their order, and none for the tags
/// taken out. The entries of the first directory stand in the order of their tags,
/// and the offset of the directory that follows stays with each. Every byte of the
/// old data but for the header's pointer stays.
pub proof fn removed_tags_are_gone(tiff: Seq<u8>, tags: (Seq<u16>, Seq<u16>, Seq<u16>))
    requires
        tiff::tags_removed(tiff, tags) is Ok,
    ensures
        ({
            let endian = tiff::tiff_endian(tiff)->0;
            let old0 = binary::u32_at(tiff, 4, endian)->0;
            let v = tiff::tags_removed(tiff, tags)->Ok_0;
            let new0 = binary::u32_at(v, 4, endian)->0;
            let old1 = tiff::pointed_offset(tiff, old0 as int, endian, EXIF_POINTER);
            let new1 = tiff::pointed_offset(v, new0 as int, endian, EXIF_POINTER);
            let old2 = tiff::gps_offset(tiff, old0 as int, endian);
            let new2 = tiff::gps_offset(v, new0 as int, endian);
            &&& tiff::tiff_endian(v) == Some(endian)
            &&& binary::u16_at(v, 2, endian) == Some(42u16)
            &&& tiff::raw_directory(v, Some(new0), endian) matches Ok((entries, next))
                && kept_but_pointers(
                entries,
                (tiff::raw_directory(tiff, Some(old0), endian)->Ok_0).0,
                tags.0,
                seq![EXIF_POINTER, GPS_POINTER],
                endian,
            ) && in_order(entries, endian) && next == (tiff::raw_directory(tiff, Some(old0), endian)->Ok_0).1
            &&& (new1 is Some) == (old1 is Some)
            &&& tiff::raw_directory(v, new1, endian) matches Ok((entries, next)) && kept_but(
                entries,
                (tiff::raw_directory(tiff, old1, endian)->Ok_0).0,
                tags.1,
                endian,
            ) && next == (tiff::raw_directory(tiff, old1, endian)->Ok_0).1
            &&& (new2 is Some) == (old2 is Some)
            &&& tiff::raw_directory(v, new2, endian) matches Ok((entries, next)) && kept_but(
                entries,
                (tiff::raw_directory(tiff, old2, endian)->Ok_0).0,
                tags.2,
                endian,
            ) && next == (tiff::raw_directory(tiff, old2, endian)->Ok_0).1
            &&& tiff.len() <= v.len()
            &&& forall|i: int| 0 <= i < tiff.len() && !(4 <= i < 8) ==> #[trigger] v[i] == tiff[i]
        }),
{
    let endian = tiff::tiff_endian(tiff)->0;
    let old0 = binary::u32_at(tiff, 4, endian)->0;
    let dir0 = tiff::raw_directory(tiff, Some(old0), endian)->Ok_0;
    let old1 = tiff::pointed_offset(tiff, old0 as int, endian, EXIF_POINTER);
    let dir1 = tiff::raw_directory(tiff, old1, endian)->Ok_0;
    let old2 = tiff::gps_offset(tiff, old0 as int, endian);
    let dir2 = tiff::raw_directory(tiff, old2, endian)->Ok_0;
    lemma_raw_ifd_entries(tiff, old0 as int, endian);
    if old1 is Some {
        lemma_raw_ifd_entries(tiff, old1->0 as int, endian);
    }
    if old2 is Some {
        lemma_raw_ifd_entries(tiff, old2->0 as int, endian);
    }
    lemma_removed_parts(
        tiff,
        endian,
        dir0,
        old1,
        dir1,
        old2,
        dir2,
        tags,
        tiff::tags_removed(tiff, tags)->Ok_0,
    );
}

/// What the three directories hold once tags were taken out of them.
proof fn lemma_removed_parts(
    tiff: Seq<u8>,
    endian: Endian,
    dir0: (Seq<Seq<u8>>, u32),
    old1: Option<u32>,
    dir1: (Seq<Seq<u8>>, u32),
    old2: Option<u32>,
    dir2: (Seq<Seq<u8>>, u32),
    tags: (Seq<u16>, Seq<u16>, Seq<u16>),
    v: Seq<u8>,
)
    requires
        tiff.len() >= 8,
        all_entries(dir0.0),
        all_entries(dir1.0),
        all_entries(dir2.0),
        dir1.0.len() <= u16::MAX,
        dir2.0.len() <= u16::MAX,
        old1 is None ==> dir1.0.len() == 0 && dir1.1 == 0,
        old2 is None ==> dir2.0.len() == 0 && dir2.1 == 0,
        tiff::removed_layout(tiff, endian, dir0, old1, dir1, old2, dir2, tags) == Ok::<
            Seq<u8>,
            Seq<char>,
        >(v),
    ensures
        tiff::tiff_endian(v) == tiff::tiff_endian(tiff),
        binary::u16_at(v, 2, endian) == binary::u16_at(tiff, 2, endian),
        binary::u32_at(v, 4, endian) is Some,
        ({
            let new0 = binary::u32_at(v, 4, endian)->0;
            let new1 = tiff::pointed_offset(v, new0 as int, endian, EXIF_POINTER);
            let new2 = tiff::gps_offset(v, new0 as int, endian);
            &&& tiff::raw_directory(v, Some(new0), endian) matches Ok((entries, next))
                && kept_but_pointers(
                entries,
                dir0.0,
                tags.0,
                seq![EXIF_POINTER, GPS_POINTER],
                endian,
            ) && in_order(entries, endian) && next == dir0.1
            &&& (new1 is Some) == (old1 is Some)
            &&& tiff::raw_directory(v, new1, endian) matches Ok((entries, next)) && kept_but(
                entries,
                dir1.0,
                tags.1,
                endian,
            ) && next == dir1.1
            &&& (new2 is Some) == (old2 is Some)
            &&& tiff::raw_directory(v, new2, endian) matches Ok((entries, next)) && kept_but(
                entries,
                dir2.0,
                tags.2,
                endian,
            ) && next == dir2.1
        }),
        tiff.len() <= v.len(),
        forall|i: int| 0 <= i < tiff.len() && !(4 <= i < 8) ==> #[trigger] v[i] == tiff[i],
{
    let base = tiff::even(tiff);
    let kept1 = tiff::without_tags(dir1.0, tags.1, endian);
    let kept2 = tiff::without_tags(dir2.0, tags.2, endian);
    let at1 = base.len() as int;
    let out1 = tiff::with_directory(base, old1, kept1, dir1.1, endian);
    let at2 = out1.len() as int;
    let out2 = tiff::with_directory(out1, old2, kept2, dir2.1, endian);
    let at0 = out2.len() as int;
    let kept0 = tiff::without_tags(
        dir0.0,
        tags.0 + seq![EXIF_POINTER, GPS_POINTER],
        endian,
    );
    let new0 = tiff::sorted_by_tag(
        tiff::with_pointer(
            tiff::with_pointer(kept0, old1, EXIF_POINTER, at1, endian),
            old2,
            GPS_POINTER,
            at2,
            endian,
        ),
        endian,
    );
    lemma_new_first_directory(dir0.0, tags.0, old1, at1, old2, at2, endian, new0);
    let d0 = tiff::ifd_bytes(new0, dir0.1, endian);
    assert(v == tiff::pointed_to(out2 + d0, at0, endian));
    lemma_first_of_removed(out2, new0, dir0.1, endian, v);
    sorting_orders_entries(
        tiff::with_pointer(
            tiff::with_pointer(kept0, old1, EXIF_POINTER, at1, endian),
            old2,
            GPS_POINTER,
            at2,
            endian,
        ),
        endian,
    );
    let tail = if old2 is Some {
        tiff::ifd_bytes(kept2, dir2.1, endian) + d0
    } else {
        d0
    };
    if old1 is Some {
        assert(base + tiff::ifd_bytes(kept1, dir1.1, endian) + tail =~= out2 + d0);
    }
    lemma_second_of_removed(base, old1, dir1, tags.1, tail, v, at0, new0, EXIF_POINTER, endian);
    lemma_second_of_removed(out1, old2, dir2, tags.2, d0, v, at0, new0, GPS_POINTER, endian);
    assert forall|i: int| 0 <= i < tiff.len() && !(4 <= i < 8) implies #[trigger] v[i]
        == tiff[i] by {
        assert(v[i] == out2[i]);
    }
}

proof fn lemma_first_of_removed(
    out: Seq<u8>,
    new0: Seq<Seq<u8>>,
    next0: u32,
    endian: Endian,
    v: Seq<u8>,
)
    requires
        8 <= out.len() <= u32::MAX,
        all_entries(new0),
        new0.len() <= u16::MAX,
        v == tiff::pointed_to(
            out + tiff::ifd_bytes(new0, next0, endian),
            out.len() as int,
            endian,
        ),
    ensures
        binary::u32_at(v, 4, endian) == Some(out.len() as u32),
        tiff::raw_ifd(v, out.len() as int, endian) == Ok::<Seq<Seq<u8>>, Seq<char>>(new0),
        tiff::raw_directory(v, Some(out.len() as u32), endian) == Ok::<
            (Seq<Seq<u8>>, u32),
            Seq<char>,
        >((new0, next0)),
        tiff::tiff_endian(v) == tiff::tiff_endian(out),
        binary::u16_at(v, 2, endian) == binary::u16_at(out, 2, endian),
        out.len() <= v.len(),
        forall|i: int| 0 <= i < out.len() && !(4 <= i < 8) ==> #[trigger] v[i] == out[i],
{
    let at0 = out.len() as int;
    let plain = out + tiff::ifd_bytes(new0, next0, endian);
    directory_reads_back(out, new0, next0, endian, Seq::empty());
    assert(plain + Seq::<u8>::empty() =~= plain);
    lemma_pointed_to(plain, at0, endian);
    lemma_raw_ifd_frame(plain, v, at0, endian);
    assert forall|i: int| 0 <= i < out.len() && !(4 <= i < 8) implies #[trigger] v[i]
        == out[i] by {
        assert(v[i] == plain[i]);
    }
}

proof fn lemma_second_of_removed(
    before: Seq<u8>,
    offset: Option<u32>,
    directory: (Seq<Seq<u8>>, u32),
    gone: Seq<u16>,
    after: Seq<u8>,
    v: Seq<u8>,
    at0: int,
    new0: Seq<Seq<u8>>,
    tag: u16,
    endian: Endian,
)
    requires
        8 <= before.len(),
        offset is Some ==> before.len() <= u32::MAX,
        0 <= at0 <= u32::MAX,
        all_entries(directory.0),
        directory.0.len() <= u16::MAX,
        tiff::raw_ifd(v, at0, endian) == Ok::<Seq<Seq<u8>>, Seq<char>>(new0),
        with_tag(new0, tag, endian) == (if offset is Some {
            seq![tiff::entry_bytes(tag, 4, 1, before.len() as u32, endian)]
        } else {
            Seq::<Seq<u8>>::empty()
        }),
        offset is Some ==> v == tiff::pointed_to(
            before + tiff::ifd_bytes(
                tiff::without_tags(directory.0, gone, endian),
                directory.1,
                endian,
            ) + after,
            at0,
            endian,
        ),
        offset is None ==> directory.0.len() == 0 && directory.1 == 0,
    ensures
        tiff::pointed_offset(v, at0, endian, tag) == (if offset is Some {
            Some(before.len() as u32)
        } else {
            None
        }),
        before.len() <= u32::MAX ==> before.len() as u32 > 0,
        tiff::raw_directory(
            v,
            tiff::pointed_offset(v, at0, endian, tag),
            endian,
        ) matches Ok((entries, next)) && kept_but(entries, directory.0, gone, endian) && next
            == directory.1,
{
    if offset is Some {
        lemma_points_to(v, at0, endian, new0, tag, before.len() as int);
        lemma_kept_directory(before, directory, gone, after, at0, endian);
    } else {
        lemma_no_entry(v, at0, endian, tag, new0);
        assert(directory.0 =~= Seq::<Seq<u8>>::empty());
        assert(kept_but(Seq::<Seq<u8>>::empty(), directory.0, gone, endian));
    }
}

proof fn lemma_contains_split(a: Seq<u16>, b: Seq<u16>, tag: u16)
    requires
        !b.contains(tag),
    ensures
        (a + b).contains(tag) == a.contains(tag),
{
    if a.contains(tag) {
        let i = choose|i: int| 0 <= i < a.len() && a[i] == tag;
        assert((a + b)[i] == tag);
    }
    if (a + b).contains(tag) {
        let i = choose|i: int| 0 <= i < (a + b).len() && (a + b)[i] == tag;
        if i >= a.len() {
            assert(b[i - a.len()] == tag);
        } else {
            assert(a[i] == tag);
        }
    }
}

/// An entry that stands in both data with the same twelve bytes has the same
/// value in both, if the value does not reach into the header's pointer.
pub proof fn moved_entry_keeps_its_value(
    old_data: Seq<u8>,
    old_pos: int,
    new_data: Seq<u8>,
    new_pos: int,
    endian: Endian,
)
    requires
        0 <= old_pos,
        old_pos + 12 <= old_data.len(),
        0 <= new_pos,
        new_pos + 12 <= new_data.len(),
        old_data.subrange(old_pos, old_pos + 12) == new_data.subrange(new_pos, new_pos + 12),
        old_data.len() <= new_data.len(),
        forall|i: int|
            0 <= i < old_data.len() && !(4 <= i < 8) ==> #[trigger] new_data[i] == old_data[i],
        tiff::value_range(old_data, old_pos, endian) matches Some((start, end)) && (start >= 8
            || end <= 4),
    ensures
        tiff::type_at(new_data, new_pos, endian) == tiff::type_at(old_data, old_pos, endian),
        tiff::value_bytes(new_data, new_pos, endian) == tiff::value_bytes(
            old_data,
            old_pos,
            endian,
        ),
{
    reveal(tiff::value_range);
    let a = old_data.subrange(old_pos, old_pos + 12);
    let b = new_data.subrange(new_pos, new_pos + 12);
    assert(forall|i: int| 0 <= i < 12 ==> old_data[old_pos + i] == #[trigger] a[i]);
    assert(forall|i: int| 0 <= i < 12 ==> new_data[new_pos + i] == #[trigger] b[i]);
    assert(old_data[old_pos + 2] == a[2] && old_data[old_pos + 3] == a[3]);
    assert(new_data[new_pos + 2] == b[2] && new_data[new_pos + 3] == b[3]);
    assert(tiff::type_at(new_data, new_pos, endian) == tiff::type_at(old_data, old_pos, endian));
    assert(old_data[old_pos + 4] == a[4] && old_data[old_pos + 5] == a[5] && old_data[old_pos + 6]
        == a[6] && old_data[old_pos + 7] == a[7]);
    assert(new_data[new_pos + 4] == b[4] && new_data[new_pos + 5] == b[5] && new_data[new_pos + 6]
        == b[6] && new_data[new_pos + 7] == b[7]);
    assert(tiff::count_at(new_data, new_pos, endian) == tiff::count_at(old_data, old_pos, endian));
    assert(old_data[old_pos + 8] == a[8] && old_data[old_pos + 9] == a[9] && old_data[old_pos + 10]
        == a[10] && old_data[old_pos + 11] == a[11]);
    assert(new_data[new_pos + 8] == b[8] && new_data[new_pos + 9] == b[9] && new_data[new_pos + 10]
        == b[10] && new_data[new_pos + 11] == b[11]);
    assert(tiff::offset_at(new_data, new_pos, endian) == tiff::offset_at(
        old_data,
        old_pos,
        endian,
    ));
    let (start, end) = tiff::value_range(old_data, old_pos, endian)->0;
    let (s2, e2) = tiff::value_range(new_data, new_pos, endian)->0;
    if end - start <= 4 {
        assert(old_data.subrange(start, end) =~= a.subrange(8, 8 + (end - start)));
        assert(new_data.subrange(s2, e2) =~= b.subrange(8, 8 + (end - start)));
    } else {
        assert(old_data.subrange(start, end) =~= new_data.subrange(start, end));
    }
}

} // verus!
