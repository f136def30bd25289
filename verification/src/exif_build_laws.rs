//! What is read from a basic EXIF structure that was built.
use crate::binary::{self, Endian};
use crate::datetime::{self, Moment};
use crate::exif::{self, ExifMetadata, Field};
use crate::exif_build::{self, BasicModel, EntryModel};
use crate::exif_edit;
use crate::exif_laws;
use crate::exif_values;
use crate::exif_write;
use crate::jpeg;
use crate::text;
use crate::tiff;
use vstd::prelude::*;

verus! {

/// The value has the length that the type and the number of an entry give it.
pub open spec fn well_sized(e: EntryModel) -> bool {
    tiff::unit_size(e.field_type) matches Some(size) && size * e.count == e.value.len()
}

pub open spec fn all_well_sized(es: Seq<EntryModel>) -> bool {
    forall|i: int| 0 <= i < es.len() ==> well_sized(#[trigger] es[i])
}

/// The tags stand in rising order.
pub open spec fn rising(es: Seq<EntryModel>) -> bool {
    forall|i: int, j: int| 0 <= i < j < es.len() ==> (#[trigger] es[i]).tag < (#[trigger] es[j]).tag
}

proof fn lemma_table_entry(es: Seq<EntryModel>, n: int, base: int, i: int)
    requires
        0 <= i < n <= es.len(),
    ensures
        exif_build::table_bytes(es, n, base).len() == 12 * n,
        exif_build::table_bytes(es, n, base).subrange(12 * i, 12 * i + 12)
            == exif_build::built_bytes(es[i], base + exif_build::extras(es, i).len()),
    decreases n,
{
    exif_build::lemma_table_len(es, n, base);
    exif_build::lemma_table_len(es, n - 1, base);
    let t = exif_build::table_bytes(es, n, base);
    let u = exif_build::table_bytes(es, n - 1, base);
    let e = exif_build::built_bytes(es[n - 1], base + exif_build::extras(es, n - 1).len());
    exif_build::lemma_built_bytes_len(es[n - 1], base + exif_build::extras(es, n - 1).len());
    assert(t == u + e);
    if i < n - 1 {
        lemma_table_entry(es, n - 1, base, i);
        assert(t.subrange(12 * i, 12 * i + 12) =~= u.subrange(12 * i, 12 * i + 12));
    } else {
        assert(t.subrange(12 * i, 12 * i + 12) =~= e);
    }
}

proof fn lemma_extra_part(es: Seq<EntryModel>, n: int, i: int)
    requires
        0 <= i < n <= es.len(),
    ensures
        exif_build::extras(es, i).len() + exif_build::extra(es[i]).len() <= exif_build::extras(
            es,
            n,
        ).len(),
        exif_build::extras(es, n).subrange(
            exif_build::extras(es, i).len() as int,
            (exif_build::extras(es, i).len() + exif_build::extra(es[i]).len()) as int,
        ) == exif_build::extra(es[i]),
    decreases n,
{
    let x = exif_build::extras(es, n);
    let y = exif_build::extras(es, n - 1);
    assert(x == y + exif_build::extra(es[n - 1]));
    let a = exif_build::extras(es, i).len() as int;
    let b = a + exif_build::extra(es[i]).len();
    if i < n - 1 {
        lemma_extra_part(es, n - 1, i);
        assert(x.subrange(a, b) =~= y.subrange(a, b));
    } else {
        assert(x.subrange(a, b) =~= exif_build::extra(es[i]));
    }
}

/// The fields of an entry that was built.
proof fn lemma_built_fields(data: Seq<u8>, pos: int, e: EntryModel, offset: int)
    requires
        0 <= pos,
        pos + 12 <= data.len(),
        data.subrange(pos, pos + 12) == exif_build::built_bytes(e, offset),
        0 <= offset <= u32::MAX,
    ensures
        tiff::tag_at(data, pos, Endian::Little) == e.tag,
        tiff::type_at(data, pos, Endian::Little) == e.field_type,
        tiff::count_at(data, pos, Endian::Little) == e.count,
        e.value.len() > 4 ==> tiff::offset_at(data, pos, Endian::Little) == offset,
        e.value.len() <= 4 ==> data.subrange(pos + 8, pos + 8 + e.value.len()) == e.value,
{
    let raw = data.subrange(pos, pos + 12);
    binary::u16_bytes_read_back(e.tag, Endian::Little);
    binary::u16_bytes_read_back(e.field_type, Endian::Little);
    binary::u32_bytes_read_back(e.count, Endian::Little);
    binary::u32_bytes_read_back(offset as u32, Endian::Little);
    let a = binary::u16_bytes(e.tag, Endian::Little);
    let b = binary::u16_bytes(e.field_type, Endian::Little);
    let c = binary::u32_bytes(e.count, Endian::Little);
    let d = if e.value.len() <= 4 {
        e.value + exif_build::zeros(4 - e.value.len())
    } else {
        binary::u32_bytes(offset as u32, Endian::Little)
    };
    assert(raw == a + b + c + d);
    assert(forall|i: int| 0 <= i < 12 ==> data[pos + i] == #[trigger] raw[i]);
    assert(raw[0] == a[0] && raw[1] == a[1] && raw[2] == b[0] && raw[3] == b[1]);
    assert(raw[4] == c[0] && raw[5] == c[1] && raw[6] == c[2] && raw[7] == c[3]);
    assert(raw[8] == d[0] && raw[9] == d[1] && raw[10] == d[2] && raw[11] == d[3]);
    if e.value.len() <= 4 {
        assert(data.subrange(pos + 8, pos + 8 + e.value.len()) =~= raw.subrange(
            8,
            8 + e.value.len() as int,
        ));
        assert(raw.subrange(8, 8 + e.value.len() as int) =~= e.value);
    }
}

/// A directory that was built is read with its entries, in their order, and
/// each entry has its value.
pub proof fn built_directory_reads_back(
    before: Seq<u8>,
    es: Seq<EntryModel>,
    after: Seq<u8>,
    i: int,
)
    requires
        all_well_sized(es),
        es.len() <= 65535,
        0 <= i < es.len(),
        before.len() + exif_build::built_ifd(es, before.len() as int).len() <= u32::MAX,
    ensures
        ({
            let data = before + exif_build::built_ifd(es, before.len() as int) + after;
            let p = tiff::entry_pos(before.len() as int, i);
            &&& tiff::ifd_len(data, before.len() as int, Endian::Little) == Some(es.len())
            &&& tiff::tag_at(data, p, Endian::Little) == es[i].tag
            &&& tiff::type_at(data, p, Endian::Little) == es[i].field_type
            &&& tiff::value_bytes(data, p, Endian::Little) == Some(es[i].value)
        }),
{
    let at = before.len() as int;
    let n = es.len() as int;
    let data = before + exif_build::built_ifd(es, at) + after;
    let base = at + 6 + 12 * n;
    let count = binary::u16_bytes(es.len() as u16, Endian::Little);
    let table = exif_build::table_bytes(es, n, base);
    let next = binary::u32_bytes(0, Endian::Little);
    let values = exif_build::extras(es, n);
    let p = tiff::entry_pos(at, i);
    let e = es[i];
    let offset = base + exif_build::extras(es, i).len();
    binary::u16_bytes_read_back(es.len() as u16, Endian::Little);
    binary::u32_bytes_read_back(0, Endian::Little);
    lemma_table_entry(es, n, base, i);
    lemma_extra_part(es, n, i);
    assert(data =~= before + count + table + next + values + after);
    assert(data[at] == count[0] && data[at + 1] == count[1]);
    assert(data.subrange(p, p + 12) =~= table.subrange(12 * i, 12 * i + 12));
    lemma_built_fields(data, p, e, offset);
    assert(data.subrange(base, base + values.len()) =~= values);
    let a = exif_build::extras(es, i).len() as int;
    if e.value.len() > 4 {
        assert(data.subrange(offset, offset + e.value.len()) =~= values.subrange(
            a,
            a + e.value.len(),
        ));
    }
    assert(well_sized(e));
    assert(tiff::value_range(data, p, Endian::Little) == Some(
        if e.value.len() <= 4 {
            (p + 8, p + 8 + e.value.len())
        } else {
            (offset, offset + e.value.len())
        },
    )) by {
        reveal(tiff::value_range);
    }
}

proof fn lemma_count(before: Seq<u8>, es: Seq<EntryModel>, after: Seq<u8>)
    requires
        es.len() <= 65535,
    ensures
        tiff::ifd_len(
            before + exif_build::built_ifd(es, before.len() as int) + after,
            before.len() as int,
            Endian::Little,
        ) == Some(es.len()),
{
    let at = before.len() as int;
    let data = before + exif_build::built_ifd(es, at) + after;
    let count = binary::u16_bytes(es.len() as u16, Endian::Little);
    exif_build::lemma_built_len(es, at);
    binary::u16_bytes_read_back(es.len() as u16, Endian::Little);
    assert(exif_build::built_ifd(es, at)[0] == count[0]);
    assert(exif_build::built_ifd(es, at)[1] == count[1]);
    assert(data[at] == count[0] && data[at + 1] == count[1]);
}

proof fn lemma_last_of_rising(
    before: Seq<u8>,
    es: Seq<EntryModel>,
    after: Seq<u8>,
    i: int,
    n: int,
)
    requires
        all_well_sized(es),
        rising(es),
        es.len() <= 65535,
        0 <= i < n <= es.len(),
        before.len() + exif_build::built_ifd(es, before.len() as int).len() <= u32::MAX,
    ensures
        tiff::last_among(
            before + exif_build::built_ifd(es, before.len() as int) + after,
            before.len() as int,
            Endian::Little,
            es[i].tag,
            n,
        ) == Some(tiff::entry_pos(before.len() as int, i)),
    decreases n,
{
    built_directory_reads_back(before, es, after, n - 1);
    if i < n - 1 {
        assert(es[i].tag < es[n - 1].tag);
        lemma_last_of_rising(before, es, after, i, n - 1);
    }
}

proof fn lemma_first_of_rising(
    before: Seq<u8>,
    es: Seq<EntryModel>,
    after: Seq<u8>,
    i: int,
    k: int,
)
    requires
        all_well_sized(es),
        rising(es),
        es.len() <= 65535,
        0 <= k <= i < es.len(),
        before.len() + exif_build::built_ifd(es, before.len() as int).len() <= u32::MAX,
    ensures
        tiff::first_from(
            before + exif_build::built_ifd(es, before.len() as int) + after,
            before.len() as int,
            Endian::Little,
            es[i].tag,
            k,
            es.len() as int,
        ) == Some(tiff::entry_pos(before.len() as int, i)),
    decreases i - k,
{
    built_directory_reads_back(before, es, after, k);
    if k < i {
        assert(es[k].tag < es[i].tag);
        lemma_first_of_rising(before, es, after, i, k + 1);
    }
}

/// The entry with a given tag is found in a directory that was built, from
/// either end, and has its value.
pub proof fn built_entry_is_found(
    before: Seq<u8>,
    es: Seq<EntryModel>,
    after: Seq<u8>,
    e: EntryModel,
)
    requires
        all_well_sized(es),
        rising(es),
        es.len() <= 65535,
        es.contains(e),
        before.len() + exif_build::built_ifd(es, before.len() as int).len() <= u32::MAX,
    ensures
        ({
            let data = before + exif_build::built_ifd(es, before.len() as int) + after;
            let at = before.len() as int;
            &&& tiff::last_entry(data, at, Endian::Little, e.tag) matches Some(p)
            &&& tiff::first_entry(data, at, Endian::Little, e.tag) == Some(p)
            &&& tiff::type_at(data, p, Endian::Little) == e.field_type
            &&& tiff::value_bytes(data, p, Endian::Little) == Some(e.value)
        }),
{
    let i = choose|i: int| 0 <= i < es.len() && es[i] == e;
    built_directory_reads_back(before, es, after, i);
    lemma_last_of_rising(before, es, after, i, es.len() as int);
    lemma_first_of_rising(before, es, after, i, 0);
}

// The two directories of a basic structure.

/// The entries are in order, well sized and have no other tags than some,
/// which are all below a limit.
#[verifier::opaque]
spec fn ordered(es: Seq<EntryModel>, tags: Seq<u16>, limit: u16) -> bool {
    &&& all_well_sized(es)
    &&& rising(es)
    &&& forall|i: int|
        0 <= i < es.len() ==> tags.contains((#[trigger] es[i]).tag) && es[i].tag < limit
}

/// The second sequence has every entry of the first.
#[verifier::opaque]
spec fn includes(a: Seq<EntryModel>, b: Seq<EntryModel>) -> bool {
    forall|x: EntryModel| a.contains(x) ==> b.contains(x)
}

proof fn lemma_includes(a: Seq<EntryModel>, b: Seq<EntryModel>, x: EntryModel)
    requires
        includes(a, b),
        a.contains(x),
    ensures
        b.contains(x),
{
    reveal(includes);
}

proof fn lemma_included(a: Seq<EntryModel>, b: Seq<EntryModel>, c: Seq<EntryModel>)
    requires
        includes(a, b),
        includes(b, c),
    ensures
        includes(a, c),
{
    reveal(includes);
}

/// One more entry, whose tag is higher than the others.
proof fn lemma_pushed(es: Seq<EntryModel>, e: EntryModel, tags: Seq<u16>, next: u16)
    requires
        ordered(es, tags, e.tag),
        well_sized(e),
        tags.contains(e.tag),
        e.tag < next,
    ensures
        ordered(es.push(e), tags, next),
        es.push(e).contains(e),
        includes(es, es.push(e)),
        includes(es.push(e), es.push(e)),
        es.push(e).len() == es.len() + 1,
{
    reveal(ordered);
    reveal(includes);
    let fs = es.push(e);
    assert(fs[fs.len() - 1] == e);
    assert forall|x: EntryModel| es.contains(x) implies #[trigger] fs.contains(x) by {
        let k = choose|k: int| 0 <= k < es.len() && es[k] == x;
        assert(fs[k] == x);
    }
}

proof fn lemma_kept(es: Seq<EntryModel>, tags: Seq<u16>, limit: u16, next: u16)
    requires
        ordered(es, tags, limit),
        limit <= next,
    ensures
        ordered(es, tags, next),
        includes(es, es),
{
    reveal(ordered);
    reveal(includes);
}

/// The step from some entries to those with one more, if there is one.
spec fn stepped(
    es: Seq<EntryModel>,
    fs: Seq<EntryModel>,
    e: Option<EntryModel>,
    tags: Seq<u16>,
    next: u16,
) -> bool {
    &&& ordered(fs, tags, next)
    &&& includes(es, fs)
    &&& es.len() <= fs.len() <= es.len() + 1
    &&& e matches Some(x) ==> fs.contains(x)
}

proof fn lemma_step_short(
    es: Seq<EntryModel>,
    tag: u16,
    value: Option<u16>,
    tags: Seq<u16>,
    next: u16,
)
    requires
        ordered(es, tags, tag),
        tags.contains(tag),
        tag < next,
    ensures
        stepped(
            es,
            exif_build::with_short(es, tag, value),
            match value {
                Some(v) => Some(exif_build::short_entry(tag, v)),
                None => None,
            },
            tags,
            next,
        ),
{
    match value {
        Some(v) => {
            lemma_number_sized(tag, v, 0, (0, 0));
            lemma_pushed(es, exif_build::short_entry(tag, v), tags, next);
        },
        None => lemma_kept(es, tags, tag, next),
    }
}

proof fn lemma_step_rational(
    es: Seq<EntryModel>,
    tag: u16,
    value: Option<(u32, u32)>,
    tags: Seq<u16>,
    next: u16,
)
    requires
        ordered(es, tags, tag),
        tags.contains(tag),
        tag < next,
    ensures
        stepped(
            es,
            exif_build::with_rational(es, tag, value),
            match value {
                Some(v) => Some(exif_build::rational_entry(tag, v)),
                None => None,
            },
            tags,
            next,
        ),
{
    match value {
        Some(v) => {
            lemma_number_sized(tag, 0, 0, v);
            lemma_pushed(es, exif_build::rational_entry(tag, v), tags, next);
        },
        None => lemma_kept(es, tags, tag, next),
    }
}

proof fn lemma_step_date(
    es: Seq<EntryModel>,
    tag: u16,
    value: Option<Seq<char>>,
    tags: Seq<u16>,
    next: u16,
)
    requires
        ordered(es, tags, tag),
        tags.contains(tag),
        tag < next,
        value matches Some(t) ==> small_text(t),
    ensures
        stepped(
            es,
            exif_build::with_date(es, tag, value),
            match value {
                Some(v) => Some(exif_build::ascii_entry(tag, v, 0)),
                None => None,
            },
            tags,
            next,
        ),
{
    match value {
        Some(v) => {
            lemma_ascii_sized(tag, v, 0);
            lemma_pushed(es, exif_build::ascii_entry(tag, v, 0), tags, next);
        },
        None => lemma_kept(es, tags, tag, next),
    }
}

proof fn lemma_step_text(
    es: Seq<EntryModel>,
    tag: u16,
    value: Seq<char>,
    tags: Seq<u16>,
    next: u16,
)
    requires
        ordered(es, tags, tag),
        tags.contains(tag),
        tag < next,
        small_text(exif_values::entered(value)),
    ensures
        stepped(
            es,
            exif_build::with_text(es, tag, value),
            Some(entered_entry(tag, value)),
            tags,
            next,
        ),
        exif_build::with_text(es, tag, value).len() == es.len() + 1,
{
    lemma_ascii_sized(tag, exif_values::entered(value), 64);
    lemma_pushed(es, entered_entry(tag, value), tags, next);
}

pub open spec fn small_text(value: Seq<char>) -> bool {
    vstd::utf8::encode_utf8(value).len() < u32::MAX
}

proof fn lemma_ascii_sized(tag: u16, value: Seq<char>, min: int)
    requires
        small_text(value),
        0 <= min <= 64,
    ensures
        well_sized(exif_build::ascii_entry(tag, value, min)),
{
    let e = exif_build::ascii_entry(tag, value, min);
    assert(e.value.len() == e.count);
    assert(1nat * e.count == e.value.len());
}

proof fn lemma_number_sized(tag: u16, a: u16, b: u32, c: (u32, u32))
    ensures
        well_sized(exif_build::short_entry(tag, a)),
        well_sized(exif_build::long_entry(tag, b)),
        well_sized(exif_build::rational_entry(tag, c)),
{
    binary::u16_bytes_read_back(a, Endian::Little);
    binary::u32_bytes_read_back(b, Endian::Little);
    binary::u32_bytes_read_back(c.0, Endian::Little);
    binary::u32_bytes_read_back(c.1, Endian::Little);
}

/// The texts of the metadata are not too long for an EXIF structure.
pub open spec fn small_texts(m: ExifMetadata, b: BasicModel) -> bool {
    &&& small_text(exif_values::entered(m.camera_make@))
    &&& small_text(exif_values::entered(m.camera_model@))
    &&& small_text(exif_values::entered(m.software@))
    &&& small_text(exif_values::entered(m.artist@))
    &&& small_text(exif_values::entered(m.lens_model@))
    &&& b.datetime matches Some(t) ==> small_text(t)
}

/// The entry of an entered text.
pub open spec fn entered_entry(tag: u16, value: Seq<char>) -> EntryModel {
    exif_build::ascii_entry(tag, exif_values::entered(value), 64)
}

proof fn lemma_first_entries(m: ExifMetadata, b: BasicModel, at: int)
    requires
        small_texts(m, b),
    ensures
        ({
            let es = exif_build::first_entries(m, b, at);
            &&& ordered(es, exif_edit::basic_first_tags(), 0xffff)
            &&& 5 <= es.len() <= 7
            &&& es.contains(entered_entry(0x010f, m.camera_make@))
            &&& es.contains(entered_entry(0x0110, m.camera_model@))
            &&& b.orientation is Some ==> es.contains(
                exif_build::short_entry(0x0112, b.orientation->0),
            )
            &&& es.contains(entered_entry(0x0131, m.software@))
            &&& b.datetime is Some ==> es.contains(
                exif_build::ascii_entry(0x0132, b.datetime->0, 0),
            )
            &&& es.contains(entered_entry(0x013b, m.artist@))
            &&& es.contains(exif_build::long_entry(tiff::EXIF_POINTER, at as u32))
        }),
{
    let tags = exif_edit::basic_first_tags();
    assert(tags[0] == 0x010f && tags[1] == 0x0110 && tags[2] == 0x0112 && tags[3] == 0x0131 && tags[4] == 0x0132 && tags[5] == 0x013b && tags[6] == 0x8769);
    let e0 = Seq::<EntryModel>::empty();
    assert(ordered(e0, tags, 0x010f)) by {
        reveal(ordered);
    }
    lemma_step_text(e0, 0x010f, m.camera_make@, tags, 0x0110);
    let e1 = exif_build::with_text(e0, 0x010f, m.camera_make@);
    lemma_step_text(e1, 0x0110, m.camera_model@, tags, 0x0112);
    let e2 = exif_build::with_text(e1, 0x0110, m.camera_model@);
    lemma_step_short(e2, 0x0112, b.orientation, tags, 0x0131);
    let e3 = exif_build::with_short(e2, 0x0112, b.orientation);
    lemma_step_text(e3, 0x0131, m.software@, tags, 0x0132);
    let e4 = exif_build::with_text(e3, 0x0131, m.software@);
    lemma_step_date(e4, 0x0132, b.datetime, tags, 0x013b);
    let e5 = exif_build::with_date(e4, 0x0132, b.datetime);
    lemma_step_text(e5, 0x013b, m.artist@, tags, 0x8769);
    let e6 = exif_build::with_text(e5, 0x013b, m.artist@);
    lemma_number_sized(tiff::EXIF_POINTER, 0, at as u32, (0, 0));
    lemma_pushed(e6, exif_build::long_entry(tiff::EXIF_POINTER, at as u32), tags, 0xffff);
    let e7 = e6.push(exif_build::long_entry(tiff::EXIF_POINTER, at as u32));
    assert(exif_build::first_entries(m, b, at) == e7);
    assert(includes(e7, e7)) by {
        reveal(includes);
    }
    lemma_included(e6, e7, e7);
    lemma_included(e5, e6, e7);
    lemma_included(e4, e5, e7);
    lemma_included(e3, e4, e7);
    lemma_included(e2, e3, e7);
    lemma_included(e1, e2, e7);
    lemma_includes(e1, e7, entered_entry(0x010f, m.camera_make@));
    lemma_includes(e2, e7, entered_entry(0x0110, m.camera_model@));
    if b.orientation is Some {
        lemma_includes(e3, e7, exif_build::short_entry(0x0112, b.orientation->0));
    }
    lemma_includes(e4, e7, entered_entry(0x0131, m.software@));
    if b.datetime is Some {
        lemma_includes(e5, e7, exif_build::ascii_entry(0x0132, b.datetime->0, 0));
    }
    lemma_includes(e6, e7, entered_entry(0x013b, m.artist@));
}

proof fn lemma_exif_entries(m: ExifMetadata, b: BasicModel)
    requires
        small_texts(m, b),
    ensures
        ({
            let es = exif_build::exif_entries(m, b);
            &&& ordered(es, exif_edit::basic_exif_tags(), 0xffff)
            &&& 1 <= es.len() <= 10
            &&& b.shutter_speed is Some ==> es.contains(
                exif_build::rational_entry(0x829a, b.shutter_speed->0),
            )
            &&& b.aperture is Some ==> es.contains(
                exif_build::rational_entry(0x829d, b.aperture->0),
            )
            &&& b.iso_speed is Some ==> es.contains(
                exif_build::short_entry(0x8827, b.iso_speed->0),
            )
            &&& b.datetime is Some ==> es.contains(
                exif_build::ascii_entry(0x9003, b.datetime->0, 0),
            )
            &&& b.datetime is Some ==> es.contains(
                exif_build::ascii_entry(0x9004, b.datetime->0, 0),
            )
            &&& b.metering_mode is Some ==> es.contains(
                exif_build::short_entry(0x9207, b.metering_mode->0),
            )
            &&& b.flash is Some ==> es.contains(
                exif_build::short_entry(0x9209, b.flash->0),
            )
            &&& b.focal_length is Some ==> es.contains(
                exif_build::rational_entry(0x920a, b.focal_length->0),
            )
            &&& b.color_space is Some ==> es.contains(
                exif_build::short_entry(0xa001, b.color_space->0),
            )
            &&& es.contains(entered_entry(0xa434, m.lens_model@))
        }),
{
    let tags = exif_edit::basic_exif_tags();
    assert(tags[0] == 0x829a && tags[1] == 0x829d && tags[2] == 0x8827 && tags[3] == 0x9003 && tags[4] == 0x9004 && tags[5] == 0x9207 && tags[6] == 0x9209 && tags[7] == 0x920a && tags[8] == 0xa001 && tags[9] == 0xa434);
    let e0 = Seq::<EntryModel>::empty();
    assert(ordered(e0, tags, 0x829a)) by {
        reveal(ordered);
    }
    lemma_step_rational(e0, 0x829a, b.shutter_speed, tags, 0x829d);
    let e1 = exif_build::with_rational(e0, 0x829a, b.shutter_speed);
    lemma_step_rational(e1, 0x829d, b.aperture, tags, 0x8827);
    let e2 = exif_build::with_rational(e1, 0x829d, b.aperture);
    lemma_step_short(e2, 0x8827, b.iso_speed, tags, 0x9003);
    let e3 = exif_build::with_short(e2, 0x8827, b.iso_speed);
    lemma_step_date(e3, 0x9003, b.datetime, tags, 0x9004);
    let e4 = exif_build::with_date(e3, 0x9003, b.datetime);
    lemma_step_date(e4, 0x9004, b.datetime, tags, 0x9207);
    let e5 = exif_build::with_date(e4, 0x9004, b.datetime);
    lemma_step_short(e5, 0x9207, b.metering_mode, tags, 0x9209);
    let e6 = exif_build::with_short(e5, 0x9207, b.metering_mode);
    lemma_step_short(e6, 0x9209, b.flash, tags, 0x920a);
    let e7 = exif_build::with_short(e6, 0x9209, b.flash);
    lemma_step_rational(e7, 0x920a, b.focal_length, tags, 0xa001);
    let e8 = exif_build::with_rational(e7, 0x920a, b.focal_length);
    lemma_step_short(e8, 0xa001, b.color_space, tags, 0xa434);
    let e9 = exif_build::with_short(e8, 0xa001, b.color_space);
    lemma_step_text(e9, 0xa434, m.lens_model@, tags, 0xffff);
    let e10 = exif_build::with_text(e9, 0xa434, m.lens_model@);
    assert(exif_build::exif_entries(m, b) == e10);
    assert(includes(e10, e10)) by {
        reveal(includes);
    }
    lemma_included(e9, e10, e10);
    lemma_included(e8, e9, e10);
    lemma_included(e7, e8, e10);
    lemma_included(e6, e7, e10);
    lemma_included(e5, e6, e10);
    lemma_included(e4, e5, e10);
    lemma_included(e3, e4, e10);
    lemma_included(e2, e3, e10);
    lemma_included(e1, e2, e10);
    if b.shutter_speed is Some {
        lemma_includes(e1, e10, exif_build::rational_entry(0x829a, b.shutter_speed->0));
    }
    if b.aperture is Some {
        lemma_includes(e2, e10, exif_build::rational_entry(0x829d, b.aperture->0));
    }
    if b.iso_speed is Some {
        lemma_includes(e3, e10, exif_build::short_entry(0x8827, b.iso_speed->0));
    }
    if b.datetime is Some {
        lemma_includes(e4, e10, exif_build::ascii_entry(0x9003, b.datetime->0, 0));
    }
    if b.datetime is Some {
        lemma_includes(e5, e10, exif_build::ascii_entry(0x9004, b.datetime->0, 0));
    }
    if b.metering_mode is Some {
        lemma_includes(e6, e10, exif_build::short_entry(0x9207, b.metering_mode->0));
    }
    if b.flash is Some {
        lemma_includes(e7, e10, exif_build::short_entry(0x9209, b.flash->0));
    }
    if b.focal_length is Some {
        lemma_includes(e8, e10, exif_build::rational_entry(0x920a, b.focal_length->0));
    }
    if b.color_space is Some {
        lemma_includes(e9, e10, exif_build::short_entry(0xa001, b.color_space->0));
    }
    lemma_includes(e10, e10, entered_entry(0xa434, m.lens_model@));
}

/// What an entry that was built gives in each of the two directories.
#[verifier::spinoff_prover]
#[verifier::rlimit(60)]
proof fn lemma_basic_parts(m: ExifMetadata, b: BasicModel, rest: Seq<u8>)
    requires
        exif_build::basic_tiff_of(m, b).len() <= u32::MAX,
    ensures
        ({
            let data = exif_build::basic_tiff_of(m, b) + rest;
            let at = exif_build::exif_offset(m, b);
            &&& 8 <= at <= u32::MAX
            &&& exif::readable_tiff(data) == Some((Endian::Little, 8u32))
            &&& exif::exif_dir(data, Endian::Little, 8) == Some(at as u32)
            &&& tiff::pointed_offset(data, 8, Endian::Little, tiff::EXIF_POINTER) == Some(at as u32)
            &&& tiff::ifd_len(data, at, Endian::Little) is Some
        }),
        forall|e: EntryModel| #[trigger]
            exif_build::first_entries(m, b, exif_build::exif_offset(m, b)).contains(e)
                ==> holds_entry((exif_build::basic_tiff_of(m, b) + rest), 8, e),
        forall|e: EntryModel| #[trigger]
            exif_build::exif_entries(m, b).contains(e) ==> holds_entry(
                (exif_build::basic_tiff_of(m, b) + rest),
                exif_build::exif_offset(m, b),
                e,
            ),
        exif_edit::only_tags(
            (exif_build::basic_tiff_of(m, b) + rest),
            8,
            Endian::Little,
            exif_edit::basic_first_tags(),
        ),
        exif_edit::only_tags(
            (exif_build::basic_tiff_of(m, b) + rest),
            exif_build::exif_offset(m, b),
            Endian::Little,
            exif_edit::basic_exif_tags(),
        ),
{
    let data = exif_build::basic_tiff_of(m, b) + rest;
    let at = exif_build::exif_offset(m, b);
    let head = exif_build::tiff_header();
    let es = exif_build::first_entries(m, b, at);
    let fs = exif_build::exif_entries(m, b);
    let d0 = exif_build::built_ifd(es, 8);
    let d1 = exif_build::built_ifd(fs, at);
    lemma_small_texts(m, b);
    lemma_header(d0 + d1 + rest);
    assert(data =~= head + (d0 + d1 + rest));
    lemma_first_entries(m, b, at);
    lemma_exif_entries(m, b);
    exif_build::lemma_first_len(m, b, 0, at);
    assert((head + d0).len() == at);
    assert(data =~= head + d0 + (d1 + rest));
    lemma_directory(head, es, d1 + rest, exif_edit::basic_first_tags());
    assert(data =~= (head + d0) + d1 + rest);
    lemma_directory(head + d0, fs, rest, exif_edit::basic_exif_tags());
    let e = exif_build::long_entry(tiff::EXIF_POINTER, at as u32);
    assert(es.contains(e));
    assert(holds_entry(data, 8, e));
    reveal(exif::long_in);
    binary::u32_bytes_read_back(at as u32, Endian::Little);
}

/// An entry is found in a directory, from either end, with its value.
pub open spec fn holds_entry(data: Seq<u8>, dir: int, e: EntryModel) -> bool {
    &&& tiff::last_entry(data, dir, Endian::Little, e.tag) matches Some(p)
    &&& tiff::first_entry(data, dir, Endian::Little, e.tag) == Some(p)
    &&& tiff::type_at(data, p, Endian::Little) == e.field_type
    &&& tiff::value_bytes(data, p, Endian::Little) == Some(e.value)
}

proof fn lemma_directory(before: Seq<u8>, es: Seq<EntryModel>, after: Seq<u8>, tags: Seq<u16>)
    requires
        ordered(es, tags, 0xffff),
        es.len() <= 65535,
        before.len() + exif_build::built_ifd(es, before.len() as int).len() <= u32::MAX,
    ensures
        ({
            let data = before + exif_build::built_ifd(es, before.len() as int) + after;
            &&& tiff::ifd_len(data, before.len() as int, Endian::Little) == Some(es.len())
            &&& exif_edit::only_tags(data, before.len() as int, Endian::Little, tags)
            &&& forall|e: EntryModel| #[trigger]
                es.contains(e) ==> holds_entry(data, before.len() as int, e)
        }),
{
    reveal(ordered);
    let at = before.len() as int;
    let data = before + exif_build::built_ifd(es, at) + after;
    lemma_count(before, es, after);
    assert forall|i: int| 0 <= i < es.len() implies tags.contains(
        #[trigger] tiff::tag_at(data, tiff::entry_pos(at, i), Endian::Little),
    ) by {
        built_directory_reads_back(before, es, after, i);
        assert(tags.contains(es[i].tag));
    }
    assert forall|e: EntryModel| #[trigger] es.contains(e) implies holds_entry(data, at, e) by {
        built_entry_is_found(before, es, after, e);
    }
}

proof fn lemma_header(rest: Seq<u8>)
    ensures
        exif_build::tiff_header().len() == 8,
        tiff::tiff_endian(exif_build::tiff_header() + rest) == Some(Endian::Little),
        binary::u16_at(exif_build::tiff_header() + rest, 2, Endian::Little) == Some(42u16),
        binary::u32_at(exif_build::tiff_header() + rest, 4, Endian::Little) == Some(8u32),
{
    let a = binary::u16_bytes(42, Endian::Little);
    let b = binary::u32_bytes(8, Endian::Little);
    binary::u16_bytes_read_back(42, Endian::Little);
    binary::u32_bytes_read_back(8, Endian::Little);
    let data = exif_build::tiff_header() + rest;
    assert(data[0] == 0x49 && data[1] == 0x49);
    assert forall|i: int| 0 <= i < 2 implies a[i] == #[trigger] data[i + 2] by {}
    assert forall|i: int| 0 <= i < 4 implies b[i] == #[trigger] data[i + 4] by {}
    binary::lemma_u16_at_frame(a, data, 0, 2, Endian::Little);
    binary::lemma_u32_at_frame(b, data, 0, 4, Endian::Little);
}

/// A structure that was built, whatever follows it, is recognised as one that
/// holds nothing but a basic set of data, so it may be built anew.
pub proof fn built_structure_is_basic(m: ExifMetadata, b: BasicModel, rest: Seq<u8>)
    requires
        exif_build::basic_tiff_of(m, b).len() <= u32::MAX,
    ensures
        exif_edit::basic_shape((exif_build::basic_tiff_of(m, b) + rest)),
{
    lemma_small_texts(m, b);
    lemma_basic_parts(m, b, rest);
    lemma_first_entries(m, b, exif_build::exif_offset(m, b));
    let e = entered_entry(0x010f, m.camera_make@);
    let es = exif_build::first_entries(m, b, exif_build::exif_offset(m, b));
    assert(es.contains(e));
    assert(holds_entry((exif_build::basic_tiff_of(m, b) + rest), 8, e));
    let data = exif_build::basic_tiff_of(m, b) + rest;
    let n = tiff::ifd_len(data, 8, Endian::Little)->0;
    assert(n > 0) by {
        if n == 0 {
            assert(tiff::last_entry(data, 8, Endian::Little, 0x010f) is None);
        }
    }
    assert(8u32 as int == 8);
}

proof fn lemma_shown_text(data: Seq<u8>, dir: u32, tag: u16, value: Seq<char>)
    requires
        holds_entry(data, dir as int, entered_entry(tag, value)),
        exif_laws::without_zero(value),
    ensures
        exif::text_or_empty(exif::text_in(data, Some(dir), Endian::Little, tag))
            == exif_values::entered(value),
{
    reveal(exif::text_in);
    let t = exif_values::entered(value);
    let e = entered_entry(tag, value);
    let bytes = exif_write::text_bytes(t);
    let rest = if bytes.len() < 64 {
        64 - bytes.len()
    } else {
        0
    };
    assert(e.value =~= bytes + exif_build::zeros(rest));
    lemma_trim_keeps(value);
    assert(exif_laws::without_zero(t)) by {
        assert forall|i: int| 0 <= i < t.len() implies #[trigger] t[i] != '\0' by {
            let k = choose|k: int| 0 <= k < value.len() && value[k] == text::trim(value)[i];
            assert(value[k] != '\0');
        }
    }
    exif_laws::stored_text_reads_back(t, rest);
    lemma_trim_trim(value);
    if t.len() == 0 {
        assert(t =~= Seq::<char>::empty());
    }
}

proof fn lemma_trim_start_part(s: Seq<char>)
    ensures
        exists|k: int| 0 <= k <= s.len() && text::trim_start(s) == #[trigger] s.skip(k),
        text::trim_start(s).len() > 0 ==> !text::is_white_space(text::trim_start(s)[0]),
    decreases s.len(),
{
    if s.len() > 0 && text::is_white_space(s[0]) {
        lemma_trim_start_part(s.drop_first());
        let k = choose|k: int|
            0 <= k <= s.drop_first().len() && text::trim_start(s.drop_first())
                == #[trigger] s.drop_first().skip(k);
        assert(s.drop_first().skip(k) =~= s.skip(k + 1));
        assert(text::trim_start(s) == s.skip(k + 1));
    } else {
        assert(s.skip(0) =~= s);
        assert(text::trim_start(s) == s.skip(0));
    }
}

proof fn lemma_trim_end_part(s: Seq<char>)
    ensures
        exists|k: int| 0 <= k <= s.len() && text::trim_end(s) == #[trigger] s.take(k),
        text::trim_end(s).len() > 0 ==> !text::is_white_space(text::trim_end(s).last()),
    decreases s.len(),
{
    if s.len() > 0 && text::is_white_space(s.last()) {
        lemma_trim_end_part(s.drop_last());
        let k = choose|k: int|
            0 <= k <= s.drop_last().len() && text::trim_end(s.drop_last())
                == #[trigger] s.drop_last().take(k);
        assert(s.drop_last().take(k) =~= s.take(k));
        assert(text::trim_end(s) == s.take(k));
    } else {
        assert(s.take(s.len() as int) =~= s);
        assert(text::trim_end(s) == s.take(s.len() as int));
    }
}

/// Every character of a trimmed text is one of the text.
proof fn lemma_trim_keeps(s: Seq<char>)
    ensures
        forall|i: int|
            0 <= i < text::trim(s).len() ==> exists|k: int|
                0 <= k < s.len() && s[k] == #[trigger] text::trim(s)[i],
{
    lemma_trim_start_part(s);
    lemma_trim_end_part(text::trim_start(s));
    let a = choose|k: int| 0 <= k <= s.len() && text::trim_start(s) == #[trigger] s.skip(k);
    let u = text::trim_start(s);
    let b = choose|k: int| 0 <= k <= u.len() && text::trim_end(u) == #[trigger] u.take(k);
    assert forall|i: int| 0 <= i < text::trim(s).len() implies exists|k: int|
        0 <= k < s.len() && s[k] == #[trigger] text::trim(s)[i] by {
        assert(text::trim(s)[i] == s[a + i]);
    }
}

/// A text without white space around it stays as it is.
pub proof fn lemma_trim_trim(s: Seq<char>)
    ensures
        text::trim(text::trim(s)) == text::trim(s),
        text::trim(exif_values::entered(s)) == exif_values::entered(s),
{
    lemma_trim_start_part(s);
    let u = text::trim_start(s);
    lemma_trim_end_part(u);
    let t = text::trim(s);
    let b = choose|k: int| 0 <= k <= u.len() && text::trim_end(u) == #[trigger] u.take(k);
    if t.len() > 0 {
        assert(t[0] == u[0]);
        assert(text::trim_start(t) == t);
    } else {
        assert(t =~= Seq::<char>::empty());
    }
    assert(text::trim_end(t) == t);
    let e = Seq::<char>::empty();
    assert(text::trim_start(e) == e);
    assert(text::trim_end(e) == e);
}

proof fn lemma_shown_short(data: Seq<u8>, dir: u32, tag: u16, value: u16)
    requires
        holds_entry(data, dir as int, exif_build::short_entry(tag, value)),
    ensures
        exif::short_in(data, Some(dir), Endian::Little, tag) == Some(value),
{
    reveal(exif::short_in);
    binary::u16_bytes_read_back(value, Endian::Little);
}

proof fn lemma_shown_rational(data: Seq<u8>, dir: u32, tag: u16, value: (u32, u32))
    requires
        holds_entry(data, dir as int, exif_build::rational_entry(tag, value)),
    ensures
        exif::rational_in(data, Some(dir), Endian::Little, tag) == Some(value),
{
    reveal(exif::rational_in);
    let a = binary::u32_bytes(value.0, Endian::Little);
    let b = binary::u32_bytes(value.1, Endian::Little);
    binary::u32_bytes_read_back(value.0, Endian::Little);
    binary::u32_bytes_read_back(value.1, Endian::Little);
    binary::lemma_u32_at_frame(a, a + b, 0, 0, Endian::Little);
    binary::lemma_u32_at_frame(b, a + b, 0, 4, Endian::Little);
}

/// No text of the metadata holds a zero character.
pub open spec fn texts_without_zero(m: ExifMetadata) -> bool {
    &&& exif_laws::without_zero(m.camera_make@)
    &&& exif_laws::without_zero(m.camera_model@)
    &&& exif_laws::without_zero(m.software@)
    &&& exif_laws::without_zero(m.artist@)
    &&& exif_laws::without_zero(m.lens_model@)
}

/// No entry has a tag.
pub open spec fn absent(es: Seq<EntryModel>, tag: u16) -> bool {
    forall|i: int| 0 <= i < es.len() ==> (#[trigger] es[i]).tag != tag
}

proof fn lemma_first_absent(m: ExifMetadata, b: BasicModel, at: int, tag: u16)
    requires
        tag != 0x010f && tag != 0x0110 && tag != 0x0131 && tag != 0x013b && tag
            != tiff::EXIF_POINTER,
        tag == 0x0112 ==> b.orientation is None,
        tag == 0x0132 ==> b.datetime is None,
    ensures
        absent(exif_build::first_entries(m, b, at), tag),
{
    let e1 = exif_build::with_text(Seq::empty(), 0x010f, m.camera_make@);
    let e2 = exif_build::with_text(e1, 0x0110, m.camera_model@);
    let e3 = exif_build::with_short(e2, 0x0112, b.orientation);
    let e4 = exif_build::with_text(e3, 0x0131, m.software@);
    let e5 = exif_build::with_date(e4, 0x0132, b.datetime);
    let e6 = exif_build::with_text(e5, 0x013b, m.artist@);
    assert(absent(e1, tag));
    assert(absent(e2, tag));
    assert(absent(e3, tag));
    assert(absent(e4, tag));
    assert(absent(e5, tag));
    assert(absent(e6, tag));
}

proof fn lemma_exif_absent(m: ExifMetadata, b: BasicModel, tag: u16)
    requires
        tag != 0xa434,
        tag == 0x829a ==> b.shutter_speed is None,
        tag == 0x829d ==> b.aperture is None,
        tag == 0x8827 ==> b.iso_speed is None,
        tag == 0x9003 || tag == 0x9004 ==> b.datetime is None,
        tag == 0x9207 ==> b.metering_mode is None,
        tag == 0x9209 ==> b.flash is None,
        tag == 0x920a ==> b.focal_length is None,
        tag == 0xa001 ==> b.color_space is None,
    ensures
        absent(exif_build::exif_entries(m, b), tag),
{
    let e1 = exif_build::with_rational(Seq::empty(), 0x829a, b.shutter_speed);
    let e2 = exif_build::with_rational(e1, 0x829d, b.aperture);
    let e3 = exif_build::with_short(e2, 0x8827, b.iso_speed);
    let e4 = exif_build::with_date(e3, 0x9003, b.datetime);
    let e5 = exif_build::with_date(e4, 0x9004, b.datetime);
    let e6 = exif_build::with_short(e5, 0x9207, b.metering_mode);
    let e7 = exif_build::with_short(e6, 0x9209, b.flash);
    let e8 = exif_build::with_rational(e7, 0x920a, b.focal_length);
    let e9 = exif_build::with_short(e8, 0xa001, b.color_space);
    assert(absent(e1, tag));
    assert(absent(e2, tag));
    assert(absent(e3, tag));
    assert(absent(e4, tag));
    assert(absent(e5, tag));
    assert(absent(e6, tag));
    assert(absent(e7, tag));
    assert(absent(e8, tag));
    assert(absent(e9, tag));
}

proof fn lemma_none_among(
    before: Seq<u8>,
    es: Seq<EntryModel>,
    after: Seq<u8>,
    tag: u16,
    n: int,
)
    requires
        all_well_sized(es),
        es.len() <= 65535,
        0 <= n <= es.len(),
        before.len() + exif_build::built_ifd(es, before.len() as int).len() <= u32::MAX,
        absent(es, tag),
    ensures
        tiff::last_among(
            before + exif_build::built_ifd(es, before.len() as int) + after,
            before.len() as int,
            Endian::Little,
            tag,
            n,
        ) is None,
    decreases n,
{
    if n > 0 {
        built_directory_reads_back(before, es, after, n - 1);
        lemma_none_among(before, es, after, tag, n - 1);
    }
}

/// A directory of a basic structure has no entry for a tag that none was built for.
proof fn lemma_basic_absent(m: ExifMetadata, b: BasicModel, rest: Seq<u8>, tag: u16)
    requires
        exif_build::basic_tiff_of(m, b).len() <= u32::MAX,
    ensures
        ({
            let data = exif_build::basic_tiff_of(m, b) + rest;
            let at = exif_build::exif_offset(m, b);
            &&& absent(exif_build::first_entries(m, b, at), tag) ==> tiff::last_entry(
                data,
                8,
                Endian::Little,
                tag,
            ) is None
            &&& absent(exif_build::exif_entries(m, b), tag) ==> tiff::last_entry(
                data,
                at,
                Endian::Little,
                tag,
            ) is None
        }),
{
    let data = exif_build::basic_tiff_of(m, b) + rest;
    let at = exif_build::exif_offset(m, b);
    let head = exif_build::tiff_header();
    let es = exif_build::first_entries(m, b, at);
    let fs = exif_build::exif_entries(m, b);
    let d0 = exif_build::built_ifd(es, 8);
    let d1 = exif_build::built_ifd(fs, at);
    lemma_small_texts(m, b);
    lemma_header(d0 + d1 + rest);
    lemma_first_entries(m, b, at);
    lemma_exif_entries(m, b);
    exif_build::lemma_first_len(m, b, 0, at);
    reveal(ordered);
    assert((head + d0).len() == at);
    assert(data =~= head + d0 + (d1 + rest));
    assert(data =~= (head + d0) + d1 + rest);
    if absent(es, tag) {
        lemma_none_among(head, es, d1 + rest, tag, es.len() as int);
        lemma_count(head, es, d1 + rest);
    }
    if absent(fs, tag) {
        lemma_none_among(head + d0, fs, rest, tag, fs.len() as int);
        lemma_count(head + d0, fs, rest);
    }
}

proof fn lemma_shown_date(data: Seq<u8>, dir: u32, tag: u16, t: Seq<char>)
    requires
        holds_entry(data, dir as int, exif_build::ascii_entry(tag, t, 0)),
        datetime::is_date_like(t),
    ensures
        exif::date_in(data, Some(dir), Endian::Little, tag) == datetime::display_of(
            datetime::known_datetime(t),
            t,
        ),
{
    reveal(exif::date_in);
    reveal(exif::text_in);
    datetime::lemma_date_like(t);
    let e = exif_build::ascii_entry(tag, t, 0);
    let bytes = exif_write::text_bytes(t);
    assert(e.value =~= bytes + exif_build::zeros(0));
    exif_laws::stored_text_reads_back(t, 0);
}

/// What is shown for the date of a structure that was built.
pub open spec fn built_date(b: BasicModel) -> Seq<char> {
    match b.datetime {
        Some(t) => datetime::display_of(datetime::known_datetime(t), t),
        None => Seq::empty(),
    }
}

/// What a field shows that was built from metadata and their values. Nothing is
/// built for the other fields.
pub open spec fn built_field(m: ExifMetadata, b: BasicModel, f: Field) -> Seq<char> {
    match f {
        Field::CameraMake => exif_values::entered(m.camera_make@),
        Field::CameraModel => exif_values::entered(m.camera_model@),
        Field::Software => exif_values::entered(m.software@),
        Field::Artist => exif_values::entered(m.artist@),
        Field::LensModel => exif_values::entered(m.lens_model@),
        Field::TakenDate => built_date(b),
        Field::DateTimeOriginal => built_date(b),
        Field::DateTimeDigitized => built_date(b),
        Field::ImageDateTime => built_date(b),
        Field::Orientation => match b.orientation {
            Some(v) => exif_values::orientation_text(v),
            None => Seq::empty(),
        },
        Field::IsoSpeed => match b.iso_speed {
            Some(v) => text::decimal(v as nat),
            None => Seq::empty(),
        },
        Field::MeteringMode => match b.metering_mode {
            Some(v) => exif_values::metering_text(v),
            None => Seq::empty(),
        },
        Field::FlashFired => match b.flash {
            Some(v) => exif_values::flash_text(v),
            None => Seq::empty(),
        },
        Field::ColorSpace => match b.color_space {
            Some(v) => exif_values::color_space_text(v),
            None => Seq::empty(),
        },
        _ => Seq::empty(),
    }
}

/// Data are read as what was built from metadata and their values: every field,
/// the three fractions, and no GPS data.
pub open spec fn reads_as_built(data: Seq<u8>, m: ExifMetadata, b: BasicModel) -> bool {
    let dir = exif::exif_dir(data, Endian::Little, 8);
    &&& exif::readable_tiff(data) == Some((Endian::Little, 8u32))
    &&& forall|f: Field| #[trigger]
        exif::field_in(data, Endian::Little, 8, f) == built_field(m, b, f)
    &&& b.datetime matches Some(t) ==> {
        let shown = datetime::display_of(datetime::known_datetime(t), t);
        &&& exif::date_in(data, Some(8), Endian::Little, 0x0132) == shown
        &&& exif::date_in(data, dir, Endian::Little, 0x9003) == shown
        &&& exif::date_in(data, dir, Endian::Little, 0x9004) == shown
    }
    &&& exif::rational_in(data, dir, Endian::Little, 0x829a) == b.shutter_speed
    &&& exif::rational_in(data, dir, Endian::Little, 0x829d) == b.aperture
    &&& exif::rational_in(data, dir, Endian::Little, 0x920a) == b.focal_length
    &&& exif::gps_dir(data, Endian::Little, 8) is None
}

proof fn lemma_built_dates(m: ExifMetadata, b: BasicModel, rest: Seq<u8>)
    requires
        exif_build::basic_tiff_of(m, b).len() <= u32::MAX,
        b.datetime matches Some(t) ==> datetime::is_date_like(t),
    ensures
        ({
            let data = exif_build::basic_tiff_of(m, b) + rest;
            let dir = exif::exif_dir(data, Endian::Little, 8);
            &&& exif::date_in(data, Some(8), Endian::Little, 0x0132) == built_date(b)
            &&& exif::date_in(data, dir, Endian::Little, 0x9003) == built_date(b)
            &&& exif::date_in(data, dir, Endian::Little, 0x9004) == built_date(b)
        }),
        b.datetime is Some ==> built_date(b).len() > 0,
{
    let data = exif_build::basic_tiff_of(m, b) + rest;
    let at = exif_build::exif_offset(m, b);
    let dir = at as u32;
    lemma_small_texts(m, b);
    lemma_basic_parts(m, b, rest);
    lemma_first_entries(m, b, at);
    lemma_exif_entries(m, b);
    match b.datetime {
        Some(t) => {
            let es = exif_build::first_entries(m, b, at);
            let fs = exif_build::exif_entries(m, b);
            assert(es.contains(exif_build::ascii_entry(0x0132, t, 0)));
            assert(fs.contains(exif_build::ascii_entry(0x9003, t, 0)));
            assert(fs.contains(exif_build::ascii_entry(0x9004, t, 0)));
            lemma_shown_date(data, 8, 0x0132, t);
            lemma_shown_date(data, dir, 0x9003, t);
            lemma_shown_date(data, dir, 0x9004, t);
            match datetime::known_datetime(t) {
                Some(x) => datetime::lemma_date_texts(x),
                None => {},
            }
        },
        None => {
            lemma_first_absent(m, b, at, 0x0132);
            lemma_exif_absent(m, b, 0x9003);
            lemma_exif_absent(m, b, 0x9004);
            lemma_basic_absent(m, b, rest, 0x0132);
            lemma_basic_absent(m, b, rest, 0x9003);
            lemma_basic_absent(m, b, rest, 0x9004);
            reveal(exif::date_in);
            reveal(exif::text_in);
        },
    }
}

proof fn lemma_built_short(m: ExifMetadata, b: BasicModel, rest: Seq<u8>, dir: u32, tag: u16, value: Option<u16>)
    requires
        exif_build::basic_tiff_of(m, b).len() <= u32::MAX,
        dir == 8 || dir == exif_build::exif_offset(m, b),
        value is None ==> tiff::last_entry(
            exif_build::basic_tiff_of(m, b) + rest,
            dir as int,
            Endian::Little,
            tag,
        ) is None,
        value matches Some(v) ==> holds_entry(
            exif_build::basic_tiff_of(m, b) + rest,
            dir as int,
            exif_build::short_entry(tag, v),
        ),
    ensures
        exif::short_in(exif_build::basic_tiff_of(m, b) + rest, Some(dir), Endian::Little, tag)
            == value,
{
    reveal(exif::short_in);
    match value {
        Some(v) => lemma_shown_short(exif_build::basic_tiff_of(m, b) + rest, dir, tag, v),
        None => {},
    }
}

proof fn lemma_built_numbers(m: ExifMetadata, b: BasicModel, rest: Seq<u8>)
    requires
        exif_build::basic_tiff_of(m, b).len() <= u32::MAX,
    ensures
        ({
            let data = exif_build::basic_tiff_of(m, b) + rest;
            let dir = exif::exif_dir(data, Endian::Little, 8);
            &&& exif::short_in(data, Some(8), Endian::Little, 0x0112) == b.orientation
            &&& exif::short_in(data, dir, Endian::Little, 0x8827) == b.iso_speed
            &&& exif::short_in(data, dir, Endian::Little, 0x9207) == b.metering_mode
            &&& exif::short_in(data, dir, Endian::Little, 0x9209) == b.flash
            &&& exif::short_in(data, dir, Endian::Little, 0xa001) == b.color_space
            &&& exif::rational_in(data, dir, Endian::Little, 0x829a) == b.shutter_speed
            &&& exif::rational_in(data, dir, Endian::Little, 0x829d) == b.aperture
            &&& exif::rational_in(data, dir, Endian::Little, 0x920a) == b.focal_length
        }),
{
    let data = exif_build::basic_tiff_of(m, b) + rest;
    let at = exif_build::exif_offset(m, b);
    let dir = at as u32;
    lemma_small_texts(m, b);
    lemma_basic_parts(m, b, rest);
    lemma_first_entries(m, b, at);
    lemma_exif_entries(m, b);
    lemma_basic_absent(m, b, rest, 0x0112);
    if b.orientation is None {
        lemma_first_absent(m, b, at, 0x0112);
    }
    lemma_built_short(m, b, rest, 8, 0x0112, b.orientation);
    lemma_basic_absent(m, b, rest, 0x8827);
    if b.iso_speed is None {
        lemma_exif_absent(m, b, 0x8827);
    }
    lemma_built_short(m, b, rest, dir, 0x8827, b.iso_speed);
    lemma_basic_absent(m, b, rest, 0x9207);
    if b.metering_mode is None {
        lemma_exif_absent(m, b, 0x9207);
    }
    lemma_built_short(m, b, rest, dir, 0x9207, b.metering_mode);
    lemma_basic_absent(m, b, rest, 0x9209);
    if b.flash is None {
        lemma_exif_absent(m, b, 0x9209);
    }
    lemma_built_short(m, b, rest, dir, 0x9209, b.flash);
    lemma_basic_absent(m, b, rest, 0xa001);
    if b.color_space is None {
        lemma_exif_absent(m, b, 0xa001);
    }
    lemma_built_short(m, b, rest, dir, 0xa001, b.color_space);
    reveal(exif::rational_in);
    lemma_basic_absent(m, b, rest, 0x829a);
    match b.shutter_speed {
        Some(v) => lemma_shown_rational(data, dir, 0x829a, v),
        None => lemma_exif_absent(m, b, 0x829a),
    }
    lemma_basic_absent(m, b, rest, 0x829d);
    match b.aperture {
        Some(v) => lemma_shown_rational(data, dir, 0x829d, v),
        None => lemma_exif_absent(m, b, 0x829d),
    }
    lemma_basic_absent(m, b, rest, 0x920a);
    match b.focal_length {
        Some(v) => lemma_shown_rational(data, dir, 0x920a, v),
        None => lemma_exif_absent(m, b, 0x920a),
    }
}

proof fn lemma_built_texts(m: ExifMetadata, b: BasicModel, rest: Seq<u8>)
    requires
        exif_build::basic_tiff_of(m, b).len() <= u32::MAX,
        texts_without_zero(m),
    ensures
        ({
            let data = exif_build::basic_tiff_of(m, b) + rest;
            let dir = exif::exif_dir(data, Endian::Little, 8);
            &&& exif::text_or_empty(exif::text_in(data, Some(8), Endian::Little, 0x010f))
                == exif_values::entered(m.camera_make@)
            &&& exif::text_or_empty(exif::text_in(data, Some(8), Endian::Little, 0x0110))
                == exif_values::entered(m.camera_model@)
            &&& exif::text_or_empty(exif::text_in(data, Some(8), Endian::Little, 0x0131))
                == exif_values::entered(m.software@)
            &&& exif::text_or_empty(exif::text_in(data, Some(8), Endian::Little, 0x013b))
                == exif_values::entered(m.artist@)
            &&& exif::text_or_empty(exif::text_in(data, dir, Endian::Little, 0xa434))
                == exif_values::entered(m.lens_model@)
        }),
{
    let data = exif_build::basic_tiff_of(m, b) + rest;
    let at = exif_build::exif_offset(m, b);
    let dir = at as u32;
    lemma_small_texts(m, b);
    lemma_basic_parts(m, b, rest);
    lemma_first_entries(m, b, at);
    lemma_exif_entries(m, b);
    lemma_shown_text(data, 8, 0x010f, m.camera_make@);
    lemma_shown_text(data, 8, 0x0110, m.camera_model@);
    lemma_shown_text(data, 8, 0x0131, m.software@);
    lemma_shown_text(data, 8, 0x013b, m.artist@);
    lemma_shown_text(data, dir, 0xa434, m.lens_model@);
}

/// The fields for which nothing is built are empty.
proof fn lemma_nothing_else(m: ExifMetadata, b: BasicModel, rest: Seq<u8>)
    requires
        exif_build::basic_tiff_of(m, b).len() <= u32::MAX,
    ensures
        ({
            let data = exif_build::basic_tiff_of(m, b) + rest;
            let dir = exif::exif_dir(data, Endian::Little, 8);
            &&& exif::text_in(data, Some(8), Endian::Little, 0x010e) is None
            &&& exif::text_in(data, Some(8), Endian::Little, 0x8298) is None
            &&& exif::short_in(data, dir, Endian::Little, 0x8822) is None
            &&& exif::version_in(data, dir, Endian::Little, 0x9000) is None
            &&& exif::long_in(data, dir, Endian::Little, 0xa002) is None
            &&& exif::long_in(data, dir, Endian::Little, 0xa003) is None
            &&& exif::short_in(data, dir, Endian::Little, 0xa403) is None
            &&& exif::short_in(data, dir, Endian::Little, 0xa405) is None
            &&& exif::gps_dir(data, Endian::Little, 8) is None
        }),
{
    let at = exif_build::exif_offset(m, b);
    lemma_basic_parts(m, b, rest);
    reveal(exif::text_in);
    reveal(exif::short_in);
    reveal(exif::long_in);
    reveal(exif::version_in);
    lemma_first_absent(m, b, at, 0x010e);
    lemma_basic_absent(m, b, rest, 0x010e);
    lemma_first_absent(m, b, at, 0x8298);
    lemma_basic_absent(m, b, rest, 0x8298);
    lemma_first_absent(m, b, at, tiff::GPS_POINTER);
    lemma_basic_absent(m, b, rest, tiff::GPS_POINTER);
    lemma_exif_absent(m, b, 0x8822);
    lemma_basic_absent(m, b, rest, 0x8822);
    lemma_exif_absent(m, b, 0x9000);
    lemma_basic_absent(m, b, rest, 0x9000);
    lemma_exif_absent(m, b, 0xa002);
    lemma_basic_absent(m, b, rest, 0xa002);
    lemma_exif_absent(m, b, 0xa003);
    lemma_basic_absent(m, b, rest, 0xa003);
    lemma_exif_absent(m, b, 0xa403);
    lemma_basic_absent(m, b, rest, 0xa403);
    lemma_exif_absent(m, b, 0xa405);
    lemma_basic_absent(m, b, rest, 0xa405);
}

/// What is read from a structure that was built, whatever follows it, is what
/// it was built from: the entered texts, the date in its three places, the
/// numbers that the other values stand for, and nothing else.
pub proof fn built_structure_reads_back(m: ExifMetadata, b: BasicModel, rest: Seq<u8>)
    requires
        exif_build::basic_tiff_of(m, b).len() <= u32::MAX,
        texts_without_zero(m),
        b.datetime matches Some(t) ==> datetime::is_date_like(t),
    ensures
        reads_as_built(exif_build::basic_tiff_of(m, b) + rest, m, b),
{
    let data = exif_build::basic_tiff_of(m, b) + rest;
    lemma_basic_parts(m, b, rest);
    lemma_built_texts(m, b, rest);
    lemma_built_dates(m, b, rest);
    lemma_built_numbers(m, b, rest);
    lemma_nothing_else(m, b, rest);
    assert forall|f: Field| #[trigger]
        exif::field_in(data, Endian::Little, 8, f) == built_field(m, b, f) by {}
}

/// The date that metadata are built with looks like one.
pub proof fn lemma_basic_date(m: ExifMetadata, readings: exif_build::DecimalReadings)
    requires
        exif_build::basic_model(m, readings) is Ok,
    ensures
        exif_build::basic_model(m, readings)->Ok_0.datetime matches Some(t)
            ==> datetime::is_date_like(t) && t == datetime::exif_text(
            datetime::known_datetime(m.taken_date@)->0,
        ) && datetime::known_datetime(m.taken_date@) is Some,
        exif_build::basic_model(m, readings)->Ok_0.datetime is None == exif_values::is_blank(
            m.taken_date@,
        ),
{
    match datetime::known_datetime(m.taken_date@) {
        Some(x) => datetime::lemma_date_texts(x),
        None => {},
    }
}

/// A date that was entered as it is shown is what every date of some data shows.
pub open spec fn shows_taken_date(data: Seq<u8>, m: ExifMetadata) -> bool {
    forall|x: Moment|
        datetime::plain(x) && m.taken_date@ == #[trigger] datetime::display_text(x) ==> {
            &&& exif::field_in(data, Endian::Little, 8, Field::TakenDate) == m.taken_date@
            &&& exif::field_in(data, Endian::Little, 8, Field::DateTimeOriginal) == m.taken_date@
            &&& exif::field_in(data, Endian::Little, 8, Field::DateTimeDigitized) == m.taken_date@
            &&& exif::field_in(data, Endian::Little, 8, Field::ImageDateTime) == m.taken_date@
        }
}

/// A date that was entered as it is shown stands in the values, in a form that
/// reads as the date.
pub open spec fn keeps_taken_date(m: ExifMetadata, b: BasicModel) -> bool {
    forall|x: Moment|
        datetime::plain(x) && m.taken_date@ == #[trigger] datetime::display_text(x) ==> (
        b.datetime matches Some(t) && datetime::known_datetime(t) == Some(x))
}

pub proof fn lemma_taken_date(data: Seq<u8>, m: ExifMetadata, b: BasicModel)
    requires
        reads_as_built(data, m, b),
        keeps_taken_date(m, b),
    ensures
        shows_taken_date(data, m),
{
    assert forall|x: Moment|
        datetime::plain(x) && m.taken_date@ == #[trigger] datetime::display_text(x) implies {
        &&& exif::field_in(data, Endian::Little, 8, Field::TakenDate) == m.taken_date@
        &&& exif::field_in(data, Endian::Little, 8, Field::DateTimeOriginal) == m.taken_date@
        &&& exif::field_in(data, Endian::Little, 8, Field::DateTimeDigitized) == m.taken_date@
        &&& exif::field_in(data, Endian::Little, 8, Field::ImageDateTime) == m.taken_date@
    } by {
        assert(built_date(b) == m.taken_date@);
        assert(exif::field_in(data, Endian::Little, 8, Field::TakenDate) == built_field(
            m,
            b,
            Field::TakenDate,
        ));
        assert(exif::field_in(data, Endian::Little, 8, Field::DateTimeOriginal) == built_field(
            m,
            b,
            Field::DateTimeOriginal,
        ));
        assert(exif::field_in(data, Endian::Little, 8, Field::DateTimeDigitized) == built_field(
            m,
            b,
            Field::DateTimeDigitized,
        ));
        assert(exif::field_in(data, Endian::Little, 8, Field::ImageDateTime) == built_field(
            m,
            b,
            Field::ImageDateTime,
        ));
    }
}

/// The data from the start of a structure on, once it was put into a file.
proof fn lemma_found_again(bytes: Seq<u8>, t: Seq<u8>)
    requires
        exif_edit::with_tiff(bytes, t) is Ok,
    ensures
        ({
            let after = exif_edit::with_tiff(bytes, t)->Ok_0;
            &&& jpeg::exif_tiff_start(after) matches Some(start)
            &&& 0 <= start
            &&& start + t.len() <= after.len()
            &&& after.skip(start) == t + after.skip(start + t.len())
        }),
{
    let after = exif_edit::with_tiff(bytes, t)->Ok_0;
    jpeg::written_exif_is_found(bytes, t);
    let start = jpeg::exif_tiff_start(after)->0;
    exif_laws::lemma_start_bounds(after, 2);
    assert(after.skip(start) =~= t + after.skip(start + t.len())) by {
        assert forall|i: int| 0 <= i < t.len() implies after.skip(start)[i] == t[i] by {
            assert(after.subrange(start, start + t.len())[i] == t[i]);
        }
    }
}

/// A file that basic EXIF data were written to can have them written anew, and
/// what is read from it is what was written.
pub proof fn rebuilt_file_is_generated(
    bytes: Seq<u8>,
    m: ExifMetadata,
    readings: exif_build::DecimalReadings,
)
    requires
        exif_edit::rebuilt(bytes, m, readings) is Ok,
    ensures
        exif_edit::generated_file(exif_edit::rebuilt(bytes, m, readings)->Ok_0),
        texts_without_zero(m) ==> reads_as_built(
            exif::exif_tiff(exif_edit::rebuilt(bytes, m, readings)->Ok_0)->0,
            m,
            exif_build::basic_model(m, readings)->Ok_0,
        ),
{
    let b = exif_build::basic_model(m, readings)->Ok_0;
    let t = exif_build::basic_tiff_of(m, b);
    let after = exif_edit::rebuilt(bytes, m, readings)->Ok_0;
    lemma_found_again(bytes, t);
    let start = jpeg::exif_tiff_start(after)->0;
    let rest = after.skip(start + t.len());
    assert(t.len() <= 65535);
    built_structure_is_basic(m, b, rest);
    if texts_without_zero(m) {
        lemma_basic_date(m, readings);
        built_structure_reads_back(m, b, rest);
    }
}

proof fn lemma_extra_len(es: Seq<EntryModel>, n: int, e: EntryModel)
    requires
        0 <= n <= es.len(),
        exists|i: int| 0 <= i < n && es[i] == e,
    ensures
        exif_build::extra(e).len() <= exif_build::extras(es, n).len(),
{
    let i = choose|i: int| 0 <= i < n && es[i] == e;
    lemma_extra_part(es, n, i);
}

proof fn lemma_text_len(es: Seq<EntryModel>, at: int, tag: u16, value: Seq<char>, min: int)
    requires
        es.contains(exif_build::ascii_entry(tag, value, min)),
        exif_build::built_ifd(es, at).len() <= u32::MAX,
    ensures
        small_text(value),
{
    let e = exif_build::ascii_entry(tag, value, min);
    lemma_extra_len(es, es.len() as int, e);
    exif_build::lemma_built_len(es, at);
}

/// The texts of a structure that is not too long are not too long.
proof fn lemma_small_texts(m: ExifMetadata, b: BasicModel)
    requires
        exif_build::basic_tiff_of(m, b).len() <= u32::MAX,
    ensures
        small_texts(m, b),
{
    let at = exif_build::exif_offset(m, b);
    let es = exif_build::first_entries(m, b, at);
    let fs = exif_build::exif_entries(m, b);
    let e1 = exif_build::with_text(Seq::empty(), 0x010f, m.camera_make@);
    let e2 = exif_build::with_text(e1, 0x0110, m.camera_model@);
    let e3 = exif_build::with_short(e2, 0x0112, b.orientation);
    let e4 = exif_build::with_text(e3, 0x0131, m.software@);
    let e5 = exif_build::with_date(e4, 0x0132, b.datetime);
    let e6 = exif_build::with_text(e5, 0x013b, m.artist@);
    assert(es == e6.push(exif_build::long_entry(tiff::EXIF_POINTER, at as u32)));
    assert(es[0] == entered_entry(0x010f, m.camera_make@));
    assert(es[1] == entered_entry(0x0110, m.camera_model@));
    assert(es[e3.len() as int] == entered_entry(0x0131, m.software@));
    assert(es[e5.len() as int] == entered_entry(0x013b, m.artist@));
    if b.datetime is Some {
        assert(es[e4.len() as int] == exif_build::ascii_entry(0x0132, b.datetime->0, 0));
        lemma_text_len(es, 8, 0x0132, b.datetime->0, 0);
    }
    lemma_text_len(es, 8, 0x010f, exif_values::entered(m.camera_make@), 64);
    lemma_text_len(es, 8, 0x0110, exif_values::entered(m.camera_model@), 64);
    lemma_text_len(es, 8, 0x0131, exif_values::entered(m.software@), 64);
    lemma_text_len(es, 8, 0x013b, exif_values::entered(m.artist@), 64);
    assert(fs[fs.len() - 1] == entered_entry(0xa434, m.lens_model@));
    lemma_text_len(fs, at, 0xa434, exif_values::entered(m.lens_model@), 64);
}

} // verus!
