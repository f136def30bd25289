//! Writing values over existing EXIF entries, in place.
use crate::binary::{self, append_bytes, append_u16, append_u32, read_u32, Endian};
use crate::datetime::{self, display_datetime_to_exif};
use crate::exif_build;
use crate::exif_values::{
    self, parse_aperture_value, parse_color_space_value, parse_exif_rational_value,
    parse_flash_value, parse_metering_mode_value, parse_u16_value, DecimalReading,
};
use crate::jpeg::{self, find_exif_tiff_start};
use crate::text::{self, decimal_text};
use crate::tiff::{
    self, contains_tag, first_with_tag, read_ifd_entries, read_tiff_endian, Entry,
};
use vstd::prelude::*;

verus! {

/// A value for an entry.
#[derive(Debug)]
pub enum TagValue {
    Ascii(Vec<u8>),
    Short(u16),
    Rational(u32, u32),
}

/// A value for an entry, with its text as a sequence.
#[verifier::ext_equal]
pub enum ValueModel {
    Ascii(Seq<u8>),
    Short(u16),
    Rational(u32, u32),
}

impl TagValue {
    pub open spec fn model(self) -> ValueModel {
        match self {
            TagValue::Ascii(bytes) => ValueModel::Ascii(bytes@),
            TagValue::Short(v) => ValueModel::Short(v),
            TagValue::Rational(n, d) => ValueModel::Rational(n, d),
        }
    }
}

impl ValueModel {
    /// The bytes of the value in an entry, if the entry has a type for it.
    pub open spec fn bytes_for(self, data: Seq<u8>, pos: int, endian: Endian) -> Option<Seq<u8>> {
        match self {
            ValueModel::Ascii(bytes) => Some(bytes),
            ValueModel::Short(v) => if tiff::type_at(data, pos, endian) == 3 && tiff::count_at(
                data,
                pos,
                endian,
            ) == 1 {
                Some(binary::u16_bytes(v, endian))
            } else {
                None
            },
            ValueModel::Rational(n, d) => if tiff::type_at(data, pos, endian) == 5 && tiff::count_at(
                data,
                pos,
                endian,
            ) == 1 {
                Some(binary::u32_bytes(n, endian) + binary::u32_bytes(d, endian))
            } else {
                None
            },
        }
    }
}

/// Where a value of some length can be stored for an entry, and the room there.
pub open spec fn store_range(data: Seq<u8>, pos: int, endian: Endian, len: int) -> Option<
    (int, int),
> {
    let kind = tiff::type_at(data, pos, endian);
    let count = tiff::count_at(data, pos, endian) as int;
    let offset = tiff::offset_at(data, pos, endian) as int;
    if kind == 2 {
        if count < len {
            None
        } else if count <= 4 {
            Some((pos + 8, count))
        } else if offset + count <= data.len() {
            Some((offset, count))
        } else {
            None
        }
    } else if kind == 3 && count == 1 && len <= 2 {
        Some((pos + 8, 2))
    } else if kind == 4 && count == 1 && len <= 4 {
        Some((pos + 8, 4))
    } else if kind == 5 && count == 1 && offset + 8 <= data.len() {
        Some((offset, 8))
    } else {
        None
    }
}

/// Bytes to store at a place of some length.
#[verifier::ext_equal]
pub struct StoreModel {
    pub start: int,
    pub len: int,
    pub bytes: Seq<u8>,
}

struct Store {
    start: usize,
    len: usize,
    bytes: Vec<u8>,
}

impl Store {
    spec fn model(self) -> StoreModel {
        StoreModel { start: self.start as int, len: self.len as int, bytes: self.bytes@ }
    }
}

spec fn store_models(stores: Seq<Store>) -> Seq<StoreModel> {
    Seq::new(stores.len(), |i: int| stores[i].model())
}

/// What is stored for one entry.
pub open spec fn store_of(
    data: Seq<u8>,
    pos: int,
    endian: Endian,
    tags: Seq<u16>,
    value: ValueModel,
) -> Option<StoreModel> {
    if !tags.contains(tiff::tag_at(data, pos, endian)) {
        None
    } else {
        match value.bytes_for(data, pos, endian) {
            None => None,
            Some(bytes) => match store_range(data, pos, endian, bytes.len() as int) {
                None => None,
                Some((start, len)) => Some(StoreModel { start, len, bytes }),
            },
        }
    }
}

/// What is stored for the first entries of a directory.
pub open spec fn stores_among(
    data: Seq<u8>,
    offset: int,
    endian: Endian,
    tags: Seq<u16>,
    value: ValueModel,
    n: int,
) -> Seq<StoreModel>
    decreases n,
{
    if n <= 0 {
        Seq::empty()
    } else {
        let before = stores_among(data, offset, endian, tags, value, n - 1);
        match store_of(data, tiff::entry_pos(offset, n - 1), endian, tags, value) {
            Some(s) => before.push(s),
            None => before,
        }
    }
}

pub open spec fn stores_in(
    data: Seq<u8>,
    offset: int,
    endian: Endian,
    tags: Seq<u16>,
    value: ValueModel,
) -> Seq<StoreModel> {
    match tiff::ifd_len(data, offset, endian) {
        None => Seq::empty(),
        Some(n) => stores_among(data, offset, endian, tags, value, n as int),
    }
}

/// What is stored for the entries of the first directory and the EXIF directory.
pub open spec fn all_stores(
    data: Seq<u8>,
    ifd0: int,
    endian: Endian,
    tags: Seq<u16>,
    value: ValueModel,
) -> Seq<StoreModel> {
    stores_in(data, ifd0, endian, tags, value) + match tiff::pointed_offset(
        data,
        ifd0,
        endian,
        tiff::EXIF_POINTER,
    ) {
        Some(at) => stores_in(data, at as int, endian, tags, value),
        None => Seq::empty(),
    }
}

/// The bytes with a value at a place; the rest of the place is zero.
pub open spec fn overwritten(bytes: Seq<u8>, at: int, len: int, value: Seq<u8>) -> Seq<u8> {
    bytes.take(at) + value + exif_build::zeros(len - value.len()) + bytes.skip(at + len)
}

/// The bytes after some stores, whose places count from a base.
pub open spec fn stored(bytes: Seq<u8>, base: int, stores: Seq<StoreModel>) -> Seq<u8>
    decreases stores.len(),
{
    if stores.len() == 0 {
        bytes
    } else {
        let before = stored(bytes, base, stores.drop_last());
        overwritten(before, base + stores.last().start, stores.last().len, stores.last().bytes)
    }
}

/// Every value fits its place.
pub open spec fn all_fit(stores: Seq<StoreModel>) -> bool {
    forall|i: int| 0 <= i < stores.len() ==> (#[trigger] stores[i]).bytes.len() <= stores[i].len
}

/// The TIFF structure of a file: where it begins, its byte order and where
/// its first directory stands.
pub open spec fn located_tiff(bytes: Seq<u8>) -> Result<(int, Endian, u32), Seq<char>> {
    match jpeg::exif_tiff_start(bytes) {
        None => Err("EXIF data was not found."@),
        Some(start) => {
            let data = bytes.skip(start);
            match tiff::tiff_endian(data) {
                None => Err("Invalid TIFF header."@),
                Some(endian) => match binary::u32_at(data, 4, endian) {
                    None => Err("Invalid IFD0 offset."@),
                    Some(ifd0) => if tiff::ifd_len(data, ifd0 as int, endian) is None {
                        Err("Unable to read IFD0 entries."@)
                    } else {
                        Ok((start, endian, ifd0))
                    },
                },
            }
        },
    }
}

/// What is stored in a file.
pub open spec fn file_stores(bytes: Seq<u8>, tags: Seq<u16>, value: ValueModel) -> Seq<StoreModel> {
    match located_tiff(bytes) {
        Ok((start, endian, ifd0)) => all_stores(
            bytes.skip(start),
            ifd0 as int,
            endian,
            tags,
            value,
        ),
        Err(_) => Seq::empty(),
    }
}

/// The numbers of tags, between square brackets.
pub open spec fn listed(tags: Seq<u16>) -> Seq<char>
    decreases tags.len(),
{
    if tags.len() == 0 {
        Seq::empty()
    } else if tags.len() == 1 {
        text::decimal(tags[0] as nat)
    } else {
        listed(tags.drop_last()) + ", "@ + text::decimal(tags.last() as nat)
    }
}

pub open spec fn no_entry_message(tags: Seq<u16>) -> Seq<char> {
    "No writable EXIF tag was found for tag(s) ["@ + listed(tags)
        + "]. This tool only overwrites existing EXIF entries and does not create missing tags."@
}

/// The file after a value was written over its entries with some tags.
pub open spec fn tag_written(bytes: Seq<u8>, tags: Seq<u16>, value: ValueModel) -> Result<
    Seq<u8>,
    Seq<char>,
> {
    match located_tiff(bytes) {
        Err(e) => Err(e),
        Ok((start, endian, ifd0)) => {
            let stores = file_stores(bytes, tags, value);
            if stores.len() == 0 {
                Err(no_entry_message(tags))
            } else {
                Ok(stored(bytes, start, stores))
            }
        },
    }
}

/// A change of bytes in place: they are as they should be, or an error was
/// given and they are as they were.
pub open spec fn changed(
    r: Result<(), String>,
    before: Seq<u8>,
    after: Seq<u8>,
    wanted: Result<Seq<u8>, Seq<char>>,
) -> bool {
    match r {
        Ok(_) => wanted == Ok::<Seq<u8>, Seq<char>>(after) && after.len() == before.len(),
        Err(e) => wanted == Err::<Seq<u8>, Seq<char>>(e@) && after == before,
    }
}

fn writable_entry_range(entry: &Entry, value_len: usize, data: &[u8], endian: Endian) -> (r: Option<
    (usize, usize),
>)
    requires
        entry.reads(data@, endian),
    ensures
        match r {
            Some((s, n)) => store_range(data@, entry.pos as int, endian, value_len as int) == Some(
                (s as int, n as int),
            ) && s + n <= data@.len(),
            None => store_range(data@, entry.pos as int, endian, value_len as int) is None,
        },
{
    let size: usize = data.len();
    let offset: u64 = match read_u32(data, entry.pos + 8, endian) {
        Some(v) => v as u64,
        None => {
            return None;
        },
    };
    let count: u64 = entry.count as u64;
    if entry.field_type == 2 {
        if count < value_len as u64 {
            None
        } else if count <= 4 {
            Some((entry.pos + 8, count as usize))
        } else if offset + count <= size as u64 {
            Some((offset as usize, count as usize))
        } else {
            None
        }
    } else if entry.field_type == 3 && count == 1 && value_len <= 2 {
        Some((entry.pos + 8, 2))
    } else if entry.field_type == 4 && count == 1 && value_len <= 4 {
        Some((entry.pos + 8, 4))
    } else if entry.field_type == 5 && count == 1 && offset + 8 <= size as u64 {
        Some((offset as usize, 8))
    } else {
        None
    }
}

fn make_bytes(value: &TagValue, entry: &Entry, data: &[u8], endian: Endian) -> (r: Option<Vec<u8>>)
    requires
        entry.reads(data@, endian),
    ensures
        match r {
            Some(v) => value.model().bytes_for(data@, entry.pos as int, endian) == Some(v@),
            None => value.model().bytes_for(data@, entry.pos as int, endian) is None,
        },
{
    let mut out: Vec<u8> = Vec::new();
    match value {
        TagValue::Ascii(bytes) => {
            append_bytes(&mut out, bytes.as_slice());
            assert(out@ =~= bytes@);
        },
        TagValue::Short(v) => {
            if entry.field_type != 3 || entry.count != 1 {
                return None;
            }
            append_u16(&mut out, *v, endian);
            assert(out@ =~= binary::u16_bytes(*v, endian));
        },
        TagValue::Rational(n, d) => {
            if entry.field_type != 5 || entry.count != 1 {
                return None;
            }
            append_u32(&mut out, *n, endian);
            append_u32(&mut out, *d, endian);
            assert(out@ =~= binary::u32_bytes(*n, endian) + binary::u32_bytes(*d, endian));
        },
    }
    Some(out)
}

spec fn within(stores: Seq<Store>, len: int) -> bool {
    forall|i: int| 0 <= i < stores.len() ==> (#[trigger] stores[i]).start + stores[i].len <= len
}

fn add_stores(
    stores: &mut Vec<Store>,
    data: &[u8],
    entries: &Vec<Entry>,
    offset: usize,
    endian: Endian,
    tags: &[u16],
    value: &TagValue,
)
    requires
        tiff::entries_of(entries@, data@, offset as int, endian),
        within(old(stores)@, data@.len() as int),
    ensures
        store_models(final(stores)@) == store_models(old(stores)@) + stores_in(
            data@,
            offset as int,
            endian,
            tags@,
            value.model(),
        ),
        within(final(stores)@, data@.len() as int),
{
    let n: usize = entries.len();
    let mut i: usize = 0;
    let ghost first = store_models(stores@);
    assert(first =~= first + stores_among(data@, offset as int, endian, tags@, value.model(), 0));
    while i < n
        invariant
            i <= n,
            n == entries@.len(),
            tiff::entries_of(entries@, data@, offset as int, endian),
            within(stores@, data@.len() as int),
            store_models(stores@) == first + stores_among(
                data@,
                offset as int,
                endian,
                tags@,
                value.model(),
                i as int,
            ),
        decreases n - i,
    {
        let entry = entries[i];
        let ghost before = stores@;
        assert(entry.reads(data@, endian));
        if contains_tag(tags, entry.tag) {
            match make_bytes(value, &entry, data, endian) {
                Some(bytes) => {
                    match writable_entry_range(&entry, bytes.len(), data, endian) {
                        Some((start, len)) => {
                            stores.push(Store { start, len, bytes });
                            assert(store_models(stores@) =~= store_models(before).push(
                                stores@.last().model(),
                            ));
                        },
                        None => {},
                    }
                },
                None => {},
            }
        }
        assert(store_models(stores@) =~= first + stores_among(
            data@,
            offset as int,
            endian,
            tags@,
            value.model(),
            i + 1,
        ));
        i += 1;
    }
}

pub(crate) struct Located {
    pub(crate) start: usize,
    pub(crate) endian: Endian,
    pub(crate) ifd0: u32,
    pub(crate) entries: Vec<Entry>,
}

pub(crate) fn locate_tiff(bytes: &[u8]) -> (r: Result<Located, String>)
    ensures
        match r {
            Ok(x) => located_tiff(bytes@) == Ok::<(int, Endian, u32), Seq<char>>(
                (x.start as int, x.endian, x.ifd0),
            ) && x.start <= bytes@.len() && tiff::entries_of(
                x.entries@,
                bytes@.skip(x.start as int),
                x.ifd0 as int,
                x.endian,
            ),
            Err(e) => located_tiff(bytes@) == Err::<(int, Endian, u32), Seq<char>>(e@),
        },
{
    let start: usize = match find_exif_tiff_start(bytes) {
        None => {
            return Err("EXIF data was not found.".to_owned());
        },
        Some(start) => start,
    };
    let n: usize = bytes.len();
    let data = &bytes[start..n];
    assert(data@ =~= bytes@.skip(start as int));
    let endian = match read_tiff_endian(data) {
        None => {
            return Err("Invalid TIFF header.".to_owned());
        },
        Some(endian) => endian,
    };
    let ifd0: u32 = match read_u32(data, 4, endian) {
        None => {
            return Err("Invalid IFD0 offset.".to_owned());
        },
        Some(v) => v,
    };
    match read_ifd_entries(data, ifd0 as usize, endian) {
        None => Err("Unable to read IFD0 entries.".to_owned()),
        Some(entries) => Ok(Located { start, endian, ifd0, entries }),
    }
}

fn plan_stores(bytes: &[u8], at: &Located, tags: &[u16], value: &TagValue) -> (r: Vec<Store>)
    requires
        located_tiff(bytes@) == Ok::<(int, Endian, u32), Seq<char>>(
            (at.start as int, at.endian, at.ifd0),
        ),
        at.start <= bytes@.len(),
        tiff::entries_of(
            at.entries@,
            bytes@.skip(at.start as int),
            at.ifd0 as int,
            at.endian,
        ),
    ensures
        store_models(r@) == file_stores(bytes@, tags@, value.model()),
        within(r@, bytes@.len() - at.start),
{
    let n: usize = bytes.len();
    let data = &bytes[at.start..n];
    assert(data@ =~= bytes@.skip(at.start as int));
    let mut stores: Vec<Store> = Vec::new();
    assert(store_models(stores@) =~= Seq::<StoreModel>::empty());
    add_stores(&mut stores, data, &at.entries, at.ifd0 as usize, at.endian, tags, value);
    assert(store_models(stores@) =~= stores_in(
        data@,
        at.ifd0 as int,
        at.endian,
        tags@,
        value.model(),
    ));
    let ghost first = store_models(stores@);
    assert(first + Seq::<StoreModel>::empty() =~= first);
    match first_with_tag(
        at.entries.as_slice(),
        tiff::EXIF_POINTER,
        Ghost(data@),
        Ghost(at.ifd0 as int),
        at.endian,
    ) {
        None => {},
        Some(entry) => {
            match entry.as_long(data, at.endian) {
                None => {},
                Some(offset) => {
                    match read_ifd_entries(data, offset as usize, at.endian) {
                        None => {},
                        Some(entries) => {
                            add_stores(
                                &mut stores,
                                data,
                                &entries,
                                offset as usize,
                                at.endian,
                                tags,
                                value,
                            );
                        },
                    }
                },
            }
        },
    }
    stores
}

pub(crate) fn store(bytes: &mut Vec<u8>, start: usize, len: usize, value: &[u8])
    requires
        start + len <= old(bytes)@.len(),
        value@.len() <= len,
    ensures
        final(bytes)@ == overwritten(old(bytes)@, start as int, len as int, value@),
{
    let n: usize = value.len();
    let size: usize = bytes.len();
    let mut i: usize = 0;
    while i < len
        invariant
            i <= len,
            n == value@.len(),
            n <= len,
            start + len <= size,
            bytes@.len() == size,
            old(bytes)@.len() == size,
            bytes@ == old(bytes)@.take(start as int) + (value@ + exif_build::zeros(
                len - n,
            )).take(i as int) + old(bytes)@.skip(start + i),
        decreases len - i,
    {
        let b: u8 = if i < n {
            value[i]
        } else {
            0
        };
        bytes.set(start + i, b);
        i += 1;
        assert(bytes@ =~= old(bytes)@.take(start as int) + (value@ + exif_build::zeros(
            len - n,
        )).take(i as int) + old(bytes)@.skip(start + i));
    }
    assert(bytes@ =~= overwritten(old(bytes)@, start as int, len as int, value@));
}

fn apply_stores(bytes: &mut Vec<u8>, base: usize, stores: &Vec<Store>)
    requires
        base <= old(bytes)@.len(),
        within(stores@, old(bytes)@.len() - base),
        all_fit(store_models(stores@)),
    ensures
        final(bytes)@ == stored(old(bytes)@, base as int, store_models(stores@)),
        final(bytes)@.len() == old(bytes)@.len(),
{
    let n: usize = stores.len();
    let mut i: usize = 0;
    let ghost all = store_models(stores@);
    let ghost size = bytes@.len();
    assert(all.take(0) =~= Seq::<StoreModel>::empty());
    while i < n
        invariant
            i <= n,
            n == stores@.len(),
            all == store_models(stores@),
            all_fit(all),
            bytes@.len() == size,
            base <= size,
            within(stores@, size - base),
            bytes@ == stored(old(bytes)@, base as int, all.take(i as int)),
        decreases n - i,
    {
        let s = &stores[i];
        assert(all[i as int] == s.model());
        assert(s.start + s.len <= size - base);
        let n0: usize = bytes.len();
        store(bytes, base + s.start, s.len, s.bytes.as_slice());
        i += 1;
        assert(all.take(i as int).drop_last() =~= all.take(i - 1));
    }
    assert(all.take(n as int) =~= all);
}

fn list_tags(tags: &[u16]) -> (r: String)
    ensures
        r@ == listed(tags@),
{
    let n: usize = tags.len();
    let mut out = String::new();
    let mut i: usize = 0;
    assert(tags@.take(0) =~= Seq::<u16>::empty());
    assert(out@ =~= Seq::<char>::empty());
    while i < n
        invariant
            i <= n,
            n == tags@.len(),
            out@ == listed(tags@.take(i as int)),
        decreases n - i,
    {
        if i > 0 {
            out.append(", ");
        }
        let t = decimal_text(tags[i] as u64);
        out.append(t.as_str());
        i += 1;
        assert(tags@.take(i as int).drop_last() =~= tags@.take(i - 1));
        assert(out@ =~= listed(tags@.take(i as int)));
    }
    assert(tags@.take(n as int) =~= tags@);
    out
}

/// Whether a value can be stored for the entries with some tags without
/// running over the place of any of them.
pub fn value_fits(bytes: &[u8], tags: &[u16], value: &TagValue) -> (r: bool)
    ensures
        r == all_fit(file_stores(bytes@, tags@, value.model())),
{
    let at = match locate_tiff(bytes) {
        Err(_) => {
            return true;
        },
        Ok(at) => at,
    };
    let stores = plan_stores(bytes, &at, tags, value);
    let ghost all = store_models(stores@);
    let n: usize = stores.len();
    let mut i: usize = 0;
    while i < n
        invariant
            i <= n,
            n == stores@.len(),
            all == store_models(stores@),
            all == file_stores(bytes@, tags@, value.model()),
            forall|k: int| 0 <= k < i ==> (#[trigger] all[k]).bytes.len() <= all[k].len,
        decreases n - i,
    {
        assert(all[i as int] == stores@[i as int].model());
        if stores[i].bytes.len() > stores[i].len {
            assert(!all_fit(all)) by {
                assert(all[i as int].bytes.len() > all[i as int].len);
            }
            return false;
        }
        i += 1;
    }
    true
}

/// Writes a value over the entries with some tags.
pub fn write_exif_tag_values(bytes: &mut Vec<u8>, tags: &[u16], value: &TagValue) -> (r: Result<
    (),
    String,
>)
    requires
        all_fit(file_stores(old(bytes)@, tags@, value.model())),
    ensures
        changed(r, old(bytes)@, final(bytes)@, tag_written(old(bytes)@, tags@, value.model())),
{
    let at = match locate_tiff(bytes.as_slice()) {
        Err(e) => {
            return Err(e);
        },
        Ok(at) => at,
    };
    let stores = plan_stores(bytes.as_slice(), &at, tags, value);
    assert(store_models(stores@).len() == stores@.len());
    if stores.len() == 0 {
        let mut message = "No writable EXIF tag was found for tag(s) [".to_owned();
        let list = list_tags(tags);
        message.append(list.as_str());
        message.append(
            "]. This tool only overwrites existing EXIF entries and does not create missing tags.",
        );
        return Err(message);
    }
    apply_stores(bytes, at.start, &stores);
    Ok(())
}

proof fn lemma_number_fits_among(
    data: Seq<u8>,
    offset: int,
    endian: Endian,
    tags: Seq<u16>,
    value: ValueModel,
    n: int,
)
    requires
        !(value is Ascii),
    ensures
        all_fit(stores_among(data, offset, endian, tags, value, n)),
    decreases n,
{
    if n > 0 {
        lemma_number_fits_among(data, offset, endian, tags, value, n - 1);
        match value {
            ValueModel::Short(v) => binary::u16_bytes_read_back(v, endian),
            ValueModel::Rational(a, b) => {
                binary::u32_bytes_read_back(a, endian);
                binary::u32_bytes_read_back(b, endian);
            },
            _ => {},
        }
    }
}

/// A number fits the place of every entry that it is stored for.
pub proof fn numbers_fit(bytes: Seq<u8>, tags: Seq<u16>, value: ValueModel)
    requires
        !(value is Ascii),
    ensures
        all_fit(file_stores(bytes, tags, value)),
{
    match located_tiff(bytes) {
        Ok((start, endian, ifd0)) => {
            let data = bytes.skip(start);
            match tiff::ifd_len(data, ifd0 as int, endian) {
                Some(n) => lemma_number_fits_among(
                    data,
                    ifd0 as int,
                    endian,
                    tags,
                    value,
                    n as int,
                ),
                None => {},
            }
            match tiff::pointed_offset(data, ifd0 as int, endian, tiff::EXIF_POINTER) {
                Some(at) => match tiff::ifd_len(data, at as int, endian) {
                    Some(n) => lemma_number_fits_among(
                        data,
                        at as int,
                        endian,
                        tags,
                        value,
                        n as int,
                    ),
                    None => {},
                },
                None => {},
            }
        },
        Err(_) => {},
    }
}

/// The bytes of a text with the zero that ends it.
pub open spec fn text_bytes(value: Seq<char>) -> Seq<u8> {
    vstd::utf8::encode_utf8(value).push(0)
}

pub open spec fn text_model(value: Seq<char>) -> ValueModel {
    ValueModel::Ascii(text_bytes(value))
}

/// A text as a value for an entry.
pub fn text_value(value: &str) -> (r: TagValue)
    ensures
        r.model() == text_model(value@),
{
    let mut bytes: Vec<u8> = Vec::new();
    append_bytes(&mut bytes, value.as_bytes());
    bytes.push(0);
    assert(bytes@ =~= text_bytes(value@));
    TagValue::Ascii(bytes)
}

/// A text can be written over the entries with a tag.
pub open spec fn text_fits(bytes: Seq<u8>, tags: Seq<u16>, value: Seq<char>) -> bool {
    all_fit(file_stores(bytes, tags, text_model(value)))
}

fn write_exif_ascii_tags(bytes: &mut Vec<u8>, tags: &[u16], value: &str) -> (r: Result<(), String>)
    requires
        text_fits(old(bytes)@, tags@, value@),
    ensures
        changed(r, old(bytes)@, final(bytes)@, tag_written(old(bytes)@, tags@, text_model(value@))),
{
    let value = text_value(value);
    write_exif_tag_values(bytes, tags, &value)
}

fn write_exif_short_tag(bytes: &mut Vec<u8>, tags: &[u16], value: u16) -> (r: Result<(), String>)
    ensures
        changed(
            r,
            old(bytes)@,
            final(bytes)@,
            tag_written(old(bytes)@, tags@, ValueModel::Short(value)),
        ),
{
    proof {
        numbers_fit(bytes@, tags@, ValueModel::Short(value));
    }
    write_exif_tag_values(bytes, tags, &TagValue::Short(value))
}

fn write_exif_rational_tag(bytes: &mut Vec<u8>, tags: &[u16], value: (u32, u32)) -> (r: Result<
    (),
    String,
>)
    ensures
        changed(
            r,
            old(bytes)@,
            final(bytes)@,
            tag_written(old(bytes)@, tags@, ValueModel::Rational(value.0, value.1)),
        ),
{
    proof {
        numbers_fit(bytes@, tags@, ValueModel::Rational(value.0, value.1));
    }
    write_exif_tag_values(bytes, tags, &TagValue::Rational(value.0, value.1))
}

/// The tags of the entries that hold the date a picture was taken.
pub open spec fn date_tags() -> Seq<u16> {
    seq![0x0132u16, 0x9003, 0x9004]
}

/// The file after a date was written over its dates.
pub open spec fn taken_date_written(bytes: Seq<u8>, date: Result<Seq<char>, Seq<char>>) -> Result<
    Seq<u8>,
    Seq<char>,
> {
    match date {
        Ok(t) => tag_written(bytes, date_tags(), text_model(t)),
        Err(e) => Err(e),
    }
}

/// Writes a date in the form of EXIF over the dates of a file.
pub fn write_exif_date(bytes: &mut Vec<u8>, exif_value: &str) -> (r: Result<(), String>)
    requires
        text_fits(old(bytes)@, date_tags(), exif_value@),
    ensures
        changed(
            r,
            old(bytes)@,
            final(bytes)@,
            tag_written(old(bytes)@, date_tags(), text_model(exif_value@)),
        ),
{
    let tags: Vec<u16> = vec![0x0132, 0x9003, 0x9004];
    assert(tags@ =~= date_tags());
    write_exif_ascii_tags(bytes, tags.as_slice(), exif_value)
}

/// Writes a date over the dates of a file.
pub fn write_taken_date(bytes: &mut Vec<u8>, display_value: &str) -> (r: Result<(), String>)
    requires
        match datetime::exif_date_of(datetime::known_datetime(display_value@)) {
            Ok(t) => text_fits(old(bytes)@, date_tags(), t),
            Err(_) => true,
        },
    ensures
        changed(
            r,
            old(bytes)@,
            final(bytes)@,
            taken_date_written(
                old(bytes)@,
                datetime::exif_date_of(datetime::known_datetime(display_value@)),
            ),
        ),
{
    match display_datetime_to_exif(display_value) {
        Ok(exif_value) => write_exif_date(bytes, exif_value.as_str()),
        Err(e) => Err(e),
    }
}

/// Writes a date over the dates of a file, unless it would run over the place
/// of one of them: nothing is then written.
pub fn write_taken_date_if_it_fits(bytes: &mut Vec<u8>, display_value: &str) -> (r: Option<
    Result<(), String>,
>)
    ensures
        match r {
            Some(r) => changed(
                r,
                old(bytes)@,
                final(bytes)@,
                taken_date_written(
                    old(bytes)@,
                    datetime::exif_date_of(datetime::known_datetime(display_value@)),
                ),
            ) && (datetime::exif_date_of(
                datetime::known_datetime(display_value@),
            ) matches Ok(t) ==> text_fits(old(bytes)@, date_tags(), t)),
            None => final(bytes)@ == old(bytes)@ && (datetime::exif_date_of(
                datetime::known_datetime(display_value@),
            ) matches Ok(t) && !text_fits(old(bytes)@, date_tags(), t)),
        },
{
    match display_datetime_to_exif(display_value) {
        Ok(exif_value) => {
            let tags: Vec<u16> = vec![0x0132, 0x9003, 0x9004];
            assert(tags@ =~= date_tags());
            let value = text_value(exif_value.as_str());
            if !value_fits(bytes.as_slice(), tags.as_slice(), &value) {
                return None;
            }
        },
        Err(_) => {},
    }
    Some(write_taken_date(bytes, display_value))
}

pub fn write_camera_make(bytes: &mut Vec<u8>, value: &str) -> (r: Result<(), String>)
    requires
        text_fits(old(bytes)@, seq![0x010fu16], value@),
    ensures
        changed(
            r,
            old(bytes)@,
            final(bytes)@,
            tag_written(old(bytes)@, seq![0x010fu16], text_model(value@)),
        ),
{
    let tags: Vec<u16> = vec![0x010f];
    assert(tags@ =~= seq![0x010fu16]);
    write_exif_ascii_tags(bytes, tags.as_slice(), value)
}

pub fn write_camera_model(bytes: &mut Vec<u8>, value: &str) -> (r: Result<(), String>)
    requires
        text_fits(old(bytes)@, seq![0x0110u16], value@),
    ensures
        changed(
            r,
            old(bytes)@,
            final(bytes)@,
            tag_written(old(bytes)@, seq![0x0110u16], text_model(value@)),
        ),
{
    let tags: Vec<u16> = vec![0x0110];
    assert(tags@ =~= seq![0x0110u16]);
    write_exif_ascii_tags(bytes, tags.as_slice(), value)
}

pub fn write_lens_model(bytes: &mut Vec<u8>, value: &str) -> (r: Result<(), String>)
    requires
        text_fits(old(bytes)@, seq![0xa434u16], value@),
    ensures
        changed(
            r,
            old(bytes)@,
            final(bytes)@,
            tag_written(old(bytes)@, seq![0xa434u16], text_model(value@)),
        ),
{
    let tags: Vec<u16> = vec![0xa434];
    assert(tags@ =~= seq![0xa434u16]);
    write_exif_ascii_tags(bytes, tags.as_slice(), value)
}

pub fn write_software(bytes: &mut Vec<u8>, value: &str) -> (r: Result<(), String>)
    requires
        text_fits(old(bytes)@, seq![0x0131u16], value@),
    ensures
        changed(
            r,
            old(bytes)@,
            final(bytes)@,
            tag_written(old(bytes)@, seq![0x0131u16], text_model(value@)),
        ),
{
    let tags: Vec<u16> = vec![0x0131];
    assert(tags@ =~= seq![0x0131u16]);
    write_exif_ascii_tags(bytes, tags.as_slice(), value)
}

pub fn write_artist(bytes: &mut Vec<u8>, value: &str) -> (r: Result<(), String>)
    requires
        text_fits(old(bytes)@, seq![0x013bu16], value@),
    ensures
        changed(
            r,
            old(bytes)@,
            final(bytes)@,
            tag_written(old(bytes)@, seq![0x013bu16], text_model(value@)),
        ),
{
    let tags: Vec<u16> = vec![0x013b];
    assert(tags@ =~= seq![0x013bu16]);
    write_exif_ascii_tags(bytes, tags.as_slice(), value)
}

/// The file after a number was written over the entries with a tag.
pub open spec fn short_written(bytes: Seq<u8>, tag: u16, value: Result<u16, Seq<char>>) -> Result<
    Seq<u8>,
    Seq<char>,
> {
    match value {
        Ok(v) => tag_written(bytes, seq![tag], ValueModel::Short(v)),
        Err(e) => Err(e),
    }
}

/// The file after a fraction was written over the entries with a tag.
pub open spec fn rational_written(
    bytes: Seq<u8>,
    tag: u16,
    value: Result<(u32, u32), Seq<char>>,
) -> Result<Seq<u8>, Seq<char>> {
    match value {
        Ok(v) => tag_written(bytes, seq![tag], ValueModel::Rational(v.0, v.1)),
        Err(e) => Err(e),
    }
}

pub fn write_iso_speed(bytes: &mut Vec<u8>, value: &str) -> (r: Result<(), String>)
    ensures
        changed(
            r,
            old(bytes)@,
            final(bytes)@,
            short_written(old(bytes)@, 0x8827, exif_values::u16_value(value@)),
        ),
{
    let number: u16 = match parse_u16_value(value) {
        Ok(v) => v,
        Err(e) => {
            return Err(e);
        },
    };
    let tags: Vec<u16> = vec![0x8827];
    assert(tags@ =~= seq![0x8827u16]);
    write_exif_short_tag(bytes, tags.as_slice(), number)
}

pub fn write_flash_fired(bytes: &mut Vec<u8>, value: &str) -> (r: Result<(), String>)
    ensures
        changed(
            r,
            old(bytes)@,
            final(bytes)@,
            short_written(old(bytes)@, 0x9209, exif_values::flash_value(value@)),
        ),
{
    let number: u16 = match parse_flash_value(value) {
        Ok(v) => v,
        Err(e) => {
            return Err(e);
        },
    };
    let tags: Vec<u16> = vec![0x9209];
    assert(tags@ =~= seq![0x9209u16]);
    write_exif_short_tag(bytes, tags.as_slice(), number)
}

pub fn write_metering_mode(bytes: &mut Vec<u8>, value: &str) -> (r: Result<(), String>)
    ensures
        changed(
            r,
            old(bytes)@,
            final(bytes)@,
            short_written(old(bytes)@, 0x9207, exif_values::metering_value(value@)),
        ),
{
    let number: u16 = match parse_metering_mode_value(value) {
        Ok(v) => v,
        Err(e) => {
            return Err(e);
        },
    };
    let tags: Vec<u16> = vec![0x9207];
    assert(tags@ =~= seq![0x9207u16]);
    write_exif_short_tag(bytes, tags.as_slice(), number)
}

pub fn write_orientation(bytes: &mut Vec<u8>, value: &str) -> (r: Result<(), String>)
    ensures
        changed(
            r,
            old(bytes)@,
            final(bytes)@,
            short_written(old(bytes)@, 0x0112, exif_values::u16_value(value@)),
        ),
{
    let number: u16 = match parse_u16_value(value) {
        Ok(v) => v,
        Err(e) => {
            return Err(e);
        },
    };
    let tags: Vec<u16> = vec![0x0112];
    assert(tags@ =~= seq![0x0112u16]);
    write_exif_short_tag(bytes, tags.as_slice(), number)
}

pub fn write_color_space(bytes: &mut Vec<u8>, value: &str) -> (r: Result<(), String>)
    ensures
        changed(
            r,
            old(bytes)@,
            final(bytes)@,
            short_written(old(bytes)@, 0xa001, exif_values::color_space_value(value@)),
        ),
{
    let number: u16 = match parse_color_space_value(value) {
        Ok(v) => v,
        Err(e) => {
            return Err(e);
        },
    };
    let tags: Vec<u16> = vec![0xa001];
    assert(tags@ =~= seq![0xa001u16]);
    write_exif_short_tag(bytes, tags.as_slice(), number)
}

/// Writes a number over an entry, given what it reads as.
pub fn write_shutter_speed(bytes: &mut Vec<u8>, value: &str, reading: DecimalReading) -> (r: Result<(), String>)
    ensures
        changed(
            r,
            old(bytes)@,
            final(bytes)@,
            rational_written(old(bytes)@, 0x829a, exif_values::rational_value_of(value@, reading)),
        ),
{
    let number: (u32, u32) = match parse_exif_rational_value(value, reading) {
        Ok(v) => v,
        Err(e) => {
            return Err(e);
        },
    };
    let tags: Vec<u16> = vec![0x829a];
    assert(tags@ =~= seq![0x829au16]);
    write_exif_rational_tag(bytes, tags.as_slice(), number)
}

/// Writes a number over an entry, given what it reads as.
pub fn write_aperture(bytes: &mut Vec<u8>, reading: DecimalReading) -> (r: Result<(), String>)
    ensures
        changed(
            r,
            old(bytes)@,
            final(bytes)@,
            rational_written(old(bytes)@, 0x829d, exif_values::aperture_value_of(reading)),
        ),
{
    let number: (u32, u32) = match parse_aperture_value(reading) {
        Ok(v) => v,
        Err(e) => {
            return Err(e);
        },
    };
    let tags: Vec<u16> = vec![0x829d];
    assert(tags@ =~= seq![0x829du16]);
    write_exif_rational_tag(bytes, tags.as_slice(), number)
}

/// Writes a number over an entry, given what it reads as.
pub fn write_focal_length(bytes: &mut Vec<u8>, value: &str, reading: DecimalReading) -> (r: Result<(), String>)
    ensures
        changed(
            r,
            old(bytes)@,
            final(bytes)@,
            rational_written(old(bytes)@, 0x920a, exif_values::rational_value_of(value@, reading)),
        ),
{
    let number: (u32, u32) = match parse_exif_rational_value(value, reading) {
        Ok(v) => v,
        Err(e) => {
            return Err(e);
        },
    };
    let tags: Vec<u16> = vec![0x920a];
    assert(tags@ =~= seq![0x920au16]);
    write_exif_rational_tag(bytes, tags.as_slice(), number)
}

} // verus!
