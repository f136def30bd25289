//! The TIFF structure that holds EXIF data: its directories and their entries.
use crate::binary::{self, append_bytes, append_u16, append_u32, read_u16, read_u32, write_u32_at, Endian};
use vstd::prelude::*;

verus! {

/// The tag of the entry that points to the EXIF directory.
pub const EXIF_POINTER: u16 = 0x8769;

/// The tag of the entry that points to the GPS directory.
pub const GPS_POINTER: u16 = 0x8825;

// Reading directories.

pub open spec fn tiff_endian(data: Seq<u8>) -> Option<Endian> {
    if data.len() < 2 {
        None
    } else if data[0] == 0x49 && data[1] == 0x49 {
        Some(Endian::Little)
    } else if data[0] == 0x4d && data[1] == 0x4d {
        Some(Endian::Big)
    } else {
        None
    }
}

pub fn read_tiff_endian(data: &[u8]) -> (r: Option<Endian>)
    ensures
        r == tiff_endian(data@),
{
    if data.len() < 2 {
        None
    } else if data[0] == 0x49 && data[1] == 0x49 {
        Some(Endian::Little)
    } else if data[0] == 0x4d && data[1] == 0x4d {
        Some(Endian::Big)
    } else {
        None
    }
}

/// The number of entries of the directory at an offset, if all of them lie
/// within the data.
pub open spec fn ifd_len(data: Seq<u8>, offset: int, endian: Endian) -> Option<nat> {
    match binary::u16_at(data, offset, endian) {
        None => None,
        Some(n) => if offset + 2 + 12 * n <= data.len() {
            Some(n as nat)
        } else {
            None
        },
    }
}

/// Where entry number `i` of the directory at an offset begins.
pub open spec fn entry_pos(offset: int, i: int) -> int {
    offset + 2 + 12 * i
}

pub open spec fn tag_at(data: Seq<u8>, pos: int, endian: Endian) -> u16 {
    binary::u16_of(data[pos], data[pos + 1], endian)
}

pub open spec fn type_at(data: Seq<u8>, pos: int, endian: Endian) -> u16 {
    binary::u16_of(data[pos + 2], data[pos + 3], endian)
}

pub open spec fn count_at(data: Seq<u8>, pos: int, endian: Endian) -> u32 {
    binary::u32_of(data[pos + 4], data[pos + 5], data[pos + 6], data[pos + 7], endian)
}

pub open spec fn offset_at(data: Seq<u8>, pos: int, endian: Endian) -> u32 {
    binary::u32_of(data[pos + 8], data[pos + 9], data[pos + 10], data[pos + 11], endian)
}

/// The size of one value of a field type, for the types that are known.
pub open spec fn unit_size(field_type: u16) -> Option<nat> {
    if field_type == 1 || field_type == 2 || field_type == 7 {
        Some(1)
    } else if field_type == 3 {
        Some(2)
    } else if field_type == 4 || field_type == 9 {
        Some(4)
    } else if field_type == 5 || field_type == 10 {
        Some(8)
    } else {
        None
    }
}

/// The two ends of an entry's value: up to four bytes stand in the entry
/// itself, more stand at the offset that the entry gives.
#[verifier::opaque]
pub open spec fn value_range(data: Seq<u8>, pos: int, endian: Endian) -> Option<(int, int)> {
    match unit_size(type_at(data, pos, endian)) {
        None => None,
        Some(size) => {
            let len = size * count_at(data, pos, endian);
            let start = if len <= 4 {
                pos + 8
            } else {
                offset_at(data, pos, endian) as int
            };
            if start + len <= data.len() {
                Some((start, start + len))
            } else {
                None
            }
        },
    }
}

pub open spec fn value_bytes(data: Seq<u8>, pos: int, endian: Endian) -> Option<Seq<u8>> {
    match value_range(data, pos, endian) {
        None => None,
        Some((start, end)) => Some(data.subrange(start, end)),
    }
}

pub open spec fn short_value(data: Seq<u8>, pos: int, endian: Endian) -> Option<u16> {
    if type_at(data, pos, endian) != 3 {
        None
    } else {
        match value_bytes(data, pos, endian) {
            None => None,
            Some(v) => binary::u16_at(v, 0, endian),
        }
    }
}

pub open spec fn long_value(data: Seq<u8>, pos: int, endian: Endian) -> Option<u32> {
    if type_at(data, pos, endian) == 3 {
        match short_value(data, pos, endian) {
            None => None,
            Some(v) => Some(v as u32),
        }
    } else if type_at(data, pos, endian) == 4 {
        match value_bytes(data, pos, endian) {
            None => None,
            Some(v) => binary::u32_at(v, 0, endian),
        }
    } else {
        None
    }
}

pub open spec fn byte_value(data: Seq<u8>, pos: int, endian: Endian) -> Option<u8> {
    if type_at(data, pos, endian) != 1 {
        None
    } else {
        match value_bytes(data, pos, endian) {
            None => None,
            Some(v) => if v.len() > 0 {
                Some(v[0])
            } else {
                None
            },
        }
    }
}

/// Number `i` of the fractions that an entry holds.
pub open spec fn fraction_in(v: Seq<u8>, i: int, endian: Endian) -> Option<(u32, u32)> {
    match (binary::u32_at(v, 8 * i, endian), binary::u32_at(v, 8 * i + 4, endian)) {
        (Some(n), Some(d)) => Some((n, d)),
        _ => None,
    }
}

pub open spec fn rational_value(data: Seq<u8>, pos: int, endian: Endian) -> Option<(u32, u32)> {
    if type_at(data, pos, endian) != 5 {
        None
    } else {
        match value_bytes(data, pos, endian) {
            None => None,
            Some(v) => fraction_in(v, 0, endian),
        }
    }
}

/// The three fractions of a GPS coordinate.
pub open spec fn rational_triple(data: Seq<u8>, pos: int, endian: Endian) -> Option<
    ((u32, u32), (u32, u32), (u32, u32)),
> {
    if type_at(data, pos, endian) != 5 || count_at(data, pos, endian) < 3 {
        None
    } else {
        match value_bytes(data, pos, endian) {
            None => None,
            Some(v) => match (
                fraction_in(v, 0, endian),
                fraction_in(v, 1, endian),
                fraction_in(v, 2, endian),
            ) {
                (Some(a), Some(b), Some(c)) => Some((a, b, c)),
                _ => None,
            },
        }
    }
}

/// One entry of a directory, as it was read.
#[derive(Clone, Copy, Debug, PartialEq, Eq, Structural)]
pub struct Entry {
    pub pos: usize,
    pub tag: u16,
    pub field_type: u16,
    pub count: u32,
}

impl Entry {
    /// The entry is what stands at its position in the data.
    pub open spec fn reads(self, data: Seq<u8>, endian: Endian) -> bool {
        &&& self.pos + 12 <= data.len()
        &&& self.tag == tag_at(data, self.pos as int, endian)
        &&& self.field_type == type_at(data, self.pos as int, endian)
        &&& self.count == count_at(data, self.pos as int, endian)
    }

    /// The two ends of the entry's value.
    pub fn range(&self, data: &[u8], endian: Endian) -> (r: Option<(usize, usize)>)
        requires
            self.reads(data@, endian),
        ensures
            match r {
                Some((s, e)) => value_range(data@, self.pos as int, endian) == Some(
                    (s as int, e as int),
                ) && s <= e <= data@.len(),
                None => value_range(data@, self.pos as int, endian) is None,
            },
    {
        proof {
            reveal(value_range);
        }
        let size: u64 = match type_size(self.field_type) {
            None => {
                return None;
            },
            Some(size) => size,
        };
        let len: u64 = size * (self.count as u64);
        let n: u64 = data.len() as u64;
        if len <= 4 {
            return Some((self.pos + 8, self.pos + 8 + len as usize));
        }
        let start: u64 = match read_u32(data, self.pos + 8, endian) {
            None => {
                return None;
            },
            Some(v) => v as u64,
        };
        if start + len <= n {
            Some((start as usize, (start + len) as usize))
        } else {
            None
        }
    }

    pub fn bytes(&self, data: &[u8], endian: Endian) -> (r: Option<Vec<u8>>)
        requires
            self.reads(data@, endian),
        ensures
            match r {
                Some(v) => value_bytes(data@, self.pos as int, endian) == Some(v@),
                None => value_bytes(data@, self.pos as int, endian) is None,
            },
    {
        match self.range(data, endian) {
            None => None,
            Some((start, end)) => Some(binary::copied(data, start, end)),
        }
    }

    pub fn as_byte(&self, data: &[u8], endian: Endian) -> (r: Option<u8>)
        requires
            self.reads(data@, endian),
        ensures
            r == byte_value(data@, self.pos as int, endian),
    {
        if self.field_type != 1 {
            return None;
        }
        match self.bytes(data, endian) {
            None => None,
            Some(v) => if v.len() > 0 {
                Some(v[0])
            } else {
                None
            },
        }
    }

    pub fn as_short(&self, data: &[u8], endian: Endian) -> (r: Option<u16>)
        requires
            self.reads(data@, endian),
        ensures
            r == short_value(data@, self.pos as int, endian),
    {
        if self.field_type != 3 {
            return None;
        }
        match self.bytes(data, endian) {
            None => None,
            Some(v) => read_u16(v.as_slice(), 0, endian),
        }
    }

    pub fn as_long(&self, data: &[u8], endian: Endian) -> (r: Option<u32>)
        requires
            self.reads(data@, endian),
        ensures
            r == long_value(data@, self.pos as int, endian),
    {
        if self.field_type == 3 {
            match self.as_short(data, endian) {
                None => None,
                Some(v) => Some(v as u32),
            }
        } else if self.field_type == 4 {
            match self.bytes(data, endian) {
                None => None,
                Some(v) => read_u32(v.as_slice(), 0, endian),
            }
        } else {
            None
        }
    }

    pub fn as_rational(&self, data: &[u8], endian: Endian) -> (r: Option<(u32, u32)>)
        requires
            self.reads(data@, endian),
        ensures
            r == rational_value(data@, self.pos as int, endian),
    {
        if self.field_type != 5 {
            return None;
        }
        match self.bytes(data, endian) {
            None => None,
            Some(v) => read_fraction(v.as_slice(), 0, endian),
        }
    }

    pub fn as_rational_array3(&self, data: &[u8], endian: Endian) -> (r: Option<
        ((u32, u32), (u32, u32), (u32, u32)),
    >)
        requires
            self.reads(data@, endian),
        ensures
            r == rational_triple(data@, self.pos as int, endian),
    {
        if self.field_type != 5 || self.count < 3 {
            return None;
        }
        match self.bytes(data, endian) {
            None => None,
            Some(v) => match (
                read_fraction(v.as_slice(), 0, endian),
                read_fraction(v.as_slice(), 1, endian),
                read_fraction(v.as_slice(), 2, endian),
            ) {
                (Some(a), Some(b), Some(c)) => Some((a, b, c)),
                _ => None,
            },
        }
    }
}

fn read_fraction(v: &[u8], i: usize, endian: Endian) -> (r: Option<(u32, u32)>)
    requires
        i < 3,
    ensures
        r == fraction_in(v@, i as int, endian),
{
    match (read_u32(v, 8 * i, endian), read_u32(v, 8 * i + 4, endian)) {
        (Some(n), Some(d)) => Some((n, d)),
        _ => None,
    }
}

pub fn type_size(field_type: u16) -> (r: Option<u64>)
    ensures
        match r {
            Some(n) => unit_size(field_type) == Some(n as nat) && n <= 8,
            None => unit_size(field_type) is None,
        },
{
    if field_type == 1 || field_type == 2 || field_type == 7 {
        Some(1)
    } else if field_type == 3 {
        Some(2)
    } else if field_type == 4 || field_type == 9 {
        Some(4)
    } else if field_type == 5 || field_type == 10 {
        Some(8)
    } else {
        None
    }
}

/// The entries are those of the directory at an offset, in their order.
pub open spec fn entries_of(
    entries: Seq<Entry>,
    data: Seq<u8>,
    offset: int,
    endian: Endian,
) -> bool {
    &&& ifd_len(data, offset, endian) == Some(entries.len())
    &&& forall|i: int|
        0 <= i < entries.len() ==> (#[trigger] entries[i]).reads(data, endian) && entries[i].pos
            == entry_pos(offset, i)
}

pub fn read_ifd_entries(data: &[u8], offset: usize, endian: Endian) -> (r: Option<Vec<Entry>>)
    ensures
        match r {
            Some(v) => entries_of(v@, data@, offset as int, endian),
            None => ifd_len(data@, offset as int, endian) is None,
        },
{
    let count: usize = match read_u16(data, offset, endian) {
        None => {
            return None;
        },
        Some(n) => n as usize,
    };
    let n: usize = data.len();
    let start: usize = offset + 2;
    if 12 * count > n - start {
        return None;
    }
    let mut entries: Vec<Entry> = Vec::new();
    let mut i: usize = 0;
    while i < count
        invariant
            i <= count,
            count <= 65535,
            n == data@.len(),
            start == offset + 2,
            start + 12 * count <= n,
            entries@.len() == i,
            forall|k: int|
                0 <= k < i ==> (#[trigger] entries@[k]).reads(data@, endian) && entries@[k].pos
                    == entry_pos(offset as int, k),
        decreases count - i,
    {
        let pos: usize = start + 12 * i;
        match (
            read_u16(data, pos, endian),
            read_u16(data, pos + 2, endian),
            read_u32(data, pos + 4, endian),
        ) {
            (Some(tag), Some(field_type), Some(value_count)) => {
                entries.push(Entry { pos, tag, field_type, count: value_count });
            },
            _ => {
                return None;
            },
        }
        i += 1;
    }
    Some(entries)
}

/// Where the first entry with a tag begins, among the entries from `i` on.
pub open spec fn first_from(
    data: Seq<u8>,
    offset: int,
    endian: Endian,
    tag: u16,
    i: int,
    n: int,
) -> Option<int>
    decreases n - i,
{
    if i >= n {
        None
    } else if tag_at(data, entry_pos(offset, i), endian) == tag {
        Some(entry_pos(offset, i))
    } else {
        first_from(data, offset, endian, tag, i + 1, n)
    }
}

/// Where the last entry with a tag begins, among the first `n` entries.
pub open spec fn last_among(
    data: Seq<u8>,
    offset: int,
    endian: Endian,
    tag: u16,
    n: int,
) -> Option<int>
    decreases n,
{
    if n <= 0 {
        None
    } else if tag_at(data, entry_pos(offset, n - 1), endian) == tag {
        Some(entry_pos(offset, n - 1))
    } else {
        last_among(data, offset, endian, tag, n - 1)
    }
}

/// The first entry with a tag in the directory at an offset.
pub open spec fn first_entry(data: Seq<u8>, offset: int, endian: Endian, tag: u16) -> Option<int> {
    match ifd_len(data, offset, endian) {
        None => None,
        Some(n) => first_from(data, offset, endian, tag, 0, n as int),
    }
}

/// The last entry with a tag in the directory at an offset.
pub open spec fn last_entry(data: Seq<u8>, offset: int, endian: Endian, tag: u16) -> Option<int> {
    match ifd_len(data, offset, endian) {
        None => None,
        Some(n) => last_among(data, offset, endian, tag, n as int),
    }
}

pub(crate) fn first_with_tag(
    entries: &[Entry],
    tag: u16,
    Ghost(data): Ghost<Seq<u8>>,
    Ghost(offset): Ghost<int>,
    endian: Endian,
) -> (r: Option<Entry>)
    requires
        entries_of(entries@, data, offset, endian),
    ensures
        match r {
            Some(e) => e.reads(data, endian) && first_entry(data, offset, endian, tag) == Some(
                e.pos as int,
            ) && e.tag == tag,
            None => first_entry(data, offset, endian, tag) is None,
        },
{
    let mut i: usize = 0;
    let n: usize = entries.len();
    while i < n
        invariant
            i <= n,
            n == entries@.len(),
            entries_of(entries@, data, offset, endian),
            first_entry(data, offset, endian, tag) == first_from(
                data,
                offset,
                endian,
                tag,
                i as int,
                n as int,
            ),
        decreases n - i,
    {
        assert(entries@[i as int].reads(data, endian));
        if entries[i].tag == tag {
            return Some(entries[i]);
        }
        i += 1;
    }
    None
}

pub(crate) fn last_with_tag(
    entries: &[Entry],
    tag: u16,
    Ghost(data): Ghost<Seq<u8>>,
    Ghost(offset): Ghost<int>,
    endian: Endian,
) -> (r: Option<Entry>)
    requires
        entries_of(entries@, data, offset, endian),
    ensures
        match r {
            Some(e) => e.reads(data, endian) && last_entry(data, offset, endian, tag) == Some(
                e.pos as int,
            ) && e.tag == tag,
            None => last_entry(data, offset, endian, tag) is None,
        },
{
    let mut i: usize = entries.len();
    while i > 0
        invariant
            i <= entries@.len(),
            entries_of(entries@, data, offset, endian),
            last_entry(data, offset, endian, tag) == last_among(
                data,
                offset,
                endian,
                tag,
                i as int,
            ),
        decreases i,
    {
        assert(entries@[i - 1].reads(data, endian));
        if entries[i - 1].tag == tag {
            return Some(entries[i - 1]);
        }
        i -= 1;
    }
    None
}

// Raw directory entries and the rewriting of directories.

/// The tag of an entry that is kept as its twelve bytes.
pub open spec fn raw_tag(raw: Seq<u8>, endian: Endian) -> u16 {
    binary::u16_of(raw[0], raw[1], endian)
}

/// The entries of the directory at an offset, each as its twelve bytes.
pub open spec fn raw_ifd(data: Seq<u8>, offset: int, endian: Endian) -> Result<
    Seq<Seq<u8>>,
    Seq<char>,
> {
    match binary::u16_at(data, offset, endian) {
        None => Err("Invalid PNG eXIf IFD entry count."@),
        Some(n) => if offset + 2 + 12 * n > data.len() {
            Err("PNG eXIf IFD entry is truncated."@)
        } else {
            Ok(
                Seq::new(
                    n as nat,
                    |i: int| data.subrange(entry_pos(offset, i), entry_pos(offset, i) + 12),
                ),
            )
        },
    }
}

/// The offset of the directory that follows, which stands behind the entries.
pub open spec fn raw_next(data: Seq<u8>, offset: int, count: int, endian: Endian) -> Result<
    u32,
    Seq<char>,
> {
    match binary::u32_at(data, entry_pos(offset, count), endian) {
        None => Err("PNG eXIf next IFD offset is truncated."@),
        Some(v) => Ok(v),
    }
}

#[derive(Debug)]
pub struct RawEntry {
    pub tag: u16,
    pub bytes: Vec<u8>,
}

impl RawEntry {
    pub open spec fn valid(self, endian: Endian) -> bool {
        self.bytes@.len() == 12 && self.tag == raw_tag(self.bytes@, endian)
    }

    fn duplicate(&self) -> (r: RawEntry)
        ensures
            r.tag == self.tag,
            r.bytes@ == self.bytes@,
    {
        let mut bytes: Vec<u8> = Vec::new();
        append_bytes(&mut bytes, self.bytes.as_slice());
        assert(bytes@ =~= self.bytes@);
        RawEntry { tag: self.tag, bytes }
    }
}

pub open spec fn raw_view(entries: Seq<RawEntry>) -> Seq<Seq<u8>> {
    Seq::new(entries.len(), |i: int| entries[i].bytes@)
}

pub open spec fn all_valid(entries: Seq<RawEntry>, endian: Endian) -> bool {
    forall|i: int| 0 <= i < entries.len() ==> (#[trigger] entries[i]).valid(endian)
}

pub fn raw_ifd_entries(tiff: &[u8], offset: usize, endian: Endian) -> (r: Result<
    Vec<RawEntry>,
    String,
>)
    ensures
        match r {
            Ok(v) => raw_ifd(tiff@, offset as int, endian) == Ok::<Seq<Seq<u8>>, Seq<char>>(
                raw_view(v@),
            ) && all_valid(v@, endian) && v@.len() <= 65535,
            Err(e) => raw_ifd(tiff@, offset as int, endian) == Err::<Seq<Seq<u8>>, Seq<char>>(e@),
        },
{
    let count: usize = match read_u16(tiff, offset, endian) {
        None => {
            return Err("Invalid PNG eXIf IFD entry count.".to_owned());
        },
        Some(n) => n as usize,
    };
    let n: usize = tiff.len();
    let start: usize = offset + 2;
    if 12 * count > n - start {
        return Err("PNG eXIf IFD entry is truncated.".to_owned());
    }
    let mut entries: Vec<RawEntry> = Vec::new();
    let mut i: usize = 0;
    while i < count
        invariant
            i <= count,
            count <= 65535,
            n == tiff@.len(),
            start == offset + 2,
            start + 12 * count <= n,
            entries@.len() == i,
            all_valid(entries@, endian),
            forall|k: int|
                0 <= k < i ==> (#[trigger] entries@[k]).bytes@ == tiff@.subrange(
                    entry_pos(offset as int, k),
                    entry_pos(offset as int, k) + 12,
                ),
        decreases count - i,
    {
        let pos: usize = start + 12 * i;
        let bytes = binary::copied(tiff, pos, pos + 12);
        let tag: u16 = match endian {
            Endian::Little => bytes[0] as u16 + 256 * (bytes[1] as u16),
            Endian::Big => bytes[1] as u16 + 256 * (bytes[0] as u16),
        };
        entries.push(RawEntry { tag, bytes });
        i += 1;
    }
    assert(raw_view(entries@) =~= raw_ifd(tiff@, offset as int, endian)->Ok_0);
    Ok(entries)
}

fn raw_ifd_next_offset(tiff: &[u8], offset: usize, count: usize, endian: Endian) -> (r: Result<
    u32,
    String,
>)
    requires
        entry_pos(offset as int, count as int) <= tiff@.len(),
        count <= 65535,
    ensures
        match r {
            Ok(v) => raw_next(tiff@, offset as int, count as int, endian) == Ok::<u32, Seq<char>>(
                v,
            ),
            Err(e) => raw_next(tiff@, offset as int, count as int, endian) == Err::<
                u32,
                Seq<char>,
            >(e@),
        },
{
    let n: usize = tiff.len();
    match read_u32(tiff, offset + 2 + 12 * count, endian) {
        None => Err("PNG eXIf next IFD offset is truncated.".to_owned()),
        Some(v) => Ok(v),
    }
}

/// The twelve bytes of an entry.
pub open spec fn entry_bytes(
    tag: u16,
    field_type: u16,
    count: u32,
    value: u32,
    endian: Endian,
) -> Seq<u8> {
    binary::u16_bytes(tag, endian) + binary::u16_bytes(field_type, endian) + binary::u32_bytes(
        count,
        endian,
    ) + binary::u32_bytes(value, endian)
}

fn make_tiff_entry(tag: u16, field_type: u16, count: u32, value: u32, endian: Endian) -> (r:
    RawEntry)
    ensures
        r.bytes@ == entry_bytes(tag, field_type, count, value, endian),
        r.valid(endian),
        r.tag == tag,
{
    let mut bytes: Vec<u8> = Vec::new();
    append_u16(&mut bytes, tag, endian);
    append_u16(&mut bytes, field_type, endian);
    append_u32(&mut bytes, count, endian);
    append_u32(&mut bytes, value, endian);
    proof {
        binary::u16_bytes_read_back(tag, endian);
        binary::u16_bytes_read_back(field_type, endian);
        binary::u32_bytes_read_back(count, endian);
        binary::u32_bytes_read_back(value, endian);
        assert(bytes@ =~= entry_bytes(tag, field_type, count, value, endian));
        assert(bytes@[0] == binary::u16_bytes(tag, endian)[0]);
        assert(bytes@[1] == binary::u16_bytes(tag, endian)[1]);
    }
    RawEntry { tag, bytes }
}

/// The entries one behind the other.
pub open spec fn joined(entries: Seq<Seq<u8>>) -> Seq<u8>
    decreases entries.len(),
{
    if entries.len() == 0 {
        Seq::empty()
    } else {
        joined(entries.drop_last()) + entries.last()
    }
}

/// A directory: the number of entries, the entries, the offset of the next.
pub open spec fn ifd_bytes(entries: Seq<Seq<u8>>, next: u32, endian: Endian) -> Seq<u8> {
    binary::u16_bytes(entries.len() as u16, endian) + joined(entries) + binary::u32_bytes(
        next,
        endian,
    )
}

fn append_raw_ifd(output: &mut Vec<u8>, entries: &Vec<RawEntry>, next_ifd: u32, endian: Endian) -> (r:
    Result<(), String>)
    ensures
        match r {
            Ok(_) => entries@.len() <= u16::MAX && final(output)@ == old(output)@ + ifd_bytes(
                raw_view(entries@),
                next_ifd,
                endian,
            ),
            Err(e) => entries@.len() > u16::MAX && e@ == "PNG eXIf IFD has too many entries."@,
        },
{
    if entries.len() > 65535 {
        return Err("PNG eXIf IFD has too many entries.".to_owned());
    }
    append_u16(output, entries.len() as u16, endian);
    let ghost head = output@;
    let mut i: usize = 0;
    assert(output@ =~= head + joined(raw_view(entries@).take(0)));
    while i < entries.len()
        invariant
            i <= entries@.len(),
            output@ == head + joined(raw_view(entries@).take(i as int)),
        decreases entries@.len() - i,
    {
        append_bytes(output, entries[i].bytes.as_slice());
        proof {
            let all = raw_view(entries@);
            assert(all.take(i + 1).drop_last() =~= all.take(i as int));
            assert(all.take(i + 1).last() == entries@[i as int].bytes@);
            assert(head + joined(all.take(i as int)) + entries@[i as int].bytes@ =~= head + joined(
                all.take(i + 1),
            ));
        }
        i += 1;
    }
    append_u32(output, next_ifd, endian);
    assert(raw_view(entries@).take(entries@.len() as int) =~= raw_view(entries@));
    assert(output@ =~= old(output)@ + ifd_bytes(raw_view(entries@), next_ifd, endian));
    Ok(())
}

/// The entries whose tag is not among the given ones, in their order.
pub open spec fn without_tags(entries: Seq<Seq<u8>>, tags: Seq<u16>, endian: Endian) -> Seq<
    Seq<u8>,
>
    decreases entries.len(),
{
    if entries.len() == 0 {
        Seq::empty()
    } else {
        let rest = without_tags(entries.drop_last(), tags, endian);
        if tags.contains(raw_tag(entries.last(), endian)) {
            rest
        } else {
            rest.push(entries.last())
        }
    }
}

pub fn contains_tag(tags: &[u16], tag: u16) -> (r: bool)
    ensures
        r == tags@.contains(tag),
{
    let mut i: usize = 0;
    while i < tags.len()
        invariant
            i <= tags@.len(),
            forall|k: int| 0 <= k < i ==> tags@[k] != tag,
        decreases tags@.len() - i,
    {
        if tags[i] == tag {
            return true;
        }
        i += 1;
    }
    false
}

fn filter_tags(entries: &Vec<RawEntry>, tags: &[u16], endian: Endian) -> (r: Vec<RawEntry>)
    requires
        all_valid(entries@, endian),
    ensures
        raw_view(r@) == without_tags(raw_view(entries@), tags@, endian),
        all_valid(r@, endian),
        r@.len() <= entries@.len(),
{
    let mut out: Vec<RawEntry> = Vec::new();
    let mut i: usize = 0;
    assert(raw_view(out@) =~= without_tags(raw_view(entries@).take(0), tags@, endian));
    while i < entries.len()
        invariant
            i <= entries@.len(),
            all_valid(entries@, endian),
            all_valid(out@, endian),
            out@.len() <= i,
            raw_view(out@) == without_tags(raw_view(entries@).take(i as int), tags@, endian),
        decreases entries@.len() - i,
    {
        let ghost before = out@;
        assert(entries@[i as int].valid(endian));
        if !contains_tag(tags, entries[i].tag) {
            out.push(entries[i].duplicate());
            assert(raw_view(out@) =~= raw_view(before).push(entries@[i as int].bytes@));
        }
        proof {
            let all = raw_view(entries@);
            assert(all.take(i + 1).drop_last() =~= all.take(i as int));
            assert(all.take(i + 1).last() == entries@[i as int].bytes@);
        }
        i += 1;
    }
    assert(raw_view(entries@).take(entries@.len() as int) =~= raw_view(entries@));
    out
}

/// Where a new entry goes among sorted ones: behind those whose tag is not larger.
pub open spec fn slot_for(entries: Seq<Seq<u8>>, tag: u16, endian: Endian) -> int
    decreases entries.len(),
{
    if entries.len() == 0 {
        0
    } else if raw_tag(entries.last(), endian) <= tag {
        entries.len() as int
    } else {
        slot_for(entries.drop_last(), tag, endian)
    }
}

/// The entries in the order of their tags; those with the same tag keep their order.
pub open spec fn sorted_by_tag(entries: Seq<Seq<u8>>, endian: Endian) -> Seq<Seq<u8>>
    decreases entries.len(),
{
    if entries.len() == 0 {
        Seq::empty()
    } else {
        let rest = sorted_by_tag(entries.drop_last(), endian);
        rest.insert(slot_for(rest, raw_tag(entries.last(), endian), endian), entries.last())
    }
}

proof fn lemma_slot_bounds(entries: Seq<Seq<u8>>, tag: u16, endian: Endian)
    ensures
        0 <= slot_for(entries, tag, endian) <= entries.len(),
    decreases entries.len(),
{
    if entries.len() > 0 && raw_tag(entries.last(), endian) > tag {
        lemma_slot_bounds(entries.drop_last(), tag, endian);
    }
}

proof fn lemma_sorted_len(entries: Seq<Seq<u8>>, endian: Endian)
    ensures
        sorted_by_tag(entries, endian).len() == entries.len(),
    decreases entries.len(),
{
    if entries.len() > 0 {
        lemma_sorted_len(entries.drop_last(), endian);
        let rest = sorted_by_tag(entries.drop_last(), endian);
        lemma_slot_bounds(rest, raw_tag(entries.last(), endian), endian);
    }
}

fn find_slot(entries: &Vec<RawEntry>, tag: u16, endian: Endian) -> (r: usize)
    requires
        all_valid(entries@, endian),
    ensures
        r == slot_for(raw_view(entries@), tag, endian),
        r <= entries@.len(),
{
    let mut i: usize = entries.len();
    assert(raw_view(entries@).take(i as int) =~= raw_view(entries@));
    while i > 0
        invariant
            i <= entries@.len(),
            all_valid(entries@, endian),
            slot_for(raw_view(entries@), tag, endian) == slot_for(
                raw_view(entries@).take(i as int),
                tag,
                endian,
            ),
        decreases i,
    {
        assert(entries@[i - 1].valid(endian));
        assert(raw_view(entries@).take(i as int).last() == entries@[i - 1].bytes@);
        assert(raw_view(entries@).take(i as int).drop_last() =~= raw_view(entries@).take(i - 1));
        if entries[i - 1].tag <= tag {
            return i;
        }
        i -= 1;
    }
    0
}

fn sort_by_tag(entries: &Vec<RawEntry>, endian: Endian) -> (r: Vec<RawEntry>)
    requires
        all_valid(entries@, endian),
    ensures
        raw_view(r@) == sorted_by_tag(raw_view(entries@), endian),
        all_valid(r@, endian),
        r@.len() == entries@.len(),
{
    let mut out: Vec<RawEntry> = Vec::new();
    let mut i: usize = 0;
    assert(raw_view(out@) =~= sorted_by_tag(raw_view(entries@).take(0), endian));
    while i < entries.len()
        invariant
            i <= entries@.len(),
            all_valid(entries@, endian),
            all_valid(out@, endian),
            out@.len() == i,
            raw_view(out@) == sorted_by_tag(raw_view(entries@).take(i as int), endian),
        decreases entries@.len() - i,
    {
        assert(entries@[i as int].valid(endian));
        let slot: usize = find_slot(&out, entries[i].tag, endian);
        let ghost before = out@;
        let copy = entries[i].duplicate();
        out.insert(slot, copy);
        proof {
            let all = raw_view(entries@);
            assert(all.take(i + 1).drop_last() =~= all.take(i as int));
            assert(all.take(i + 1).last() == entries@[i as int].bytes@);
            assert(raw_view(out@) =~= raw_view(before).insert(
                slot as int,
                entries@[i as int].bytes@,
            ));
            assert(all_valid(out@, endian));
        }
        i += 1;
    }
    assert(raw_view(entries@).take(entries@.len() as int) =~= raw_view(entries@));
    out
}

/// The data, brought to an even length with a zero.
pub open spec fn even(data: Seq<u8>) -> Seq<u8> {
    if data.len() % 2 != 0 {
        data.push(0)
    } else {
        data
    }
}

/// The offset of the directory that the first entry with a tag points to.
pub open spec fn pointed_offset(data: Seq<u8>, ifd0: int, endian: Endian, tag: u16) -> Option<
    u32,
> {
    match first_entry(data, ifd0, endian, tag) {
        None => None,
        Some(pos) => long_value(data, pos, endian),
    }
}

/// The entries of a directory and the offset behind them; none where there is
/// no directory.
pub open spec fn raw_directory(data: Seq<u8>, offset: Option<u32>, endian: Endian) -> Result<
    (Seq<Seq<u8>>, u32),
    Seq<char>,
> {
    match offset {
        None => Ok((Seq::empty(), 0)),
        Some(at) => match raw_ifd(data, at as int, endian) {
            Err(m) => Err(m),
            Ok(entries) => match raw_next(data, at as int, entries.len() as int, endian) {
                Err(m) => Err(m),
                Ok(next) => Ok((entries, next)),
            },
        },
    }
}

/// The TIFF data behind which directories were put, the first of them at `ifd0`.
pub open spec fn pointed_to(data: Seq<u8>, ifd0: int, endian: Endian) -> Seq<u8> {
    binary::spliced(data, 4, binary::u32_bytes(ifd0 as u32, endian))
}

/// The data with its directories written anew behind it, so that the EXIF
/// directory holds one entry for the date, whose text stands at the end.
pub open spec fn dated_layout(
    tiff: Seq<u8>,
    endian: Endian,
    ifd0: (Seq<Seq<u8>>, u32),
    exif: (Seq<Seq<u8>>, u32),
    date: Seq<u8>,
) -> Result<Seq<u8>, Seq<char>> {
    let base = even(tiff);
    let kept0 = without_tags(ifd0.0, seq![EXIF_POINTER], endian);
    let kept1 = without_tags(exif.0, seq![0x9003u16], endian);
    let at0 = base.len() as int;
    let at1 = at0 + 6 + 12 * (kept0.len() + 1);
    let at2 = at1 + 6 + 12 * (kept1.len() + 1);
    if at1 > usize::MAX {
        Err("PNG eXIf is too large."@)
    } else if kept0.len() + 1 > u16::MAX {
        Err("PNG eXIf IFD has too many entries."@)
    } else if at2 > usize::MAX {
        Err("PNG eXIf is too large."@)
    } else if kept1.len() + 1 > u16::MAX {
        Err("PNG eXIf IFD has too many entries."@)
    } else {
        let new0 = sorted_by_tag(
            kept0.push(entry_bytes(EXIF_POINTER, 4, 1, at1 as u32, endian)),
            endian,
        );
        let new1 = sorted_by_tag(
            kept1.push(entry_bytes(0x9003, 2, date.len() as u32, at2 as u32, endian)),
            endian,
        );
        Ok(
            pointed_to(
                base + ifd_bytes(new0, ifd0.1, endian) + ifd_bytes(new1, exif.1, endian) + date,
                at0,
                endian,
            ),
        )
    }
}

/// The outcome of giving a TIFF structure a new date.
pub open spec fn dated(tiff: Seq<u8>, date: Seq<u8>) -> Result<Seq<u8>, Seq<char>> {
    match tiff_endian(tiff) {
        None => Err("Invalid PNG eXIf TIFF header."@),
        Some(endian) => if binary::u16_at(tiff, 2, endian) != Some(42u16) {
            Err("Invalid PNG eXIf TIFF marker."@)
        } else {
            match binary::u32_at(tiff, 4, endian) {
                None => Err("Invalid PNG eXIf IFD0 offset."@),
                Some(at) => match raw_directory(tiff, Some(at), endian) {
                    Err(m) => Err(m),
                    Ok(ifd0) => match raw_directory(
                        tiff,
                        pointed_offset(tiff, at as int, endian, EXIF_POINTER),
                        endian,
                    ) {
                        Err(m) => Err(m),
                        Ok(exif) => dated_layout(tiff, endian, ifd0, exif, date),
                    },
                },
            }
        },
    }
}

fn read_directory(tiff: &[u8], offset: Option<u32>, endian: Endian) -> (r: Result<
    (Vec<RawEntry>, u32),
    String,
>)
    ensures
        match r {
            Ok((entries, next)) => raw_directory(tiff@, offset, endian) == Ok::<
                (Seq<Seq<u8>>, u32),
                Seq<char>,
            >((raw_view(entries@), next)) && all_valid(entries@, endian) && entries@.len()
                <= 65535,
            Err(e) => raw_directory(tiff@, offset, endian) == Err::<
                (Seq<Seq<u8>>, u32),
                Seq<char>,
            >(e@),
        },
{
    match offset {
        None => {
            let entries: Vec<RawEntry> = Vec::new();
            assert(raw_view(entries@) =~= Seq::<Seq<u8>>::empty());
            Ok((entries, 0))
        },
        Some(at) => match raw_ifd_entries(tiff, at as usize, endian) {
            Err(e) => Err(e),
            Ok(entries) => match raw_ifd_next_offset(tiff, at as usize, entries.len(), endian) {
                Err(e) => Err(e),
                Ok(next) => Ok((entries, next)),
            },
        },
    }
}

fn read_pointer(tiff: &[u8], ifd0: u32, endian: Endian, tag: u16) -> (r: Option<u32>)
    ensures
        r == pointed_offset(tiff@, ifd0 as int, endian, tag),
{
    match read_ifd_entries(tiff, ifd0 as usize, endian) {
        None => None,
        Some(entries) => match first_with_tag(
            entries.as_slice(),
            tag,
            Ghost(tiff@),
            Ghost(ifd0 as int),
            endian,
        ) {
            None => None,
            Some(entry) => entry.as_long(tiff, endian),
        },
    }
}

fn even_copy(tiff: &[u8]) -> (r: Vec<u8>)
    ensures
        r@ == even(tiff@),
        r@.len() % 2 == 0,
{
    let mut output: Vec<u8> = Vec::new();
    append_bytes(&mut output, tiff);
    assert(output@ =~= tiff@);
    if output.len() % 2 != 0 {
        output.push(0);
    }
    output
}

fn write_dated(
    tiff: &[u8],
    endian: Endian,
    ifd0: (Vec<RawEntry>, u32),
    exif: (Vec<RawEntry>, u32),
    date: &[u8],
) -> (r: Result<Vec<u8>, String>)
    requires
        tiff@.len() >= 8,
        all_valid(ifd0.0@, endian),
        all_valid(exif.0@, endian),
        ifd0.0@.len() <= 65535,
        exif.0@.len() <= 65535,
    ensures
        match r {
            Ok(v) => dated_layout(
                tiff@,
                endian,
                (raw_view(ifd0.0@), ifd0.1),
                (raw_view(exif.0@), exif.1),
                date@,
            ) == Ok::<Seq<u8>, Seq<char>>(v@),
            Err(e) => dated_layout(
                tiff@,
                endian,
                (raw_view(ifd0.0@), ifd0.1),
                (raw_view(exif.0@), exif.1),
                date@,
            ) == Err::<Seq<u8>, Seq<char>>(e@),
        },
{
    let pointer_tags: Vec<u16> = vec![EXIF_POINTER];
    let date_tags: Vec<u16> = vec![0x9003];
    assert(pointer_tags@ =~= seq![EXIF_POINTER]);
    assert(date_tags@ =~= seq![0x9003u16]);
    let mut kept0 = filter_tags(&ifd0.0, pointer_tags.as_slice(), endian);
    let mut kept1 = filter_tags(&exif.0, date_tags.as_slice(), endian);
    let ghost k0 = raw_view(kept0@);
    let ghost k1 = raw_view(kept1@);
    let mut output = even_copy(tiff);
    let ghost base = output@;
    let at0: usize = output.len();
    let at1: usize = match at0.checked_add(6 + 12 * (kept0.len() + 1)) {
        None => {
            return Err("PNG eXIf is too large.".to_owned());
        },
        Some(at) => at,
    };
    kept0.push(make_tiff_entry(EXIF_POINTER, 4, 1, at1 as u32, endian));
    assert(raw_view(kept0@) =~= k0.push(entry_bytes(EXIF_POINTER, 4, 1, at1 as u32, endian)));
    let new0 = sort_by_tag(&kept0, endian);
    match append_raw_ifd(&mut output, &new0, ifd0.1, endian) {
        Err(e) => {
            return Err(e);
        },
        Ok(_) => {},
    }
    let ghost first = output@;
    let at2: usize = match at1.checked_add(6 + 12 * (kept1.len() + 1)) {
        None => {
            return Err("PNG eXIf is too large.".to_owned());
        },
        Some(at) => at,
    };
    kept1.push(make_tiff_entry(0x9003, 2, date.len() as u32, at2 as u32, endian));
    assert(raw_view(kept1@) =~= k1.push(
        entry_bytes(0x9003, 2, date@.len() as u32, at2 as u32, endian),
    ));
    let new1 = sort_by_tag(&kept1, endian);
    match append_raw_ifd(&mut output, &new1, exif.1, endian) {
        Err(e) => {
            return Err(e);
        },
        Ok(_) => {},
    }
    append_bytes(&mut output, date);
    match write_u32_at(&mut output, 4, at0 as u32, endian) {
        Err(e) => {
            return Err(e);
        },
        Ok(_) => {},
    }
    Ok(output)
}

/// Writes a date into a TIFF structure: the directories are put anew behind
/// the data, every other entry stays.
pub fn rewrite_with_date(tiff: &[u8], date: &[u8]) -> (r: Result<Vec<u8>, String>)
    ensures
        match r {
            Ok(v) => dated(tiff@, date@) == Ok::<Seq<u8>, Seq<char>>(v@),
            Err(e) => dated(tiff@, date@) == Err::<Seq<u8>, Seq<char>>(e@),
        },
{
    let endian = match read_tiff_endian(tiff) {
        None => {
            return Err("Invalid PNG eXIf TIFF header.".to_owned());
        },
        Some(endian) => endian,
    };
    match read_u16(tiff, 2, endian) {
        Some(42) => {},
        _ => {
            return Err("Invalid PNG eXIf TIFF marker.".to_owned());
        },
    }
    let at: u32 = match read_u32(tiff, 4, endian) {
        None => {
            return Err("Invalid PNG eXIf IFD0 offset.".to_owned());
        },
        Some(at) => at,
    };
    let ifd0 = match read_directory(tiff, Some(at), endian) {
        Err(e) => {
            return Err(e);
        },
        Ok(d) => d,
    };
    let exif = match read_directory(tiff, read_pointer(tiff, at, endian, EXIF_POINTER), endian) {
        Err(e) => {
            return Err(e);
        },
        Ok(d) => d,
    };
    write_dated(tiff, endian, ifd0, exif, date)
}

/// The offset of the GPS directory; zero means that there is none.
pub open spec fn gps_offset(data: Seq<u8>, ifd0: int, endian: Endian) -> Option<u32> {
    match pointed_offset(data, ifd0, endian, GPS_POINTER) {
        Some(v) => if v > 0 {
            Some(v)
        } else {
            None
        },
        None => None,
    }
}

/// The data with a directory put behind it, if there is one.
pub open spec fn with_directory(
    data: Seq<u8>,
    offset: Option<u32>,
    entries: Seq<Seq<u8>>,
    next: u32,
    endian: Endian,
) -> Seq<u8> {
    match offset {
        None => data,
        Some(_) => data + ifd_bytes(entries, next, endian),
    }
}

/// The entries with one more for a pointer, if there is a directory to point to.
pub open spec fn with_pointer(
    entries: Seq<Seq<u8>>,
    offset: Option<u32>,
    tag: u16,
    at: int,
    endian: Endian,
) -> Seq<Seq<u8>> {
    match offset {
        None => entries,
        Some(_) => entries.push(entry_bytes(tag, 4, 1, at as u32, endian)),
    }
}

/// The data with its directories written anew behind it, without the entries
/// that have the given tags.
pub open spec fn removed_layout(
    tiff: Seq<u8>,
    endian: Endian,
    ifd0: (Seq<Seq<u8>>, u32),
    exif_at: Option<u32>,
    exif: (Seq<Seq<u8>>, u32),
    gps_at: Option<u32>,
    gps: (Seq<Seq<u8>>, u32),
    tags: (Seq<u16>, Seq<u16>, Seq<u16>),
) -> Result<Seq<u8>, Seq<char>> {
    let base = even(tiff);
    let at1 = base.len() as int;
    let out1 = with_directory(base, exif_at, without_tags(exif.0, tags.1, endian), exif.1, endian);
    let at2 = out1.len() as int;
    let out2 = with_directory(out1, gps_at, without_tags(gps.0, tags.2, endian), gps.1, endian);
    let at0 = out2.len() as int;
    let kept = without_tags(ifd0.0, tags.0 + seq![EXIF_POINTER, GPS_POINTER], endian);
    let new0 = sorted_by_tag(
        with_pointer(
            with_pointer(kept, exif_at, EXIF_POINTER, at1, endian),
            gps_at,
            GPS_POINTER,
            at2,
            endian,
        ),
        endian,
    );
    if exif_at is Some && at1 > u32::MAX {
        Err("EXIF data is too large."@)
    } else if gps_at is Some && at2 > u32::MAX {
        Err("EXIF data is too large."@)
    } else if new0.len() > u16::MAX {
        Err("PNG eXIf IFD has too many entries."@)
    } else if at0 > u32::MAX {
        Err("EXIF data is too large."@)
    } else {
        Ok(pointed_to(out2 + ifd_bytes(new0, ifd0.1, endian), at0, endian))
    }
}

/// The outcome of taking the entries with the given tags out of the first, the
/// EXIF and the GPS directory.
pub open spec fn tags_removed(
    tiff: Seq<u8>,
    tags: (Seq<u16>, Seq<u16>, Seq<u16>),
) -> Result<Seq<u8>, Seq<char>> {
    match tiff_endian(tiff) {
        None => Err("Invalid EXIF TIFF header."@),
        Some(endian) => if binary::u16_at(tiff, 2, endian) != Some(42u16) {
            Err("Invalid EXIF TIFF marker."@)
        } else {
            match binary::u32_at(tiff, 4, endian) {
                None => Err("Invalid EXIF IFD0 offset."@),
                Some(at) => match raw_directory(tiff, Some(at), endian) {
                    Err(m) => Err(m),
                    Ok(ifd0) => {
                        let exif_at = pointed_offset(tiff, at as int, endian, EXIF_POINTER);
                        let gps_at = gps_offset(tiff, at as int, endian);
                        match raw_directory(tiff, exif_at, endian) {
                            Err(m) => Err(m),
                            Ok(exif) => match raw_directory(tiff, gps_at, endian) {
                                Err(m) => Err(m),
                                Ok(gps) => removed_layout(
                                    tiff,
                                    endian,
                                    ifd0,
                                    exif_at,
                                    exif,
                                    gps_at,
                                    gps,
                                    tags,
                                ),
                            },
                        }
                    },
                },
            }
        },
    }
}

fn append_kept(
    output: &mut Vec<u8>,
    offset: Option<u32>,
    directory: &(Vec<RawEntry>, u32),
    tags: &[u16],
    endian: Endian,
)
    requires
        all_valid(directory.0@, endian),
        directory.0@.len() <= 65535,
    ensures
        final(output)@ == with_directory(
            old(output)@,
            offset,
            without_tags(raw_view(directory.0@), tags@, endian),
            directory.1,
            endian,
        ),
{
    match offset {
        None => {},
        Some(_) => {
            let kept = filter_tags(&directory.0, tags, endian);
            let _ = append_raw_ifd(output, &kept, directory.1, endian);
        },
    }
}

fn write_without(
    tiff: &[u8],
    endian: Endian,
    ifd0: (Vec<RawEntry>, u32),
    exif_at: Option<u32>,
    exif: (Vec<RawEntry>, u32),
    gps_at: Option<u32>,
    gps: (Vec<RawEntry>, u32),
    ifd0_tags: &[u16],
    exif_tags: &[u16],
    gps_tags: &[u16],
) -> (r: Result<Vec<u8>, String>)
    requires
        tiff@.len() >= 8,
        all_valid(ifd0.0@, endian),
        all_valid(exif.0@, endian),
        all_valid(gps.0@, endian),
        ifd0.0@.len() <= 65535,
        exif.0@.len() <= 65535,
        gps.0@.len() <= 65535,
    ensures
        match r {
            Ok(v) => removed_layout(
                tiff@,
                endian,
                (raw_view(ifd0.0@), ifd0.1),
                exif_at,
                (raw_view(exif.0@), exif.1),
                gps_at,
                (raw_view(gps.0@), gps.1),
                (ifd0_tags@, exif_tags@, gps_tags@),
            ) == Ok::<Seq<u8>, Seq<char>>(v@),
            Err(e) => removed_layout(
                tiff@,
                endian,
                (raw_view(ifd0.0@), ifd0.1),
                exif_at,
                (raw_view(exif.0@), exif.1),
                gps_at,
                (raw_view(gps.0@), gps.1),
                (ifd0_tags@, exif_tags@, gps_tags@),
            ) == Err::<Seq<u8>, Seq<char>>(e@),
        },
{
    let mut output = even_copy(tiff);
    let at1: usize = output.len();
    append_kept(&mut output, exif_at, &exif, exif_tags, endian);
    let at2: usize = output.len();
    append_kept(&mut output, gps_at, &gps, gps_tags, endian);
    let at0: usize = output.len();
    let mut dropped: Vec<u16> = Vec::new();
    let mut i: usize = 0;
    while i < ifd0_tags.len()
        invariant
            i <= ifd0_tags@.len(),
            dropped@ == ifd0_tags@.take(i as int),
        decreases ifd0_tags@.len() - i,
    {
        dropped.push(ifd0_tags[i]);
        i += 1;
        assert(dropped@ =~= ifd0_tags@.take(i as int));
    }
    dropped.push(EXIF_POINTER);
    dropped.push(GPS_POINTER);
    assert(dropped@ =~= ifd0_tags@ + seq![EXIF_POINTER, GPS_POINTER]);
    let mut kept = filter_tags(&ifd0.0, dropped.as_slice(), endian);
    let ghost k = raw_view(kept@);
    match exif_at {
        None => {},
        Some(_) => {
            if at1 as u64 > 0xffff_ffff {
                return Err("EXIF data is too large.".to_owned());
            }
            kept.push(make_tiff_entry(EXIF_POINTER, 4, 1, at1 as u32, endian));
        },
    }
    let ghost k1 = raw_view(kept@);
    assert(k1 =~= with_pointer(k, exif_at, EXIF_POINTER, at1 as int, endian));
    match gps_at {
        None => {},
        Some(_) => {
            if at2 as u64 > 0xffff_ffff {
                return Err("EXIF data is too large.".to_owned());
            }
            kept.push(make_tiff_entry(GPS_POINTER, 4, 1, at2 as u32, endian));
        },
    }
    assert(raw_view(kept@) =~= with_pointer(k1, gps_at, GPS_POINTER, at2 as int, endian));
    let new0 = sort_by_tag(&kept, endian);
    match append_raw_ifd(&mut output, &new0, ifd0.1, endian) {
        Err(e) => {
            return Err(e);
        },
        Ok(_) => {},
    }
    if at0 as u64 > 0xffff_ffff {
        return Err("EXIF data is too large.".to_owned());
    }
    match write_u32_at(&mut output, 4, at0 as u32, endian) {
        Err(e) => {
            return Err(e);
        },
        Ok(_) => {},
    }
    Ok(output)
}

/// Takes entries out of the directories of a TIFF structure: the directories
/// are put anew behind the data, every other entry stays.
pub fn rewrite_exif_tiff_removing_tags(
    tiff: &[u8],
    ifd0_tags: &[u16],
    exif_tags: &[u16],
    gps_tags: &[u16],
) -> (r: Result<Vec<u8>, String>)
    ensures
        match r {
            Ok(v) => tags_removed(tiff@, (ifd0_tags@, exif_tags@, gps_tags@)) == Ok::<
                Seq<u8>,
                Seq<char>,
            >(v@),
            Err(e) => tags_removed(tiff@, (ifd0_tags@, exif_tags@, gps_tags@)) == Err::<
                Seq<u8>,
                Seq<char>,
            >(e@),
        },
{
    let endian = match read_tiff_endian(tiff) {
        None => {
            return Err("Invalid EXIF TIFF header.".to_owned());
        },
        Some(endian) => endian,
    };
    match read_u16(tiff, 2, endian) {
        Some(42) => {},
        _ => {
            return Err("Invalid EXIF TIFF marker.".to_owned());
        },
    }
    let at: u32 = match read_u32(tiff, 4, endian) {
        None => {
            return Err("Invalid EXIF IFD0 offset.".to_owned());
        },
        Some(at) => at,
    };
    let ifd0 = match read_directory(tiff, Some(at), endian) {
        Err(e) => {
            return Err(e);
        },
        Ok(d) => d,
    };
    let exif_at = read_pointer(tiff, at, endian, EXIF_POINTER);
    let gps_at: Option<u32> = match read_pointer(tiff, at, endian, GPS_POINTER) {
        Some(v) => if v > 0 {
            Some(v)
        } else {
            None
        },
        None => None,
    };
    let exif = match read_directory(tiff, exif_at, endian) {
        Err(e) => {
            return Err(e);
        },
        Ok(d) => d,
    };
    let gps = match read_directory(tiff, gps_at, endian) {
        Err(e) => {
            return Err(e);
        },
        Ok(d) => d,
    };
    write_without(
        tiff,
        endian,
        ifd0,
        exif_at,
        exif,
        gps_at,
        gps,
        ifd0_tags,
        exif_tags,
        gps_tags,
    )
}

} // verus!
