//! Changes to the EXIF data of a whole file.
use crate::binary::{self, read_u16, read_u32, Endian};
use crate::datetime::{self, display_datetime_to_exif};
use crate::exif::{self, ExifMetadata};
use crate::exif_build::{self, build_basic_exif_app1, DecimalReadings};
use crate::exif_build_laws;
use crate::exif_write;
use crate::jpeg::{
    self, build_exif_app1_from_tiff, find_exif_tiff_start, replace_or_insert_exif_app1,
};
use crate::names::{self, file_stem};
use crate::text::same_text;
use crate::tiff::{
    self, contains_tag, first_with_tag, read_ifd_entries, read_tiff_endian,
    rewrite_exif_tiff_removing_tags, rewrite_with_date, Entry,
};
use vstd::prelude::*;

verus! {

// Removing GPS information.

/// The place that holds an entry's value: up to four bytes stand in the entry.
pub open spec fn storage_range(data: Seq<u8>, pos: int, endian: Endian) -> Option<(int, int)> {
    match tiff::unit_size(tiff::type_at(data, pos, endian)) {
        None => None,
        Some(size) => {
            let len = size * tiff::count_at(data, pos, endian);
            let offset = tiff::offset_at(data, pos, endian) as int;
            if len <= 4 {
                Some((pos + 8, 4))
            } else if offset + len <= data.len() {
                Some((offset, len))
            } else {
                None
            }
        },
    }
}

/// The places of the values of a directory's first entries.
pub open spec fn storage_among(data: Seq<u8>, offset: int, endian: Endian, n: int) -> Seq<
    (int, int),
>
    decreases n,
{
    if n <= 0 {
        Seq::empty()
    } else {
        let before = storage_among(data, offset, endian, n - 1);
        match storage_range(data, tiff::entry_pos(offset, n - 1), endian) {
            Some(r) => before.push(r),
            None => before,
        }
    }
}

/// The place of a directory itself, with the link that follows its entries.
pub open spec fn table_range(data: Seq<u8>, offset: int, endian: Endian) -> Seq<(int, int)> {
    match binary::u16_at(data, offset, endian) {
        Some(n) => if offset + 6 + 12 * n <= data.len() {
            seq![(offset, 6 + 12 * n as int)]
        } else {
            Seq::empty()
        },
        None => Seq::empty(),
    }
}

/// The places that hold GPS information: the link to the directory, the
/// values of its entries and the directory.
pub open spec fn gps_ranges(data: Seq<u8>, ifd0: int, endian: Endian) -> Seq<(int, int)> {
    match tiff::first_entry(data, ifd0, endian, tiff::GPS_POINTER) {
        None => Seq::empty(),
        Some(pos) => match tiff::long_value(data, pos, endian) {
            None => Seq::empty(),
            Some(at) => if at == 0 {
                Seq::empty()
            } else {
                seq![(pos + 8, 4int)] + (match tiff::ifd_len(data, at as int, endian) {
                    Some(n) => storage_among(data, at as int, endian, n as int),
                    None => Seq::empty(),
                }) + table_range(data, at as int, endian)
            },
        },
    }
}

/// The bytes with some places zero, which count from a base.
pub open spec fn zeroed(bytes: Seq<u8>, base: int, ranges: Seq<(int, int)>) -> Seq<u8>
    decreases ranges.len(),
{
    if ranges.len() == 0 {
        bytes
    } else {
        exif_write::overwritten(
            zeroed(bytes, base, ranges.drop_last()),
            base + ranges.last().0,
            ranges.last().1,
            Seq::empty(),
        )
    }
}

/// The file without GPS information.
pub open spec fn gps_removed(bytes: Seq<u8>) -> Result<Seq<u8>, Seq<char>> {
    match exif_write::located_tiff(bytes) {
        Err(e) => Err(e),
        Ok((start, endian, ifd0)) => Ok(
            zeroed(bytes, start, gps_ranges(bytes.skip(start), ifd0 as int, endian)),
        ),
    }
}

pub open spec fn range_models(ranges: Seq<(usize, usize)>) -> Seq<(int, int)> {
    Seq::new(ranges.len(), |i: int| (ranges[i].0 as int, ranges[i].1 as int))
}

spec fn all_within(ranges: Seq<(usize, usize)>, len: int) -> bool {
    forall|i: int| 0 <= i < ranges.len() ==> (#[trigger] ranges[i]).0 + ranges[i].1 <= len
}

fn entry_storage_range(entry: &Entry, data: &[u8], endian: Endian) -> (r: Option<(usize, usize)>)
    requires
        entry.reads(data@, endian),
    ensures
        match r {
            Some((s, n)) => storage_range(data@, entry.pos as int, endian) == Some(
                (s as int, n as int),
            ) && s + n <= data@.len(),
            None => storage_range(data@, entry.pos as int, endian) is None,
        },
{
    let size: u64 = match tiff::type_size(entry.field_type) {
        None => {
            return None;
        },
        Some(size) => size,
    };
    let len: u64 = size * (entry.count as u64);
    let n: u64 = data.len() as u64;
    if len <= 4 {
        return Some((entry.pos + 8, 4));
    }
    match read_u32(data, entry.pos + 8, endian) {
        None => None,
        Some(offset) => if offset as u64 + len <= n {
            Some((offset as usize, len as usize))
        } else {
            None
        },
    }
}

fn add_range(ranges: &mut Vec<(usize, usize)>, range: (usize, usize))
    ensures
        range_models(final(ranges)@) == range_models(old(ranges)@).push(
            (range.0 as int, range.1 as int),
        ),
        final(ranges)@ == old(ranges)@.push(range),
{
    ranges.push(range);
    assert(range_models(ranges@) =~= range_models(old(ranges)@).push(
        (range.0 as int, range.1 as int),
    ));
}

fn add_storage(
    ranges: &mut Vec<(usize, usize)>,
    data: &[u8],
    entries: &Vec<Entry>,
    offset: usize,
    endian: Endian,
)
    requires
        tiff::entries_of(entries@, data@, offset as int, endian),
        all_within(old(ranges)@, data@.len() as int),
    ensures
        range_models(final(ranges)@) == range_models(old(ranges)@) + storage_among(
            data@,
            offset as int,
            endian,
            entries@.len() as int,
        ),
        all_within(final(ranges)@, data@.len() as int),
{
    let n: usize = entries.len();
    let mut i: usize = 0;
    let ghost first = range_models(ranges@);
    assert(first =~= first + storage_among(data@, offset as int, endian, 0));
    while i < n
        invariant
            i <= n,
            n == entries@.len(),
            tiff::entries_of(entries@, data@, offset as int, endian),
            all_within(ranges@, data@.len() as int),
            range_models(ranges@) == first + storage_among(data@, offset as int, endian, i as int),
        decreases n - i,
    {
        let entry = entries[i];
        assert(entry.reads(data@, endian));
        match entry_storage_range(&entry, data, endian) {
            Some(range) => add_range(ranges, range),
            None => {},
        }
        i += 1;
        assert(range_models(ranges@) =~= first + storage_among(
            data@,
            offset as int,
            endian,
            i as int,
        ));
    }
}

fn collect_gps_ranges(data: &[u8], entries: &Vec<Entry>, ifd0: usize, endian: Endian) -> (r: Vec<
    (usize, usize),
>)
    requires
        tiff::entries_of(entries@, data@, ifd0 as int, endian),
    ensures
        range_models(r@) == gps_ranges(data@, ifd0 as int, endian),
        all_within(r@, data@.len() as int),
{
    let mut ranges: Vec<(usize, usize)> = Vec::new();
    assert(range_models(ranges@) =~= Seq::<(int, int)>::empty());
    let entry = match first_with_tag(
        entries.as_slice(),
        tiff::GPS_POINTER,
        Ghost(data@),
        Ghost(ifd0 as int),
        endian,
    ) {
        None => {
            return ranges;
        },
        Some(entry) => entry,
    };
    let at: usize = match entry.as_long(data, endian) {
        None => {
            return ranges;
        },
        Some(at) => at as usize,
    };
    if at == 0 {
        return ranges;
    }
    let size: usize = data.len();
    add_range(&mut ranges, (entry.pos + 8, 4));
    let ghost link = range_models(ranges@);
    assert(link =~= seq![(entry.pos + 8, 4int)]);
    assert(link =~= link + Seq::<(int, int)>::empty());
    match read_ifd_entries(data, at, endian) {
        None => {},
        Some(gps_entries) => add_storage(&mut ranges, data, &gps_entries, at, endian),
    }
    let ghost values = range_models(ranges@);
    assert(values =~= values + Seq::<(int, int)>::empty());
    match read_u16(data, at, endian) {
        None => {},
        Some(count) => {
            let len: usize = 6 + 12 * (count as usize);
            if at <= size && len <= size - at {
                add_range(&mut ranges, (at, len));
                assert(values.push((at as int, len as int)) =~= values + seq![
                    (at as int, len as int),
                ]);
            }
        },
    }
    ranges
}

/// Clears the GPS information of a file, which keeps its length.
pub fn remove_gps_information(bytes: &mut Vec<u8>) -> (r: Result<(), String>)
    ensures
        exif_write::changed(r, old(bytes)@, final(bytes)@, gps_removed(old(bytes)@)),
{
    let at = match exif_write::locate_tiff(bytes.as_slice()) {
        Err(e) => {
            return Err(e);
        },
        Ok(at) => at,
    };
    let n: usize = bytes.len();
    let ranges = {
        let data = &bytes.as_slice()[at.start..n];
        assert(data@ =~= bytes@.skip(at.start as int));
        collect_gps_ranges(data, &at.entries, at.ifd0 as usize, at.endian)
    };
    let none: Vec<u8> = Vec::new();
    assert(none@ =~= Seq::<u8>::empty());
    let count: usize = ranges.len();
    let ghost all = range_models(ranges@);
    let mut i: usize = 0;
    assert(all.take(0) =~= Seq::<(int, int)>::empty());
    while i < count
        invariant
            i <= count,
            count == ranges@.len(),
            all == range_models(ranges@),
            bytes@.len() == n,
            at.start <= n,
            all_within(ranges@, n - at.start),
            none@ == Seq::<u8>::empty(),
            bytes@ == zeroed(old(bytes)@, at.start as int, all.take(i as int)),
        decreases count - i,
    {
        let range: (usize, usize) = ranges[i];
        assert(all[i as int] == (range.0 as int, range.1 as int));
        exif_write::store(bytes, at.start + range.0, range.1, none.as_slice());
        i += 1;
        assert(all.take(i as int).drop_last() =~= all.take(i - 1));
    }
    assert(all.take(count as int) =~= all);
    Ok(())
}

// Whole EXIF structures.

/// The file with its EXIF data replaced by a TIFF structure.
pub open spec fn with_tiff(bytes: Seq<u8>, tiff: Seq<u8>) -> Result<Seq<u8>, Seq<char>> {
    match jpeg::exif_app1(tiff) {
        Ok(segment) => jpeg::with_exif_segment(bytes, segment),
        Err(e) => Err(e),
    }
}

/// The file with its EXIF data replaced by a basic structure.
pub open spec fn rebuilt(bytes: Seq<u8>, m: ExifMetadata, readings: DecimalReadings) -> Result<
    Seq<u8>,
    Seq<char>,
> {
    match exif_build::basic_app1(m, readings) {
        Ok(segment) => jpeg::with_exif_segment(bytes, segment),
        Err(e) => Err(e),
    }
}

fn rebuild(bytes: &[u8], metadata: &ExifMetadata, readings: DecimalReadings) -> (r: Result<
    Vec<u8>,
    String,
>)
    ensures
        match r {
            Ok(v) => rebuilt(bytes@, *metadata, readings) == Ok::<Seq<u8>, Seq<char>>(v@)
                && shows_date_in_file(v@, *metadata),
            Err(e) => rebuilt(bytes@, *metadata, readings) == Err::<Seq<u8>, Seq<char>>(e@),
        },
{
    match build_basic_exif_app1(metadata, readings) {
        Ok(segment) => {
            let r = replace_or_insert_exif_app1(bytes, segment.as_slice());
            proof {
                if r is Ok && exif_build_laws::texts_without_zero(*metadata) {
                    let after = rebuilt(bytes@, *metadata, readings)->Ok_0;
                    exif_build_laws::rebuilt_file_is_generated(bytes@, *metadata, readings);
                    exif_build_laws::lemma_taken_date(
                        exif::exif_tiff(after)->0,
                        *metadata,
                        exif_build::basic_model(*metadata, readings)->Ok_0,
                    );
                }
            }
            r
        },
        Err(e) => Err(e),
    }
}

/// A date that was entered as it is shown is what every date of a file shows; a
/// text of the metadata that holds a zero character may end it before.
pub open spec fn shows_date_in_file(bytes: Seq<u8>, m: ExifMetadata) -> bool {
    exif_build_laws::texts_without_zero(m) ==> exif_build_laws::shows_taken_date(
        exif::exif_tiff(bytes)->0,
        m,
    )
}

/// A file without EXIF data gets a basic structure.
pub open spec fn basic_written(bytes: Seq<u8>, m: ExifMetadata, readings: DecimalReadings) -> Result<
    Seq<u8>,
    Seq<char>,
> {
    if jpeg::exif_tiff_start(bytes) is Some {
        Err(
            "Refusing to rewrite an existing EXIF structure. Existing EXIF files only support editing tags that are already present."@,
        )
    } else {
        rebuilt(bytes, m, readings)
    }
}

pub fn rewrite_basic_exif_metadata(
    bytes: &[u8],
    metadata: &ExifMetadata,
    readings: DecimalReadings,
) -> (r: Result<Vec<u8>, String>)
    ensures
        match r {
            Ok(v) => basic_written(bytes@, *metadata, readings) == Ok::<Seq<u8>, Seq<char>>(v@),
            Err(e) => basic_written(bytes@, *metadata, readings) == Err::<Seq<u8>, Seq<char>>(e@),
        },
        r matches Ok(v) ==> shows_date_in_file(v@, *metadata),
{
    if find_exif_tiff_start(bytes).is_some() {
        return Err(
            "Refusing to rewrite an existing EXIF structure. Existing EXIF files only support editing tags that are already present.".to_owned(),
        );
    }
    rebuild(bytes, metadata, readings)
}

pub open spec fn basic_first_tags() -> Seq<u16> {
    seq![0x010fu16, 0x0110, 0x0112, 0x0131, 0x0132, 0x013b, 0x8769]
}

pub open spec fn basic_exif_tags() -> Seq<u16> {
    seq![
        0x829au16,
        0x829d,
        0x8827,
        0x9003,
        0x9004,
        0x9207,
        0x9209,
        0x920a,
        0xa001,
        0xa434,
    ]
}

/// The directory at an offset can be read and has entries with some tags only.
pub open spec fn only_tags(data: Seq<u8>, offset: int, endian: Endian, tags: Seq<u16>) -> bool {
    tiff::ifd_len(data, offset, endian) matches Some(n) && forall|i: int|
        0 <= i < n ==> tags.contains(
            #[trigger] tiff::tag_at(data, tiff::entry_pos(offset, i), endian),
        )
}

/// The structure has nothing in it but what a basic structure has.
pub open spec fn basic_shape(data: Seq<u8>) -> bool {
    &&& tiff::tiff_endian(data) == Some(Endian::Little)
    &&& binary::u16_at(data, 2, Endian::Little) == Some(42u16)
    &&& match binary::u32_at(data, 4, Endian::Little) {
        None => false,
        Some(ifd0) => {
            &&& tiff::ifd_len(data, ifd0 as int, Endian::Little) matches Some(n)
            &&& n > 0
            &&& only_tags(data, ifd0 as int, Endian::Little, basic_first_tags())
            &&& match tiff::pointed_offset(
                data,
                ifd0 as int,
                Endian::Little,
                tiff::EXIF_POINTER,
            ) {
                None => true,
                Some(at) => only_tags(data, at as int, Endian::Little, basic_exif_tags()),
            }
        },
    }
}

fn has_only_tags(
    entries: &Vec<Entry>,
    tags: &[u16],
    Ghost(data): Ghost<Seq<u8>>,
    Ghost(offset): Ghost<int>,
    Ghost(endian): Ghost<Endian>,
) -> (r: bool)
    requires
        tiff::entries_of(entries@, data, offset, endian),
    ensures
        r == only_tags(data, offset, endian, tags@),
{
    let n: usize = entries.len();
    let mut i: usize = 0;
    while i < n
        invariant
            i <= n,
            n == entries@.len(),
            tiff::entries_of(entries@, data, offset, endian),
            forall|k: int|
                0 <= k < i ==> tags@.contains(
                    #[trigger] tiff::tag_at(data, tiff::entry_pos(offset, k), endian),
                ),
        decreases n - i,
    {
        assert(entries@[i as int].reads(data, endian));
        if !contains_tag(tags, entries[i].tag) {
            assert(!tags@.contains(
                tiff::tag_at(data, tiff::entry_pos(offset, i as int), endian),
            ));
            return false;
        }
        i += 1;
    }
    true
}

pub fn is_basic_generated_tiff(tiff: &[u8]) -> (r: bool)
    ensures
        r == basic_shape(tiff@),
{
    match read_tiff_endian(tiff) {
        Some(Endian::Little) => {},
        _ => {
            return false;
        },
    }
    match read_u16(tiff, 2, Endian::Little) {
        Some(marker) => {
            if marker != 42 {
                return false;
            }
        },
        None => {
            return false;
        },
    }
    let ifd0: u32 = match read_u32(tiff, 4, Endian::Little) {
        None => {
            return false;
        },
        Some(v) => v,
    };
    let entries = match read_ifd_entries(tiff, ifd0 as usize, Endian::Little) {
        None => {
            return false;
        },
        Some(entries) => entries,
    };
    if entries.len() == 0 {
        return false;
    }
    let first_tags: Vec<u16> = vec![0x010f, 0x0110, 0x0112, 0x0131, 0x0132, 0x013b, 0x8769];
    assert(first_tags@ =~= basic_first_tags());
    if !has_only_tags(
        &entries,
        first_tags.as_slice(),
        Ghost(tiff@),
        Ghost(ifd0 as int),
        Ghost(Endian::Little),
    ) {
        return false;
    }
    let exif_tags: Vec<u16> = vec![
        0x829a, 0x829d, 0x8827, 0x9003, 0x9004, 0x9207, 0x9209, 0x920a, 0xa001, 0xa434,
    ];
    assert(exif_tags@ =~= basic_exif_tags());
    match first_with_tag(
        entries.as_slice(),
        tiff::EXIF_POINTER,
        Ghost(tiff@),
        Ghost(ifd0 as int),
        Endian::Little,
    ) {
        None => true,
        Some(entry) => match entry.as_long(tiff, Endian::Little) {
            None => true,
            Some(at) => match read_ifd_entries(tiff, at as usize, Endian::Little) {
                None => false,
                Some(exif_entries) => has_only_tags(
                    &exif_entries,
                    exif_tags.as_slice(),
                    Ghost(tiff@),
                    Ghost(at as int),
                    Ghost(Endian::Little),
                ),
            },
        },
    }
}

/// Whether a file's EXIF data have nothing but what a basic structure has.
pub open spec fn generated_file(bytes: Seq<u8>) -> bool {
    match exif::exif_tiff(bytes) {
        Some(data) => basic_shape(data),
        None => false,
    }
}

pub fn is_generated_new_exif_path(bytes: &[u8]) -> (r: bool)
    ensures
        r == generated_file(bytes@),
{
    match find_exif_tiff_start(bytes) {
        None => false,
        Some(start) => {
            let n: usize = bytes.len();
            let data = &bytes[start..n];
            assert(data@ =~= bytes@.skip(start as int));
            is_basic_generated_tiff(data)
        },
    }
}

pub open spec fn generated_rewritten(
    bytes: Seq<u8>,
    m: ExifMetadata,
    readings: DecimalReadings,
) -> Result<Seq<u8>, Seq<char>> {
    if !generated_file(bytes) {
        Err("Refusing to rewrite EXIF in place unless this is a generated EXIF file."@)
    } else {
        rebuilt(bytes, m, readings)
    }
}

/// Replaces the EXIF data of a file that has no more than a basic structure.
pub fn rewrite_generated_basic_exif_metadata(
    bytes: &[u8],
    metadata: &ExifMetadata,
    readings: DecimalReadings,
) -> (r: Result<Vec<u8>, String>)
    ensures
        match r {
            Ok(v) => generated_rewritten(bytes@, *metadata, readings) == Ok::<Seq<u8>, Seq<char>>(
                v@,
            ),
            Err(e) => generated_rewritten(bytes@, *metadata, readings) == Err::<
                Seq<u8>,
                Seq<char>,
            >(e@),
        },
        r matches Ok(v) ==> shows_date_in_file(v@, *metadata),
{
    if !is_generated_new_exif_path(bytes) {
        return Err(
            "Refusing to rewrite EXIF in place unless this is a generated EXIF file.".to_owned(),
        );
    }
    rebuild(bytes, metadata, readings)
}

pub open spec fn repaired(bytes: Seq<u8>, m: ExifMetadata, readings: DecimalReadings) -> Result<
    Seq<u8>,
    Seq<char>,
> {
    if jpeg::exif_tiff_start(bytes) is None {
        Err("EXIF data was not found."@)
    } else if !generated_file(bytes) {
        Err(
            "The requested tag is not present. The file contains additional EXIF tags, so a basic EXIF rebuild was refused to prevent metadata loss."@,
        )
    } else {
        rebuilt(bytes, m, readings)
    }
}

/// Replaces the EXIF data of a file, unless it would lose some of them.
pub fn rewrite_repairable_exif_metadata(
    bytes: &[u8],
    metadata: &ExifMetadata,
    readings: DecimalReadings,
) -> (r: Result<Vec<u8>, String>)
    ensures
        match r {
            Ok(v) => repaired(bytes@, *metadata, readings) == Ok::<Seq<u8>, Seq<char>>(v@),
            Err(e) => repaired(bytes@, *metadata, readings) == Err::<Seq<u8>, Seq<char>>(e@),
        },
        r matches Ok(v) ==> shows_date_in_file(v@, *metadata),
{
    if find_exif_tiff_start(bytes).is_none() {
        return Err("EXIF data was not found.".to_owned());
    }
    if !is_generated_new_exif_path(bytes) {
        return Err(
            "The requested tag is not present. The file contains additional EXIF tags, so a basic EXIF rebuild was refused to prevent metadata loss.".to_owned(),
        );
    }
    rebuild(bytes, metadata, readings)
}

// Removing single entries.

/// The tags that are removed with a row: from the first directory, from the
/// EXIF directory and from the GPS directory.
pub open spec fn tags_of_key(key: Seq<char>) -> Option<(Seq<u16>, Seq<u16>, Seq<u16>)> {
    let none = Seq::<u16>::empty();
    if key == "taken_date"@ {
        Some((seq![0x0132u16], seq![0x9003u16, 0x9004], none))
    } else if key == "date_time_original"@ {
        Some((none, seq![0x9003u16], none))
    } else if key == "date_time_digitized"@ {
        Some((none, seq![0x9004u16], none))
    } else if key == "image_date_time"@ {
        Some((seq![0x0132u16], none, none))
    } else if key == "camera_make"@ {
        Some((seq![0x010fu16], none, none))
    } else if key == "image_description"@ {
        Some((seq![0x010eu16], none, none))
    } else if key == "copyright"@ {
        Some((seq![0x8298u16], none, none))
    } else if key == "camera_model"@ {
        Some((seq![0x0110u16], none, none))
    } else if key == "orientation"@ {
        Some((seq![0x0112u16], none, none))
    } else if key == "software"@ {
        Some((seq![0x0131u16], none, none))
    } else if key == "artist"@ {
        Some((seq![0x013bu16], none, none))
    } else if key == "shutter_speed"@ {
        Some((none, seq![0x829au16], none))
    } else if key == "exposure_program"@ {
        Some((none, seq![0x8822u16], none))
    } else if key == "exif_version"@ {
        Some((none, seq![0x9000u16], none))
    } else if key == "aperture"@ {
        Some((none, seq![0x829du16], none))
    } else if key == "iso_speed"@ {
        Some((none, seq![0x8827u16], none))
    } else if key == "focal_length"@ {
        Some((none, seq![0x920au16], none))
    } else if key == "flash_fired"@ {
        Some((none, seq![0x9209u16], none))
    } else if key == "metering_mode"@ {
        Some((none, seq![0x9207u16], none))
    } else if key == "image_width"@ {
        Some((none, seq![0xa002u16], none))
    } else if key == "image_height"@ {
        Some((none, seq![0xa003u16], none))
    } else if key == "color_space"@ {
        Some((none, seq![0xa001u16], none))
    } else if key == "lens_model"@ {
        Some((none, seq![0xa434u16], none))
    } else if key == "white_balance"@ {
        Some((none, seq![0xa403u16], none))
    } else if key == "focal_length_35mm"@ {
        Some((none, seq![0xa405u16], none))
    } else if key == "gps_latitude"@ {
        Some((none, none, seq![0x0001u16, 0x0002]))
    } else if key == "gps_longitude"@ {
        Some((none, none, seq![0x0003u16, 0x0004]))
    } else if key == "gps_altitude"@ {
        Some((none, none, seq![0x0005u16, 0x0006]))
    } else {
        None
    }
}

/// The tags that are removed with a row.
pub fn removable_tags(key: &str) -> (r: Option<(Vec<u16>, Vec<u16>, Vec<u16>)>)
    ensures
        match r {
            Some((first, exif, gps)) => tags_of_key(key@) == Some((first@, exif@, gps@)),
            None => tags_of_key(key@) is None,
        },
{
    let mut first: Vec<u16> = Vec::new();
    let mut exif: Vec<u16> = Vec::new();
    let mut gps: Vec<u16> = Vec::new();
    if same_text(key, "taken_date") {
        first.push(0x0132);
        exif.push(0x9003);
        exif.push(0x9004);
    } else if same_text(key, "date_time_original") {
        exif.push(0x9003);
    } else if same_text(key, "date_time_digitized") {
        exif.push(0x9004);
    } else if same_text(key, "image_date_time") {
        first.push(0x0132);
    } else if same_text(key, "camera_make") {
        first.push(0x010f);
    } else if same_text(key, "image_description") {
        first.push(0x010e);
    } else if same_text(key, "copyright") {
        first.push(0x8298);
    } else if same_text(key, "camera_model") {
        first.push(0x0110);
    } else if same_text(key, "orientation") {
        first.push(0x0112);
    } else if same_text(key, "software") {
        first.push(0x0131);
    } else if same_text(key, "artist") {
        first.push(0x013b);
    } else if same_text(key, "shutter_speed") {
        exif.push(0x829a);
    } else if same_text(key, "exposure_program") {
        exif.push(0x8822);
    } else if same_text(key, "exif_version") {
        exif.push(0x9000);
    } else if same_text(key, "aperture") {
        exif.push(0x829d);
    } else if same_text(key, "iso_speed") {
        exif.push(0x8827);
    } else if same_text(key, "focal_length") {
        exif.push(0x920a);
    } else if same_text(key, "flash_fired") {
        exif.push(0x9209);
    } else if same_text(key, "metering_mode") {
        exif.push(0x9207);
    } else if same_text(key, "image_width") {
        exif.push(0xa002);
    } else if same_text(key, "image_height") {
        exif.push(0xa003);
    } else if same_text(key, "color_space") {
        exif.push(0xa001);
    } else if same_text(key, "lens_model") {
        exif.push(0xa434);
    } else if same_text(key, "white_balance") {
        exif.push(0xa403);
    } else if same_text(key, "focal_length_35mm") {
        exif.push(0xa405);
    } else if same_text(key, "gps_latitude") {
        gps.push(0x0001);
        gps.push(0x0002);
    } else if same_text(key, "gps_longitude") {
        gps.push(0x0003);
        gps.push(0x0004);
    } else if same_text(key, "gps_altitude") {
        gps.push(0x0005);
        gps.push(0x0006);
    } else {
        return None;
    }
    proof {
        let tags = tags_of_key(key@)->0;
        assert(first@ =~= tags.0);
        assert(exif@ =~= tags.1);
        assert(gps@ =~= tags.2);
    }
    Some((first, exif, gps))
}

/// The file without the entries of a row.
pub open spec fn key_removed(bytes: Seq<u8>, key: Seq<char>) -> Result<Seq<u8>, Seq<char>> {
    match tags_of_key(key) {
        None => Err("This metadata row cannot be removed individually."@),
        Some(tags) => match exif::exif_tiff(bytes) {
            None => Err("EXIF data was not found."@),
            Some(data) => match tiff::tags_removed(data, tags) {
                Err(e) => Err(e),
                Ok(updated) => with_tiff(bytes, updated),
            },
        },
    }
}

pub fn remove_exif_tag(bytes: &[u8], key: &str) -> (r: Result<Vec<u8>, String>)
    ensures
        match r {
            Ok(v) => key_removed(bytes@, key@) == Ok::<Seq<u8>, Seq<char>>(v@),
            Err(e) => key_removed(bytes@, key@) == Err::<Seq<u8>, Seq<char>>(e@),
        },
{
    let (first, exif, gps) = match removable_tags(key) {
        None => {
            return Err("This metadata row cannot be removed individually.".to_owned());
        },
        Some(tags) => tags,
    };
    let start: usize = match find_exif_tiff_start(bytes) {
        None => {
            return Err("EXIF data was not found.".to_owned());
        },
        Some(start) => start,
    };
    let n: usize = bytes.len();
    let data = &bytes[start..n];
    assert(data@ =~= bytes@.skip(start as int));
    let updated = match rewrite_exif_tiff_removing_tags(
        data,
        first.as_slice(),
        exif.as_slice(),
        gps.as_slice(),
    ) {
        Ok(updated) => updated,
        Err(e) => {
            return Err(e);
        },
    };
    match build_exif_app1_from_tiff(updated.as_slice()) {
        Ok(segment) => replace_or_insert_exif_app1(bytes, segment.as_slice()),
        Err(e) => Err(e),
    }
}

// The dates of a TIFF structure.

/// The structure with another date in it.
pub open spec fn with_date(data: Seq<u8>, date: Result<Seq<char>, Seq<char>>) -> Result<
    Seq<u8>,
    Seq<char>,
> {
    match date {
        Err(e) => Err(e),
        Ok(t) => tiff::dated(data, exif_write::text_bytes(t)),
    }
}

/// Puts a date in the form of EXIF into a structure.
pub fn rewrite_exif_date(tiff: &[u8], exif_value: &str) -> (r: Result<Vec<u8>, String>)
    ensures
        match r {
            Ok(v) => tiff::dated(tiff@, exif_write::text_bytes(exif_value@)) == Ok::<
                Seq<u8>,
                Seq<char>,
            >(v@),
            Err(e) => tiff::dated(tiff@, exif_write::text_bytes(exif_value@)) == Err::<
                Seq<u8>,
                Seq<char>,
            >(e@),
        },
{
    let mut date: Vec<u8> = Vec::new();
    binary::append_bytes(&mut date, exif_value.as_bytes());
    date.push(0);
    assert(date@ =~= exif_write::text_bytes(exif_value@));
    rewrite_with_date(tiff, date.as_slice())
}

pub fn rewrite_exif_tiff_dates(tiff: &[u8], display_value: &str) -> (r: Result<Vec<u8>, String>)
    ensures
        match r {
            Ok(v) => with_date(
                tiff@,
                datetime::exif_date_of(datetime::known_datetime(display_value@)),
            ) == Ok::<Seq<u8>, Seq<char>>(v@),
            Err(e) => with_date(
                tiff@,
                datetime::exif_date_of(datetime::known_datetime(display_value@)),
            ) == Err::<Seq<u8>, Seq<char>>(e@),
        },
        datetime::reads_back(display_value@),
{
    match display_datetime_to_exif(display_value) {
        Ok(exif_value) => rewrite_exif_date(tiff, exif_value.as_str()),
        Err(e) => Err(e),
    }
}

/// A structure whose first directory has no entries.
pub open spec fn empty_tiff() -> Seq<u8> {
    exif_build::tiff_header() + binary::u16_bytes(0, Endian::Little) + binary::u32_bytes(
        0,
        Endian::Little,
    )
}

pub fn create_date_only_exif_tiff(display_value: &str) -> (r: Result<Vec<u8>, String>)
    ensures
        match r {
            Ok(v) => with_date(
                empty_tiff(),
                datetime::exif_date_of(datetime::known_datetime(display_value@)),
            ) == Ok::<Seq<u8>, Seq<char>>(v@),
            Err(e) => with_date(
                empty_tiff(),
                datetime::exif_date_of(datetime::known_datetime(display_value@)),
            ) == Err::<Seq<u8>, Seq<char>>(e@),
        },
        datetime::reads_back(display_value@),
{
    let mut tiff: Vec<u8> = Vec::new();
    exif_build::write_header(&mut tiff);
    binary::append_u16(&mut tiff, 0, Endian::Little);
    binary::append_u32(&mut tiff, 0, Endian::Little);
    rewrite_exif_tiff_dates(tiff.as_slice(), display_value)
}

/// Takes the date a picture was taken out of a structure.
pub fn remove_exif_tiff_date_time_original(tiff: &[u8]) -> (r: Result<Vec<u8>, String>)
    ensures
        match r {
            Ok(v) => tiff::tags_removed(tiff@, (Seq::empty(), seq![0x9003u16], Seq::empty()))
                == Ok::<Seq<u8>, Seq<char>>(v@),
            Err(e) => tiff::tags_removed(tiff@, (Seq::empty(), seq![0x9003u16], Seq::empty()))
                == Err::<Seq<u8>, Seq<char>>(e@),
        },
{
    let none: Vec<u16> = Vec::new();
    let date: Vec<u16> = vec![0x9003];
    assert(none@ =~= Seq::<u16>::empty());
    assert(date@ =~= seq![0x9003u16]);
    rewrite_exif_tiff_removing_tags(tiff, none.as_slice(), date.as_slice(), none.as_slice())
}

/// The name of the copy that is kept before EXIF data change.
pub open spec fn backup_name(name: Seq<char>) -> Seq<char> {
    names::stem(name) + ".bak_exif"@
}

pub fn exif_backup_path(name: &str) -> (r: String)
    ensures
        r@ == backup_name(name@),
{
    let mut out = file_stem(name);
    out.append(".bak_exif");
    out
}

} // verus!
