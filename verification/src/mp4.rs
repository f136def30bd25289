//! The atoms of MPEG-4 and QuickTime files, and the dates in their headers.
use crate::binary::{self, append_u32, read_u32, Endian};
use crate::datetime::{
    self, format_datetime, moment_at, parse_display_datetime_or_date, seconds_between, Moment,
    DISPLAY_DATETIME_FORMAT,
};
use crate::text::{self, decimal_text, trimmed};
use vstd::prelude::*;

verus! {

/// The seconds from the start of 1904, from which QuickTime counts, to the
/// start of 1970.
pub const QUICKTIME_UNIX_EPOCH_OFFSET: i64 = 2_082_844_800;

/// The four letters of an atom's kind.
pub open spec fn kind_of(bytes: Seq<u8>, at: int) -> Seq<u8> {
    bytes.subrange(at + 4, at + 8)
}

pub open spec fn ftyp() -> Seq<u8> {
    seq![0x66u8, 0x74, 0x79, 0x70]
}

pub open spec fn moov() -> Seq<u8> {
    seq![0x6du8, 0x6f, 0x6f, 0x76]
}

pub open spec fn mvhd() -> Seq<u8> {
    seq![0x6du8, 0x76, 0x68, 0x64]
}

pub open spec fn tkhd() -> Seq<u8> {
    seq![0x74u8, 0x6b, 0x68, 0x64]
}

pub open spec fn mdhd() -> Seq<u8> {
    seq![0x6du8, 0x64, 0x68, 0x64]
}

pub open spec fn trak() -> Seq<u8> {
    seq![0x74u8, 0x72, 0x61, 0x6b]
}

pub open spec fn mdia() -> Seq<u8> {
    seq![0x6du8, 0x64, 0x69, 0x61]
}

fn is_letters(bytes: &[u8], at: usize, a: u8, b: u8, c: u8, d: u8) -> (r: bool)
    requires
        at + 8 <= bytes@.len(),
    ensures
        r == (kind_of(bytes@, at as int) == seq![a, b, c, d]),
{
    let n: usize = bytes.len();
    let r = bytes[at + 4] == a && bytes[at + 5] == b && bytes[at + 6] == c && bytes[at + 7] == d;
    proof {
        let k = kind_of(bytes@, at as int);
        let s = seq![a, b, c, d];
        assert(k[0] == bytes@[at + 4] && k[1] == bytes@[at + 5] && k[2] == bytes@[at + 6] && k[3]
            == bytes@[at + 7]);
        assert(s[0] == a && s[1] == b && s[2] == c && s[3] == d);
        if r {
            assert(k =~= s);
        }
    }
    r
}

/// Whether a file begins like an MPEG-4 file.
pub fn has_mp4_signature(bytes: &[u8]) -> (r: bool)
    ensures
        r == (bytes@.len() >= 12 && kind_of(bytes@, 0) == ftyp()),
{
    bytes.len() >= 12 && is_letters(bytes, 0, 0x66, 0x74, 0x79, 0x70)
}

/// Whether a file begins with an atom that QuickTime files begin with.
pub open spec fn quicktime_start(bytes: Seq<u8>) -> bool {
    bytes.len() >= 8 && {
        let k = kind_of(bytes, 0);
        ||| k == ftyp()
        ||| k == moov()
        ||| k == seq![0x6du8, 0x64, 0x61, 0x74]
        ||| k == seq![0x77u8, 0x69, 0x64, 0x65]
        ||| k == seq![0x66u8, 0x72, 0x65, 0x65]
        ||| k == seq![0x73u8, 0x6b, 0x69, 0x70]
        ||| k == seq![0x70u8, 0x6e, 0x6f, 0x74]
    }
}

pub fn has_quicktime_signature(bytes: &[u8]) -> (r: bool)
    ensures
        r == quicktime_start(bytes@),
{
    bytes.len() >= 8 && (is_letters(bytes, 0, 0x66, 0x74, 0x79, 0x70) || is_letters(
        bytes,
        0,
        0x6d,
        0x6f,
        0x6f,
        0x76,
    ) || is_letters(bytes, 0, 0x6d, 0x64, 0x61, 0x74) || is_letters(
        bytes,
        0,
        0x77,
        0x69,
        0x64,
        0x65,
    ) || is_letters(bytes, 0, 0x66, 0x72, 0x65, 0x65) || is_letters(
        bytes,
        0,
        0x73,
        0x6b,
        0x69,
        0x70,
    ) || is_letters(bytes, 0, 0x70, 0x6e, 0x6f, 0x74))
}

// Atoms.

pub open spec fn be32(bytes: Seq<u8>, at: int) -> u32 {
    binary::u32_of(bytes[at], bytes[at + 1], bytes[at + 2], bytes[at + 3], Endian::Big)
}

pub open spec fn be64(bytes: Seq<u8>, at: int) -> u64 {
    (be32(bytes, at) * 0x1_0000_0000 + be32(bytes, at + 4)) as u64
}

fn read_be32(bytes: &[u8], at: usize) -> (r: u32)
    requires
        at + 4 <= bytes@.len(),
    ensures
        r == be32(bytes@, at as int),
{
    let n: usize = bytes.len();
    match read_u32(bytes, at, Endian::Big) {
        Some(v) => v,
        None => 0,
    }
}

fn read_be64(bytes: &[u8], at: usize) -> (r: u64)
    requires
        at + 8 <= bytes@.len(),
    ensures
        r == be64(bytes@, at as int),
{
    let n: usize = bytes.len();
    let high: u64 = read_be32(bytes, at) as u64;
    let low: u64 = read_be32(bytes, at + 4) as u64;
    high * 0x1_0000_0000 + low
}

/// An atom: its kind, where its content begins and where it ends.
#[verifier::ext_equal]
pub struct AtomModel {
    pub kind: Seq<u8>,
    pub payload: int,
    pub end: int,
}

/// The size of an atom and the length of its header.
pub open spec fn atom_size(bytes: Seq<u8>, at: int, parent_end: int) -> Option<(int, int)> {
    let size = be32(bytes, at);
    if size == 0 {
        Some((parent_end - at, 8))
    } else if size == 1 {
        if at + 16 > bytes.len() {
            None
        } else {
            Some((be64(bytes, at + 8) as int, 16))
        }
    } else {
        Some((size as int, 8))
    }
}

/// The atom at a position within its parent.
pub open spec fn atom_at(bytes: Seq<u8>, at: int, parent_end: int) -> Result<
    AtomModel,
    Seq<char>,
> {
    match atom_size(bytes, at, parent_end) {
        None => Err("failed to fill whole buffer"@),
        Some((size, header)) => if size < header {
            Err("Invalid MP4/QuickTime atom size."@)
        } else if at + size > u64::MAX {
            Err("MP4/QuickTime atom size overflow."@)
        } else if at + size > parent_end {
            Err("MP4/QuickTime atom is outside its parent."@)
        } else {
            Ok(AtomModel { kind: kind_of(bytes, at), payload: at + header, end: at + size })
        },
    }
}

#[derive(Clone, Copy)]
struct AtomHeader {
    payload_start: usize,
    end: usize,
}

fn read_atom_header(bytes: &[u8], position: usize, parent_end: usize) -> (r: Result<
    AtomHeader,
    String,
>)
    requires
        position + 8 <= parent_end <= bytes@.len(),
    ensures
        match r {
            Ok(a) => atom_at(bytes@, position as int, parent_end as int) == Ok::<
                AtomModel,
                Seq<char>,
            >(
                AtomModel {
                    kind: kind_of(bytes@, position as int),
                    payload: a.payload_start as int,
                    end: a.end as int,
                },
            ) && position + 8 <= a.payload_start <= a.end <= parent_end,
            Err(e) => atom_at(bytes@, position as int, parent_end as int) == Err::<
                AtomModel,
                Seq<char>,
            >(e@),
        },
{
    let n: usize = bytes.len();
    let size32: u32 = read_be32(bytes, position);
    let mut size: u64 = size32 as u64;
    let mut header: u64 = 8;
    if size32 == 0 {
        size = (parent_end - position) as u64;
    } else if size32 == 1 {
        if n - position < 16 {
            return Err("failed to fill whole buffer".to_owned());
        }
        size = read_be64(bytes, position + 8);
        header = 16;
    }
    if size < header {
        return Err("Invalid MP4/QuickTime atom size.".to_owned());
    }
    let end: u128 = position as u128 + size as u128;
    if end > u64::MAX as u128 {
        return Err("MP4/QuickTime atom size overflow.".to_owned());
    }
    if end > parent_end as u128 {
        return Err("MP4/QuickTime atom is outside its parent.".to_owned());
    }
    Ok(AtomHeader { payload_start: position + header as usize, end: end as usize })
}

// Fields that hold a creation time.

/// A field that holds a creation time: its place, its width and its value.
#[derive(Clone, Copy, Debug, PartialEq, Eq, Structural)]
pub struct CreationTimeField {
    pub offset: usize,
    pub width: u8,
    pub original: u64,
}

#[verifier::ext_equal]
pub struct FieldModel {
    pub offset: int,
    pub width: int,
    pub original: u64,
}

impl CreationTimeField {
    pub open spec fn model(self) -> FieldModel {
        FieldModel {
            offset: self.offset as int,
            width: self.width as int,
            original: self.original,
        }
    }
}

pub open spec fn field_models(fields: Seq<CreationTimeField>) -> Seq<FieldModel> {
    Seq::new(fields.len(), |i: int| fields[i].model())
}

/// The field in the content of a header atom.
pub open spec fn field_at(bytes: Seq<u8>, start: int, end: int) -> Result<FieldModel, Seq<char>> {
    if end - start < 8 {
        Err("MP4 date atom is too short."@)
    } else if bytes[start] == 0 {
        Ok(FieldModel { offset: start + 4, width: 4, original: be32(bytes, start + 4) as u64 })
    } else if bytes[start] == 1 {
        if end - start < 12 {
            Err("MP4 version 1 date atom is too short."@)
        } else {
            Ok(FieldModel { offset: start + 4, width: 8, original: be64(bytes, start + 4) })
        }
    } else {
        Err("Unsupported MP4 date atom version: "@ + text::decimal(bytes[start] as nat) + "."@)
    }
}

fn read_creation_time_field(bytes: &[u8], start: usize, end: usize) -> (r: Result<
    CreationTimeField,
    String,
>)
    requires
        start <= end <= bytes@.len(),
    ensures
        match r {
            Ok(f) => field_at(bytes@, start as int, end as int) == Ok::<FieldModel, Seq<char>>(
                f.model(),
            ),
            Err(e) => field_at(bytes@, start as int, end as int) == Err::<FieldModel, Seq<char>>(
                e@,
            ),
        },
{
    let n: usize = bytes.len();
    if end - start < 8 {
        return Err("MP4 date atom is too short.".to_owned());
    }
    let version: u8 = bytes[start];
    if version == 0 {
        Ok(
            CreationTimeField {
                offset: start + 4,
                width: 4,
                original: read_be32(bytes, start + 4) as u64,
            },
        )
    } else if version == 1 {
        if end - start < 12 {
            return Err("MP4 version 1 date atom is too short.".to_owned());
        }
        Ok(
            CreationTimeField {
                offset: start + 4,
                width: 8,
                original: read_be64(bytes, start + 4),
            },
        )
    } else {
        let mut message = "Unsupported MP4 date atom version: ".to_owned();
        let number = decimal_text(version as u64);
        message.append(number.as_str());
        message.append(".");
        Err(message)
    }
}

pub open spec fn is_header_kind(kind: Seq<u8>) -> bool {
    kind == mvhd() || kind == tkhd() || kind == mdhd()
}

pub open spec fn is_container_kind(kind: Seq<u8>) -> bool {
    kind == trak() || kind == mdia()
}

pub open spec fn joined_fields(
    a: Result<Seq<FieldModel>, Seq<char>>,
    b: Result<Seq<FieldModel>, Seq<char>>,
) -> Result<Seq<FieldModel>, Seq<char>> {
    match a {
        Err(e) => Err(e),
        Ok(x) => match b {
            Err(e) => Err(e),
            Ok(y) => Ok(x + y),
        },
    }
}

/// The fields in the atoms from a position on, with those of tracks in them,
/// up to a depth.
pub open spec fn fields_from(bytes: Seq<u8>, at: int, end: int, depth: int) -> Result<
    Seq<FieldModel>,
    Seq<char>,
>
    decreases 9 - depth, end - at,
{
    if depth > 8 || depth < 0 || at + 8 > end {
        Ok(Seq::empty())
    } else {
        match atom_at(bytes, at, end) {
            Err(e) => Err(e),
            Ok(atom) => {
                let own = if is_header_kind(atom.kind) {
                    match field_at(bytes, atom.payload, atom.end) {
                        Ok(f) => Ok(seq![f]),
                        Err(e) => Err(e),
                    }
                } else if is_container_kind(atom.kind) {
                    fields_from(bytes, atom.payload, atom.end, depth + 1)
                } else {
                    Ok(Seq::empty())
                };
                joined_fields(own, fields_from(bytes, atom.end, end, depth))
            },
        }
    }
}

fn is_header_atom(bytes: &[u8], at: usize) -> (r: bool)
    requires
        at + 8 <= bytes@.len(),
    ensures
        r == is_header_kind(kind_of(bytes@, at as int)),
{
    is_letters(bytes, at, 0x6d, 0x76, 0x68, 0x64) || is_letters(bytes, at, 0x74, 0x6b, 0x68, 0x64)
        || is_letters(bytes, at, 0x6d, 0x64, 0x68, 0x64)
}

fn is_container_atom(bytes: &[u8], at: usize) -> (r: bool)
    requires
        at + 8 <= bytes@.len(),
    ensures
        r == is_container_kind(kind_of(bytes@, at as int)),
{
    is_letters(bytes, at, 0x74, 0x72, 0x61, 0x6b) || is_letters(bytes, at, 0x6d, 0x64, 0x69, 0x61)
}

proof fn lemma_joined(
    a: Seq<FieldModel>,
    b: Seq<FieldModel>,
    r: Result<Seq<FieldModel>, Seq<char>>,
)
    ensures
        joined_fields(Ok(a), joined_fields(Ok(b), r)) == joined_fields(Ok(a + b), r),
        joined_fields(Ok(Seq::empty()), r) == r,
        joined_fields(Ok(a), Ok(Seq::empty())) == Ok::<Seq<FieldModel>, Seq<char>>(a),
{
    match r {
        Ok(v) => {
            assert(a + (b + v) =~= a + b + v);
            assert(Seq::<FieldModel>::empty() + v =~= v);
        },
        Err(_) => {},
    }
    assert(a + Seq::<FieldModel>::empty() =~= a);
}

fn collect_creation_time_fields(
    bytes: &[u8],
    start: usize,
    end: usize,
    depth: usize,
    fields: &mut Vec<CreationTimeField>,
) -> (r: Result<(), String>)
    requires
        start <= end <= bytes@.len(),
        depth <= 9,
    ensures
        match r {
            Ok(_) => fields_from(bytes@, start as int, end as int, depth as int) matches Ok(v)
                && field_models(final(fields)@) == field_models(old(fields)@) + v,
            Err(e) => fields_from(bytes@, start as int, end as int, depth as int) == Err::<
                Seq<FieldModel>,
                Seq<char>,
            >(e@),
        },
    decreases 9 - depth,
{
    let ghost first = field_models(fields@);
    if depth > 8 {
        assert(first + Seq::<FieldModel>::empty() =~= first);
        return Ok(());
    }
    let n: usize = bytes.len();
    let ghost all = fields_from(bytes@, start as int, end as int, depth as int);
    let mut position: usize = start;
    proof {
        lemma_joined(first, Seq::empty(), all);
    }
    while end - position >= 8
        invariant
            start <= position <= end <= n,
            n == bytes@.len(),
            depth <= 8,
            all == fields_from(bytes@, start as int, end as int, depth as int),
            joined_fields(Ok(first), all) == joined_fields(
                Ok(field_models(fields@)),
                fields_from(bytes@, position as int, end as int, depth as int),
            ),
        decreases end - position,
    {
        let ghost before = field_models(fields@);
        let ghost rest = fields_from(bytes@, position as int, end as int, depth as int);
        let atom = match read_atom_header(bytes, position, end) {
            Ok(atom) => atom,
            Err(e) => {
                assert(joined_fields(Ok(first), all) is Err);
                return Err(e);
            },
        };
        let ghost next = fields_from(bytes@, atom.end as int, end as int, depth as int);
        if is_header_atom(bytes, position) {
            match read_creation_time_field(bytes, atom.payload_start, atom.end) {
                Ok(f) => {
                    fields.push(f);
                    proof {
                        assert(field_models(fields@) =~= before + seq![f.model()]);
                        lemma_joined(before, seq![f.model()], next);
                    }
                },
                Err(e) => {
                    return Err(e);
                },
            }
        } else if is_container_atom(bytes, position) {
            let ghost inner = fields_from(
                bytes@,
                atom.payload_start as int,
                atom.end as int,
                depth + 1,
            );
            match collect_creation_time_fields(
                bytes,
                atom.payload_start,
                atom.end,
                depth + 1,
                fields,
            ) {
                Ok(_) => {
                    proof {
                        lemma_joined(before, inner->Ok_0, next);
                    }
                },
                Err(e) => {
                    return Err(e);
                },
            }
        } else {
            proof {
                lemma_joined(before, Seq::empty(), next);
                lemma_joined(before, before, next);
            }
        }
        position = atom.end;
    }
    proof {
        lemma_joined(field_models(fields@), Seq::empty(), all);
    }
    Ok(())
}

// The atoms of a whole file.

/// The movie atom of a file, and whether a file type atom stands before it.
pub open spec fn movie_from(bytes: Seq<u8>, at: int, typed: bool) -> Result<
    (Option<AtomModel>, bool),
    Seq<char>,
>
    decreases bytes.len() - at,
{
    if at < 0 || at + 8 > bytes.len() {
        Ok((None, typed))
    } else {
        match atom_at(bytes, at, bytes.len() as int) {
            Err(e) => Err(e),
            Ok(atom) => if atom.kind == moov() {
                Ok((Some(atom), typed))
            } else {
                movie_from(bytes, atom.end, typed || atom.kind == ftyp())
            },
        }
    }
}

fn find_movie(bytes: &[u8]) -> (r: Result<(Option<(usize, usize)>, bool), String>)
    ensures
        match r {
            Ok((Some((payload, end)), typed)) => movie_from(bytes@, 0, false) matches Ok((
                Some(atom),
                t,
            )) && atom.payload == payload && atom.end == end && t == typed && payload <= end
                <= bytes@.len(),
            Ok((None, typed)) => movie_from(bytes@, 0, false) == Ok::<
                (Option<AtomModel>, bool),
                Seq<char>,
            >((None, typed)),
            Err(e) => movie_from(bytes@, 0, false) == Err::<(Option<AtomModel>, bool), Seq<char>>(
                e@,
            ),
        },
{
    let n: usize = bytes.len();
    let mut position: usize = 0;
    let mut typed = false;
    while n - position >= 8
        invariant
            position <= n,
            n == bytes@.len(),
            movie_from(bytes@, 0, false) == movie_from(bytes@, position as int, typed),
        decreases n - position,
    {
        let atom = match read_atom_header(bytes, position, n) {
            Ok(atom) => atom,
            Err(e) => {
                return Err(e);
            },
        };
        if is_letters(bytes, position, 0x6d, 0x6f, 0x6f, 0x76) {
            return Ok((Some((atom.payload_start, atom.end)), typed));
        }
        if is_letters(bytes, position, 0x66, 0x74, 0x79, 0x70) {
            typed = true;
        }
        position = atom.end;
    }
    Ok((None, typed))
}

/// The fields of a whole file. A file without a file type atom is taken only
/// where that is allowed.
pub open spec fn file_fields(bytes: Seq<u8>, allow_untyped: bool) -> Result<
    Seq<FieldModel>,
    Seq<char>,
> {
    match movie_from(bytes, 0, false) {
        Err(e) => Err(e),
        Ok((movie, typed)) => {
            let fields = match movie {
                Some(atom) => fields_from(bytes, atom.payload, atom.end, 0),
                None => Ok(Seq::empty()),
            };
            match fields {
                Err(e) => Err(e),
                Ok(v) => if !typed && !allow_untyped {
                    Err("MP4/QuickTime ftyp atom was not found."@)
                } else {
                    Ok(v)
                },
            }
        },
    }
}

pub fn find_creation_time_fields(bytes: &[u8], allow_quicktime_without_ftyp: bool) -> (r: Result<
    Vec<CreationTimeField>,
    String,
>)
    ensures
        match r {
            Ok(v) => file_fields(bytes@, allow_quicktime_without_ftyp) == Ok::<
                Seq<FieldModel>,
                Seq<char>,
            >(field_models(v@)),
            Err(e) => file_fields(bytes@, allow_quicktime_without_ftyp) == Err::<
                Seq<FieldModel>,
                Seq<char>,
            >(e@),
        },
{
    let mut fields: Vec<CreationTimeField> = Vec::new();
    assert(field_models(fields@) =~= Seq::<FieldModel>::empty());
    let (movie, typed) = match find_movie(bytes) {
        Ok(found) => found,
        Err(e) => {
            return Err(e);
        },
    };
    match movie {
        Some((start, end)) => {
            match collect_creation_time_fields(bytes, start, end, 0, &mut fields) {
                Ok(_) => {
                    assert(field_models(fields@) =~= fields_from(
                        bytes@,
                        start as int,
                        end as int,
                        0,
                    )->Ok_0);
                },
                Err(e) => {
                    return Err(e);
                },
            }
        },
        None => {},
    }
    if !typed && !allow_quicktime_without_ftyp {
        return Err("MP4/QuickTime ftyp atom was not found.".to_owned());
    }
    Ok(fields)
}

// What a scan finds.

/// The times in a movie header. The duration is a number of units, of which
/// the time scale gives the number in a second; a time scale of zero gives none.
#[derive(Clone, Copy, Debug, PartialEq, Eq, Structural)]
pub struct MovieHeaderTimeInfo {
    pub creation_seconds: u64,
    pub modification_seconds: u64,
    pub timescale: u32,
    pub duration: u64,
}

/// What a scan of a file's atoms has found.
#[derive(Clone, Copy, Debug, PartialEq, Eq, Structural)]
pub struct Mp4Summary {
    pub has_metadata: bool,
    pub fallback_creation_seconds: Option<u64>,
    pub movie_header: Option<MovieHeaderTimeInfo>,
}

/// A number of seconds that can stand for a creation time.
pub open spec fn usable_seconds(seconds: u64) -> bool {
    0 < seconds <= i64::MAX
}

/// The creation time in the content of a track header.
pub open spec fn creation_seconds_at(bytes: Seq<u8>, start: int, end: int) -> Result<
    Option<u64>,
    Seq<char>,
> {
    if end - start < 8 {
        Ok(None)
    } else if bytes[start] == 1 && start + 12 > bytes.len() {
        Err("failed to fill whole buffer"@)
    } else {
        let seconds = if bytes[start] == 1 {
            be64(bytes, start + 4)
        } else {
            be32(bytes, start + 4) as u64
        };
        Ok(
            if usable_seconds(seconds) {
                Some(seconds)
            } else {
                None
            },
        )
    }
}

fn read_quicktime_creation_seconds(bytes: &[u8], start: usize, end: usize) -> (r: Result<
    Option<u64>,
    String,
>)
    requires
        start <= end <= bytes@.len(),
    ensures
        match r {
            Ok(v) => creation_seconds_at(bytes@, start as int, end as int) == Ok::<
                Option<u64>,
                Seq<char>,
            >(v),
            Err(e) => creation_seconds_at(bytes@, start as int, end as int) == Err::<
                Option<u64>,
                Seq<char>,
            >(e@),
        },
{
    let n: usize = bytes.len();
    if end - start < 8 {
        return Ok(None);
    }
    let seconds: u64 = if bytes[start] == 1 {
        if n - start < 12 {
            return Err("failed to fill whole buffer".to_owned());
        }
        read_be64(bytes, start + 4)
    } else {
        read_be32(bytes, start + 4) as u64
    };
    if seconds == 0 || seconds > i64::MAX as u64 {
        return Ok(None);
    }
    Ok(Some(seconds))
}

/// The times in the content of a movie header.
pub open spec fn movie_header_at(bytes: Seq<u8>, start: int, end: int) -> Option<
    MovieHeaderTimeInfo,
> {
    if end - start < 20 {
        None
    } else {
        let header = if bytes[start] == 0 {
            Some(
                MovieHeaderTimeInfo {
                    creation_seconds: be32(bytes, start + 4) as u64,
                    modification_seconds: be32(bytes, start + 8) as u64,
                    timescale: be32(bytes, start + 12),
                    duration: be32(bytes, start + 16) as u64,
                },
            )
        } else if bytes[start] == 1 && end - start >= 32 {
            Some(
                MovieHeaderTimeInfo {
                    creation_seconds: be64(bytes, start + 4),
                    modification_seconds: be64(bytes, start + 12),
                    timescale: be32(bytes, start + 20),
                    duration: be64(bytes, start + 24),
                },
            )
        } else {
            None
        };
        match header {
            Some(h) => if usable_seconds(h.creation_seconds) {
                Some(h)
            } else {
                None
            },
            None => None,
        }
    }
}

fn read_movie_header_time_info(bytes: &[u8], start: usize, end: usize) -> (r: Option<
    MovieHeaderTimeInfo,
>)
    requires
        start <= end <= bytes@.len(),
    ensures
        r == movie_header_at(bytes@, start as int, end as int),
{
    let n: usize = bytes.len();
    if end - start < 20 {
        return None;
    }
    let header = if bytes[start] == 0 {
        MovieHeaderTimeInfo {
            creation_seconds: read_be32(bytes, start + 4) as u64,
            modification_seconds: read_be32(bytes, start + 8) as u64,
            timescale: read_be32(bytes, start + 12),
            duration: read_be32(bytes, start + 16) as u64,
        }
    } else if bytes[start] == 1 && end - start >= 32 {
        MovieHeaderTimeInfo {
            creation_seconds: read_be64(bytes, start + 4),
            modification_seconds: read_be64(bytes, start + 12),
            timescale: read_be32(bytes, start + 20),
            duration: read_be64(bytes, start + 24),
        }
    } else {
        return None;
    };
    if header.creation_seconds == 0 || header.creation_seconds > i64::MAX as u64 {
        return None;
    }
    Some(header)
}

/// What is known once a header atom was read.
pub open spec fn header_noted(bytes: Seq<u8>, atom: AtomModel, s: Mp4Summary) -> Result<
    Mp4Summary,
    Seq<char>,
> {
    if atom.kind == mvhd() {
        Ok(
            Mp4Summary {
                has_metadata: true,
                movie_header: movie_header_at(bytes, atom.payload, atom.end),
                ..s
            },
        )
    } else if s.fallback_creation_seconds is Some {
        Ok(Mp4Summary { has_metadata: true, ..s })
    } else {
        match creation_seconds_at(bytes, atom.payload, atom.end) {
            Ok(v) => Ok(Mp4Summary { has_metadata: true, fallback_creation_seconds: v, ..s }),
            Err(e) => Err(e),
        }
    }
}

/// What is known once the atoms from a position on were read.
pub open spec fn scanned_from(
    bytes: Seq<u8>,
    at: int,
    end: int,
    depth: int,
    s: Mp4Summary,
) -> Result<Mp4Summary, Seq<char>>
    decreases 9 - depth, end - at,
{
    if depth > 8 || depth < 0 || at + 8 > end {
        Ok(s)
    } else {
        match atom_at(bytes, at, end) {
            Err(e) => Err(e),
            Ok(atom) => {
                let next = if is_header_kind(atom.kind) {
                    header_noted(bytes, atom, s)
                } else if is_container_kind(atom.kind) {
                    scanned_from(bytes, atom.payload, atom.end, depth + 1, s)
                } else {
                    Ok(s)
                };
                match next {
                    Err(e) => Err(e),
                    Ok(t) => scanned_from(bytes, atom.end, end, depth, t),
                }
            },
        }
    }
}

fn note_header(
    bytes: &[u8],
    position: usize,
    payload: usize,
    end: usize,
    summary: &Mp4Summary,
) -> (r: Result<Mp4Summary, String>)
    requires
        position + 8 <= payload <= end <= bytes@.len(),
        is_header_kind(kind_of(bytes@, position as int)),
    ensures
        ({
            let atom = AtomModel {
                kind: kind_of(bytes@, position as int),
                payload: payload as int,
                end: end as int,
            };
            match r {
                Ok(s) => header_noted(bytes@, atom, *summary) == Ok::<Mp4Summary, Seq<char>>(s),
                Err(e) => header_noted(bytes@, atom, *summary) == Err::<Mp4Summary, Seq<char>>(e@),
            }
        }),
{
    if is_letters(bytes, position, 0x6d, 0x76, 0x68, 0x64) {
        return Ok(
            Mp4Summary {
                has_metadata: true,
                fallback_creation_seconds: summary.fallback_creation_seconds,
                movie_header: read_movie_header_time_info(bytes, payload, end),
            },
        );
    }
    let mut fallback = summary.fallback_creation_seconds;
    if fallback.is_none() {
        match read_quicktime_creation_seconds(bytes, payload, end) {
            Ok(v) => {
                fallback = v;
            },
            Err(e) => {
                return Err(e);
            },
        }
    }
    Ok(
        Mp4Summary {
            has_metadata: true,
            fallback_creation_seconds: fallback,
            movie_header: summary.movie_header,
        },
    )
}

fn scan_atom_children(bytes: &[u8], start: usize, end: usize, depth: usize, summary: &Mp4Summary) -> (r:
    Result<Mp4Summary, String>)
    requires
        start <= end <= bytes@.len(),
        depth <= 9,
    ensures
        match r {
            Ok(s) => scanned_from(bytes@, start as int, end as int, depth as int, *summary) == Ok::<
                Mp4Summary,
                Seq<char>,
            >(s),
            Err(e) => scanned_from(bytes@, start as int, end as int, depth as int, *summary)
                == Err::<Mp4Summary, Seq<char>>(e@),
        },
    decreases 9 - depth,
{
    let mut known = *summary;
    if depth > 8 {
        return Ok(known);
    }
    let n: usize = bytes.len();
    let mut position: usize = start;
    while end - position >= 8
        invariant
            start <= position <= end <= n,
            n == bytes@.len(),
            depth <= 8,
            scanned_from(bytes@, start as int, end as int, depth as int, *summary) == scanned_from(
                bytes@,
                position as int,
                end as int,
                depth as int,
                known,
            ),
        decreases end - position,
    {
        let atom = match read_atom_header(bytes, position, end) {
            Ok(atom) => atom,
            Err(e) => {
                return Err(e);
            },
        };
        if is_header_atom(bytes, position) {
            match note_header(bytes, position, atom.payload_start, atom.end, &known) {
                Ok(s) => {
                    known = s;
                },
                Err(e) => {
                    return Err(e);
                },
            }
        } else if is_container_atom(bytes, position) {
            match scan_atom_children(bytes, atom.payload_start, atom.end, depth + 1, &known) {
                Ok(s) => {
                    known = s;
                },
                Err(e) => {
                    return Err(e);
                },
            }
        }
        position = atom.end;
    }
    Ok(known)
}

pub open spec fn nothing_found() -> Mp4Summary {
    Mp4Summary { has_metadata: false, fallback_creation_seconds: None, movie_header: None }
}

/// What a scan of a whole file finds.
pub open spec fn file_summary(bytes: Seq<u8>, allow_untyped: bool) -> Result<Mp4Summary, Seq<char>> {
    match movie_from(bytes, 0, false) {
        Err(e) => Err(e),
        Ok((movie, typed)) => {
            let found = match movie {
                Some(atom) => scanned_from(bytes, atom.payload, atom.end, 0, nothing_found()),
                None => Ok(nothing_found()),
            };
            match found {
                Err(e) => Err(e),
                Ok(s) => if !typed && !allow_untyped {
                    Err("MP4/QuickTime ftyp atom was not found."@)
                } else {
                    Ok(s)
                },
            }
        },
    }
}

/// Scans the atoms of a file.
pub fn scan_atoms(bytes: &[u8], allow_quicktime_without_ftyp: bool) -> (r: Result<
    Mp4Summary,
    String,
>)
    ensures
        match r {
            Ok(s) => file_summary(bytes@, allow_quicktime_without_ftyp) == Ok::<
                Mp4Summary,
                Seq<char>,
            >(s),
            Err(e) => file_summary(bytes@, allow_quicktime_without_ftyp) == Err::<
                Mp4Summary,
                Seq<char>,
            >(e@),
        },
{
    let (movie, typed) = match find_movie(bytes) {
        Ok(found) => found,
        Err(e) => {
            return Err(e);
        },
    };
    let mut summary = Mp4Summary {
        has_metadata: false,
        fallback_creation_seconds: None,
        movie_header: None,
    };
    match movie {
        Some((start, end)) => {
            match scan_atom_children(bytes, start, end, 0, &summary) {
                Ok(s) => {
                    summary = s;
                },
                Err(e) => {
                    return Err(e);
                },
            }
        },
        None => {},
    }
    if !typed && !allow_quicktime_without_ftyp {
        return Err("MP4/QuickTime ftyp atom was not found.".to_owned());
    }
    Ok(summary)
}

/// The creation time that counts: that of the movie, or else of a track.
pub open spec fn creation_of(s: Mp4Summary) -> Option<u64> {
    match s.movie_header {
        Some(h) => Some(h.creation_seconds),
        None => s.fallback_creation_seconds,
    }
}

impl Mp4Summary {
    pub fn creation_seconds(&self) -> (r: Option<u64>)
        ensures
            r == creation_of(*self),
    {
        match self.movie_header {
            Some(h) => Some(h.creation_seconds),
            None => self.fallback_creation_seconds,
        }
    }
}

// Writing creation times.

/// The bytes of a value in a field of some width.
pub open spec fn field_bytes(width: int, value: u64) -> Seq<u8> {
    let low = binary::u32_bytes((value % 0x1_0000_0000) as u32, Endian::Big);
    if width == 4 {
        low
    } else {
        binary::u32_bytes((value / 0x1_0000_0000) as u32, Endian::Big) + low
    }
}

/// The bytes with one value in the first fields.
pub open spec fn times_written(bytes: Seq<u8>, fields: Seq<FieldModel>, value: u64) -> Seq<u8>
    decreases fields.len(),
{
    if fields.len() == 0 {
        bytes
    } else {
        binary::spliced(
            times_written(bytes, fields.drop_last(), value),
            fields.last().offset,
            field_bytes(fields.last().width, value),
        )
    }
}

/// The bytes with every field's own value in it.
pub open spec fn times_restored(bytes: Seq<u8>, fields: Seq<FieldModel>) -> Seq<u8>
    decreases fields.len(),
{
    if fields.len() == 0 {
        bytes
    } else {
        binary::spliced(
            times_restored(bytes, fields.drop_last()),
            fields.last().offset,
            field_bytes(fields.last().width, fields.last().original),
        )
    }
}

/// The fields lie within a length; the narrow ones hold a 32-bit value.
pub open spec fn fields_within(fields: Seq<FieldModel>, len: int) -> bool {
    forall|i: int|
        0 <= i < fields.len() ==> {
            let f = #[trigger] fields[i];
            &&& 0 <= f.offset
            &&& f.width == 4 || f.width == 8
            &&& f.offset + f.width <= len
            &&& f.width == 4 ==> f.original <= u32::MAX
        }
}

fn write_creation_time_value(bytes: &mut Vec<u8>, field: &CreationTimeField, value: u64)
    requires
        field.width == 4 || field.width == 8,
        field.offset + field.width <= old(bytes)@.len(),
    ensures
        final(bytes)@ == binary::spliced(
            old(bytes)@,
            field.offset as int,
            field_bytes(field.width as int, value),
        ),
        final(bytes)@.len() == old(bytes)@.len(),
{
    let n: usize = bytes.len();
    let high: u32 = (value / 0x1_0000_0000) as u32;
    let low: u32 = (value % 0x1_0000_0000) as u32;
    let mut number: Vec<u8> = Vec::new();
    if field.width != 4 {
        append_u32(&mut number, high, Endian::Big);
    }
    append_u32(&mut number, low, Endian::Big);
    proof {
        binary::u32_bytes_read_back(high, Endian::Big);
        binary::u32_bytes_read_back(low, Endian::Big);
        assert(number@ =~= field_bytes(field.width as int, value));
    }
    let width: usize = number.len();
    let ghost wanted = number@;
    let mut i: usize = 0;
    while i < width
        invariant
            i <= width,
            width == number@.len(),
            width == field.width,
            bytes@.len() == n,
            old(bytes)@.len() == n,
            field.offset + width <= n,
            bytes@ == binary::spliced(
                old(bytes)@,
                field.offset as int,
                number@.take(i as int) + old(bytes)@.subrange(
                    field.offset + i,
                    field.offset + width,
                ),
            ),
        decreases width - i,
    {
        bytes.set(field.offset + i, number[i]);
        i += 1;
        assert(bytes@ =~= binary::spliced(
            old(bytes)@,
            field.offset as int,
            number@.take(i as int) + old(bytes)@.subrange(field.offset + i, field.offset + width),
        ));
    }
    assert(number@.take(width as int) + old(bytes)@.subrange(
        field.offset + width,
        field.offset + width,
    ) =~= number@);
}

/// Puts its own value back into every field.
pub fn restore_creation_time_values(bytes: &mut Vec<u8>, fields: &[CreationTimeField])
    requires
        fields_within(field_models(fields@), old(bytes)@.len() as int),
    ensures
        final(bytes)@ == times_restored(old(bytes)@, field_models(fields@)),
        final(bytes)@.len() == old(bytes)@.len(),
{
    let n: usize = fields.len();
    let ghost all = field_models(fields@);
    let mut i: usize = 0;
    assert(all.take(0) =~= Seq::<FieldModel>::empty());
    while i < n
        invariant
            i <= n,
            n == fields@.len(),
            all == field_models(fields@),
            fields_within(all, old(bytes)@.len() as int),
            bytes@.len() == old(bytes)@.len(),
            bytes@ == times_restored(old(bytes)@, all.take(i as int)),
        decreases n - i,
    {
        let field = fields[i];
        assert(all[i as int] == field.model());
        write_creation_time_value(bytes, &field, field.original);
        i += 1;
        assert(all.take(i as int).drop_last() =~= all.take(i - 1));
    }
    assert(all.take(n as int) =~= all);
}

/// The file after a creation time was written to all its fields.
pub open spec fn media_date_written(bytes: Seq<u8>, allow_untyped: bool, seconds: u64) -> Result<
    Seq<u8>,
    Seq<char>,
> {
    match file_fields(bytes, allow_untyped) {
        Err(e) => Err(e),
        Ok(fields) => if fields.len() == 0 {
            Err("No writable ISO media creation time field was found."@)
        } else if seconds > u32::MAX && exists|i: int|
            0 <= i < fields.len() && (#[trigger] fields[i]).width == 4 {
            Err("Media Date is outside the range of an existing version 0 date field."@)
        } else {
            Ok(times_written(bytes, fields, seconds))
        },
    }
}

/// Writes a creation time to every field of a file that holds one. Gives the
/// fields as they were, by which the change can be undone.
pub fn write_mp4_media_date(
    bytes: &mut Vec<u8>,
    allow_quicktime_without_ftyp: bool,
    quicktime_seconds: u64,
) -> (r: Result<Vec<CreationTimeField>, String>)
    ensures
        match r {
            Ok(fields) => media_date_written(
                old(bytes)@,
                allow_quicktime_without_ftyp,
                quicktime_seconds,
            ) == Ok::<Seq<u8>, Seq<char>>(final(bytes)@) && file_fields(
                old(bytes)@,
                allow_quicktime_without_ftyp,
            ) == Ok::<Seq<FieldModel>, Seq<char>>(field_models(fields@)) && fields_within(
                field_models(fields@),
                final(bytes)@.len() as int,
            ) && final(bytes)@.len() == old(bytes)@.len(),
            Err(e) => media_date_written(
                old(bytes)@,
                allow_quicktime_without_ftyp,
                quicktime_seconds,
            ) == Err::<Seq<u8>, Seq<char>>(e@) && final(bytes)@ == old(bytes)@,
        },
{
    let fields = match find_creation_time_fields(bytes.as_slice(), allow_quicktime_without_ftyp) {
        Ok(fields) => fields,
        Err(e) => {
            return Err(e);
        },
    };
    let n: usize = fields.len();
    let ghost all = field_models(fields@);
    proof {
        lemma_file_fields_within(bytes@, allow_quicktime_without_ftyp);
    }
    if n == 0 {
        return Err("No writable ISO media creation time field was found.".to_owned());
    }
    let mut i: usize = 0;
    while i < n
        invariant
            i <= n,
            n == fields@.len(),
            n > 0,
            all == field_models(fields@),
            bytes@ == old(bytes)@,
            file_fields(old(bytes)@, allow_quicktime_without_ftyp) == Ok::<
                Seq<FieldModel>,
                Seq<char>,
            >(all),
            forall|k: int|
                0 <= k < i ==> !((#[trigger] all[k]).width == 4 && quicktime_seconds > u32::MAX),
        decreases n - i,
    {
        assert(all[i as int] == fields@[i as int].model());
        if fields[i].width == 4 && quicktime_seconds > u32::MAX as u64 {
            assert(all[i as int].width == 4);
            return Err(
                "Media Date is outside the range of an existing version 0 date field.".to_owned(),
            );
        }
        i += 1;
    }
    let mut k: usize = 0;
    assert(all.take(0) =~= Seq::<FieldModel>::empty());
    while k < n
        invariant
            k <= n,
            n == fields@.len(),
            all == field_models(fields@),
            fields_within(all, old(bytes)@.len() as int),
            bytes@.len() == old(bytes)@.len(),
            bytes@ == times_written(old(bytes)@, all.take(k as int), quicktime_seconds),
        decreases n - k,
    {
        let field = fields[k];
        assert(all[k as int] == field.model());
        write_creation_time_value(bytes, &field, quicktime_seconds);
        k += 1;
        assert(all.take(k as int).drop_last() =~= all.take(k - 1));
    }
    assert(all.take(n as int) =~= all);
    Ok(fields)
}

pub proof fn lemma_fields_within(bytes: Seq<u8>, at: int, end: int, depth: int)
    requires
        0 <= at,
        end <= bytes.len(),
        fields_from(bytes, at, end, depth) is Ok,
    ensures
        fields_within(fields_from(bytes, at, end, depth)->Ok_0, bytes.len() as int),
        forall|i: int|
            0 <= i < fields_from(bytes, at, end, depth)->Ok_0.len() ==> {
                let f = #[trigger] fields_from(bytes, at, end, depth)->Ok_0[i];
                at + 12 <= f.offset && f.offset + f.width <= end
            },
    decreases 9 - depth, end - at,
{
    if !(depth > 8 || depth < 0 || at + 8 > end) {
        let atom = atom_at(bytes, at, end)->Ok_0;
        let own = if is_header_kind(atom.kind) {
            seq![field_at(bytes, atom.payload, atom.end)->Ok_0]
        } else if is_container_kind(atom.kind) {
            fields_from(bytes, atom.payload, atom.end, depth + 1)->Ok_0
        } else {
            Seq::empty()
        };
        let rest = fields_from(bytes, atom.end, end, depth)->Ok_0;
        if is_container_kind(atom.kind) && !is_header_kind(atom.kind) {
            lemma_fields_within(bytes, atom.payload, atom.end, depth + 1);
        }
        lemma_fields_within(bytes, atom.end, end, depth);
        let all = fields_from(bytes, at, end, depth)->Ok_0;
        assert(all == own + rest);
        assert forall|i: int| 0 <= i < all.len() implies {
            let f = #[trigger] all[i];
            &&& at + 12 <= f.offset
            &&& f.offset + f.width <= end
            &&& f.width == 4 || f.width == 8
            &&& f.width == 4 ==> f.original <= u32::MAX
        } by {
            if i < own.len() {
                assert(all[i] == own[i]);
            } else {
                assert(all[i] == rest[i - own.len()]);
            }
        }
    }
}

pub proof fn lemma_movie_bounds(bytes: Seq<u8>, at: int, typed: bool)
    requires
        0 <= at,
    ensures
        movie_from(bytes, at, typed) matches Ok((Some(atom), _)) ==> at + 8 <= atom.payload
            <= atom.end <= bytes.len(),
    decreases bytes.len() - at,
{
    if at + 8 <= bytes.len() {
        match atom_at(bytes, at, bytes.len() as int) {
            Ok(atom) => {
                if atom.kind != moov() {
                    lemma_movie_bounds(bytes, atom.end, typed || atom.kind == ftyp());
                }
            },
            Err(_) => {},
        }
    }
}

pub proof fn lemma_file_fields_within(bytes: Seq<u8>, allow_untyped: bool)
    ensures
        file_fields(bytes, allow_untyped) matches Ok(v) ==> fields_within(v, bytes.len() as int),
{
    lemma_movie_bounds(bytes, 0, false);
    match movie_from(bytes, 0, false) {
        Ok((Some(atom), _)) => {
            if fields_from(bytes, atom.payload, atom.end, 0) is Ok {
                lemma_fields_within(bytes, atom.payload, atom.end, 0);
            }
        },
        _ => {},
    }
}

// Entered dates.

/// The seconds that QuickTime counts for a moment in UTC.
pub open spec fn quicktime_of(utc_seconds: i64) -> Result<u64, Seq<char>> {
    let q = utc_seconds + QUICKTIME_UNIX_EPOCH_OFFSET;
    if 0 < q <= i64::MAX {
        Ok(q as u64)
    } else {
        Err("Media Date is outside the QuickTime time range."@)
    }
}

pub fn quicktime_seconds(utc_seconds: i64) -> (r: Result<u64, String>)
    ensures
        match r {
            Ok(v) => quicktime_of(utc_seconds) == Ok::<u64, Seq<char>>(v),
            Err(e) => quicktime_of(utc_seconds) == Err::<u64, Seq<char>>(e@),
        },
{
    match utc_seconds.checked_add(QUICKTIME_UNIX_EPOCH_OFFSET) {
        Some(q) => if q > 0 {
            Ok(q as u64)
        } else {
            Err("Media Date is outside the QuickTime time range.".to_owned())
        },
        None => Err("Media Date is outside the QuickTime time range.".to_owned()),
    }
}

/// The moment that was entered as a media date, or a complaint.
pub fn media_date_or_error(m: Option<Moment>) -> (r: Result<Moment, String>)
    ensures
        match r {
            Ok(v) => m == Some(v),
            Err(e) => m is None && e@
                == "Media Date must be formatted as YYYY-MM-DD or YYYY-MM-DD HH:MM:SS."@,
        },
{
    match m {
        Some(v) => Ok(v),
        None => Err("Media Date must be formatted as YYYY-MM-DD or YYYY-MM-DD HH:MM:SS.".to_owned()),
    }
}

/// Reads a media date that was entered; a date alone stands for its midnight.
pub fn parse_media_date(value: &str) -> (r: Result<Moment, String>)
    ensures
        match r {
            Ok(m) => datetime::display_datetime(text::trim(value@)) == Some(m)
                && datetime::valid_moment(m),
            Err(e) => datetime::display_datetime(text::trim(value@)) is None && e@
                == "Media Date must be formatted as YYYY-MM-DD or YYYY-MM-DD HH:MM:SS."@,
        },
{
    media_date_or_error(parse_display_datetime_or_date(trimmed(value)))
}

// What a creation time means.

/// The second from the start of 1970 that a QuickTime time stands for.
pub open spec fn unix_of(seconds: u64) -> int {
    seconds - QUICKTIME_UNIX_EPOCH_OFFSET
}

/// The moment in UTC of a QuickTime time, if it lies in the supported years.
pub fn quicktime_moment(seconds: u64) -> (r: Option<Moment>)
    ensures
        (r is Some) == (seconds <= i64::MAX && datetime::supported_timestamp(unix_of(seconds))),
        r matches Some(m) ==> datetime::valid_moment(m) && m.nano == 0 && datetime::timestamp(m)
            == unix_of(seconds),
{
    if seconds > i64::MAX as u64 {
        return None;
    }
    moment_at(seconds as i64 - QUICKTIME_UNIX_EPOCH_OFFSET)
}

pub open spec fn distance(a: int, b: int) -> int {
    if a >= b {
        a - b
    } else {
        b - a
    }
}

/// The whole seconds from one moment to another, toward zero.
pub open spec fn span(from: Moment, to: Moment) -> int {
    datetime::whole_seconds(
        (datetime::timestamp(to) - datetime::timestamp(from)) * 1_000_000_000 + (to.nano
            - from.nano),
    )
}

/// The recorded times are about as far apart as the recording is long.
pub open spec fn coherent(creation: Moment, modification: Moment, duration: Option<(u64, u32)>) -> bool {
    match duration {
        None => true,
        Some((units, scale)) => distance(span(creation, modification) * scale, units as int) <= 300
            * scale,
    }
}

/// Whether a camera wrote local times where UTC was due: the file was changed
/// when the movie's own time says so, and not when that time as UTC does.
pub open spec fn camera_local(
    raw_creation: Moment,
    raw_modification: Moment,
    standard_modification: Moment,
    file_modified: Moment,
    duration: Option<(u64, u32)>,
) -> bool {
    let camera = distance(span(raw_modification, file_modified), 0);
    let standard = distance(span(standard_modification, file_modified), 0);
    coherent(raw_creation, raw_modification, duration) && camera <= 300 && standard >= 3600
        && camera + 60 < standard
}

fn absolute(v: i64) -> (r: i64)
    requires
        -17_000_000_000_000 <= v <= 17_000_000_000_000,
    ensures
        r == distance(v as int, 0),
        0 <= r <= 17_000_000_000_000,
{
    if v >= 0 {
        v
    } else {
        -v
    }
}

fn is_coherent(creation: Moment, modification: Moment, duration: Option<(u64, u32)>) -> (r: bool)
    requires
        datetime::valid_moment(creation),
        datetime::valid_moment(modification),
        creation.nano < 1_000_000_000,
        modification.nano < 1_000_000_000,
    ensures
        r == coherent(creation, modification, duration),
{
    match duration {
        None => true,
        Some((units, scale)) => {
            let recorded: i64 = seconds_between(creation, modification);
            let a: i128 = recorded as i128;
            let b: i128 = scale as i128;
            assert(-17_000_000_000_000 * 4_294_967_295 <= a * b <= 17_000_000_000_000
                * 4_294_967_295) by (nonlinear_arith)
                requires
                    -17_000_000_000_000 <= a <= 17_000_000_000_000,
                    0 <= b <= 4_294_967_295,
            ;
            let x: i128 = a * b;
            let y: i128 = units as i128;
            let d: i128 = if x >= y {
                x - y
            } else {
                y - x
            };
            d <= 300 * b
        },
    }
}

pub fn should_use_camera_local_time(
    raw_creation: Moment,
    raw_modification: Moment,
    standard_modification: Moment,
    file_modified: Moment,
    duration: Option<(u64, u32)>,
) -> (r: bool)
    requires
        datetime::valid_moment(raw_creation),
        datetime::valid_moment(raw_modification),
        datetime::valid_moment(standard_modification),
        datetime::valid_moment(file_modified),
        raw_creation.nano < 1_000_000_000,
        raw_modification.nano < 1_000_000_000,
        standard_modification.nano < 1_000_000_000,
        file_modified.nano < 1_000_000_000,
    ensures
        r == camera_local(
            raw_creation,
            raw_modification,
            standard_modification,
            file_modified,
            duration,
        ),
{
    let camera: i64 = absolute(seconds_between(raw_modification, file_modified));
    let standard: i64 = absolute(seconds_between(standard_modification, file_modified));
    is_coherent(raw_creation, raw_modification, duration) && camera <= 300 && standard >= 3600
        && camera + 60 < standard
}

impl MovieHeaderTimeInfo {
    pub open spec fn length(self) -> Option<(u64, u32)> {
        if self.timescale > 0 {
            Some((self.duration, self.timescale))
        } else {
            None
        }
    }

    /// The duration as a number of units and the number of units in a second.
    pub fn duration_units(&self) -> (r: Option<(u64, u32)>)
        ensures
            r == self.length(),
    {
        if self.timescale > 0 {
            Some((self.duration, self.timescale))
        } else {
            None
        }
    }
}

/// The local times of a file, in the time zone of the machine: that of the
/// creation time, that of the movie's modification time and that of the
/// file's own.
#[derive(Clone, Copy, Debug)]
pub struct LocalTimes {
    pub creation: Moment,
    pub modification: Option<Moment>,
    pub file_modified: Option<Moment>,
}

pub open spec fn whole(m: Moment) -> bool {
    datetime::valid_moment(m) && m.nano < 1_000_000_000
}

impl LocalTimes {
    pub open spec fn valid(self) -> bool {
        &&& whole(self.creation)
        &&& self.modification matches Some(m) ==> whole(m)
        &&& self.file_modified matches Some(m) ==> whole(m)
    }
}

/// Whether the movie's times are local ones, by what is known of them.
pub open spec fn read_as_local(
    raw_creation: Moment,
    header: Option<MovieHeaderTimeInfo>,
    raw_modification: Option<Moment>,
    local: LocalTimes,
) -> bool {
    match (header, raw_modification, local.modification, local.file_modified) {
        (Some(h), Some(raw), Some(standard), Some(file)) => camera_local(
            raw_creation,
            raw,
            standard,
            file,
            h.length(),
        ),
        _ => false,
    }
}

/// The date that is shown for a creation time, and how the time was taken.
/// Nothing is shown for a time outside the supported years.
pub fn interpret_quicktime_creation_date(
    creation_seconds: u64,
    movie_header: Option<MovieHeaderTimeInfo>,
    local: LocalTimes,
) -> (r: (Option<String>, String))
    requires
        local.valid(),
    ensures
        if !(creation_seconds <= i64::MAX && datetime::supported_timestamp(
            unix_of(creation_seconds),
        )) {
            r.0 is None && r.1@ == ""@
        } else {
            exists|raw: Moment, modified: Option<Moment>|
                {
                    &&& datetime::valid_moment(raw)
                    &&& raw.nano == 0
                    &&& datetime::timestamp(raw) == unix_of(creation_seconds)
                    &&& modified matches Some(m) ==> datetime::valid_moment(m) && m.nano == 0 && (
                    movie_header matches Some(h) && datetime::timestamp(m) == unix_of(
                        h.modification_seconds,
                    ))
                    &&& (modified is Some) == (movie_header matches Some(h)
                        && h.modification_seconds <= i64::MAX && datetime::supported_timestamp(
                        unix_of(h.modification_seconds),
                    ))
                    &&& r.0 matches Some(date)
                    &&& if #[trigger] read_as_local(raw, movie_header, modified, local) {
                        date@ == datetime::display_text(raw) && r.1@ == "Camera local time"@
                    } else {
                        date@ == datetime::display_text(local.creation) && r.1@
                            == "UTC (standard)"@
                    }
                }
        },
{
    let raw = match quicktime_moment(creation_seconds) {
        None => {
            return (None, "".to_owned());
        },
        Some(m) => m,
    };
    let modified = match movie_header {
        Some(h) => quicktime_moment(h.modification_seconds),
        None => None,
    };
    let camera = match (movie_header, modified, local.modification, local.file_modified) {
        (Some(h), Some(raw_mod), Some(standard), Some(file)) => should_use_camera_local_time(
            raw,
            raw_mod,
            standard,
            file,
            h.duration_units(),
        ),
        _ => false,
    };
    assert(camera == read_as_local(raw, movie_header, modified, local));
    if camera {
        (Some(format_datetime(raw, DISPLAY_DATETIME_FORMAT)), "Camera local time".to_owned())
    } else {
        (
            Some(format_datetime(local.creation, DISPLAY_DATETIME_FORMAT)),
            "UTC (standard)".to_owned(),
        )
    }
}

} // verus!
