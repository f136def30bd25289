//! How the atoms of movies are laid out, and what the times in them stand for.
use crate::binary;
use crate::datetime::{self, Moment};
use crate::exif_field_laws;
use crate::mp4::{self, AtomModel, FieldModel, LocalTimes, Mp4Summary, MovieHeaderTimeInfo};
use vstd::prelude::*;

verus! {

// Numbers and letters.

/// The number that four bytes make, the high byte first.
pub open spec fn big4(bytes: Seq<u8>, at: int) -> int {
    16777216 * bytes[at] + 65536 * bytes[at + 1] + 256 * bytes[at + 2] + bytes[at + 3]
}

/// The number that eight bytes make, the high byte first.
pub open spec fn big8(bytes: Seq<u8>, at: int) -> int {
    4294967296 * big4(bytes, at) + big4(bytes, at + 4)
}

proof fn lemma_big(bytes: Seq<u8>, at: int)
    ensures
        mp4::be32(bytes, at) == big4(bytes, at),
        mp4::be64(bytes, at) == big8(bytes, at),
        0 <= big4(bytes, at) <= 4294967295,
{
}

/// Four letters stand at a place.
pub open spec fn letters_at(
    bytes: Seq<u8>,
    at: int,
    a: char,
    b: char,
    c: char,
    d: char,
) -> bool {
    bytes[at] == a as u8 && bytes[at + 1] == b as u8 && bytes[at + 2] == c as u8 && bytes[at + 3]
        == d as u8
}

/// The atoms that hold times are called `mvhd`, `tkhd` and `mdhd`, and those that hold
/// them are called `trak` and `mdia`; the movie itself is called `moov`, and the type
/// of a file `ftyp`.
pub proof fn atoms_are_told_by_their_letters(bytes: Seq<u8>, at: int)
    requires
        0 <= at,
        at + 8 <= bytes.len(),
    ensures
        ({
            let k = mp4::kind_of(bytes, at);
            &&& mp4::is_header_kind(k) <==> letters_at(bytes, at + 4, 'm', 'v', 'h', 'd')
                || letters_at(bytes, at + 4, 't', 'k', 'h', 'd') || letters_at(
                bytes,
                at + 4,
                'm',
                'd',
                'h',
                'd',
            )
            &&& mp4::is_container_kind(k) <==> letters_at(bytes, at + 4, 't', 'r', 'a', 'k')
                || letters_at(bytes, at + 4, 'm', 'd', 'i', 'a')
            &&& k == mp4::mvhd() <==> letters_at(bytes, at + 4, 'm', 'v', 'h', 'd')
            &&& k == mp4::moov() <==> letters_at(bytes, at + 4, 'm', 'o', 'o', 'v')
            &&& k == mp4::ftyp() <==> letters_at(bytes, at + 4, 'f', 't', 'y', 'p')
        }),
{
    let k = mp4::kind_of(bytes, at);
    assert(k[0] == bytes[at + 4] && k[1] == bytes[at + 5] && k[2] == bytes[at + 6] && k[3]
        == bytes[at + 7]);
    lemma_four(k, mp4::mvhd());
    lemma_four(k, mp4::tkhd());
    lemma_four(k, mp4::mdhd());
    lemma_four(k, mp4::trak());
    lemma_four(k, mp4::mdia());
    lemma_four(k, mp4::moov());
    lemma_four(k, mp4::ftyp());
}

proof fn lemma_four(a: Seq<u8>, b: Seq<u8>)
    requires
        a.len() == 4,
        b.len() == 4,
    ensures
        a == b <==> a[0] == b[0] && a[1] == b[1] && a[2] == b[2] && a[3] == b[3],
{
    if a[0] == b[0] && a[1] == b[1] && a[2] == b[2] && a[3] == b[3] {
        assert(a =~= b);
    }
}

// Atoms.

/// An atom begins with its size and its letters. A size of zero reaches to the end of
/// what holds it, and a size of one stands in the eight bytes behind the letters. A
/// size that is smaller than what it counts with, or that reaches beyond what holds
/// the atom, is refused.
pub proof fn atoms_are_as_long_as_their_size_says(bytes: Seq<u8>, at: int, end: int)
    requires
        0 <= at,
        at + 8 <= end,
        end <= bytes.len(),
        end <= u64::MAX,
    ensures
        ({
            let kind = bytes.subrange(at + 4, at + 8);
            let n = big4(bytes, at);
            let long = big8(bytes, at + 8);
            let r = mp4::atom_at(bytes, at, end);
            &&& n == 0 ==> r == Ok::<AtomModel, Seq<char>>(
                AtomModel { kind, payload: at + 8, end },
            )
            &&& n >= 8 && at + n <= end ==> r == Ok::<AtomModel, Seq<char>>(
                AtomModel { kind, payload: at + 8, end: at + n },
            )
            &&& 1 < n < 8 ==> r == Err::<AtomModel, Seq<char>>("Invalid MP4/QuickTime atom size."@)
            &&& n >= 8 && at + n > end && at + n <= u64::MAX ==> r == Err::<AtomModel, Seq<char>>(
                "MP4/QuickTime atom is outside its parent."@,
            )
            &&& n == 1 && at + 16 <= bytes.len() ==> {
                &&& long >= 16 && at + long <= end ==> r == Ok::<
                    AtomModel,
                    Seq<char>,
                >(AtomModel { kind, payload: at + 16, end: at + long })
                &&& long < 16 ==> r == Err::<AtomModel, Seq<char>>(
                    "Invalid MP4/QuickTime atom size."@,
                )
                &&& long >= 16 && at + long > u64::MAX ==> r == Err::<AtomModel, Seq<char>>(
                    "MP4/QuickTime atom size overflow."@,
                )
                &&& long >= 16 && at + long <= u64::MAX && at + long > end ==> r == Err::<
                    AtomModel,
                    Seq<char>,
                >("MP4/QuickTime atom is outside its parent."@)
            }
            &&& n == 1 && at + 16 > bytes.len() ==> r == Err::<AtomModel, Seq<char>>(
                "failed to fill whole buffer"@,
            )
        }),
{
    lemma_big(bytes, at);
    lemma_big(bytes, at + 8);
}

/// The time of a header stands behind its version and flags: four bytes in version 0,
/// eight in version 1. Headers of other versions, and those that are too short, are
/// refused.
pub proof fn times_stand_behind_the_version(bytes: Seq<u8>, start: int, end: int)
    requires
        0 <= start,
        start + 8 <= end,
        end <= bytes.len(),
    ensures
        bytes[start] == 0 ==> mp4::field_at(bytes, start, end) == Ok::<FieldModel, Seq<char>>(
            FieldModel { offset: start + 4, width: 4, original: big4(bytes, start + 4) as u64 },
        ),
        bytes[start] == 1 && start + 12 <= end ==> mp4::field_at(bytes, start, end) == Ok::<
            FieldModel,
            Seq<char>,
        >(FieldModel { offset: start + 4, width: 8, original: big8(bytes, start + 4) as u64 }),
        bytes[start] > 1 ==> mp4::field_at(bytes, start, end) is Err,
{
    lemma_big(bytes, start + 4);
}

/// A movie header holds, one behind the other, the times of creation and of the last
/// change, the number of units in a second and the length in units; in version 1 all
/// but the third of them have eight bytes. Without a creation time it says nothing.
pub proof fn movie_headers_hold_their_times(bytes: Seq<u8>, start: int, end: int)
    requires
        0 <= start,
        end <= bytes.len(),
    ensures
        end - start < 20 ==> mp4::movie_header_at(bytes, start, end) is None,
        end - start >= 20 && bytes[start] == 0 ==> mp4::movie_header_at(bytes, start, end)
            == if big4(bytes, start + 4) == 0 {
            None
        } else {
            Some(
                MovieHeaderTimeInfo {
                    creation_seconds: big4(bytes, start + 4) as u64,
                    modification_seconds: big4(bytes, start + 8) as u64,
                    timescale: big4(bytes, start + 12) as u32,
                    duration: big4(bytes, start + 16) as u64,
                },
            )
        },
        end - start >= 32 && bytes[start] == 1 ==> mp4::movie_header_at(bytes, start, end)
            == if big8(bytes, start + 4) == 0 || big8(bytes, start + 4) > i64::MAX {
            None
        } else {
            Some(
                MovieHeaderTimeInfo {
                    creation_seconds: big8(bytes, start + 4) as u64,
                    modification_seconds: big8(bytes, start + 12) as u64,
                    timescale: big4(bytes, start + 20) as u32,
                    duration: big8(bytes, start + 24) as u64,
                },
            )
        },
        bytes[start] > 1 ==> mp4::movie_header_at(bytes, start, end) is None,
{
    lemma_big(bytes, start + 4);
    lemma_big(bytes, start + 8);
    lemma_big(bytes, start + 12);
    lemma_big(bytes, start + 16);
    lemma_big(bytes, start + 20);
    lemma_big(bytes, start + 24);
}

/// A track's creation time is read in the same way.
pub proof fn track_headers_hold_their_time(bytes: Seq<u8>, start: int, end: int)
    requires
        0 <= start,
        start + 12 <= end,
        end <= bytes.len(),
    ensures
        bytes[start] == 1 ==> mp4::creation_seconds_at(bytes, start, end) == Ok::<
            Option<u64>,
            Seq<char>,
        >(
            if big8(bytes, start + 4) == 0 || big8(bytes, start + 4) > i64::MAX {
                None
            } else {
                Some(big8(bytes, start + 4) as u64)
            },
        ),
        bytes[start] != 1 ==> mp4::creation_seconds_at(bytes, start, end) == Ok::<
            Option<u64>,
            Seq<char>,
        >(
            if big4(bytes, start + 4) == 0 {
                None
            } else {
                Some(big4(bytes, start + 4) as u64)
            },
        ),
{
    lemma_big(bytes, start + 4);
}

/// The first `moov` atom of a file is its movie; the atoms before it are passed over.
pub proof fn the_first_movie_counts(bytes: Seq<u8>, at: int, typed: bool)
    requires
        0 <= at,
        at + 8 <= bytes.len(),
        mp4::atom_at(bytes, at, bytes.len() as int) is Ok,
    ensures
        ({
            let atom = mp4::atom_at(bytes, at, bytes.len() as int)->Ok_0;
            &&& letters_at(bytes, at + 4, 'm', 'o', 'o', 'v') ==> mp4::movie_from(bytes, at, typed)
                == Ok::<(Option<AtomModel>, bool), Seq<char>>((Some(atom), typed))
            &&& letters_at(bytes, at + 4, 'f', 't', 'y', 'p') ==> mp4::movie_from(bytes, at, typed)
                == mp4::movie_from(bytes, atom.end, true)
            &&& !letters_at(bytes, at + 4, 'm', 'o', 'o', 'v') && !letters_at(
                bytes,
                at + 4,
                'f',
                't',
                'y',
                'p',
            ) ==> mp4::movie_from(bytes, at, typed) == mp4::movie_from(bytes, atom.end, typed)
        }),
{
    atoms_are_told_by_their_letters(bytes, at);
}

/// The fields of the atoms of a movie are those of its headers, in their order, with
/// those of the atoms in `trak` and `mdia` atoms, up to eight levels down.
pub proof fn fields_are_those_of_the_headers(bytes: Seq<u8>, at: int, end: int, depth: int)
    requires
        0 <= at,
        at + 8 <= end,
        end <= bytes.len(),
        0 <= depth,
        mp4::atom_at(bytes, at, end) is Ok,
    ensures
        depth > 8 ==> mp4::fields_from(bytes, at, end, depth) == Ok::<Seq<FieldModel>, Seq<char>>(
            Seq::empty(),
        ),
        depth <= 8 ==> {
            let atom = mp4::atom_at(bytes, at, end)->Ok_0;
            let rest = mp4::fields_from(bytes, atom.end, end, depth);
            let all = mp4::fields_from(bytes, at, end, depth);
            let header = letters_at(bytes, at + 4, 'm', 'v', 'h', 'd') || letters_at(
                bytes,
                at + 4,
                't',
                'k',
                'h',
                'd',
            ) || letters_at(bytes, at + 4, 'm', 'd', 'h', 'd');
            let holder = letters_at(bytes, at + 4, 't', 'r', 'a', 'k') || letters_at(
                bytes,
                at + 4,
                'm',
                'd',
                'i',
                'a',
            );
            &&& header && rest is Ok && mp4::field_at(bytes, atom.payload, atom.end) is Ok ==> all
                == Ok::<Seq<FieldModel>, Seq<char>>(
                seq![mp4::field_at(bytes, atom.payload, atom.end)->Ok_0] + rest->Ok_0,
            )
            &&& holder && rest is Ok && mp4::fields_from(
                bytes,
                atom.payload,
                atom.end,
                depth + 1,
            ) is Ok ==> all == Ok::<Seq<FieldModel>, Seq<char>>(
                mp4::fields_from(bytes, atom.payload, atom.end, depth + 1)->Ok_0 + rest->Ok_0,
            )
            &&& !header && !holder ==> all is Ok == rest is Ok && (rest is Ok ==> all->Ok_0
                == rest->Ok_0)
        },
{
    if depth <= 8 {
        atoms_are_told_by_their_letters(bytes, at);
        let atom = mp4::atom_at(bytes, at, end)->Ok_0;
        if mp4::fields_from(bytes, atom.end, end, depth) is Ok {
            let v = mp4::fields_from(bytes, atom.end, end, depth)->Ok_0;
            assert(Seq::<FieldModel>::empty() + v =~= v);
        }
    }
}

/// The creation time of a movie is that of its own header, and where this says
/// nothing, that of a track.
pub proof fn the_movie_header_counts_first(s: Mp4Summary)
    ensures
        s.movie_header matches Some(h) ==> mp4::creation_of(s) == Some(h.creation_seconds),
        s.movie_header is None ==> mp4::creation_of(s) == s.fallback_creation_seconds,
{
}

// Writing.

/// A time is written with its high byte first, in as many bytes as its field has.
pub proof fn times_are_written_with_the_high_byte_first(value: u64)
    ensures
        mp4::field_bytes(8, value).len() == 8,
        big8(mp4::field_bytes(8, value), 0) == value,
        mp4::field_bytes(4, value).len() == 4,
        value <= u32::MAX ==> big4(mp4::field_bytes(4, value), 0) == value,
{
    let low = (value % 0x1_0000_0000) as u32;
    let high = (value / 0x1_0000_0000) as u32;
    binary::u32_bytes_read_back(low, binary::Endian::Big);
    binary::u32_bytes_read_back(high, binary::Endian::Big);
    let a = binary::u32_bytes(high, binary::Endian::Big);
    let b = binary::u32_bytes(low, binary::Endian::Big);
    exif_field_laws::numbers_are_read_in_their_byte_order(a, 0, false);
    exif_field_laws::numbers_are_read_in_their_byte_order(b, 0, false);
    let c = a + b;
    assert(c[0] == a[0] && c[1] == a[1] && c[2] == a[2] && c[3] == a[3]);
    assert(c[4] == b[0] && c[5] == b[1] && c[6] == b[2] && c[7] == b[3]);
    assert(value == (value / 0x1_0000_0000) * 0x1_0000_0000 + value % 0x1_0000_0000);
    assert(big4(a, 0) == high && big4(b, 0) == low);
    assert(big4(c, 0) == high && big4(c, 4) == low);
}

/// A date is written to all fields of a movie or to none: to none where the movie has
/// no field, or where one of four bytes is too narrow for it.
pub proof fn dates_are_written_where_they_fit(bytes: Seq<u8>, untyped: bool, seconds: u64, i: int)
    requires
        mp4::file_fields(bytes, untyped) is Ok,
    ensures
        ({
            let fields = mp4::file_fields(bytes, untyped)->Ok_0;
            let r = mp4::media_date_written(bytes, untyped, seconds);
            &&& fields.len() == 0 ==> r == Err::<Seq<u8>, Seq<char>>(
                "No writable ISO media creation time field was found."@,
            )
            &&& 0 <= i < fields.len() && fields[i].width == 4 && seconds > 4294967295 ==> r
                == Err::<Seq<u8>, Seq<char>>(
                "Media Date is outside the range of an existing version 0 date field."@,
            )
            &&& fields.len() > 0 && seconds <= 4294967295 ==> r is Ok
        }),
{
}

// What times stand for.

/// The start of 1904, in UTC.
pub open spec fn start_of_1904() -> Moment {
    Moment { year: 1904, month: 1, day: 1, hour: 0, minute: 0, second: 0, nano: 0 }
}

/// Movies count the seconds from the start of 1904: every later moment is stored as
/// its distance from there, and is found again from it.
pub proof fn movies_count_from_1904(m: Moment, t: i64)
    requires
        datetime::valid_moment(m),
        t == datetime::timestamp(m),
    ensures
        ({
            let q = datetime::timestamp(m) - datetime::timestamp(start_of_1904());
            &&& q > 0 ==> mp4::quicktime_of(t) == Ok::<u64, Seq<char>>(q as u64)
                && mp4::unix_of(q as u64) == datetime::timestamp(m)
            &&& q <= 0 ==> mp4::quicktime_of(t) == Err::<u64, Seq<char>>(
                "Media Date is outside the QuickTime time range."@,
            )
        }),
{
    crate::calendar::moments_are_supported(m);
    assert(datetime::days_before_month(1904, 1) == 0);
    assert(datetime::timestamp(start_of_1904()) == -2082844800) by {
        assert(datetime::day_number(1904, 1, 1) == 365 * 1903int + 1903int / 4 - 1903int / 100
            + 1903int / 400 + 1);
    }
}

/// The seconds between two moments, whichever is the earlier one.
pub open spec fn apart(a: Moment, b: Moment) -> int {
    if datetime::timestamp(a) >= datetime::timestamp(b) {
        datetime::timestamp(a) - datetime::timestamp(b)
    } else {
        datetime::timestamp(b) - datetime::timestamp(a)
    }
}

proof fn lemma_span(a: Moment, b: Moment)
    requires
        a.nano == 0,
        b.nano == 0,
    ensures
        mp4::span(a, b) == datetime::timestamp(b) - datetime::timestamp(a),
        mp4::distance(mp4::span(a, b), 0) == apart(a, b),
{
}

/// A camera wrote its local time if the movie's time of change, read as local time, is
/// within five minutes of the file's, and, read as UTC, an hour or more away from it,
/// and if its times are about as far apart as the movie is long.
pub proof fn local_times_are_told_by_the_file(
    creation: Moment,
    raw: Moment,
    standard: Moment,
    file: Moment,
    length: Option<(u64, u32)>,
)
    requires
        creation.nano == 0,
        raw.nano == 0,
        standard.nano == 0,
        file.nano == 0,
    ensures
        ({
            let fits = match length {
                None => true,
                Some((units, scale)) => {
                    let recorded = (datetime::timestamp(raw) - datetime::timestamp(creation))
                        * scale;
                    -300 * scale <= recorded - units <= 300 * scale
                },
            };
            mp4::camera_local(creation, raw, standard, file, length) == (fits && apart(raw, file)
                <= 300 && apart(standard, file) >= 3600)
        }),
{
    lemma_span(raw, file);
    lemma_span(standard, file);
    lemma_span(creation, raw);
}

/// Without a movie header, without its time of change or without the file's time, the
/// time is taken as UTC.
pub proof fn incomplete_times_are_utc(
    raw: Moment,
    header: Option<MovieHeaderTimeInfo>,
    modified: Option<Moment>,
    local: LocalTimes,
)
    requires
        header is None || modified is None || local.modification is None || local.file_modified
            is None,
    ensures
        !mp4::read_as_local(raw, header, modified, local),
{
}

/// The first time in a header of a track or of its media stands in for that of the movie;
/// the header of the movie leaves it alone, and later headers do too.
pub proof fn the_first_track_time_stands_in(
    bytes: Seq<u8>,
    atom: AtomModel,
    s: Mp4Summary,
    seconds: u64,
)
    ensures
        atom.kind == mp4::mvhd() ==> mp4::header_noted(bytes, atom, s) == Ok::<
            Mp4Summary,
            Seq<char>,
        >(
            Mp4Summary {
                has_metadata: true,
                fallback_creation_seconds: s.fallback_creation_seconds,
                movie_header: mp4::movie_header_at(bytes, atom.payload, atom.end),
            },
        ),
        atom.kind != mp4::mvhd() && s.fallback_creation_seconds == Some(seconds)
            ==> mp4::header_noted(bytes, atom, s) == Ok::<Mp4Summary, Seq<char>>(
            Mp4Summary {
                has_metadata: true,
                fallback_creation_seconds: Some(seconds),
                movie_header: s.movie_header,
            },
        ),
        atom.kind != mp4::mvhd() && s.fallback_creation_seconds is None && mp4::creation_seconds_at(
            bytes,
            atom.payload,
            atom.end,
        ) == Ok::<Option<u64>, Seq<char>>(Some(seconds)) ==> mp4::header_noted(bytes, atom, s)
            == Ok::<Mp4Summary, Seq<char>>(
            Mp4Summary {
                has_metadata: true,
                fallback_creation_seconds: Some(seconds),
                movie_header: s.movie_header,
            },
        ),
{
}

/// A movie of QuickTime begins with one of seven atoms.
pub proof fn quicktime_movies_are_told_by_their_first_atom(bytes: Seq<u8>)
    requires
        bytes.len() >= 8,
    ensures
        mp4::quicktime_start(bytes) <==> {
            ||| letters_at(bytes, 4, 'f', 't', 'y', 'p')
            ||| letters_at(bytes, 4, 'm', 'o', 'o', 'v')
            ||| letters_at(bytes, 4, 'm', 'd', 'a', 't')
            ||| letters_at(bytes, 4, 'w', 'i', 'd', 'e')
            ||| letters_at(bytes, 4, 'f', 'r', 'e', 'e')
            ||| letters_at(bytes, 4, 's', 'k', 'i', 'p')
            ||| letters_at(bytes, 4, 'p', 'n', 'o', 't')
        },
{
    let k = mp4::kind_of(bytes, 0);
    assert(k[0] == bytes[4] && k[1] == bytes[5] && k[2] == bytes[6] && k[3] == bytes[7]);
    lemma_four(k, mp4::ftyp());
    lemma_four(k, mp4::moov());
    lemma_four(k, seq![0x6du8, 0x64, 0x61, 0x74]);
    lemma_four(k, seq![0x77u8, 0x69, 0x64, 0x65]);
    lemma_four(k, seq![0x66u8, 0x72, 0x65, 0x65]);
    lemma_four(k, seq![0x73u8, 0x6b, 0x69, 0x70]);
    lemma_four(k, seq![0x70u8, 0x6e, 0x6f, 0x74]);
}

/// The length of a movie is its duration in units of its scale, where it has one.
pub proof fn movies_are_as_long_as_their_header_says(h: MovieHeaderTimeInfo)
    ensures
        h.timescale > 0 ==> h.length() == Some((h.duration, h.timescale)),
        h.timescale == 0 ==> h.length() is None,
{
}

} // verus!
