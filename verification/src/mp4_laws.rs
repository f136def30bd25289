//! What holds of a movie file once its creation times were written or restored.
use crate::binary::{self, Endian};
use crate::mp4::{self, AtomModel, FieldModel, Mp4Summary};
use vstd::prelude::*;

verus! {

proof fn lemma_u32_of_bytes(bytes: Seq<u8>, at: int)
    requires
        0 <= at,
        at + 4 <= bytes.len(),
    ensures
        binary::u32_bytes(mp4::be32(bytes, at), Endian::Big) == bytes.subrange(at, at + 4),
{
    reveal(binary::u32_bytes);
    let a = bytes[at] as int;
    let b = bytes[at + 1] as int;
    let c = bytes[at + 2] as int;
    let d = bytes[at + 3] as int;
    let v = mp4::be32(bytes, at) as int;
    assert(v == a * 16777216 + b * 65536 + c * 256 + d);
    assert(v % 256 == d);
    assert((v / 256) % 256 == c);
    assert((v / 65536) % 256 == b);
    assert((v / 16777216) % 256 == a);
    assert(binary::u32_bytes(mp4::be32(bytes, at), Endian::Big) =~= bytes.subrange(at, at + 4));
}

/// The field holds what stands at its place.
pub open spec fn reads(bytes: Seq<u8>, f: FieldModel) -> bool {
    &&& 0 <= f.offset
    &&& f.offset + f.width <= bytes.len()
    &&& f.width == 4 ==> f.original == mp4::be32(bytes, f.offset)
    &&& f.width == 8 ==> f.original == mp4::be64(bytes, f.offset)
    &&& f.width == 4 || f.width == 8
}

pub open spec fn all_read(bytes: Seq<u8>, fields: Seq<FieldModel>) -> bool {
    forall|i: int| 0 <= i < fields.len() ==> reads(bytes, #[trigger] fields[i])
}

proof fn lemma_own_bytes(bytes: Seq<u8>, f: FieldModel)
    requires
        reads(bytes, f),
    ensures
        mp4::field_bytes(f.width, f.original) == bytes.subrange(f.offset, f.offset + f.width),
{
    lemma_u32_of_bytes(bytes, f.offset);
    if f.width == 8 {
        lemma_u32_of_bytes(bytes, f.offset + 4);
        let h = mp4::be32(bytes, f.offset);
        let l = mp4::be32(bytes, f.offset + 4);
        assert(f.original == h * 0x1_0000_0000 + l);
        assert(f.original / 0x1_0000_0000 == h as u64);
        assert(f.original % 0x1_0000_0000 == l as u64);
        assert(mp4::field_bytes(8, f.original) =~= bytes.subrange(f.offset, f.offset + 8));
    } else {
        assert(f.original % 0x1_0000_0000 == f.original);
    }
}

proof fn lemma_field_bytes_len(width: int, value: u64)
    requires
        width == 4 || width == 8,
    ensures
        mp4::field_bytes(width, value).len() == width,
{
    binary::u32_bytes_read_back((value % 0x1_0000_0000) as u32, Endian::Big);
    binary::u32_bytes_read_back((value / 0x1_0000_0000) as u32, Endian::Big);
}

/// A byte lies in the place of one of the fields.
pub open spec fn in_some_field(fields: Seq<FieldModel>, i: int) -> bool {
    exists|k: int|
        0 <= k < fields.len() && (#[trigger] fields[k]).offset <= i < fields[k].offset
            + fields[k].width
}

proof fn lemma_in_field(fields: Seq<FieldModel>, i: int)
    requires
        fields.len() > 0,
    ensures
        in_some_field(fields, i) == (in_some_field(fields.drop_last(), i) || (fields.last().offset
            <= i < fields.last().offset + fields.last().width)),
{
    let before = fields.drop_last();
    if in_some_field(fields, i) {
        let k = choose|k: int|
            0 <= k < fields.len() && (#[trigger] fields[k]).offset <= i < fields[k].offset
                + fields[k].width;
        if k < before.len() {
            assert(before[k] == fields[k]);
        }
    }
    if in_some_field(before, i) {
        let k = choose|k: int|
            0 <= k < before.len() && (#[trigger] before[k]).offset <= i < before[k].offset
                + before[k].width;
        assert(fields[k] == before[k]);
    }
    if fields.last().offset <= i < fields.last().offset + fields.last().width {
        assert(fields[fields.len() - 1] == fields.last());
    }
}

proof fn lemma_within_before(fields: Seq<FieldModel>, len: int)
    requires
        mp4::fields_within(fields, len),
        fields.len() > 0,
    ensures
        mp4::fields_within(fields.drop_last(), len),
        fields.last() == fields[fields.len() - 1],
{
    let before = fields.drop_last();
    assert forall|i: int| 0 <= i < before.len() implies {
        let f = #[trigger] before[i];
        &&& 0 <= f.offset
        &&& f.width == 4 || f.width == 8
        &&& f.offset + f.width <= len
        &&& f.width == 4 ==> f.original <= u32::MAX
    } by {
        assert(before[i] == fields[i]);
    }
}

/// Writing creation times changes nothing but the fields, and the length stays.
pub proof fn writing_times_changes_fields_only(bytes: Seq<u8>, fields: Seq<FieldModel>, value: u64)
    requires
        mp4::fields_within(fields, bytes.len() as int),
    ensures
        mp4::times_written(bytes, fields, value).len() == bytes.len(),
        forall|i: int|
            0 <= i < bytes.len() && !in_some_field(fields, i) ==> #[trigger] mp4::times_written(
                bytes,
                fields,
                value,
            )[i] == bytes[i],
    decreases fields.len(),
{
    if fields.len() > 0 {
        let before = fields.drop_last();
        let f = fields.last();
        lemma_within_before(fields, bytes.len() as int);
        writing_times_changes_fields_only(bytes, before, value);
        lemma_field_bytes_len(f.width, value);
        assert forall|i: int|
            0 <= i < bytes.len() && !in_some_field(fields, i) implies #[trigger] mp4::times_written(
            bytes,
            fields,
            value,
        )[i] == bytes[i] by {
            lemma_in_field(fields, i);
        }
    }
}

proof fn lemma_restored(bytes: Seq<u8>, other: Seq<u8>, fields: Seq<FieldModel>)
    requires
        other.len() == bytes.len(),
        mp4::fields_within(fields, bytes.len() as int),
        all_read(bytes, fields),
    ensures
        mp4::times_restored(other, fields).len() == bytes.len(),
        forall|i: int|
            0 <= i < bytes.len() ==> #[trigger] mp4::times_restored(other, fields)[i]
                == if in_some_field(fields, i) {
                bytes[i]
            } else {
                other[i]
            },
    decreases fields.len(),
{
    if fields.len() > 0 {
        let before = fields.drop_last();
        let f = fields.last();
        lemma_within_before(fields, bytes.len() as int);
        assert(all_read(bytes, before)) by {
            assert forall|i: int| 0 <= i < before.len() implies reads(bytes, #[trigger] before[i]) by {
                assert(before[i] == fields[i]);
            }
        }
        lemma_restored(bytes, other, before);
        assert(reads(bytes, fields[fields.len() - 1]));
        lemma_own_bytes(bytes, f);
        lemma_field_bytes_len(f.width, f.original);
        let own = mp4::field_bytes(f.width, f.original);
        assert forall|i: int| 0 <= i < bytes.len() implies #[trigger] mp4::times_restored(
            other,
            fields,
        )[i] == if in_some_field(fields, i) {
            bytes[i]
        } else {
            other[i]
        } by {
            lemma_in_field(fields, i);
            if f.offset <= i < f.offset + f.width {
                assert(mp4::times_restored(other, fields)[i] == own[i - f.offset]);
                assert(own[i - f.offset] == bytes.subrange(f.offset, f.offset + f.width)[i
                    - f.offset]);
            }
        }
    } else {
        assert forall|i: int| 0 <= i < bytes.len() implies !in_some_field(fields, i) by {}
    }
}

proof fn lemma_fields_read(bytes: Seq<u8>, at: int, end: int, depth: int)
    requires
        0 <= at,
        end <= bytes.len(),
        mp4::fields_from(bytes, at, end, depth) is Ok,
    ensures
        all_read(bytes, mp4::fields_from(bytes, at, end, depth)->Ok_0),
    decreases 9 - depth, end - at,
{
    if !(depth > 8 || depth < 0 || at + 8 > end) {
        let atom = mp4::atom_at(bytes, at, end)->Ok_0;
        let own = own_fields(bytes, atom, depth);
        let rest = mp4::fields_from(bytes, atom.end, end, depth)->Ok_0;
        if mp4::is_container_kind(atom.kind) && !mp4::is_header_kind(atom.kind) {
            lemma_fields_read(bytes, atom.payload, atom.end, depth + 1);
        }
        lemma_fields_read(bytes, atom.end, end, depth);
        let all = mp4::fields_from(bytes, at, end, depth)->Ok_0;
        assert(all == own + rest);
        assert forall|i: int| 0 <= i < all.len() implies reads(bytes, #[trigger] all[i]) by {
            if i < own.len() {
                assert(all[i] == own[i]);
            } else {
                assert(all[i] == rest[i - own.len()]);
            }
        }
    }
}

/// The fields of one atom.
pub open spec fn own_fields(bytes: Seq<u8>, atom: AtomModel, depth: int) -> Seq<FieldModel> {
    if mp4::is_header_kind(atom.kind) {
        seq![mp4::field_at(bytes, atom.payload, atom.end)->Ok_0]
    } else if mp4::is_container_kind(atom.kind) {
        mp4::fields_from(bytes, atom.payload, atom.end, depth + 1)->Ok_0
    } else {
        Seq::empty()
    }
}

/// Putting the old values back undoes the writing of a date: the file is what
/// it was, byte for byte.
pub proof fn restoring_undoes_writing(bytes: Seq<u8>, allow_untyped: bool, value: u64)
    requires
        mp4::file_fields(bytes, allow_untyped) is Ok,
    ensures
        ({
            let fields = mp4::file_fields(bytes, allow_untyped)->Ok_0;
            mp4::times_restored(mp4::times_written(bytes, fields, value), fields) == bytes
        }),
{
    let fields = mp4::file_fields(bytes, allow_untyped)->Ok_0;
    mp4::lemma_file_fields_within(bytes, allow_untyped);
    mp4::lemma_movie_bounds(bytes, 0, false);
    match mp4::movie_from(bytes, 0, false) {
        Ok((Some(atom), _)) => lemma_fields_read(bytes, atom.payload, atom.end, 0),
        _ => {},
    }
    let written = mp4::times_written(bytes, fields, value);
    writing_times_changes_fields_only(bytes, fields, value);
    lemma_restored(bytes, written, fields);
    assert(mp4::times_restored(written, fields) =~= bytes);
}

// Reading a date that was written.

/// The fields with another value in each.
pub open spec fn revalued(fields: Seq<FieldModel>, value: u64) -> Seq<FieldModel> {
    Seq::new(
        fields.len(),
        |i: int|
            FieldModel {
                offset: fields[i].offset,
                width: fields[i].width,
                original: value,
            },
    )
}

/// Two files agree from one position to another but for some fields, which
/// hold a value in the second.
pub open spec fn agree_but_fields(
    a: Seq<u8>,
    b: Seq<u8>,
    from: int,
    to: int,
    fields: Seq<FieldModel>,
    value: u64,
) -> bool {
    &&& a.len() == b.len()
    &&& forall|i: int|
        from <= i < to && 0 <= i < a.len() && !in_some_field(fields, i) ==> #[trigger] b[i] == a[i]
    &&& forall|k: int| 0 <= k < fields.len() ==> holds_value(b, #[trigger] fields[k], value)
}

pub open spec fn holds_value(b: Seq<u8>, f: FieldModel, value: u64) -> bool {
    &&& f.width == 4 ==> mp4::be32(b, f.offset) == value
    &&& f.width == 8 ==> mp4::be64(b, f.offset) == value
}

proof fn lemma_same_atom(
    a: Seq<u8>,
    b: Seq<u8>,
    at: int,
    end: int,
    fields: Seq<FieldModel>,
    value: u64,
)
    requires
        0 <= at,
        at + 8 <= end <= a.len(),
        mp4::atom_at(a, at, end) is Ok,
        agree_but_fields(a, b, at, end, fields, value),
        forall|i: int|
            0 <= i < fields.len() ==> at + 12 <= (#[trigger] fields[i]).offset && mp4::atom_at(
                a,
                at,
                end,
            )->Ok_0.payload + 4 <= fields[i].offset,
    ensures
        mp4::atom_at(b, at, end) == mp4::atom_at(a, at, end),
        forall|i: int|
            at <= i < mp4::atom_at(a, at, end)->Ok_0.payload + 4 && i < end ==> #[trigger] b[i]
                == a[i],
{
    let atom = mp4::atom_at(a, at, end)->Ok_0;
    assert forall|i: int| at <= i < atom.payload + 4 && i < end implies #[trigger] b[i] == a[i] by {
        if in_some_field(fields, i) {
            let k = choose|k: int|
                0 <= k < fields.len() && (#[trigger] fields[k]).offset <= i < fields[k].offset
                    + fields[k].width;
            assert(atom.payload + 4 <= fields[k].offset);
        }
    }
    assert(b[at] == a[at] && b[at + 1] == a[at + 1] && b[at + 2] == a[at + 2] && b[at + 3] == a[at
        + 3]);
    assert(mp4::kind_of(b, at) =~= mp4::kind_of(a, at));
    if mp4::be32(a, at) == 1 {
        assert(b[at + 8] == a[at + 8] && b[at + 9] == a[at + 9] && b[at + 10] == a[at + 10] && b[at
            + 11] == a[at + 11]);
        assert(b[at + 12] == a[at + 12] && b[at + 13] == a[at + 13] && b[at + 14] == a[at + 14]
            && b[at + 15] == a[at + 15]);
    }
}

proof fn lemma_part_agrees(
    a: Seq<u8>,
    b: Seq<u8>,
    from: int,
    to: int,
    own: Seq<FieldModel>,
    rest: Seq<FieldModel>,
    value: u64,
    lo: int,
    hi: int,
    first: bool,
)
    requires
        agree_but_fields(a, b, from, to, own + rest, value),
        from <= lo,
        hi <= to,
        first ==> forall|i: int| 0 <= i < rest.len() ==> hi <= (#[trigger] rest[i]).offset,
        !first ==> forall|i: int|
            0 <= i < own.len() ==> (#[trigger] own[i]).offset + own[i].width <= lo,
    ensures
        agree_but_fields(
            a,
            b,
            lo,
            hi,
            if first {
                own
            } else {
                rest
            },
            value,
        ),
{
    let all = own + rest;
    let part = if first {
        own
    } else {
        rest
    };
    assert forall|i: int|
        lo <= i < hi && 0 <= i < a.len() && !in_some_field(part, i) implies #[trigger] b[i]
        == a[i] by {
        if in_some_field(all, i) {
            let k = choose|k: int|
                0 <= k < all.len() && (#[trigger] all[k]).offset <= i < all[k].offset
                    + all[k].width;
            if k < own.len() {
                assert(all[k] == own[k]);
                if first {
                    assert(in_some_field(part, i));
                }
            } else {
                assert(all[k] == rest[k - own.len()]);
                if !first {
                    assert(in_some_field(part, i));
                }
            }
        }
    }
    assert forall|k: int| 0 <= k < part.len() implies holds_value(b, #[trigger] part[k], value) by {
        if first {
            assert(all[k] == part[k]);
        } else {
            assert(all[own.len() + k] == part[k]);
        }
    }
}

proof fn lemma_reread(a: Seq<u8>, b: Seq<u8>, at: int, end: int, depth: int, value: u64)
    requires
        0 <= at,
        end <= a.len(),
        mp4::fields_from(a, at, end, depth) is Ok,
        agree_but_fields(a, b, at, end, mp4::fields_from(a, at, end, depth)->Ok_0, value),
    ensures
        mp4::fields_from(b, at, end, depth) == Ok::<Seq<FieldModel>, Seq<char>>(
            revalued(mp4::fields_from(a, at, end, depth)->Ok_0, value),
        ),
    decreases 9 - depth, end - at,
{
    let all = mp4::fields_from(a, at, end, depth)->Ok_0;
    if depth > 8 || depth < 0 || at + 8 > end {
        assert(revalued(all, value) =~= Seq::<FieldModel>::empty());
    } else {
        let atom = mp4::atom_at(a, at, end)->Ok_0;
        let own = own_fields(a, atom, depth);
        let rest = mp4::fields_from(a, atom.end, end, depth)->Ok_0;
        assert(all == own + rest);
        lemma_own_bounds(a, atom, depth);
        mp4::lemma_fields_within(a, atom.end, end, depth);
        assert forall|i: int| 0 <= i < all.len() implies at + 12 <= (#[trigger] all[i]).offset
            && atom.payload + 4 <= all[i].offset by {
            if i < own.len() {
                assert(all[i] == own[i]);
            } else {
                assert(all[i] == rest[i - own.len()]);
            }
        }
        lemma_same_atom(a, b, at, end, all, value);
        lemma_part_agrees(a, b, at, end, own, rest, value, atom.payload, atom.end, true);
        lemma_part_agrees(a, b, at, end, own, rest, value, atom.end, end, false);
        lemma_reread(a, b, atom.end, end, depth, value);
        assert(revalued(all, value) =~= revalued(own, value) + revalued(rest, value));
        if mp4::is_header_kind(atom.kind) {
            let f = mp4::field_at(a, atom.payload, atom.end)->Ok_0;
            assert(own[0] == f);
            assert(holds_value(b, own[0], value));
            assert(b[atom.payload] == a[atom.payload]);
            assert(mp4::field_at(b, atom.payload, atom.end) == Ok::<FieldModel, Seq<char>>(
                revalued(own, value)[0],
            ));
            assert(revalued(own, value) =~= seq![revalued(own, value)[0]]);
        } else if mp4::is_container_kind(atom.kind) {
            lemma_reread(a, b, atom.payload, atom.end, depth + 1, value);
        } else {
            assert(revalued(own, value) =~= Seq::<FieldModel>::empty());
        }
    }
}

proof fn lemma_own_bounds(a: Seq<u8>, atom: AtomModel, depth: int)
    requires
        0 <= atom.payload <= atom.end <= a.len(),
        mp4::is_header_kind(atom.kind) ==> mp4::field_at(a, atom.payload, atom.end) is Ok,
        !mp4::is_header_kind(atom.kind) && mp4::is_container_kind(atom.kind) ==> mp4::fields_from(
            a,
            atom.payload,
            atom.end,
            depth + 1,
        ) is Ok,
    ensures
        forall|i: int|
            0 <= i < own_fields(a, atom, depth).len() ==> {
                let f = #[trigger] own_fields(a, atom, depth)[i];
                atom.payload + 4 <= f.offset && f.offset + f.width <= atom.end
            },
{
    if !mp4::is_header_kind(atom.kind) && mp4::is_container_kind(atom.kind) {
        mp4::lemma_fields_within(a, atom.payload, atom.end, depth + 1);
    }
}

proof fn lemma_same_movie(a: Seq<u8>, b: Seq<u8>, at: int, typed: bool)
    requires
        0 <= at,
        a.len() == b.len(),
        mp4::movie_from(a, at, typed) matches Ok((Some(atom), _)) && forall|i: int|
            0 <= i < atom.payload ==> #[trigger] b[i] == a[i],
    ensures
        mp4::movie_from(b, at, typed) == mp4::movie_from(a, at, typed),
    decreases a.len() - at,
{
    mp4::lemma_movie_bounds(a, at, typed);
    let movie = (mp4::movie_from(a, at, typed)->Ok_0).0->0;
    let atom = mp4::atom_at(a, at, a.len() as int)->Ok_0;
    if atom.kind != mp4::moov() {
        mp4::lemma_movie_bounds(a, atom.end, typed || atom.kind == mp4::ftyp());
    }
    assert(atom.payload <= movie.payload);
    assert(b[at] == a[at] && b[at + 1] == a[at + 1] && b[at + 2] == a[at + 2] && b[at + 3] == a[at
        + 3]);
    assert(mp4::kind_of(b, at) =~= mp4::kind_of(a, at));
    if mp4::be32(a, at) == 1 {
        assert(b[at + 8] == a[at + 8] && b[at + 9] == a[at + 9] && b[at + 10] == a[at + 10] && b[at
            + 11] == a[at + 11]);
        assert(b[at + 12] == a[at + 12] && b[at + 13] == a[at + 13] && b[at + 14] == a[at + 14]
            && b[at + 15] == a[at + 15]);
    }
    assert(mp4::atom_at(b, at, b.len() as int) == mp4::atom_at(a, at, a.len() as int));
    if atom.kind != mp4::moov() {
        lemma_same_movie(a, b, atom.end, typed || atom.kind == mp4::ftyp());
    }
}

/// No two fields share a byte.
pub open spec fn fields_apart(fields: Seq<FieldModel>) -> bool {
    forall|i: int, j: int|
        0 <= i < j < fields.len() ==> (#[trigger] fields[i]).offset + fields[i].width <= (
        #[trigger] fields[j]).offset
}

proof fn lemma_fields_apart(bytes: Seq<u8>, at: int, end: int, depth: int)
    requires
        0 <= at,
        end <= bytes.len(),
        mp4::fields_from(bytes, at, end, depth) is Ok,
    ensures
        fields_apart(mp4::fields_from(bytes, at, end, depth)->Ok_0),
    decreases 9 - depth, end - at,
{
    if !(depth > 8 || depth < 0 || at + 8 > end) {
        let atom = mp4::atom_at(bytes, at, end)->Ok_0;
        let own = own_fields(bytes, atom, depth);
        let rest = mp4::fields_from(bytes, atom.end, end, depth)->Ok_0;
        let all = mp4::fields_from(bytes, at, end, depth)->Ok_0;
        assert(all == own + rest);
        lemma_own_bounds(bytes, atom, depth);
        mp4::lemma_fields_within(bytes, atom.end, end, depth);
        if !mp4::is_header_kind(atom.kind) && mp4::is_container_kind(atom.kind) {
            lemma_fields_apart(bytes, atom.payload, atom.end, depth + 1);
        }
        lemma_fields_apart(bytes, atom.end, end, depth);
        assert forall|i: int, j: int| 0 <= i < j < all.len() implies (#[trigger] all[i]).offset
            + all[i].width <= (#[trigger] all[j]).offset by {
            if j < own.len() {
                assert(all[i] == own[i] && all[j] == own[j]);
            } else if i >= own.len() {
                assert(all[i] == rest[i - own.len()] && all[j] == rest[j - own.len()]);
            } else {
                assert(all[i] == own[i] && all[j] == rest[j - own.len()]);
            }
        }
    }
}

proof fn lemma_value_read(b: Seq<u8>, f: FieldModel, value: u64)
    requires
        0 <= f.offset,
        f.width == 4 || f.width == 8,
        f.offset + f.width <= b.len(),
        b.subrange(f.offset, f.offset + f.width) == mp4::field_bytes(f.width, value),
        f.width == 4 ==> value <= u32::MAX,
    ensures
        holds_value(b, f, value),
{
    let h = (value / 0x1_0000_0000) as u32;
    let l = (value % 0x1_0000_0000) as u32;
    binary::u32_bytes_read_back(h, Endian::Big);
    binary::u32_bytes_read_back(l, Endian::Big);
    let s = b.subrange(f.offset, f.offset + f.width);
    assert(forall|i: int| 0 <= i < f.width ==> #[trigger] s[i] == b[f.offset + i]);
    let lb = binary::u32_bytes(l, Endian::Big);
    let hb = binary::u32_bytes(h, Endian::Big);
    if f.width == 4 {
        assert(s[0] == lb[0] && s[1] == lb[1] && s[2] == lb[2] && s[3] == lb[3]);
    } else {
        assert(s[0] == hb[0] && s[1] == hb[1] && s[2] == hb[2] && s[3] == hb[3]);
        assert(s[4] == lb[0] && s[5] == lb[1] && s[6] == lb[2] && s[7] == lb[3]);
        assert(value == h * 0x1_0000_0000 + l);
    }
}

proof fn lemma_values_written(bytes: Seq<u8>, fields: Seq<FieldModel>, value: u64)
    requires
        mp4::fields_within(fields, bytes.len() as int),
        fields_apart(fields),
        forall|i: int| 0 <= i < fields.len() && (#[trigger] fields[i]).width == 4 ==> value <= u32::MAX,
    ensures
        forall|k: int|
            0 <= k < fields.len() ==> holds_value(
                mp4::times_written(bytes, fields, value),
                #[trigger] fields[k],
                value,
            ),
    decreases fields.len(),
{
    if fields.len() > 0 {
        let before = fields.drop_last();
        let f = fields.last();
        lemma_within_before(fields, bytes.len() as int);
        assert(fields_apart(before)) by {
            assert forall|i: int, j: int| 0 <= i < j < before.len() implies (
            #[trigger] before[i]).offset + before[i].width <= (#[trigger] before[j]).offset by {
                assert(before[i] == fields[i] && before[j] == fields[j]);
            }
        }
        assert forall|i: int| 0 <= i < before.len() && (#[trigger] before[i]).width == 4 implies value
            <= u32::MAX by {
            assert(before[i] == fields[i]);
        }
        lemma_values_written(bytes, before, value);
        writing_times_changes_fields_only(bytes, before, value);
        lemma_field_bytes_len(f.width, value);
        let old_bytes = mp4::times_written(bytes, before, value);
        let b = mp4::times_written(bytes, fields, value);
        assert(b.subrange(f.offset, f.offset + f.width) =~= mp4::field_bytes(f.width, value));
        lemma_value_read(b, f, value);
        assert forall|k: int| 0 <= k < fields.len() implies holds_value(
            b,
            #[trigger] fields[k],
            value,
        ) by {
            if k < before.len() {
                assert(before[k] == fields[k]);
                assert(fields[k].offset + fields[k].width <= fields[fields.len() - 1].offset);
                assert(holds_value(old_bytes, before[k], value));
                let o = fields[k].offset;
                assert(0 <= o && (fields[k].width == 4 || fields[k].width == 8));
                assert(forall|i: int| o <= i < o + fields[k].width ==> #[trigger] b[i]
                    == old_bytes[i]);
                assert(b[o] == old_bytes[o] && b[o + 1] == old_bytes[o + 1] && b[o + 2]
                    == old_bytes[o + 2] && b[o + 3] == old_bytes[o + 3]);
                if fields[k].width == 8 {
                    assert(b[o + 4] == old_bytes[o + 4] && b[o + 5] == old_bytes[o + 5] && b[o + 6]
                        == old_bytes[o + 6] && b[o + 7] == old_bytes[o + 7]);
                }
            }
        }
    }
}

/// A header that is long enough for the times of a movie.
pub open spec fn long_header(bytes: Seq<u8>, atom: AtomModel) -> bool {
    atom.end - atom.payload >= 20 && (bytes[atom.payload] == 0 || (bytes[atom.payload] == 1
        && atom.end - atom.payload >= 32))
}

/// Whether a scan meets a header of a track, and whether the last header of the
/// movie is long enough.
pub open spec fn headers_met(bytes: Seq<u8>, at: int, end: int, depth: int, met: (bool, bool)) -> (
    bool,
    bool,
)
    decreases 9 - depth, end - at,
{
    if depth > 8 || depth < 0 || at + 8 > end {
        met
    } else {
        match mp4::atom_at(bytes, at, end) {
            Err(_) => met,
            Ok(atom) => {
                let next = if mp4::is_header_kind(atom.kind) {
                    if atom.kind == mp4::mvhd() {
                        (met.0, long_header(bytes, atom))
                    } else {
                        (true, met.1)
                    }
                } else if mp4::is_container_kind(atom.kind) {
                    headers_met(bytes, atom.payload, atom.end, depth + 1, met)
                } else {
                    met
                };
                headers_met(bytes, atom.end, end, depth, next)
            },
        }
    }
}

/// A file with a header from which a scan takes a creation time.
pub open spec fn has_readable_header(bytes: Seq<u8>) -> bool {
    match mp4::movie_from(bytes, 0, false) {
        Ok((Some(atom), _)) => {
            let met = headers_met(bytes, atom.payload, atom.end, 0, (false, false));
            met.0 || met.1
        },
        _ => false,
    }
}

/// A scan has found a creation time in the headers that it met, and only there.
pub open spec fn found_in(s: Mp4Summary, met: (bool, bool), value: u64) -> bool {
    &&& (s.fallback_creation_seconds is Some) == met.0
    &&& s.fallback_creation_seconds matches Some(v) ==> v == value
    &&& (s.movie_header is Some) == met.1
    &&& s.movie_header matches Some(h) ==> h.creation_seconds == value
    &&& met.0 || met.1 ==> s.has_metadata
}

proof fn lemma_scanned(
    a: Seq<u8>,
    b: Seq<u8>,
    at: int,
    end: int,
    depth: int,
    value: u64,
    s: Mp4Summary,
    met: (bool, bool),
)
    requires
        0 <= at,
        end <= a.len(),
        mp4::fields_from(a, at, end, depth) is Ok,
        agree_but_fields(a, b, at, end, mp4::fields_from(a, at, end, depth)->Ok_0, value),
        mp4::usable_seconds(value),
        found_in(s, met, value),
    ensures
        mp4::scanned_from(b, at, end, depth, s) matches Ok(t) && found_in(
            t,
            headers_met(a, at, end, depth, met),
            value,
        ),
    decreases 9 - depth, end - at,
{
    if !(depth > 8 || depth < 0 || at + 8 > end) {
        let all = mp4::fields_from(a, at, end, depth)->Ok_0;
        let atom = mp4::atom_at(a, at, end)->Ok_0;
        let own = own_fields(a, atom, depth);
        let rest = mp4::fields_from(a, atom.end, end, depth)->Ok_0;
        assert(all == own + rest);
        lemma_own_bounds(a, atom, depth);
        mp4::lemma_fields_within(a, atom.end, end, depth);
        assert forall|i: int| 0 <= i < all.len() implies at + 12 <= (#[trigger] all[i]).offset
            && atom.payload + 4 <= all[i].offset by {
            if i < own.len() {
                assert(all[i] == own[i]);
            } else {
                assert(all[i] == rest[i - own.len()]);
            }
        }
        lemma_same_atom(a, b, at, end, all, value);
        lemma_part_agrees(a, b, at, end, own, rest, value, atom.payload, atom.end, true);
        lemma_part_agrees(a, b, at, end, own, rest, value, atom.end, end, false);
        if mp4::is_header_kind(atom.kind) {
            let f = mp4::field_at(a, atom.payload, atom.end)->Ok_0;
            assert(own[0] == f);
            assert(holds_value(b, own[0], value));
            assert(b[atom.payload] == a[atom.payload]);
            let t = mp4::header_noted(b, atom, s)->Ok_0;
            let next = if atom.kind == mp4::mvhd() {
                (met.0, long_header(a, atom))
            } else {
                (true, met.1)
            };
            assert(mp4::header_noted(b, atom, s) is Ok);
            assert(found_in(t, next, value));
            lemma_scanned(a, b, atom.end, end, depth, value, t, next);
        } else if mp4::is_container_kind(atom.kind) {
            lemma_scanned(a, b, atom.payload, atom.end, depth + 1, value, s, met);
            let t = mp4::scanned_from(b, atom.payload, atom.end, depth + 1, s)->Ok_0;
            let next = headers_met(a, atom.payload, atom.end, depth + 1, met);
            lemma_scanned(a, b, atom.end, end, depth, value, t, next);
        } else {
            lemma_scanned(a, b, atom.end, end, depth, value, s, met);
        }
    }
}

/// The written file agrees with the old one but for the fields, which hold the
/// time.
proof fn lemma_written(bytes: Seq<u8>, allow_untyped: bool, value: u64)
    requires
        mp4::media_date_written(bytes, allow_untyped, value) is Ok,
    ensures
        ({
            let b = mp4::media_date_written(bytes, allow_untyped, value)->Ok_0;
            &&& mp4::movie_from(bytes, 0, false) matches Ok((Some(atom), _))
            &&& mp4::movie_from(b, 0, false) == mp4::movie_from(bytes, 0, false)
            &&& 0 <= atom.payload
            &&& atom.end <= bytes.len()
            &&& mp4::fields_from(bytes, atom.payload, atom.end, 0) is Ok
            &&& agree_but_fields(
                bytes,
                b,
                atom.payload,
                atom.end,
                mp4::fields_from(bytes, atom.payload, atom.end, 0)->Ok_0,
                value,
            )
        }),
{
    let fields = mp4::file_fields(bytes, allow_untyped)->Ok_0;
    let b = mp4::times_written(bytes, fields, value);
    mp4::lemma_file_fields_within(bytes, allow_untyped);
    mp4::lemma_movie_bounds(bytes, 0, false);
    assert(mp4::movie_from(bytes, 0, false) matches Ok((Some(_), _)));
    let atom = (mp4::movie_from(bytes, 0, false)->Ok_0).0->0;
    mp4::lemma_fields_within(bytes, atom.payload, atom.end, 0);
    lemma_fields_apart(bytes, atom.payload, atom.end, 0);
    writing_times_changes_fields_only(bytes, fields, value);
    lemma_values_written(bytes, fields, value);
    assert forall|i: int| 0 <= i < atom.payload implies #[trigger] b[i] == bytes[i] by {
        if in_some_field(fields, i) {
            let k = choose|k: int|
                0 <= k < fields.len() && (#[trigger] fields[k]).offset <= i < fields[k].offset
                    + fields[k].width;
            assert(atom.payload + 12 <= fields[k].offset);
        }
    }
    lemma_same_movie(bytes, b, 0, false);
    assert(agree_but_fields(bytes, b, atom.payload, atom.end, fields, value));
}

/// A scan of a file that a creation time was written to finds that time, wherever
/// the file has a header from which a scan takes one.
pub proof fn written_time_is_scanned(bytes: Seq<u8>, allow_untyped: bool, value: u64)
    requires
        mp4::media_date_written(bytes, allow_untyped, value) is Ok,
        mp4::usable_seconds(value),
        has_readable_header(bytes),
    ensures
        mp4::file_summary(
            mp4::media_date_written(bytes, allow_untyped, value)->Ok_0,
            allow_untyped,
        ) matches Ok(s) && s.has_metadata && mp4::creation_of(s) == Some(value),
{
    let b = mp4::media_date_written(bytes, allow_untyped, value)->Ok_0;
    lemma_written(bytes, allow_untyped, value);
    let atom = (mp4::movie_from(bytes, 0, false)->Ok_0).0->0;
    lemma_scanned(
        bytes,
        b,
        atom.payload,
        atom.end,
        0,
        value,
        mp4::nothing_found(),
        (false, false),
    );
}

/// A file that a creation time was written to has the same fields as before,
/// and each of them holds that time.
pub proof fn written_time_is_in_every_field(bytes: Seq<u8>, allow_untyped: bool, value: u64)
    requires
        mp4::media_date_written(bytes, allow_untyped, value) is Ok,
    ensures
        mp4::file_fields(mp4::media_date_written(bytes, allow_untyped, value)->Ok_0, allow_untyped)
            == Ok::<Seq<FieldModel>, Seq<char>>(
            revalued(mp4::file_fields(bytes, allow_untyped)->Ok_0, value),
        ),
{
    let b = mp4::media_date_written(bytes, allow_untyped, value)->Ok_0;
    lemma_written(bytes, allow_untyped, value);
    let atom = (mp4::movie_from(bytes, 0, false)->Ok_0).0->0;
    lemma_reread(bytes, b, atom.payload, atom.end, 0, value);
}

} // verus!
