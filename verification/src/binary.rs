//! Integers in byte sequences, in either byte order.
use vstd::prelude::*;

verus! {

#[derive(Clone, Copy, Debug, PartialEq, Eq, Structural)]
pub enum Endian {
    Little,
    Big,
}

pub open spec fn u16_of(a: u8, b: u8, endian: Endian) -> u16 {
    match endian {
        Endian::Little => (a + 256 * b) as u16,
        Endian::Big => (b + 256 * a) as u16,
    }
}

pub open spec fn u32_of(a: u8, b: u8, c: u8, d: u8, endian: Endian) -> u32 {
    match endian {
        Endian::Little => (a + 256 * b + 65536 * c + 16777216 * d) as u32,
        Endian::Big => (d + 256 * c + 65536 * b + 16777216 * a) as u32,
    }
}

/// The 16-bit number at a position, if it lies within the data.
pub open spec fn u16_at(data: Seq<u8>, at: int, endian: Endian) -> Option<u16> {
    if 0 <= at && at + 2 <= data.len() {
        Some(u16_of(data[at], data[at + 1], endian))
    } else {
        None
    }
}

/// The 32-bit number at a position, if it lies within the data.
pub open spec fn u32_at(data: Seq<u8>, at: int, endian: Endian) -> Option<u32> {
    if 0 <= at && at + 4 <= data.len() {
        Some(u32_of(data[at], data[at + 1], data[at + 2], data[at + 3], endian))
    } else {
        None
    }
}

/// The two bytes of a number.
#[verifier::opaque]
pub open spec fn u16_bytes(value: u16, endian: Endian) -> Seq<u8> {
    match endian {
        Endian::Little => seq![(value % 256) as u8, (value / 256) as u8],
        Endian::Big => seq![(value / 256) as u8, (value % 256) as u8],
    }
}

/// The four bytes of a number.
#[verifier::opaque]
pub open spec fn u32_bytes(value: u32, endian: Endian) -> Seq<u8> {
    let b0 = (value % 256) as u8;
    let b1 = ((value / 256) % 256) as u8;
    let b2 = ((value / 65536) % 256) as u8;
    let b3 = (value / 16777216) as u8;
    match endian {
        Endian::Little => seq![b0, b1, b2, b3],
        Endian::Big => seq![b3, b2, b1, b0],
    }
}

/// Reading the bytes of a number gives the number back.
pub proof fn u16_bytes_read_back(value: u16, endian: Endian)
    ensures
        u16_at(u16_bytes(value, endian), 0, endian) == Some(value),
        u16_bytes(value, endian).len() == 2,
{
    reveal(u16_bytes);
}

/// Reading the bytes of a number gives the number back.
pub proof fn u32_bytes_read_back(value: u32, endian: Endian)
    ensures
        u32_at(u32_bytes(value, endian), 0, endian) == Some(value),
        u32_bytes(value, endian).len() == 4,
{
    reveal(u32_bytes);
    let v = value as int;
    assert(v == v % 256 + 256 * (v / 256));
    assert(v / 256 == (v / 256) % 256 + 256 * ((v / 256) / 256));
    assert((v / 256) / 256 == v / 65536);
    assert(v / 65536 == (v / 65536) % 256 + 256 * ((v / 65536) / 256));
    assert((v / 65536) / 256 == v / 16777216);
}

/// A number depends on its own bytes only.
pub proof fn lemma_u16_at_frame(a: Seq<u8>, b: Seq<u8>, at: int, shift: int, endian: Endian)
    requires
        0 <= at,
        0 <= at + shift,
        at + 2 <= a.len(),
        at + shift + 2 <= b.len(),
        forall|i: int| at <= i < at + 2 ==> a[i] == #[trigger] b[i + shift],
    ensures
        u16_at(a, at, endian) == u16_at(b, at + shift, endian),
{
    assert(b[at + shift] == a[at]);
    assert(b[(at + 1) + shift] == a[at + 1]);
}

pub proof fn lemma_u32_at_frame(a: Seq<u8>, b: Seq<u8>, at: int, shift: int, endian: Endian)
    requires
        0 <= at,
        0 <= at + shift,
        at + 4 <= a.len(),
        at + shift + 4 <= b.len(),
        forall|i: int| at <= i < at + 4 ==> a[i] == #[trigger] b[i + shift],
    ensures
        u32_at(a, at, endian) == u32_at(b, at + shift, endian),
{
    assert(b[at + shift] == a[at]);
    assert(b[(at + 1) + shift] == a[at + 1]);
    assert(b[(at + 2) + shift] == a[at + 2]);
    assert(b[(at + 3) + shift] == a[at + 3]);
}

pub fn read_u16(data: &[u8], offset: usize, endian: Endian) -> (r: Option<u16>)
    ensures
        r == u16_at(data@, offset as int, endian),
{
    let n: usize = data.len();
    if n < 2 || offset > n - 2 {
        return None;
    }
    let a: u16 = data[offset] as u16;
    let b: u16 = data[offset + 1] as u16;
    match endian {
        Endian::Little => Some(a + 256 * b),
        Endian::Big => Some(b + 256 * a),
    }
}

pub fn read_u32(data: &[u8], offset: usize, endian: Endian) -> (r: Option<u32>)
    ensures
        r == u32_at(data@, offset as int, endian),
{
    let n: usize = data.len();
    if n < 4 || offset > n - 4 {
        return None;
    }
    let a: u32 = data[offset] as u32;
    let b: u32 = data[offset + 1] as u32;
    let c: u32 = data[offset + 2] as u32;
    let d: u32 = data[offset + 3] as u32;
    match endian {
        Endian::Little => Some(a + 256 * b + 65536 * c + 16777216 * d),
        Endian::Big => Some(d + 256 * c + 65536 * b + 16777216 * a),
    }
}

/// Puts bytes behind the data that is there.
pub fn append_bytes(out: &mut Vec<u8>, bytes: &[u8])
    ensures
        final(out)@ == old(out)@ + bytes@,
{
    out.extend_from_slice(bytes);
    assert(out@ =~= old(out)@ + bytes@);
}

pub fn append_u16(out: &mut Vec<u8>, value: u16, endian: Endian)
    ensures
        final(out)@ == old(out)@ + u16_bytes(value, endian),
{
    let low: u8 = (value % 256) as u8;
    let high: u8 = (value / 256) as u8;
    match endian {
        Endian::Little => {
            out.push(low);
            out.push(high);
        },
        Endian::Big => {
            out.push(high);
            out.push(low);
        },
    }
    proof {
        reveal(u16_bytes);
        assert(out@ =~= old(out)@ + u16_bytes(value, endian));
    }
}

pub fn append_u32(out: &mut Vec<u8>, value: u32, endian: Endian)
    ensures
        final(out)@ == old(out)@ + u32_bytes(value, endian),
{
    let b0: u8 = (value % 256) as u8;
    let b1: u8 = ((value / 256) % 256) as u8;
    let b2: u8 = ((value / 65536) % 256) as u8;
    let b3: u8 = (value / 16777216) as u8;
    match endian {
        Endian::Little => {
            out.push(b0);
            out.push(b1);
            out.push(b2);
            out.push(b3);
        },
        Endian::Big => {
            out.push(b3);
            out.push(b2);
            out.push(b1);
            out.push(b0);
        },
    }
    proof {
        reveal(u32_bytes);
        assert(out@ =~= old(out)@ + u32_bytes(value, endian));
    }
}

/// The data with other bytes from a position on, of the same length.
pub open spec fn spliced(data: Seq<u8>, at: int, bytes: Seq<u8>) -> Seq<u8> {
    data.take(at) + bytes + data.skip(at + bytes.len())
}

/// Writes a number over the four bytes at a position.
pub fn write_u32_at(output: &mut Vec<u8>, offset: usize, value: u32, endian: Endian) -> (r: Result<
    (),
    String,
>)
    ensures
        match r {
            Ok(_) => offset + 4 <= old(output)@.len() && final(output)@ == spliced(
                old(output)@,
                offset as int,
                u32_bytes(value, endian),
            ),
            Err(e) => offset + 4 > old(output)@.len() && final(output)@ == old(output)@ && e@
                == "PNG eXIf TIFF header is truncated."@,
        },
{
    let n: usize = output.len();
    if n < 4 || offset > n - 4 {
        return Err("PNG eXIf TIFF header is truncated.".to_owned());
    }
    let mut number: Vec<u8> = Vec::new();
    append_u32(&mut number, value, endian);
    proof {
        u32_bytes_read_back(value, endian);
        assert(number@ =~= u32_bytes(value, endian));
    }
    output.set(offset, number[0]);
    output.set(offset + 1, number[1]);
    output.set(offset + 2, number[2]);
    output.set(offset + 3, number[3]);
    assert(output@ =~= spliced(old(output)@, offset as int, u32_bytes(value, endian)));
    Ok(())
}

/// The part of the data from one position up to another, if it lies within the data.
pub fn copied(data: &[u8], from: usize, to: usize) -> (r: Vec<u8>)
    requires
        from <= to <= data@.len(),
    ensures
        r@ == data@.subrange(from as int, to as int),
{
    let mut out: Vec<u8> = Vec::new();
    append_bytes(&mut out, &data[from..to]);
    assert(out@ =~= data@.subrange(from as int, to as int));
    out
}

/// Whether the data begins with the given bytes.
pub open spec fn begins_with(data: Seq<u8>, prefix: Seq<u8>) -> bool {
    prefix.len() <= data.len() && data.take(prefix.len() as int) == prefix
}

/// Whether the bytes stand in the data at a position.
pub open spec fn stands_at(data: Seq<u8>, at: int, bytes: Seq<u8>) -> bool {
    0 <= at && at + bytes.len() <= data.len() && data.subrange(at, at + bytes.len()) == bytes
}

pub fn has_bytes_at(data: &[u8], at: usize, bytes: &[u8]) -> (r: bool)
    ensures
        r == stands_at(data@, at as int, bytes@),
{
    let n: usize = data.len();
    let k: usize = bytes.len();
    if k > n || at > n - k {
        return false;
    }
    let mut i: usize = 0;
    while i < k
        invariant
            i <= k,
            k == bytes.len(),
            n == data.len(),
            at + k <= n,
            forall|j: int| 0 <= j < i ==> data@[at + j] == #[trigger] bytes@[j],
        decreases k - i,
    {
        if data[at + i] != bytes[i] {
            assert(data@.subrange(at as int, at + k)[i as int] != bytes@[i as int]);
            return false;
        }
        i += 1;
    }
    assert(data@.subrange(at as int, at + k) =~= bytes@);
    true
}

} // verus!
