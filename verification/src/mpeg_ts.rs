//! Recognising MPEG transport streams by their packets.
use vstd::prelude::*;

verus! {

pub const TS_PACKET_SIZE: usize = 188;

pub const M2TS_PACKET_SIZE: usize = 192;

/// Three packets in a row begin with the sync byte.
pub open spec fn synced(bytes: Seq<u8>, first: int, packet_size: int) -> bool {
    forall|k: int|
        0 <= k < 3 ==> first + #[trigger] (k * packet_size) < bytes.len() && bytes[first + k
            * packet_size] == 0x47
}

fn has_sync_bytes(bytes: &[u8], first: usize, packet_size: usize) -> (r: bool)
    requires
        first <= 4,
        packet_size <= 192,
    ensures
        r == synced(bytes@, first as int, packet_size as int),
{
    let n: usize = bytes.len();
    let b: usize = first + packet_size;
    let c: usize = b + packet_size;
    let r = first < n && bytes[first] == 0x47 && b < n && bytes[b] == 0x47 && c < n && bytes[c]
        == 0x47;
    proof {
        let p = packet_size as int;
        assert(0 * p == 0 && 1 * p == p && 2 * p == p + p) by (nonlinear_arith);
        if r {
            assert forall|k: int| 0 <= k < 3 implies first + #[trigger] (k * p) < bytes@.len()
                && bytes@[first + k * p] == 0x47 by {
                assert(k == 0 || k == 1 || k == 2);
            }
        } else {
            if synced(bytes@, first as int, p) {
                assert(first + 0 * p < bytes@.len() && bytes@[first + 0 * p] == 0x47);
                assert(first + 1 * p < bytes@.len() && bytes@[first + 1 * p] == 0x47);
                assert(first + 2 * p < bytes@.len() && bytes@[first + 2 * p] == 0x47);
            }
        }
    }
    r
}

pub open spec fn is_transport_stream(bytes: Seq<u8>) -> bool {
    synced(bytes, 0, TS_PACKET_SIZE as int) || synced(bytes, 4, M2TS_PACKET_SIZE as int)
}

/// Whether a file begins with packets of a transport stream; each packet of
/// the second kind has four bytes before its sync byte.
pub fn has_transport_stream_signature(bytes: &[u8]) -> (r: bool)
    ensures
        r == is_transport_stream(bytes@),
{
    has_sync_bytes(bytes, 0, TS_PACKET_SIZE) || has_sync_bytes(bytes, 4, M2TS_PACKET_SIZE)
}

} // verus!
