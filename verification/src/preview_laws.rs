//! The previews that are kept, and the sizes in which pictures are shown.
use crate::preview::{self, KeyModel, Kept, PreviewMediaKind};
use crate::text;
use vstd::prelude::*;

verus! {

/// Previews are kept up to eight and up to 48 megabytes: the oldest ones leave, and no
/// more of them than have to.
pub proof fn the_oldest_previews_leave(kept: Seq<Kept>)
    ensures
        ({
            let left = preview::evicted(kept);
            let gone = kept.len() - left.len();
            &&& 0 <= gone
            &&& left == kept.skip(gone)
            &&& left.len() <= 8
            &&& preview::kept_bytes(left) <= 48 * 1024 * 1024 || left.len() == 0
            &&& gone > 0 ==> kept.skip(gone - 1).len() > 8 || preview::kept_bytes(
                kept.skip(gone - 1),
            ) > 48 * 1024 * 1024
        }),
    decreases kept.len(),
{
    if kept.len() == 0 || preview::within_limits(kept) {
        assert(kept.skip(0) =~= kept);
    } else {
        let rest = kept.drop_first();
        the_oldest_previews_leave(rest);
        let left = preview::evicted(rest);
        let gone = rest.len() - left.len();
        assert(kept.skip(gone + 1) =~= rest.skip(gone));
        if gone > 0 {
            assert(kept.skip(gone) =~= rest.skip(gone - 1));
        } else {
            assert(kept.skip(0) =~= kept);
        }
    }
}

/// The bytes of the previews add up.
pub proof fn bytes_of_previews_add_up(kept: Seq<Kept>, one: Kept)
    ensures
        preview::kept_bytes(Seq::empty()) == 0,
        preview::kept_bytes(kept.push(one)) == preview::kept_bytes(kept) + one.1.pixels.len(),
{
    assert(kept.push(one).drop_last() =~= kept);
}

/// A preview is found by its key, and what is put under a key takes the place of what
/// stood there.
pub proof fn previews_are_found_by_their_key(kept: Seq<Kept>, i: int, key: KeyModel)
    requires
        preview::keys_differ(kept),
        0 <= i < kept.len(),
    ensures
        preview::place_of(kept, kept[i].0, kept.len() as int) == Some(i),
        (forall|k: int| 0 <= k < kept.len() ==> (#[trigger] kept[k]).0 != key) ==> {
            &&& preview::place_of(kept, key, kept.len() as int) is None
            &&& preview::without_key(kept, key) == kept
        },
        preview::without_key(kept, kept[i].0) == kept.remove(i),
        forall|k: int|
            0 <= k < preview::without_key(kept, kept[i].0).len() ==> (
            #[trigger] preview::without_key(kept, kept[i].0)[k]).0 != kept[i].0,
{
    lemma_place(kept, i, kept.len() as int);
    lemma_absent(kept, key, kept.len() as int);
    let rest = kept.remove(i);
    assert forall|k: int| 0 <= k < rest.len() implies (#[trigger] rest[k]).0 != kept[i].0 by {
        if k < i {
            assert(rest[k] == kept[k]);
        } else {
            assert(rest[k] == kept[k + 1]);
        }
    }
}

proof fn lemma_place(kept: Seq<Kept>, i: int, n: int)
    requires
        preview::keys_differ(kept),
        0 <= i < n <= kept.len(),
    ensures
        preview::place_of(kept, kept[i].0, n) == Some(i),
    decreases n,
{
    if n - 1 > i {
        assert(kept[i].0 != kept[n - 1].0);
        lemma_place(kept, i, n - 1);
    }
}

proof fn lemma_absent(kept: Seq<Kept>, key: KeyModel, n: int)
    requires
        0 <= n <= kept.len(),
    ensures
        (forall|k: int| 0 <= k < n ==> (#[trigger] kept[k]).0 != key) ==> preview::place_of(
            kept,
            key,
            n,
        ) is None,
    decreases n,
{
    if n > 0 {
        lemma_absent(kept, key, n - 1);
    }
}

/// JPEG files begin with `ff d8`; a file that begins otherwise is none.
pub proof fn pictures_are_known_by_their_first_bytes(bytes: Seq<u8>)
    ensures
        bytes.len() >= 2 && bytes[0] == 0xff && bytes[1] == 0xd8 ==> preview::kind_of_start(bytes)
            == Some(PreviewMediaKind::Jpeg),
        bytes.len() < 2 || bytes[0] != 0xff || bytes[1] != 0xd8 ==> preview::kind_of_start(bytes)
            != Some(PreviewMediaKind::Jpeg),
        bytes.len() >= 8 && bytes.take(8) == seq![
            0x89u8,
            0x50u8,
            0x4eu8,
            0x47u8,
            0x0du8,
            0x0au8,
            0x1au8,
            0x0au8,
        ] ==> preview::kind_of_start(bytes) == Some(PreviewMediaKind::Png),
        bytes.len() < 2 ==> preview::kind_of_start(bytes) is None,
{
    if bytes.len() >= 8 && bytes.take(8) == seq![
        0x89u8,
        0x50u8,
        0x4eu8,
        0x47u8,
        0x0du8,
        0x0au8,
        0x1au8,
        0x0au8,
    ] {
        assert(bytes.take(8)[0] == bytes[0]);
        assert(bytes.take(8)[1] == bytes[1]);
    }
}

/// The line under a picture gives its width, its height and the milliseconds.
pub proof fn pictures_are_described(width: u32, height: u32, millis: u64)
    ensures
        preview::info_text(width, height, millis) == text::decimal(width as nat) + seq![
            ' ',
            'x',
            ' ',
        ] + text::decimal(height as nat) + " (loaded in "@ + text::decimal(millis as nat)
            + " ms)"@,
{
    reveal_strlit(" x ");
    assert(" x "@ =~= seq![' ', 'x', ' ']);
}

/// A picture is scaled to 1200 by 900: one side is filled, the other keeps the proportion
/// to the nearest pixel and is no longer than there is room.
pub proof fn pictures_keep_their_proportions(width: int, height: int)
    requires
        0 < width,
        0 < height,
    ensures
        ({
            let (w, h) = preview::fitted(width, height);
            &&& 1 <= w <= 1200
            &&& 1 <= h <= 900
            &&& 1200 * height <= 900 * width ==> w == 1200 && (h > 1 ==> 2 * h * width <= 2
                * height * 1200 + width && 2 * height * 1200 <= 2 * h * width + width)
            &&& 1200 * height > 900 * width ==> h == 900 && (w > 1 ==> 2 * w * height <= 2 * width
                * 900 + height && 2 * width * 900 <= 2 * w * height + height)
        }),
{
    if 1200 * height <= 900 * width {
        lemma_fitted(height, width, 1200, 900);
    } else {
        lemma_fitted(width, height, 900, 1200);
    }
}

proof fn lemma_fitted(side: int, longer: int, shown: int, room: int)
    requires
        0 < side,
        0 < longer,
        0 < shown,
        1 <= room,
        side * shown <= room * longer,
    ensures
        1 <= preview::fitted_side(side, longer, shown) <= room,
        preview::fitted_side(side, longer, shown) > 1 ==> 2 * preview::fitted_side(
            side,
            longer,
            shown,
        ) * longer <= 2 * side * shown + longer && 2 * side * shown <= 2 * preview::fitted_side(
            side,
            longer,
            shown,
        ) * longer + longer,
{
    let a = 2 * side * shown + longer - 1;
    let d = 2 * longer;
    let n = a / d;
    vstd::arithmetic::div_mod::lemma_fundamental_div_mod(a, d);
    vstd::arithmetic::div_mod::lemma_mod_bound(a, d);
    assert(a == d * n + a % d);
    assert(d * n == 2 * n * longer) by (nonlinear_arith)
        requires
            d == 2 * longer,
    ;
    assert(2 * side * shown == 2 * (side * shown)) by (nonlinear_arith);
    assert(n <= room) by (nonlinear_arith)
        requires
            d * n <= 2 * (side * shown) + longer - 1,
            side * shown <= room * longer,
            d == 2 * longer,
            longer > 0,
    ;
}

} // verus!
