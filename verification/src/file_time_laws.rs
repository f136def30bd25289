//! The times of files as the system counts them, what is started to show a file, and
//! how transport streams are known.
use crate::datetime;
use crate::file_actions::{self, Elapsed, LaunchModel, Platform, ShownPath, TimeUpdate};
use crate::mpeg_ts;
use vstd::prelude::*;

verus! {

/// Windows counts ten million steps a second from the first day of 1601 on.
pub proof fn times_are_counted_from_1601(t: Elapsed, later: Elapsed)
    ensures
        ({
            let days = datetime::day_number(1970, 1, 1) - datetime::day_number(1601, 1, 1);
            &&& file_actions::intervals(t) == (days * 86400 + t.seconds) * 10_000_000 + t.nanos
                as int / 100
            &&& later.nanos == t.nanos ==> file_actions::intervals(later) - file_actions::intervals(
                t,
            ) == (later.seconds - t.seconds) * 10_000_000
            &&& later.seconds == t.seconds && later.nanos - t.nanos == 100
                ==> file_actions::intervals(later) - file_actions::intervals(t) == 1
        }),
{
    assert(datetime::days_before_month(1970, 1) == 0);
    assert(datetime::days_before_month(1601, 1) == 0);
    assert(datetime::day_number(1970, 1, 1) - datetime::day_number(1601, 1, 1) == 134774);
}

/// On Windows both times are set, where a missing one is left; elsewhere only the time
/// of the last change can be. Nothing is done where there is no time.
pub proof fn times_are_set_where_they_can_be(
    r: Result<TimeUpdate, String>,
    created: Elapsed,
    modified: Elapsed,
)
    ensures
        file_actions::time_update(r, None, None, true) ==> r == Ok::<TimeUpdate, String>(
            TimeUpdate::Keep,
        ),
        file_actions::time_update(r, None, None, false) ==> r == Ok::<TimeUpdate, String>(
            TimeUpdate::Keep,
        ),
        file_actions::time_update(r, None, Some(modified), false) ==> r == Ok::<TimeUpdate, String>(
            TimeUpdate::Modified(Some(modified)),
        ),
        file_actions::time_update(r, Some(created), Some(modified), false) ==> r is Err,
        file_actions::time_update(r, Some(created), None, false) ==> r is Err,
        file_actions::intervals(created) <= 0x7fff_ffff_ffff_ffff && file_actions::intervals(
            modified,
        ) <= 0x7fff_ffff_ffff_ffff ==> {
            &&& file_actions::time_update(r, Some(created), Some(modified), true) ==> r == Ok::<
                TimeUpdate,
                String,
            >(
                TimeUpdate::Intervals {
                    created: file_actions::intervals(created) as i64,
                    modified: file_actions::intervals(modified) as i64,
                },
            )
            &&& file_actions::time_update(r, None, Some(modified), true) ==> r == Ok::<
                TimeUpdate,
                String,
            >(
                TimeUpdate::Intervals {
                    created: 0,
                    modified: file_actions::intervals(modified) as i64,
                },
            )
            &&& file_actions::time_update(r, Some(created), None, true) ==> r == Ok::<
                TimeUpdate,
                String,
            >(
                TimeUpdate::Intervals {
                    created: file_actions::intervals(created) as i64,
                    modified: 0,
                },
            )
        },
        file_actions::intervals(created) > 0x7fff_ffff_ffff_ffff ==> {
            file_actions::time_update(r, Some(created), Some(modified), true) ==> r is Err
        },
{
}

/// A file has its times where each one that was given is the one that it has; a time
/// that was not given may be any.
pub proof fn given_times_are_compared(a: Elapsed, b: Elapsed, c: Option<Elapsed>, m: Option<Elapsed>)
    ensures
        file_actions::has_times(Some((Some(a), Some(b))), Some(a), Some(b)),
        file_actions::has_times(Some((c, Some(b))), None, Some(b)),
        file_actions::has_times(Some((Some(a), m)), Some(a), None),
        file_actions::has_times(Some((c, m)), None, None),
        a != b ==> !file_actions::has_times(Some((Some(a), m)), Some(b), None),
        a != b ==> !file_actions::has_times(Some((c, Some(a))), None, Some(b)),
        !file_actions::has_times(Some((None, m)), Some(a), None),
        !file_actions::has_times(None, c, m),
{
}

/// A file is shown by opening its folder, and a folder by opening it; macOS marks the
/// file.
pub proof fn files_are_shown_in_their_folder(p: ShownPath, f: String)
    requires
        p.folder == Some(f),
    ensures
        p.is_file ==> {
            &&& file_actions::shown_in_manager(p, Platform::Windows) == Ok::<
                LaunchModel,
                Seq<char>,
            >(LaunchModel { program: f@, arguments: Seq::empty() })
            &&& file_actions::shown_in_manager(p, Platform::MacOs) == Ok::<LaunchModel, Seq<char>>(
                LaunchModel { program: "open"@, arguments: seq!["-R"@, p.path@] },
            )
            &&& file_actions::shown_in_manager(p, Platform::Other) == Ok::<LaunchModel, Seq<char>>(
                LaunchModel { program: "xdg-open"@, arguments: seq![f@] },
            )
        },
        !p.is_file ==> {
            &&& file_actions::shown_in_manager(p, Platform::Windows) == Ok::<
                LaunchModel,
                Seq<char>,
            >(LaunchModel { program: p.path@, arguments: Seq::empty() })
            &&& file_actions::shown_in_manager(p, Platform::MacOs) == Ok::<LaunchModel, Seq<char>>(
                LaunchModel { program: "open"@, arguments: seq![p.path@] },
            )
            &&& file_actions::shown_in_manager(p, Platform::Other) == Ok::<LaunchModel, Seq<char>>(
                LaunchModel { program: "xdg-open"@, arguments: seq![p.path@] },
            )
        },
        forall|r: Result<LaunchModel, Seq<char>>|
            #[trigger] file_actions::if_it_exists(p, r) == if p.exists {
                r
            } else {
                Err("Selected path does not exist."@)
            },
{
}

/// A transport stream has the byte `47` at its start and twice again at a distance of
/// 188 bytes, or behind four bytes and twice again at a distance of 192.
pub proof fn transport_streams_repeat_their_first_byte(bytes: Seq<u8>)
    ensures
        mpeg_ts::is_transport_stream(bytes) <==> {
            ||| bytes.len() > 376 && bytes[0] == 0x47 && bytes[188] == 0x47 && bytes[376] == 0x47
            ||| bytes.len() > 388 && bytes[4] == 0x47 && bytes[196] == 0x47 && bytes[388] == 0x47
        },
{
    assert(mpeg_ts::synced(bytes, 0, 188) <==> bytes.len() > 376 && bytes[0] == 0x47 && bytes[188]
        == 0x47 && bytes[376] == 0x47) by {
        lemma_synced(bytes, 0, 188);
    }
    assert(mpeg_ts::synced(bytes, 4, 192) <==> bytes.len() > 388 && bytes[4] == 0x47 && bytes[196]
        == 0x47 && bytes[388] == 0x47) by {
        lemma_synced(bytes, 4, 192);
    }
}

proof fn lemma_synced(bytes: Seq<u8>, first: int, size: int)
    requires
        0 <= first,
        0 < size,
    ensures
        mpeg_ts::synced(bytes, first, size) <==> bytes.len() > first + 2 * size && bytes[first]
            == 0x47 && bytes[first + size] == 0x47 && bytes[first + 2 * size] == 0x47,
{
    assert(0 * size == 0 && 1 * size == size && 2 * size == size + size) by (nonlinear_arith);
    if mpeg_ts::synced(bytes, first, size) {
        assert(first + 0 * size < bytes.len() && bytes[first + 0 * size] == 0x47);
        assert(first + 1 * size < bytes.len() && bytes[first + 1 * size] == 0x47);
        assert(first + 2 * size < bytes.len() && bytes[first + 2 * size] == 0x47);
    } else if bytes.len() > first + 2 * size && bytes[first] == 0x47 && bytes[first + size] == 0x47
        && bytes[first + 2 * size] == 0x47 {
        assert forall|k: int| 0 <= k < 3 implies first + #[trigger] (k * size) < bytes.len()
            && bytes[first + k * size] == 0x47 by {
            assert(k == 0 || k == 1 || k == 2);
        }
    }
}

} // verus!
