//! Cross-track interleaving: per-track cursors and the timestamp-ordered
//! k-way merge that fixes the order in which samples are written.
//!
//! Each track's timestamps are rebased to its window's first sample and
//! expressed in nanoseconds, so tracks with different tick rates compare
//! in a common unit.  The merge repeatedly emits the cursor with the
//! smallest normalized timestamp, breaking ties in favour of the track
//! registered first.
use vstd::prelude::*;

use crate::sample::{
    SampleMeta, SampleWindow, TrackKind, lemma_table_ordered, sample_end, table_wf, window_wf,
};
use vstd::arithmetic::div_mod::lemma_div_is_ordered;
use vstd::arithmetic::mul::lemma_mul_inequality;

verus! {

/// Nanoseconds per second: the common unit normalized timestamps use.
pub const NANOS_PER_SECOND: u64 = 1_000_000_000;

/// A timestamp delta rebased to nanoseconds: `delta * 1e9 / timescale`.
#[verifier::opaque]
pub open spec fn norm_of(delta: int, timescale: int) -> int {
    delta * (NANOS_PER_SECOND as int) / timescale
}

/// Converts a tick delta of a track into nanoseconds, rounding down.
pub fn normalize_timestamp(timestamp: u64, timescale: u32) -> (r: u64)
    requires
        timescale >= 1,
        timestamp * (NANOS_PER_SECOND as int) <= u64::MAX,
    ensures
        r == norm_of(timestamp as int, timescale as int),
{
    proof {
        reveal(norm_of);
    }
    timestamp * NANOS_PER_SECOND / (timescale as u64)
}

/// Normalization in a wide intermediate, free of any overflow bound on
/// the delta; the scheduler compares these values.
fn norm_wide(delta: u64, timescale: u32) -> (r: u128)
    requires
        timescale >= 1,
    ensures
        r == norm_of(delta as int, timescale as int),
{
    proof {
        reveal(norm_of);
        lemma_mul_inequality(delta as int, u64::MAX as int, NANOS_PER_SECOND as int);
    }
    (delta as u128) * (NANOS_PER_SECOND as u128) / (timescale as u128)
}

/// One track as the scheduler sees it: its samples, the resolved window,
/// and the baseline timestamp all deltas are taken against.
#[derive(Clone, Debug)]
pub struct PlanTrack {
    /// Kind of the track.
    pub kind: TrackKind,
    /// Ticks per second of the track; positive.
    pub timescale: u32,
    /// The track's samples, well-formed in the sense of `table_wf`.
    pub samples: Vec<SampleMeta>,
    /// The inclusive window of 1-based sample indices to extract.
    pub window: SampleWindow,
    /// Timestamp of the window's first sample; fixed at cursor creation.
    pub base_timestamp: u64,
}

/// Validity of a scheduler track.
pub open spec fn plan_track_wf(t: PlanTrack) -> bool {
    &&& t.timescale >= 1
    &&& t.samples@.len() < usize::MAX
    &&& table_wf(t.samples@)
    &&& window_wf(t.window, t.samples@, t.kind)
    &&& t.base_timestamp == t.samples@[t.window.start_index - 1].timestamp
}

/// Number of samples a track's window selects.
pub open spec fn window_len(t: PlanTrack) -> int {
    t.window.end_index + 1 - t.window.start_index
}

/// Normalized timestamp of the 1-based sample `i` of track `t`.
pub open spec fn norm_at(t: PlanTrack, i: int) -> int {
    norm_of(t.samples@[i - 1].timestamp - t.base_timestamp, t.timescale as int)
}

/// Samples at or past the window start never precede the baseline.
pub proof fn lemma_ts_after_base(t: PlanTrack, i: int)
    requires
        plan_track_wf(t),
        t.window.start_index <= i <= t.samples@.len(),
    ensures
        t.samples@[i - 1].timestamp >= t.base_timestamp,
{
    if i > t.window.start_index {
        lemma_table_ordered(t.samples@, t.window.start_index - 1, i - 1);
    }
}

/// Within one track, normalized timestamps never decrease.
pub proof fn lemma_norm_mono_in_track(t: PlanTrack, i: int, j: int)
    requires
        plan_track_wf(t),
        t.window.start_index <= i <= j <= t.samples@.len(),
    ensures
        norm_at(t, i) <= norm_at(t, j),
{
    reveal(norm_of);
    if i < j {
        lemma_table_ordered(t.samples@, i - 1, j - 1);
    }
    let d1 = t.samples@[i - 1].timestamp - t.base_timestamp;
    let d2 = t.samples@[j - 1].timestamp - t.base_timestamp;
    lemma_mul_inequality(d1, d2, NANOS_PER_SECOND as int);
    lemma_div_is_ordered(
        d1 * (NANOS_PER_SECOND as int),
        d2 * (NANOS_PER_SECOND as int),
        t.timescale as int,
    );
}

/// One step of the output plan: which track yields its current sample,
/// and whether that sample is the track's first in the output.
#[derive(Clone, Copy, PartialEq, Eq, Structural, Debug)]
pub struct PlanItem {
    /// 0-based position of the track in registration order.
    pub track: usize,
    /// 1-based sample index within the track.
    pub sample_index: usize,
    /// Whether this is the track's first emitted sample.
    pub first_of_track: bool,
}

/// The item points into a registered track and stays in its window.
pub open spec fn item_in_window(tracks: Seq<PlanTrack>, it: PlanItem) -> bool {
    &&& it.track < tracks.len()
    &&& tracks[it.track as int].window.start_index <= it.sample_index
        <= tracks[it.track as int].window.end_index
}

/// Normalized timestamp of a plan item.
pub open spec fn norm_item(tracks: Seq<PlanTrack>, it: PlanItem) -> int {
    norm_at(tracks[it.track as int], it.sample_index as int)
}

/// The plan's normalized timestamps never decrease.
pub open spec fn plan_sorted(tracks: Seq<PlanTrack>, plan: Seq<PlanItem>) -> bool {
    forall|a: int, b: int|
        0 <= a < b < plan.len() ==> norm_item(tracks, #[trigger] plan[a]) <= norm_item(
            tracks,
            #[trigger] plan[b],
        )
}

/// An item is flagged as first exactly when no earlier item belongs to
/// the same track.
pub open spec fn plan_flags_first(plan: Seq<PlanItem>) -> bool {
    forall|a: int|
        0 <= a < plan.len() ==> ((#[trigger] plan[a]).first_of_track <==> (forall|b: int|
            0 <= b < a ==> (#[trigger] plan[b]).track != plan[a].track))
}

/// Number of items of the plan that belong to track `t`.
pub open spec fn track_count(plan: Seq<PlanItem>, t: int) -> int
    decreases plan.len(),
{
    if plan.len() == 0 {
        0
    } else {
        track_count(plan.drop_last(), t) + if plan.last().track == t {
            1int
        } else {
            0int
        }
    }
}

proof fn lemma_track_count_push(plan: Seq<PlanItem>, it: PlanItem, t: int)
    ensures
        track_count(plan.push(it), t) == track_count(plan, t) + if it.track == t {
            1int
        } else {
            0int
        },
{
    assert(plan.push(it).drop_last() =~= plan);
    assert(plan.push(it).last() == it);
}

/// A cursor is active while it has not passed its window's end.
pub open spec fn cursor_active(t: PlanTrack, c: usize) -> bool {
    c <= t.window.end_index
}

/// Cursors sit between their window's start and one past its end.
pub open spec fn cursors_wf(tracks: Seq<PlanTrack>, cursors: Seq<usize>) -> bool {
    &&& cursors.len() == tracks.len()
    &&& forall|t: int|
        0 <= t < tracks.len() ==> tracks[t].window.start_index <= #[trigger] cursors[t]
            <= tracks[t].window.end_index + 1
}

/// Normalized timestamp of the sample cursor `t` stands on.
pub open spec fn norm_cur(tracks: Seq<PlanTrack>, cursors: Seq<usize>, t: int) -> int {
    norm_at(tracks[t], cursors[t] as int)
}

/// Total number of samples the cursors from position `t0` on still owe.
pub open spec fn remaining_from(tracks: Seq<PlanTrack>, cursors: Seq<usize>, t0: int) -> int
    decreases tracks.len() - t0,
{
    if t0 < 0 || t0 >= tracks.len() {
        0
    } else {
        (tracks[t0].window.end_index + 1 - cursors[t0]) + remaining_from(tracks, cursors, t0 + 1)
    }
}

proof fn lemma_remaining_nonneg(tracks: Seq<PlanTrack>, cursors: Seq<usize>, t0: int)
    requires
        cursors_wf(tracks, cursors),
    ensures
        remaining_from(tracks, cursors, t0) >= 0,
    decreases tracks.len() - t0,
{
    if 0 <= t0 < tracks.len() {
        lemma_remaining_nonneg(tracks, cursors, t0 + 1);
    }
}

proof fn lemma_remaining_update(
    tracks: Seq<PlanTrack>,
    c0: Seq<usize>,
    c1: Seq<usize>,
    k: int,
    t0: int,
)
    requires
        c0.len() == tracks.len(),
        c1 =~= c0.update(k, (c0[k] + 1) as usize),
        0 <= k < tracks.len(),
        c0[k] + 1 <= usize::MAX,
        0 <= t0 <= tracks.len(),
    ensures
        remaining_from(tracks, c1, t0) == remaining_from(tracks, c0, t0) - if t0 <= k {
            1int
        } else {
            0int
        },
    decreases tracks.len() - t0,
{
    if t0 < tracks.len() {
        lemma_remaining_update(tracks, c0, c1, k, t0 + 1);
    }
}

proof fn lemma_remaining_pos(tracks: Seq<PlanTrack>, cursors: Seq<usize>, k: int, t0: int)
    requires
        cursors_wf(tracks, cursors),
        0 <= t0 <= k < tracks.len(),
        cursor_active(tracks[k], cursors[k]),
    ensures
        remaining_from(tracks, cursors, t0) >= 1,
    decreases k - t0,
{
    lemma_remaining_nonneg(tracks, cursors, t0 + 1);
    if t0 < k {
        lemma_remaining_pos(tracks, cursors, k, t0 + 1);
    }
}

/// Selects the active cursor with the smallest normalized timestamp,
/// breaking ties in favour of the track registered first, or `None`
/// when every cursor is exhausted.
pub fn pick_next(tracks: &Vec<PlanTrack>, cursors: &Vec<usize>) -> (r: Option<usize>)
    requires
        forall|t: int| 0 <= t < tracks@.len() ==> plan_track_wf(#[trigger] tracks@[t]),
        cursors_wf(tracks@, cursors@),
    ensures
        match r {
            Some(k) => {
                &&& 0 <= k < tracks@.len()
                &&& cursor_active(tracks@[k as int], cursors@[k as int])
                &&& forall|j: int|
                    0 <= j < tracks@.len() && cursor_active(tracks@[j], #[trigger] cursors@[j])
                        ==> norm_cur(tracks@, cursors@, k as int) <= norm_cur(tracks@, cursors@, j)
                &&& forall|j: int|
                    0 <= j < k && cursor_active(tracks@[j], #[trigger] cursors@[j]) ==> norm_cur(
                        tracks@,
                        cursors@,
                        k as int,
                    ) < norm_cur(tracks@, cursors@, j)
            },
            None => forall|t: int|
                0 <= t < tracks@.len() ==> !cursor_active(tracks@[t], #[trigger] cursors@[t]),
        },
{
    let n = tracks.len();
    let mut best: Option<(usize, u128)> = None;
    let mut t: usize = 0;
    while t < n
        invariant
            forall|i: int| 0 <= i < tracks@.len() ==> plan_track_wf(#[trigger] tracks@[i]),
            cursors_wf(tracks@, cursors@),
            n == tracks@.len(),
            0 <= t <= n,
            match best {
                Some((k, v)) => {
                    &&& 0 <= k < t
                    &&& cursor_active(tracks@[k as int], cursors@[k as int])
                    &&& v == norm_cur(tracks@, cursors@, k as int)
                    &&& forall|j: int|
                        0 <= j < t && cursor_active(tracks@[j], #[trigger] cursors@[j]) ==> v
                            <= norm_cur(tracks@, cursors@, j)
                    &&& forall|j: int|
                        0 <= j < k && cursor_active(tracks@[j], #[trigger] cursors@[j]) ==> v
                            < norm_cur(tracks@, cursors@, j)
                },
                None => forall|j: int|
                    0 <= j < t ==> !cursor_active(tracks@[j], #[trigger] cursors@[j]),
            },
        decreases n - t,
    {
        let track = &tracks[t];
        let c = cursors[t];
        if c <= track.window.end_index {
            proof {
                lemma_ts_after_base(tracks@[t as int], c as int);
            }
            let delta = track.samples[c - 1].timestamp - track.base_timestamp;
            let v = norm_wide(delta, track.timescale);
            match best {
                Some((_, bv)) => {
                    if v < bv {
                        best = Some((t, v));
                    }
                },
                None => {
                    best = Some((t, v));
                },
            }
        }
        t = t + 1;
    }
    match best {
        Some((k, _)) => Some(k),
        None => None,
    }
}

/// Everything the merge loop maintains about the plan built so far and
/// the cursors' positions.
#[verifier::opaque]
pub open spec fn merge_inv(
    tracks: Seq<PlanTrack>,
    plan: Seq<PlanItem>,
    cursors: Seq<usize>,
) -> bool {
    &&& cursors_wf(tracks, cursors)
    &&& plan_sorted(tracks, plan)
    &&& plan_flags_first(plan)
    &&& forall|a: int| 0 <= a < plan.len() ==> item_in_window(tracks, #[trigger] plan[a])
    &&& forall|a: int|
        0 <= a < plan.len() ==> (#[trigger] plan[a]).sample_index < cursors[plan[a].track as int]
    &&& forall|a: int, t: int|
        0 <= a < plan.len() && 0 <= t < tracks.len() && cursor_active(
            tracks[t],
            #[trigger] cursors[t],
        ) ==> norm_item(tracks, #[trigger] plan[a]) <= norm_cur(tracks, cursors, t)
    &&& forall|t: int|
        0 <= t < tracks.len() ==> ((#[trigger] cursors[t] > tracks[t].window.start_index)
            <==> exists|a: int| 0 <= a < plan.len() && (#[trigger] plan[a]).track == t)
    &&& forall|t: int|
        0 <= t < tracks.len() ==> track_count(plan, t) == #[trigger] cursors[t]
            - tracks[t].window.start_index
    &&& forall|a: int|
        0 <= a < plan.len() && (#[trigger] plan[a]).first_of_track ==> plan[a].sample_index
            == tracks[plan[a].track as int].window.start_index
    &&& forall|a: int, b: int|
        0 <= a < b < plan.len() && (#[trigger] plan[a]).track == (#[trigger] plan[b]).track
            ==> plan[a].sample_index < plan[b].sample_index
}

/// Precondition of one merge step: the invariant holds, `k` is the
/// chosen active cursor with the least normalized timestamp, and
/// `plan1` / `cursors1` are the updated copies.
pub open spec fn merge_step_pre(
    tracks: Seq<PlanTrack>,
    plan0: Seq<PlanItem>,
    cursors0: Seq<usize>,
    k: int,
    item: PlanItem,
    plan1: Seq<PlanItem>,
    cursors1: Seq<usize>,
) -> bool {
    &&& forall|i: int| 0 <= i < tracks.len() ==> plan_track_wf(#[trigger] tracks[i])
    &&& merge_inv(tracks, plan0, cursors0)
    &&& tracks.len() <= usize::MAX
    &&& 0 <= k < tracks.len()
    &&& cursor_active(tracks[k], cursors0[k])
    &&& cursors0[k] < usize::MAX
    &&& forall|j: int|
        0 <= j < tracks.len() && cursor_active(tracks[j], #[trigger] cursors0[j]) ==> norm_cur(
            tracks,
            cursors0,
            k,
        ) <= norm_cur(tracks, cursors0, j)
    &&& item.track == k as usize
    &&& item.sample_index == cursors0[k]
    &&& item.first_of_track == (cursors0[k] == tracks[k].window.start_index)
    &&& plan1 == plan0.push(item)
    &&& cursors1 == cursors0.update(k, (cursors0[k] + 1) as usize)
}

proof fn lemma_step_order(
    tracks: Seq<PlanTrack>,
    plan0: Seq<PlanItem>,
    cursors0: Seq<usize>,
    k: int,
    item: PlanItem,
    plan1: Seq<PlanItem>,
    cursors1: Seq<usize>,
)
    requires
        forall|i: int| 0 <= i < tracks.len() ==> plan_track_wf(#[trigger] tracks[i]),
        cursors_wf(tracks, cursors0),
        tracks.len() <= usize::MAX,
        0 <= k < tracks.len(),
        cursor_active(tracks[k], cursors0[k]),
        plan_sorted(tracks, plan0),
        forall|a: int, t: int|
            0 <= a < plan0.len() && 0 <= t < tracks.len() && cursor_active(
                tracks[t],
                #[trigger] cursors0[t],
            ) ==> norm_item(tracks, #[trigger] plan0[a]) <= norm_cur(tracks, cursors0, t),
        forall|j: int|
            0 <= j < tracks.len() && cursor_active(tracks[j], #[trigger] cursors0[j]) ==> norm_cur(
                tracks,
                cursors0,
                k,
            ) <= norm_cur(tracks, cursors0, j),
        item.track == k as usize,
        item.sample_index == cursors0[k],
        item.first_of_track == (cursors0[k] == tracks[k].window.start_index),
        plan1 == plan0.push(item),
        cursors1 == cursors0.update(k, (cursors0[k] + 1) as usize),
    ensures
        plan_sorted(tracks, plan1),
        forall|a: int, t: int|
            0 <= a < plan1.len() && 0 <= t < tracks.len() && cursor_active(
                tracks[t],
                #[trigger] cursors1[t],
            ) ==> norm_item(tracks, #[trigger] plan1[a]) <= norm_cur(tracks, cursors1, t),
{
    assert forall|a: int, t: int|
        0 <= a < plan1.len() && 0 <= t < tracks.len() && cursor_active(
            tracks[t],
            cursors1[t],
        ) implies norm_item(tracks, plan1[a]) <= norm_cur(tracks, cursors1, t) by {
        if t == k {
            assert(cursors1[t] == (cursors0[k] + 1) as usize);
            lemma_norm_mono_in_track(tracks[t], cursors0[k] as int, cursors0[k] + 1);
        } else {
            assert(cursors1[t] == cursors0[t]);
        }
        assert(cursor_active(tracks[t], cursors0[t]));
        assert(norm_cur(tracks, cursors0, k) <= norm_cur(tracks, cursors0, t));
        if a < plan0.len() {
            assert(plan1[a] == plan0[a]);
            assert(norm_item(tracks, plan0[a]) <= norm_cur(tracks, cursors0, t));
            assert(norm_item(tracks, plan0[a]) <= norm_cur(tracks, cursors0, k));
        } else {
            assert(plan1[a] == item);
            assert(item.track as int == k);
            assert(norm_item(tracks, item) == norm_cur(tracks, cursors0, k));
        }
    }
    assert forall|a: int, b: int| 0 <= a < b < plan1.len() implies norm_item(tracks, plan1[a])
        <= norm_item(tracks, plan1[b]) by {
        assert(plan1[a] == plan0[a]);
        if b < plan0.len() {
            assert(plan1[b] == plan0[b]);
            assert(norm_item(tracks, plan0[a]) <= norm_item(tracks, plan0[b]));
        } else {
            assert(plan1[b] == item);
            assert(item.track as int == k);
            assert(cursor_active(tracks[k], cursors0[k]));
            assert(norm_item(tracks, plan0[a]) <= norm_cur(tracks, cursors0, k));
            assert(norm_item(tracks, item) == norm_cur(tracks, cursors0, k));
        }
    }
}

proof fn lemma_step_flags_first(
    tracks: Seq<PlanTrack>,
    plan0: Seq<PlanItem>,
    cursors0: Seq<usize>,
    k: int,
    item: PlanItem,
    plan1: Seq<PlanItem>,
)
    requires
        cursors_wf(tracks, cursors0),
        tracks.len() <= usize::MAX,
        0 <= k < tracks.len(),
        plan_flags_first(plan0),
        forall|t: int|
            0 <= t < tracks.len() ==> ((#[trigger] cursors0[t] > tracks[t].window.start_index)
                <==> exists|a: int| 0 <= a < plan0.len() && (#[trigger] plan0[a]).track == t),
        item.track == k as usize,
        item.first_of_track == (cursors0[k] == tracks[k].window.start_index),
        plan1 == plan0.push(item),
    ensures
        plan_flags_first(plan1),
{
    assert forall|a: int| 0 <= a < plan1.len() implies ((#[trigger] plan1[a]).first_of_track
        <==> (forall|b: int| 0 <= b < a ==> (#[trigger] plan1[b]).track != plan1[a].track)) by {
        if a < plan0.len() {
            assert(plan_flags_first(plan0));
            assert(plan1[a] == plan0[a]);
            if plan0[a].first_of_track {
                assert forall|b: int| 0 <= b < a implies (#[trigger] plan1[b]).track
                    != plan1[a].track by {
                    assert(plan1[b] == plan0[b]);
                }
            } else {
                assert(!(forall|b: int| 0 <= b < a ==> (#[trigger] plan0[b]).track
                    != plan0[a].track));
                let w = choose|b: int|
                    0 <= b < a && (#[trigger] plan0[b]).track == plan0[a].track;
                assert(plan1[w] == plan0[w]);
                assert(!(forall|b: int| 0 <= b < a ==> (#[trigger] plan1[b]).track
                    != plan1[a].track));
            }
        } else {
            assert(plan1[a] == item);
            if item.first_of_track {
                assert(!(cursors0[k] > tracks[k].window.start_index));
                assert forall|b: int| 0 <= b < a implies (#[trigger] plan1[b]).track
                    != plan1[a].track by {
                    assert(plan1[b] == plan0[b]);
                    if plan0[b].track == k as usize {
                        assert(exists|x: int|
                            0 <= x < plan0.len() && (#[trigger] plan0[x]).track == k);
                    }
                }
            } else {
                assert(cursors0[k] > tracks[k].window.start_index);
                let w = choose|x: int| 0 <= x < plan0.len() && (#[trigger] plan0[x]).track == k;
                assert(plan1[w] == plan0[w]);
                assert(plan1[w].track == plan1[a].track);
            }
        }
    }
}

proof fn lemma_step_flags_rest(
    tracks: Seq<PlanTrack>,
    plan0: Seq<PlanItem>,
    cursors0: Seq<usize>,
    k: int,
    item: PlanItem,
    plan1: Seq<PlanItem>,
    cursors1: Seq<usize>,
)
    requires
        cursors_wf(tracks, cursors0),
        tracks.len() <= usize::MAX,
        0 <= k < tracks.len(),
        cursor_active(tracks[k], cursors0[k]),
        forall|t: int|
            0 <= t < tracks.len() ==> ((#[trigger] cursors0[t] > tracks[t].window.start_index)
                <==> exists|a: int| 0 <= a < plan0.len() && (#[trigger] plan0[a]).track == t),
        forall|a: int|
            0 <= a < plan0.len() && (#[trigger] plan0[a]).first_of_track ==> plan0[a].sample_index
                == tracks[plan0[a].track as int].window.start_index,
        cursors0[k] < usize::MAX,
        item.track == k as usize,
        item.sample_index == cursors0[k],
        item.first_of_track == (cursors0[k] == tracks[k].window.start_index),
        plan1 == plan0.push(item),
        cursors1 == cursors0.update(k, (cursors0[k] + 1) as usize),
    ensures
        forall|t: int|
            0 <= t < tracks.len() ==> ((#[trigger] cursors1[t] > tracks[t].window.start_index)
                <==> exists|a: int| 0 <= a < plan1.len() && (#[trigger] plan1[a]).track == t),
        forall|a: int|
            0 <= a < plan1.len() && (#[trigger] plan1[a]).first_of_track ==> plan1[a].sample_index
                == tracks[plan1[a].track as int].window.start_index,
{
    assert forall|t: int| 0 <= t < tracks.len() implies ((#[trigger] cursors1[t]
        > tracks[t].window.start_index) <==> exists|a: int|
        0 <= a < plan1.len() && (#[trigger] plan1[a]).track == t) by {
        if t == k {
            assert(plan1[plan0.len() as int] == item);
            assert(plan1[plan0.len() as int].track == t);
            assert(cursors1[t] == (cursors0[k] + 1) as usize);
        } else {
            assert(cursors1[t] == cursors0[t]);
            if cursors1[t] > tracks[t].window.start_index {
                let w = choose|x: int| 0 <= x < plan0.len() && (#[trigger] plan0[x]).track == t;
                assert(plan1[w] == plan0[w]);
                assert(plan1[w].track == t);
            } else {
                assert forall|a: int| 0 <= a < plan1.len() implies (#[trigger] plan1[a]).track
                    != t by {
                    if a < plan0.len() {
                        assert(plan1[a] == plan0[a]);
                        if plan0[a].track == t {
                            assert(exists|x: int|
                                0 <= x < plan0.len() && (#[trigger] plan0[x]).track == t);
                        }
                    } else {
                        assert(plan1[a] == item);
                    }
                }
            }
        }
    }
    assert forall|a: int|
        0 <= a < plan1.len() && (#[trigger] plan1[a]).first_of_track implies plan1[a].sample_index
        == tracks[plan1[a].track as int].window.start_index by {
        if a < plan0.len() {
            assert(plan1[a] == plan0[a]);
        } else {
            assert(plan1[a] == item);
        }
    }
}

proof fn lemma_step_counts(
    tracks: Seq<PlanTrack>,
    plan0: Seq<PlanItem>,
    cursors0: Seq<usize>,
    k: int,
    item: PlanItem,
    plan1: Seq<PlanItem>,
    cursors1: Seq<usize>,
)
    requires
        cursors0.len() == tracks.len(),
        tracks.len() <= usize::MAX,
        0 <= k < tracks.len(),
        cursors0[k] < usize::MAX,
        forall|t: int|
            0 <= t < tracks.len() ==> track_count(plan0, t) == #[trigger] cursors0[t]
                - tracks[t].window.start_index,
        item.track == k as usize,
        plan1 == plan0.push(item),
        cursors1 == cursors0.update(k, (cursors0[k] + 1) as usize),
    ensures
        forall|t: int|
            0 <= t < tracks.len() ==> track_count(plan1, t) == #[trigger] cursors1[t]
                - tracks[t].window.start_index,
        remaining_from(tracks, cursors1, 0) == remaining_from(tracks, cursors0, 0) - 1,
{
    lemma_remaining_update(tracks, cursors0, cursors1, k, 0);
    assert forall|t: int| 0 <= t < tracks.len() implies track_count(plan1, t) == cursors1[t]
        - tracks[t].window.start_index by {
        lemma_track_count_push(plan0, item, t);
    }
}

proof fn lemma_step_misc(
    tracks: Seq<PlanTrack>,
    plan0: Seq<PlanItem>,
    cursors0: Seq<usize>,
    k: int,
    item: PlanItem,
    plan1: Seq<PlanItem>,
    cursors1: Seq<usize>,
)
    requires
        cursors_wf(tracks, cursors0),
        tracks.len() <= usize::MAX,
        0 <= k < tracks.len(),
        cursor_active(tracks[k], cursors0[k]),
        cursors0[k] < usize::MAX,
        forall|a: int| 0 <= a < plan0.len() ==> item_in_window(tracks, #[trigger] plan0[a]),
        forall|a: int|
            0 <= a < plan0.len() ==> (#[trigger] plan0[a]).sample_index < cursors0[plan0[
                a
            ].track as int],
        forall|a: int, b: int|
            0 <= a < b < plan0.len() && (#[trigger] plan0[a]).track == (#[trigger] plan0[b]).track
                ==> plan0[a].sample_index < plan0[b].sample_index,
        item.track == k as usize,
        item.sample_index == cursors0[k],
        item.first_of_track == (cursors0[k] == tracks[k].window.start_index),
        plan1 == plan0.push(item),
        cursors1 == cursors0.update(k, (cursors0[k] + 1) as usize),
    ensures
        cursors_wf(tracks, cursors1),
        forall|a: int| 0 <= a < plan1.len() ==> item_in_window(tracks, #[trigger] plan1[a]),
        forall|a: int|
            0 <= a < plan1.len() ==> (#[trigger] plan1[a]).sample_index < cursors1[plan1[
                a
            ].track as int],
        forall|a: int, b: int|
            0 <= a < b < plan1.len() && (#[trigger] plan1[a]).track == (#[trigger] plan1[b]).track
                ==> plan1[a].sample_index < plan1[b].sample_index,
{
    assert forall|t: int| 0 <= t < tracks.len() implies tracks[t].window.start_index
        <= #[trigger] cursors1[t] <= tracks[t].window.end_index + 1 by {
        if t != k {
            assert(cursors1[t] == cursors0[t]);
        }
    }
    assert forall|a: int| 0 <= a < plan1.len() implies item_in_window(
        tracks,
        #[trigger] plan1[a],
    ) by {
        if a < plan0.len() {
            assert(plan1[a] == plan0[a]);
            assert(item_in_window(tracks, plan0[a]));
        } else {
            assert(plan1[a] == item);
        }
    }
    assert forall|a: int| 0 <= a < plan1.len() implies (#[trigger] plan1[a]).sample_index
        < cursors1[plan1[a].track as int] by {
        if a < plan0.len() {
            assert(plan1[a] == plan0[a]);
            let t = plan0[a].track as int;
            assert(plan0[a].sample_index < cursors0[t]);
            if t != k {
                assert(cursors1[t] == cursors0[t]);
            }
        } else {
            assert(plan1[a] == item);
        }
    }
    assert forall|a: int, b: int|
        0 <= a < b < plan1.len() && (#[trigger] plan1[a]).track == (#[trigger] plan1[b]).track
        implies plan1[a].sample_index < plan1[b].sample_index by {
        assert(plan1[a] == plan0[a]);
        if b < plan0.len() {
            assert(plan1[b] == plan0[b]);
            assert(plan0[a].track == plan0[b].track);
        } else {
            assert(plan1[b] == item);
            assert(plan0[a].sample_index < cursors0[plan0[a].track as int]);
        }
    }
}

/// One merge step preserves the merge invariant and shrinks the debt.
#[verifier::spinoff_prover]
#[verifier::rlimit(100)]
proof fn lemma_merge_step(
    tracks: Seq<PlanTrack>,
    plan0: Seq<PlanItem>,
    cursors0: Seq<usize>,
    k: int,
    item: PlanItem,
    plan1: Seq<PlanItem>,
    cursors1: Seq<usize>,
)
    requires
        merge_step_pre(tracks, plan0, cursors0, k, item, plan1, cursors1),
    ensures
        merge_inv(tracks, plan1, cursors1),
        remaining_from(tracks, cursors1, 0) == remaining_from(tracks, cursors0, 0) - 1,
{
    reveal(merge_inv);
    lemma_step_order(tracks, plan0, cursors0, k, item, plan1, cursors1);
    lemma_step_flags_first(tracks, plan0, cursors0, k, item, plan1);
    lemma_step_flags_rest(tracks, plan0, cursors0, k, item, plan1, cursors1);
    lemma_step_counts(tracks, plan0, cursors0, k, item, plan1, cursors1);
    lemma_step_misc(tracks, plan0, cursors0, k, item, plan1, cursors1);
}

/// A fresh merge state satisfies the invariant: every cursor at its
/// window start, nothing planned yet.
proof fn lemma_merge_init(tracks: Seq<PlanTrack>, cursors: Seq<usize>)
    requires
        forall|i: int| 0 <= i < tracks.len() ==> plan_track_wf(#[trigger] tracks[i]),
        cursors.len() == tracks.len(),
        forall|t: int| 0 <= t < tracks.len() ==> #[trigger] cursors[t] == tracks[t].window.start_index,
    ensures
        merge_inv(tracks, Seq::<PlanItem>::empty(), cursors),
{
    reveal(merge_inv);
}

/// The merge invariant gives the cursors' well-formedness.
proof fn lemma_merge_inv_cursors_wf(
    tracks: Seq<PlanTrack>,
    plan: Seq<PlanItem>,
    cursors: Seq<usize>,
)
    requires
        merge_inv(tracks, plan, cursors),
    ensures
        cursors_wf(tracks, cursors),
{
    reveal(merge_inv);
}

/// A finished merge (all cursors exhausted) delivers the plan's contract.
proof fn lemma_merge_done(tracks: Seq<PlanTrack>, plan: Seq<PlanItem>, cursors: Seq<usize>)
    requires
        merge_inv(tracks, plan, cursors),
        forall|t: int| 0 <= t < tracks.len() ==> !cursor_active(tracks[t], #[trigger] cursors[t]),
    ensures
        plan_sorted(tracks, plan),
        plan_flags_first(plan),
        forall|a: int| 0 <= a < plan.len() ==> item_in_window(tracks, #[trigger] plan[a]),
        forall|a: int, b: int|
            0 <= a < b < plan.len() && (#[trigger] plan[a]).track == (#[trigger] plan[b]).track
                ==> plan[a].sample_index < plan[b].sample_index,
        forall|t: int|
            0 <= t < tracks.len() ==> track_count(plan, t) == window_len(#[trigger] tracks[t]),
        forall|a: int|
            0 <= a < plan.len() && (#[trigger] plan[a]).first_of_track ==> plan[a].sample_index
                == tracks[plan[a].track as int].window.start_index,
{
    reveal(merge_inv);
    assert forall|t: int| 0 <= t < tracks.len() implies track_count(plan, t) == window_len(
        tracks[t],
    ) by {
        assert(!cursor_active(tracks[t], cursors[t]));
    }
}

/// Builds the full output plan: a timestamp-ordered interleaving of all
/// tracks' windows in which each track's samples appear in index order,
/// exactly its window's worth of them, the first one flagged.
pub fn build_plan(tracks: &Vec<PlanTrack>) -> (plan: Vec<PlanItem>)
    requires
        forall|t: int| 0 <= t < tracks@.len() ==> plan_track_wf(#[trigger] tracks@[t]),
    ensures
        plan_sorted(tracks@, plan@),
        plan_flags_first(plan@),
        forall|a: int| 0 <= a < plan@.len() ==> item_in_window(tracks@, #[trigger] plan@[a]),
        forall|a: int, b: int|
            0 <= a < b < plan@.len() && (#[trigger] plan@[a]).track == (#[trigger] plan@[b]).track
                ==> plan@[a].sample_index < plan@[b].sample_index,
        forall|t: int|
            0 <= t < tracks@.len() ==> track_count(plan@, t) == window_len(#[trigger] tracks@[t]),
        forall|a: int|
            0 <= a < plan@.len() && (#[trigger] plan@[a]).first_of_track ==> plan@[a].sample_index
                == tracks@[plan@[a].track as int].window.start_index,
{
    let n = tracks.len();
    let mut cursors: Vec<usize> = Vec::new();
    let mut t: usize = 0;
    while t < n
        invariant
            forall|i: int| 0 <= i < tracks@.len() ==> plan_track_wf(#[trigger] tracks@[i]),
            n == tracks@.len(),
            0 <= t <= n,
            cursors@.len() == t,
            forall|i: int|
                0 <= i < t ==> #[trigger] cursors@[i] == tracks@[i].window.start_index,
        decreases n - t,
    {
        cursors.push(tracks[t].window.start_index);
        t = t + 1;
    }
    let mut plan: Vec<PlanItem> = Vec::new();
    proof {
        lemma_merge_init(tracks@, cursors@);
    }
    loop
        invariant
            forall|i: int| 0 <= i < tracks@.len() ==> plan_track_wf(#[trigger] tracks@[i]),
            n == tracks@.len(),
            merge_inv(tracks@, plan@, cursors@),
        ensures
            merge_inv(tracks@, plan@, cursors@),
            forall|t: int|
                0 <= t < tracks@.len() ==> !cursor_active(tracks@[t], #[trigger] cursors@[t]),
        decreases remaining_from(tracks@, cursors@, 0),
    {
        proof {
            lemma_merge_inv_cursors_wf(tracks@, plan@, cursors@);
            lemma_remaining_nonneg(tracks@, cursors@, 0);
        }
        let picked = pick_next(tracks, &cursors);
        let Some(k) = picked else { break };
        let c = cursors[k];
        let first = c == tracks[k].window.start_index;
        let item = PlanItem { track: k, sample_index: c, first_of_track: first };
        let ghost plan0 = plan@;
        let ghost cursors0 = cursors@;
        plan.push(item);
        cursors.set(k, c + 1);
        proof {
            assert(plan@ == plan0.push(item));
            assert(cursors@ == cursors0.update(k as int, (cursors0[k as int] + 1) as usize));
            assert(merge_step_pre(tracks@, plan0, cursors0, k as int, item, plan@, cursors@));
            lemma_remaining_pos(tracks@, cursors0, k as int, 0);
            lemma_merge_step(tracks@, plan0, cursors0, k as int, item, plan@, cursors@);
            assert(remaining_from(tracks@, cursors@, 0) == remaining_from(tracks@, cursors0, 0)
                - 1);
        }
    }
    proof {
        lemma_merge_done(tracks@, plan@, cursors@);
    }
    plan
}

} // verus!
