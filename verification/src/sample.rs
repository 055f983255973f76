//! Plain per-sample model of a track and the time-window resolver.
//!
//! A track's sample table is mirrored as a `Vec<SampleMeta>` whose
//! timestamps are the running sum of the durations (`table_wf`).  On that
//! model the resolver turns a `[start_tick, end_tick)` range into an
//! inclusive window of 1-based sample indices, snapping the start of a
//! video track back to the nearest preceding synchronization sample.
use vstd::prelude::*;

verus! {

/// Kind of an elementary stream that extraction accepts.
#[derive(Clone, Copy, PartialEq, Eq, Structural, Debug)]
pub enum TrackKind {
    /// A video track (`vide` handler).
    Video,
    /// An audio track (`soun` handler).
    Audio,
}

/// One coded access unit of a track, reduced to the plain values the
/// extraction logic reads.
#[derive(Clone, Copy, PartialEq, Eq, Structural, Debug)]
pub struct SampleMeta {
    /// Decode timestamp in track ticks: the sum of the durations of all
    /// earlier samples of the track.
    pub timestamp: u64,
    /// Duration in track ticks.
    pub duration: u32,
    /// Whether the sample is a synchronization point (keyframe).
    pub is_sync: bool,
    /// Byte position of the payload within the source file.
    pub data_offset: u64,
    /// Byte size of the payload.
    pub data_size: u32,
}

/// First tick past the interval a sample covers.
pub open spec fn sample_end(s: SampleMeta) -> int {
    s.timestamp + s.duration
}

/// The timestamps are the running sum of the durations, starting at zero:
/// sample `i + 1` starts exactly where sample `i` ends.
pub open spec fn table_wf(s: Seq<SampleMeta>) -> bool {
    &&& s.len() > 0 ==> s[0].timestamp == 0
    &&& forall|i: int|
        0 <= i && i + 1 < s.len() ==> #[trigger] s[i + 1].timestamp == sample_end(s[i])
}

/// In a well-formed table, a sample ends no later than any later sample starts.
pub proof fn lemma_table_ordered(s: Seq<SampleMeta>, i: int, j: int)
    requires
        table_wf(s),
        0 <= i < j < s.len(),
    ensures
        sample_end(s[i]) <= s[j].timestamp,
    decreases j - i,
{
    if j == i + 1 {
    } else {
        lemma_table_ordered(s, i + 1, j);
    }
}

/// `i` is the 0-based index of the first sample whose interval has not
/// ended at `tick`: the sample covering `tick`, or the first one after it.
pub open spec fn first_cover(s: Seq<SampleMeta>, tick: u64, i: int) -> bool {
    &&& 0 <= i < s.len()
    &&& tick < sample_end(s[i])
    &&& forall|j: int| 0 <= j < i ==> tick >= sample_end(#[trigger] s[j])
}

/// Some sample's interval has not ended at `tick`.
pub open spec fn has_cover(s: Seq<SampleMeta>, tick: u64) -> bool {
    exists|i: int| first_cover(s, tick, i)
}

/// In a well-formed table the first covering sample starts at or before `tick`.
pub proof fn lemma_first_cover_starts_before(s: Seq<SampleMeta>, tick: u64, i: int)
    requires
        table_wf(s),
        first_cover(s, tick, i),
    ensures
        s[i].timestamp <= tick,
{
    if i == 0 {
    } else {
        assert(tick >= sample_end(s[i - 1]));
        assert(s[(i - 1) + 1].timestamp == sample_end(s[i - 1]));
    }
}

/// The first covering index only grows with the tick.
pub proof fn lemma_first_cover_monotone(s: Seq<SampleMeta>, t1: u64, i1: int, t2: u64, i2: int)
    requires
        t1 <= t2,
        first_cover(s, t1, i1),
        first_cover(s, t2, i2),
    ensures
        i1 <= i2,
{
    if i2 < i1 {
        assert(t1 >= sample_end(s[i2]));
    }
}

/// Returns the 1-based index of the sample covering or immediately
/// following `tick`, or `None` when every sample ends at or before `tick`.
pub fn find_sample_at(samples: &Vec<SampleMeta>, tick: u64) -> (r: Option<usize>)
    ensures
        match r {
            Some(i) => 1 <= i <= samples@.len() && first_cover(samples@, tick, i - 1),
            None => !has_cover(samples@, tick),
        },
{
    let n = samples.len();
    let mut i: usize = 0;
    while i < n
        invariant
            0 <= i <= n == samples@.len(),
            forall|j: int| 0 <= j < i ==> tick >= sample_end(#[trigger] samples@[j]),
        decreases n - i,
    {
        let s = samples[i];
        if (tick as u128) < (s.timestamp as u128) + (s.duration as u128) {
            return Some(i + 1);
        }
        i = i + 1;
    }
    None
}

/// `j` is the 0-based index of the nearest synchronization sample at or
/// before index `i`.
pub open spec fn sync_snap(s: Seq<SampleMeta>, i: int, j: int) -> bool {
    &&& 0 <= j <= i < s.len()
    &&& s[j].is_sync
    &&& forall|k: int| j < k <= i ==> !(#[trigger] s[k]).is_sync
}

/// Returns the 1-based index of the nearest synchronization sample at or
/// before the 1-based index `i`, or `None` when there is none.
pub fn find_sync_before(samples: &Vec<SampleMeta>, i: usize) -> (r: Option<usize>)
    requires
        1 <= i <= samples@.len(),
    ensures
        match r {
            Some(j) => 1 <= j <= i && sync_snap(samples@, i - 1, j - 1),
            None => forall|k: int| 0 <= k < i ==> !(#[trigger] samples@[k]).is_sync,
        },
{
    let mut j: usize = i;
    while j > 0
        invariant
            0 <= j <= i <= samples@.len(),
            forall|k: int| j <= k < i ==> !(#[trigger] samples@[k]).is_sync,
        decreases j,
    {
        if samples[j - 1].is_sync {
            return Some(j);
        }
        j = j - 1;
    }
    None
}

/// Inclusive range of 1-based sample indices selected for extraction.
#[derive(Clone, Copy, PartialEq, Eq, Structural, Debug)]
pub struct SampleWindow {
    /// 1-based index of the first extracted sample.
    pub start_index: usize,
    /// 1-based index of the last extracted sample.
    pub end_index: usize,
}

/// Validity of a window for a given table and track kind: the indices are
/// ordered, within range, and a video window starts on a keyframe.
pub open spec fn window_wf(w: SampleWindow, s: Seq<SampleMeta>, kind: TrackKind) -> bool {
    &&& 1 <= w.start_index <= w.end_index <= s.len()
    &&& kind == TrackKind::Video ==> s[w.start_index - 1].is_sync
}

/// Why a `[start_tick, end_tick)` range cannot be resolved on a track.
#[derive(Clone, Copy, PartialEq, Eq, Structural, Debug)]
pub enum WindowError {
    /// No sample covers or follows the requested start tick.
    NoSampleAtTime,
    /// The track is video and no synchronization sample exists at or
    /// before the start sample.
    NoPrecedingKeyframe,
}

/// The window that `resolve_window` owes on success: the start is the
/// first sample at `start_tick` (snapped back to a keyframe for video)
/// and the end is the first sample at `end_tick`, clamped to the last
/// sample when the range runs past the end of the track.
pub open spec fn resolved_window(
    s: Seq<SampleMeta>,
    kind: TrackKind,
    start_tick: u64,
    end_tick: u64,
    w: SampleWindow,
) -> bool {
    exists|i: int|
        #[trigger] first_cover(s, start_tick, i) && {
            &&& if kind == TrackKind::Video {
                sync_snap(s, i, w.start_index - 1)
            } else {
                w.start_index == i + 1
            }
            &&& if has_cover(s, end_tick) {
                first_cover(s, end_tick, w.end_index - 1)
            } else {
                w.end_index == s.len()
            }
        }
}

/// Computes the extraction window of one track for `[start_tick, end_tick)`.
///
/// The start index is the sample covering or immediately following
/// `start_tick`; for video it is snapped back to the nearest preceding
/// synchronization sample.  The end index is the sample covering or
/// immediately following `end_tick`, or the last sample when the range
/// extends past the end of the track.
pub fn resolve_window(
    samples: &Vec<SampleMeta>,
    kind: TrackKind,
    start_tick: u64,
    end_tick: u64,
) -> (r: Result<SampleWindow, WindowError>)
    requires
        table_wf(samples@),
        start_tick <= end_tick,
    ensures
        match r {
            Ok(w) => window_wf(w, samples@, kind) && resolved_window(
                samples@,
                kind,
                start_tick,
                end_tick,
                w,
            ),
            Err(WindowError::NoSampleAtTime) => !has_cover(samples@, start_tick),
            Err(WindowError::NoPrecedingKeyframe) => kind == TrackKind::Video && exists|i: int|
                #[trigger] first_cover(samples@, start_tick, i) && forall|k: int|
                    0 <= k <= i ==> !(#[trigger] samples@[k]).is_sync,
        },
{
    let Some(first) = find_sample_at(samples, start_tick) else {
        return Err(WindowError::NoSampleAtTime);
    };
    let start_index = if kind == TrackKind::Video {
        let Some(snapped) = find_sync_before(samples, first) else {
            return Err(WindowError::NoPrecedingKeyframe);
        };
        snapped
    } else {
        first
    };
    let end_index = match find_sample_at(samples, end_tick) {
        Some(e) => e,
        None => samples.len(),
    };
    proof {
        if has_cover(samples@, end_tick) {
            lemma_first_cover_monotone(
                samples@,
                start_tick,
                first - 1,
                end_tick,
                end_index - 1,
            );
        }
    }
    Ok(SampleWindow { start_index, end_index })
}

} // verus!
