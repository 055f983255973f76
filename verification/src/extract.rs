//! The extraction driver: decode, window resolution, interleaved
//! writing, and the reserve-then-patch metadata protocol.
//!
//! `extract` turns a source file's bytes and a `[start, end)` range in
//! microseconds into a complete output file image plus one record per
//! written sample.  Its contract pins the records down: normalized
//! timestamps never decrease, byte offsets are gapless, every track
//! carries its codec descriptor exactly once, and a video track's first
//! written sample is a keyframe.
use vstd::prelude::*;

use crate::container::{
    decode_ok, decode_root_boxes, decode_roots, estimate_metadata_size, faststart_of,
    finalized_is_faststart, finalized_moov_size, finalized_pairs, has_moov, is_moov,
    metadata_size_bound, moov_at, moov_size_of, moov_tracks, moov_traks, mux_append,
    mux_finalize, mux_initial_bytes, mux_new, new_sample_table, sample_entry_at, table_get,
    table_len, table_ok, table_samples, track_handler, track_timescale, trak_handler_of,
    trak_samples, trak_timescale_of,
};
use crate::sample::{
    SampleMeta, SampleWindow, TrackKind, WindowError, first_cover, has_cover,
    lemma_first_cover_monotone, resolve_window, sync_snap, table_wf, window_wf,
};
use shiguredo_mp4::mux::FinalizedBoxes;
use crate::schedule::{
    NANOS_PER_SECOND, PlanItem, PlanTrack, build_plan, item_in_window, lemma_ts_after_base,
    norm_item, norm_of, plan_flags_first, plan_sorted, plan_track_wf, track_count, window_len,
};
use shiguredo_mp4::aux::SampleTableAccessor;
use shiguredo_mp4::boxes::{SampleEntry, StblBox, TrakBox};
use shiguredo_mp4::mux::Mp4FileMuxer;
use vstd::arithmetic::div_mod::lemma_div_is_ordered;
use vstd::arithmetic::mul::{lemma_mul_inequality, lemma_mul_upper_bound};

verus! {

/// Why an extraction failed.
#[derive(Clone, Debug, PartialEq, Eq)]
pub enum ExtractError {
    /// The end of the range does not lie after its start.
    InvalidTimeRange,
    /// The input could not be decoded as a container file.
    Decode(String),
    /// The file has no `moov` metadata box.
    MoovNotFound,
    /// The file has no video or audio track.
    NoTracks,
    /// A track's sample table could not be interpreted.
    SampleTable(String),
    /// No sample covers or follows the requested start time.
    NoSampleAtTime,
    /// A video track has no keyframe at or before the requested start.
    NoPrecedingKeyframe,
    /// A sample's payload range lies outside the source file.
    SampleOutOfBounds,
    /// The muxer refused initialization, a sample, or finalization.
    Muxer(String),
    /// The final metadata outgrew the reserved space.
    MetadataOverflow,
    /// A track's sample table holds more samples than this machine can index.
    TableTooLarge,
    /// A finalize patch lies beyond what this machine can index.
    PatchOutOfRange,
}

/// Value `x` clamped to the `u64` range.
pub open spec fn sat_u64(x: int) -> int {
    if x > u64::MAX {
        u64::MAX as int
    } else {
        x
    }
}

/// Converts a time in microseconds to a track's ticks, rounding down and
/// clamping to the `u64` range.
pub fn ticks_from_micros(micros: u64, timescale: u32) -> (r: u64)
    requires
        timescale >= 1,
    ensures
        r == sat_u64((micros as int) * (timescale as int) / 1_000_000),
{
    proof {
        lemma_mul_upper_bound(micros as int, u64::MAX as int, timescale as int, u32::MAX as int);
    }
    let wide: u128 = (micros as u128) * (timescale as u128) / 1_000_000;
    if wide > u64::MAX as u128 {
        u64::MAX
    } else {
        wide as u64
    }
}

/// Tick conversion preserves the order of times.
pub proof fn lemma_ticks_monotone(us1: u64, us2: u64, timescale: u32)
    requires
        us1 <= us2,
        timescale >= 1,
    ensures
        sat_u64((us1 as int) * (timescale as int) / 1_000_000) <= sat_u64(
            (us2 as int) * (timescale as int) / 1_000_000,
        ),
{
    lemma_mul_inequality(us1 as int, us2 as int, timescale as int);
    lemma_div_is_ordered(
        (us1 as int) * (timescale as int),
        (us2 as int) * (timescale as int),
        1_000_000,
    );
}

/// One written sample as reported to the caller: everything the
/// metadata protocol was told about it.
#[derive(Clone, Copy, PartialEq, Eq, Structural, Debug)]
pub struct OutputRecord {
    /// 0-based position of the sample's track in registration order.
    pub track: usize,
    /// Kind of the track.
    pub kind: TrackKind,
    /// Whether the codec descriptor was attached to this sample.
    pub has_entry: bool,
    /// Whether the sample is a synchronization sample.
    pub keyframe: bool,
    /// Ticks per second of the track.
    pub timescale: u32,
    /// Duration in track ticks.
    pub duration: u32,
    /// Timestamp in track ticks, rebased to the track's first written sample.
    pub rel_timestamp: u64,
    /// Byte offset of the payload in the output.
    pub data_offset: u64,
    /// Byte size of the payload.
    pub data_size: u32,
}

/// Normalized timestamps never decrease along the records.
pub open spec fn records_time_ordered(records: Seq<OutputRecord>) -> bool {
    forall|i: int, j: int|
        0 <= i < j < records.len() ==> norm_of(
            (#[trigger] records[i]).rel_timestamp as int,
            records[i].timescale as int,
        ) <= norm_of((#[trigger] records[j]).rel_timestamp as int, records[j].timescale as int)
}

/// A record carries the codec descriptor exactly when it is the first
/// record of its track.
pub open spec fn entries_once(records: Seq<OutputRecord>) -> bool {
    forall|i: int|
        0 <= i < records.len() ==> ((#[trigger] records[i]).has_entry <==> (forall|j: int|
            0 <= j < i ==> (#[trigger] records[j]).track != records[i].track))
}

/// A video track's first written sample is a synchronization sample.
pub open spec fn video_first_is_sync(records: Seq<OutputRecord>) -> bool {
    forall|i: int|
        0 <= i < records.len() && (#[trigger] records[i]).has_entry && records[i].kind
            == TrackKind::Video ==> records[i].keyframe
}

/// The records' payloads sit back to back: the first at `initial`, each
/// following one exactly where its predecessor ended.
pub open spec fn offsets_contiguous(records: Seq<OutputRecord>, initial: int) -> bool {
    &&& records.len() > 0 ==> records[0].data_offset == initial
    &&& forall|i: int|
        0 <= i && i + 1 < records.len() ==> (#[trigger] records[i + 1]).data_offset == records[
            i
        ].data_offset + records[i].data_size
}

/// Total payload size of the first `n` records.
pub open spec fn size_of_prefix(records: Seq<OutputRecord>, n: int) -> int
    decreases n,
{
    if n <= 0 {
        0
    } else {
        size_of_prefix(records, n - 1) + records[n - 1].data_size
    }
}

/// With contiguous offsets, the offset of record `i` is the initial
/// offset plus the total size of everything written before it.
pub proof fn lemma_offset_is_prefix_sum(records: Seq<OutputRecord>, initial: int, i: int)
    requires
        offsets_contiguous(records, initial),
        0 <= i < records.len(),
    ensures
        records[i].data_offset == initial + size_of_prefix(records, i),
    decreases i,
{
    if i > 0 {
        lemma_offset_is_prefix_sum(records, initial, i - 1);
        assert(records[(i - 1) + 1].data_offset == records[i - 1].data_offset + records[i
            - 1].data_size);
    }
}

/// How one output record mirrors one plan item.
pub open spec fn record_matches(tracks: Seq<PlanTrack>, it: PlanItem, rec: OutputRecord) -> bool {
    &&& item_in_window(tracks, it)
    &&& rec.track == it.track
    &&& rec.has_entry == it.first_of_track
    &&& rec.kind == tracks[it.track as int].kind
    &&& rec.timescale == tracks[it.track as int].timescale
    &&& rec.keyframe == tracks[it.track as int].samples@[it.sample_index - 1].is_sync
    &&& rec.duration == tracks[it.track as int].samples@[it.sample_index - 1].duration
    &&& rec.data_size == tracks[it.track as int].samples@[it.sample_index - 1].data_size
    &&& rec.rel_timestamp == tracks[it.track as int].samples@[it.sample_index - 1].timestamp
        - tracks[it.track as int].base_timestamp
}

/// Records that mirror a plan inherit its guarantees: time order, one
/// descriptor per track, and keyframe-aligned video starts.
#[verifier::spinoff_prover]
#[verifier::rlimit(100)]
pub proof fn lemma_records_from_plan(
    tracks: Seq<PlanTrack>,
    plan: Seq<PlanItem>,
    records: Seq<OutputRecord>,
)
    requires
        forall|t: int| 0 <= t < tracks.len() ==> plan_track_wf(#[trigger] tracks[t]),
        plan_sorted(tracks, plan),
        plan_flags_first(plan),
        forall|a: int|
            0 <= a < plan.len() && (#[trigger] plan[a]).first_of_track ==> plan[a].sample_index
                == tracks[plan[a].track as int].window.start_index,
        records.len() == plan.len(),
        forall|i: int| 0 <= i < plan.len() ==> record_matches(tracks, #[trigger] plan[i], records[i]),
    ensures
        records_time_ordered(records),
        entries_once(records),
        video_first_is_sync(records),
{
    assert forall|i: int, j: int| 0 <= i < j < records.len() implies norm_of(
        (#[trigger] records[i]).rel_timestamp as int,
        records[i].timescale as int,
    ) <= norm_of((#[trigger] records[j]).rel_timestamp as int, records[j].timescale as int) by {
        assert(record_matches(tracks, plan[i], records[i]));
        assert(record_matches(tracks, plan[j], records[j]));
        assert(norm_item(tracks, plan[i]) <= norm_item(tracks, plan[j]));
    }
    assert forall|i: int| 0 <= i < records.len() implies ((#[trigger] records[i]).has_entry
        <==> (forall|j: int| 0 <= j < i ==> (#[trigger] records[j]).track != records[i].track)) by {
        assert(record_matches(tracks, plan[i], records[i]));
        if records[i].has_entry {
            assert forall|j: int| 0 <= j < i implies (#[trigger] records[j]).track != records[
                i
            ].track by {
                assert(record_matches(tracks, plan[j], records[j]));
                assert(plan[j].track != plan[i].track);
            }
        } else {
            assert(!(forall|b: int| 0 <= b < i ==> (#[trigger] plan[b]).track != plan[i].track));
            let w = choose|b: int| 0 <= b < i && (#[trigger] plan[b]).track == plan[i].track;
            assert(record_matches(tracks, plan[w], records[w]));
            assert(records[w].track == records[i].track);
        }
    }
    assert forall|i: int|
        0 <= i < records.len() && (#[trigger] records[i]).has_entry && records[i].kind
            == TrackKind::Video implies records[i].keyframe by {
        assert(record_matches(tracks, plan[i], records[i]));
        let t = plan[i].track as int;
        assert(plan_track_wf(tracks[t]));
        assert(plan[i].sample_index == tracks[t].window.start_index);
        assert(window_wf(tracks[t].window, tracks[t].samples@, tracks[t].kind));
    }
}

/// Per-track result of an extraction.
#[derive(Clone, Copy, PartialEq, Eq, Structural, Debug)]
pub struct TrackSummary {
    /// Kind of the track.
    pub kind: TrackKind,
    /// Ticks per second of the track.
    pub timescale: u32,
    /// Timestamp of the first written sample, in track ticks.
    pub start_timestamp: u64,
    /// Number of samples written for the track.
    pub sample_count: usize,
}

/// The complete result of an extraction.
#[derive(Debug)]
pub struct ExtractOutput {
    /// The output file, byte for byte.
    pub bytes: Vec<u8>,
    /// One record per written sample, in output order.
    pub records: Vec<OutputRecord>,
    /// One summary per extracted track, in registration order.
    pub summaries: Vec<TrackSummary>,
    /// Byte length of the initial placeholder structure.
    pub initial_offset: u64,
    /// Bytes reserved for the final metadata box.
    pub reserved_metadata_size: usize,
    /// Actual byte size of the final metadata box.
    pub metadata_size: usize,
    /// Whether the metadata landed before the media data.
    pub faststart: bool,
    /// The finalized metadata boxes the patches came from.
    pub finalized: FinalizedBoxes,
}

/// Appends `src[off .. off + len]` to `out`.
fn append_from(out: &mut Vec<u8>, src: &[u8], off: usize, len: usize)
    requires
        off + len <= src@.len(),
        off + len <= usize::MAX,
    ensures
        final(out)@ == old(out)@ + src@.subrange(off as int, off as int + len as int),
{
    let mut k: usize = 0;
    while k < len
        invariant
            off + len <= src@.len(),
            off + len <= usize::MAX,
            0 <= k <= len,
            out@ == old(out)@ + src@.subrange(off as int, off as int + k as int),
        decreases len - k,
    {
        out.push(src[off + k]);
        proof {
            assert(out@ =~= old(out)@ + src@.subrange(off as int, off as int + (k + 1) as int));
        }
        k = k + 1;
    }
}

/// Overwrites `out` at `offset` with `bytes`, extending it as a seek
/// past the end of a file would: the gap, if any, is zero-filled.
pub fn apply_patch(out: &mut Vec<u8>, offset: u64, bytes: &Vec<u8>)
    requires
        offset + bytes@.len() <= usize::MAX,
    ensures
        final(out)@.len() == if offset + bytes@.len() > old(out)@.len() {
            offset + bytes@.len()
        } else {
            old(out)@.len() as int
        },
        forall|i: int|
            0 <= i < final(out)@.len() ==> final(out)@[i] == (if offset <= i < offset
                + bytes@.len() {
                bytes@[i - offset]
            } else if i < old(out)@.len() {
                old(out)@[i]
            } else {
                0u8
            }),
{
    let target: usize = offset as usize;
    while out.len() < target
        invariant
            offset + bytes@.len() <= usize::MAX,
            target == offset,
            out@.len() <= target || out@.len() == old(out)@.len(),
            out@.len() >= old(out)@.len(),
            forall|i: int|
                0 <= i < out@.len() ==> out@[i] == (if i < old(out)@.len() {
                    old(out)@[i]
                } else {
                    0u8
                }),
        decreases target - out@.len(),
    {
        out.push(0u8);
    }
    let mut k: usize = 0;
    while k < bytes.len()
        invariant
            offset + bytes@.len() <= usize::MAX,
            target == offset,
            0 <= k <= bytes@.len(),
            out@.len() >= old(out)@.len(),
            out@.len() >= target,
            out@.len() == if target + k > old(out)@.len() {
                (target + k) as int
            } else {
                old(out)@.len() as int
            },
            forall|i: int|
                0 <= i < out@.len() ==> out@[i] == (if target <= i < target + k {
                    bytes@[i - target]
                } else if i < old(out)@.len() {
                    old(out)@[i]
                } else {
                    0u8
                }),
        decreases bytes@.len() - k,
    {
        let pos: usize = target + k;
        let b = bytes[k];
        if pos < out.len() {
            out.set(pos, b);
        } else {
            out.push(b);
        }
        k = k + 1;
    }
}

/// One loaded track: the plain sample data the scheduler works on plus
/// the opaque handles the metadata protocol needs.
struct LoadedTrack {
    kind: TrackKind,
    timescale: u32,
    table: SampleTableAccessor<Box<StblBox>>,
    samples: Vec<SampleMeta>,
}

/// Mirrors the sample table behind `table` into a plain vector.
fn load_samples(table: &SampleTableAccessor<Box<StblBox>>) -> (r: Option<Vec<SampleMeta>>)
    ensures
        match r {
            Some(v) => v@ == table_samples(*table) && v@.len() < usize::MAX && v@.len()
                <= u32::MAX,
            None => table_samples(*table).len() >= usize::MAX,
        },
{
    let n: u32 = table_len(table);
    if n as usize == usize::MAX {
        return None;
    }
    let mut samples: Vec<SampleMeta> = Vec::new();
    let mut i: u32 = 0;
    while i < n
        invariant
            n == table_samples(*table).len(),
            n < usize::MAX,
            0 <= i <= n,
            samples@ =~= table_samples(*table).subrange(0, i as int),
        decreases n - i,
    {
        let Some(s) = table_get(table, i + 1) else {
            proof {
                assert(false);
            }
            return None;
        };
        samples.push(s);
        proof {
            assert(samples@ =~= table_samples(*table).subrange(0, i + 1));
        }
        i = i + 1;
    }
    proof {
        assert(samples@ =~= table_samples(*table));
    }
    Some(samples)
}

/// Validity of a loaded track.
spec fn loaded_wf(t: LoadedTrack) -> bool {
    &&& t.timescale >= 1
    &&& t.samples@ == table_samples(t.table)
    &&& table_wf(t.samples@)
    &&& t.samples@.len() < usize::MAX
    &&& t.samples@.len() <= u32::MAX
}

/// The handler tag of a video track: the ASCII bytes of `vide`.
pub open spec fn vide_tag() -> Seq<u8> {
    seq![118u8, 105u8, 100u8, 101u8]
}

/// The handler tag of an audio track: the ASCII bytes of `soun`.
pub open spec fn soun_tag() -> Seq<u8> {
    seq![115u8, 111u8, 117u8, 110u8]
}

/// Whether extraction selects a track: only video and audio take part.
pub open spec fn trak_selected(t: TrakBox) -> bool {
    trak_handler_of(t) == vide_tag() || trak_handler_of(t) == soun_tag()
}

/// The kind of a selected track.
pub open spec fn trak_kind_of(t: TrakBox) -> TrackKind {
    if trak_handler_of(t) == vide_tag() {
        TrackKind::Video
    } else {
        TrackKind::Audio
    }
}

/// The start tick of a track for a range starting at `start_us`.
pub open spec fn start_tick_of(t: TrakBox, start_us: u64) -> u64 {
    sat_u64((start_us as int) * (trak_timescale_of(t) as int) / 1_000_000) as u64
}

/// The stage at which preparing one track fails.
#[derive(Clone, Copy, PartialEq, Eq, Structural, Debug)]
pub enum StageFailure {
    /// The sample table could not be interpreted.
    Table,
    /// The table holds more samples than this machine can index.
    TooLarge,
    /// No sample covers or follows the start tick.
    NoSample,
    /// A video track has no keyframe at or before the start sample.
    NoKeyframe,
}

/// The failure, if any, that preparing one track for a range starting
/// at `start_us` microseconds hits; tracks that are not selected are
/// skipped and never fail.
pub open spec fn trak_failure(t: TrakBox, start_us: u64) -> Option<StageFailure> {
    if !trak_selected(t) {
        None
    } else if !table_ok(t) {
        Some(StageFailure::Table)
    } else if trak_samples(t).len() >= usize::MAX {
        Some(StageFailure::TooLarge)
    } else if !has_cover(trak_samples(t), start_tick_of(t, start_us)) {
        Some(StageFailure::NoSample)
    } else if trak_kind_of(t) == TrackKind::Video && (exists|i: int|
        #[trigger] first_cover(trak_samples(t), start_tick_of(t, start_us), i) && (forall|k: int|
            0 <= k <= i ==> !(#[trigger] trak_samples(t)[k]).is_sync)) {
        Some(StageFailure::NoKeyframe)
    } else {
        None
    }
}

/// The first failure among the traks from position `i` on, in order.
pub open spec fn stage_scan_from(traks: Seq<TrakBox>, start_us: u64, i: int) -> Option<
    StageFailure,
>
    decreases traks.len() - i,
{
    if i < 0 || i >= traks.len() {
        None
    } else {
        match trak_failure(traks[i], start_us) {
            Some(f) => Some(f),
            None => stage_scan_from(traks, start_us, i + 1),
        }
    }
}

/// Some trak is selected for extraction.
pub open spec fn any_selected(traks: Seq<TrakBox>) -> bool {
    exists|i: int| 0 <= i < traks.len() && trak_selected(#[trigger] traks[i])
}

/// Which error each preparation failure is reported as.
pub open spec fn err_matches_failure(f: Option<StageFailure>, e: ExtractError) -> bool {
    match f {
        Some(StageFailure::Table) => e is SampleTable,
        Some(StageFailure::TooLarge) => e == ExtractError::TableTooLarge,
        Some(StageFailure::NoSample) => e == ExtractError::NoSampleAtTime,
        Some(StageFailure::NoKeyframe) => e == ExtractError::NoPrecedingKeyframe,
        None => false,
    }
}

/// Reads one `trak` box: its kind, tick rate and mirrored sample table.
/// Tracks that are neither video nor audio yield `None` and are skipped.
fn load_track(trak: &TrakBox) -> (r: Result<Option<LoadedTrack>, ExtractError>)
    ensures
        r matches Ok(Some(t)) ==> loaded_wf(t) && trak_selected(*trak) && t.kind == trak_kind_of(
            *trak,
        ) && t.timescale == trak_timescale_of(*trak) && t.samples@ == trak_samples(*trak),
        (r == Ok::<Option<LoadedTrack>, ExtractError>(None)) == !trak_selected(*trak),
        (r matches Err(e) && e is SampleTable) == (trak_selected(*trak) && !table_ok(*trak)),
        (r == Err::<Option<LoadedTrack>, ExtractError>(ExtractError::TableTooLarge)) == (
        trak_selected(*trak) && table_ok(*trak) && trak_samples(*trak).len() >= usize::MAX),
        r matches Err(e) ==> e is SampleTable || e is TableTooLarge,
{
    let h = track_handler(trak);
    // The handler tags are the ASCII bytes of `vide` and `soun`.
    let kind = if h[0] == 118 && h[1] == 105 && h[2] == 100 && h[3] == 101 {
        proof {
            assert(h@ =~= vide_tag());
        }
        TrackKind::Video
    } else if h[0] == 115 && h[1] == 111 && h[2] == 117 && h[3] == 110 {
        proof {
            assert(h@ =~= soun_tag());
        }
        TrackKind::Audio
    } else {
        proof {
            assert(h@ != vide_tag() && h@ != soun_tag()) by {
                assert(h@[0] == h[0] && h@[1] == h[1] && h@[2] == h[2] && h@[3] == h[3]);
            }
        }
        return Ok(None);
    };
    let timescale = track_timescale(trak);
    let table = match new_sample_table(trak) {
        Ok(t) => t,
        Err(e) => {
            return Err(ExtractError::SampleTable(e));
        },
    };
    let Some(samples) = load_samples(&table) else {
        return Err(ExtractError::TableTooLarge);
    };
    Ok(Some(LoadedTrack { kind, timescale, table, samples }))
}

/// Everything collected from the input's tracks before writing begins.
struct Prepared {
    tracks: Vec<PlanTrack>,
    entries: Vec<SampleEntry>,
    summaries: Vec<TrackSummary>,
    counts: Vec<usize>,
}

/// Validity of the collected tracks.
spec fn prepared_wf(p: Prepared) -> bool {
    &&& p.tracks@.len() == p.entries@.len()
    &&& p.tracks@.len() == p.summaries@.len()
    &&& p.tracks@.len() == p.counts@.len()
    &&& forall|t: int| 0 <= t < p.tracks@.len() ==> plan_track_wf(#[trigger] p.tracks@[t])
    &&& p.counts@ == p.summaries@.map_values(|s: TrackSummary| s.sample_count)
}

/// Loads every video and audio track of the `trak` boxes and resolves
/// its extraction window for `[start_us, end_us)` microseconds.  It
/// fails exactly when some track's preparation fails, with the error of
/// the first failing stage, scanning the traks in order.
fn collect_tracks(traks: &Vec<TrakBox>, start_us: u64, end_us: u64) -> (r: Result<
    Prepared,
    ExtractError,
>)
    requires
        start_us < end_us,
    ensures
        r matches Ok(p) ==> prepared_wf(p) && (p.tracks@.len() > 0) == any_selected(traks@),
        (r is Err) == (stage_scan_from(traks@, start_us, 0) is Some),
        r matches Err(e) ==> err_matches_failure(stage_scan_from(traks@, start_us, 0), e),
{
    let mut tracks: Vec<PlanTrack> = Vec::new();
    let mut entries: Vec<SampleEntry> = Vec::new();
    let mut summaries: Vec<TrackSummary> = Vec::new();
    let mut counts: Vec<usize> = Vec::new();
    let mut ti: usize = 0;
    while ti < traks.len()
        invariant
            start_us < end_us,
            0 <= ti <= traks@.len(),
            tracks@.len() == entries@.len(),
            tracks@.len() == summaries@.len(),
            tracks@.len() == counts@.len(),
            forall|t: int| 0 <= t < tracks@.len() ==> plan_track_wf(#[trigger] tracks@[t]),
            counts@ == summaries@.map_values(|s: TrackSummary| s.sample_count),
            stage_scan_from(traks@, start_us, 0) == stage_scan_from(traks@, start_us, ti as int),
            (tracks@.len() > 0) == (exists|i: int|
                0 <= i < ti && trak_selected(#[trigger] traks@[i])),
        decreases traks@.len() - ti,
    {
        let trak = &traks[ti];
        match load_track(trak) {
            Err(e) => {
                proof {
                    assert(trak_failure(traks@[ti as int], start_us) matches Some(f)
                        && err_matches_failure(Some(f), e));
                }
                return Err(e);
            },
            Ok(None) => {
                proof {
                    assert(trak_failure(traks@[ti as int], start_us) is None);
                    assert(stage_scan_from(traks@, start_us, ti as int) == stage_scan_from(
                        traks@,
                        start_us,
                        ti + 1,
                    ));
                }
            },
            Ok(Some(lt)) => {
                let start_tick = ticks_from_micros(start_us, lt.timescale);
                let end_tick = ticks_from_micros(end_us, lt.timescale);
                proof {
                    lemma_ticks_monotone(start_us, end_us, lt.timescale);
                    vstd::arithmetic::mul::lemma_mul_nonnegative(
                        start_us as int,
                        lt.timescale as int,
                    );
                    assert(start_tick == start_tick_of(traks@[ti as int], start_us));
                }
                let window = match resolve_window(&lt.samples, lt.kind, start_tick, end_tick) {
                    Ok(w) => w,
                    Err(WindowError::NoSampleAtTime) => {
                        proof {
                            assert(trak_failure(traks@[ti as int], start_us) == Some(
                                StageFailure::NoSample,
                            ));
                        }
                        return Err(ExtractError::NoSampleAtTime);
                    },
                    Err(WindowError::NoPrecedingKeyframe) => {
                        proof {
                            assert(trak_failure(traks@[ti as int], start_us) == Some(
                                StageFailure::NoKeyframe,
                            ));
                        }
                        return Err(ExtractError::NoPrecedingKeyframe);
                    },
                };
                proof {
                    // The resolved window's keyframe-snapped start is a
                    // synchronization sample at or before the first
                    // covering sample, so no preparation stage fails.
                    assert(trak_failure(traks@[ti as int], start_us) is None) by {
                        let t = traks@[ti as int];
                        let s = trak_samples(t);
                        let tick = start_tick_of(t, start_us);
                        if trak_kind_of(t) == TrackKind::Video {
                            let ir = choose|i: int|
                                #[trigger] first_cover(s, tick, i) && sync_snap(
                                    s,
                                    i,
                                    window.start_index - 1,
                                );
                            if exists|i: int|
                                #[trigger] first_cover(s, tick, i) && (forall|k: int|
                                    0 <= k <= i ==> !(#[trigger] s[k]).is_sync) {
                                let ib = choose|i: int|
                                    #[trigger] first_cover(s, tick, i) && (forall|k: int|
                                        0 <= k <= i ==> !(#[trigger] s[k]).is_sync);
                                lemma_first_cover_monotone(s, tick, ir, tick, ib);
                                lemma_first_cover_monotone(s, tick, ib, tick, ir);
                                assert(s[window.start_index - 1].is_sync);
                            }
                        }
                    }
                    assert(stage_scan_from(traks@, start_us, ti as int) == stage_scan_from(
                        traks@,
                        start_us,
                        ti + 1,
                    ));
                }
                let Some(entry) = sample_entry_at(&lt.table, window.start_index as u32) else {
                    proof {
                        assert(false);
                    }
                    return Err(ExtractError::NoTracks);
                };
                let base = lt.samples[window.start_index - 1].timestamp;
                let wl: usize = window.end_index - window.start_index + 1;
                summaries.push(
                    TrackSummary {
                        kind: lt.kind,
                        timescale: lt.timescale,
                        start_timestamp: base,
                        sample_count: wl,
                    },
                );
                counts.push(wl);
                entries.push(entry);
                tracks.push(
                    PlanTrack {
                        kind: lt.kind,
                        timescale: lt.timescale,
                        samples: lt.samples,
                        window,
                        base_timestamp: base,
                    },
                );
                proof {
                    assert(counts@ =~= summaries@.map_values(|s: TrackSummary| s.sample_count));
                    assert(trak_selected(traks@[ti as int]));
                }
            },
        }
        ti = ti + 1;
    }
    proof {
        if any_selected(traks@) {
            let w = choose|i: int| 0 <= i < traks@.len() && trak_selected(#[trigger] traks@[i]);
            assert(0 <= w < ti && trak_selected(traks@[w]));
        }
    }
    Ok(Prepared { tracks, entries, summaries, counts })
}

/// Record `rec` of plan item `it` has its payload in `out`, byte for
/// byte as it stands in the source file.
pub open spec fn payload_preserved(
    tracks: Seq<PlanTrack>,
    it: PlanItem,
    rec: OutputRecord,
    file: Seq<u8>,
    out: Seq<u8>,
) -> bool {
    let src = tracks[it.track as int].samples@[it.sample_index - 1];
    &&& rec.data_offset + rec.data_size <= out.len()
    &&& src.data_offset + src.data_size <= file.len()
    &&& out.subrange(
        rec.data_offset as int,
        rec.data_offset + rec.data_size,
    ) == file.subrange(src.data_offset as int, src.data_offset + src.data_size)
}

/// Streams every planned sample: appends its payload to `out` and hands
/// its record to the muxer, at the offset where the payload landed.
fn write_samples(
    file_data: &[u8],
    tracks: &Vec<PlanTrack>,
    entries: &Vec<SampleEntry>,
    plan: &Vec<PlanItem>,
    muxer: &mut Mp4FileMuxer,
    out: &mut Vec<u8>,
) -> (r: Result<Vec<OutputRecord>, ExtractError>)
    requires
        forall|t: int| 0 <= t < tracks@.len() ==> plan_track_wf(#[trigger] tracks@[t]),
        forall|a: int| 0 <= a < plan@.len() ==> item_in_window(tracks@, #[trigger] plan@[a]),
        entries@.len() == tracks@.len(),
    ensures
        r matches Ok(records) ==> {
            &&& records@.len() == plan@.len()
            &&& forall|i: int|
                0 <= i < plan@.len() ==> record_matches(tracks@, #[trigger] plan@[i], records@[i])
            &&& offsets_contiguous(records@, old(out)@.len() as int)
            &&& final(out)@.len() >= old(out)@.len()
            &&& final(out)@.subrange(0, old(out)@.len() as int) == old(out)@
            &&& forall|i: int|
                0 <= i < plan@.len() ==> payload_preserved(
                    tracks@,
                    #[trigger] plan@[i],
                    records@[i],
                    file_data@,
                    final(out)@,
                )
        },
        r matches Err(e) ==> e is Muxer || e is SampleOutOfBounds,
{
    let initial: usize = out.len();
    let mut records: Vec<OutputRecord> = Vec::new();
    let mut pi: usize = 0;
    while pi < plan.len()
        invariant
            forall|t: int| 0 <= t < tracks@.len() ==> plan_track_wf(#[trigger] tracks@[t]),
            forall|a: int| 0 <= a < plan@.len() ==> item_in_window(tracks@, #[trigger] plan@[a]),
            entries@.len() == tracks@.len(),
            initial == old(out)@.len(),
            0 <= pi <= plan@.len(),
            records@.len() == pi,
            forall|i: int|
                0 <= i < pi ==> record_matches(tracks@, #[trigger] plan@[i], records@[i]),
            offsets_contiguous(records@, initial as int),
            records@.len() == 0 ==> out@.len() == initial,
            records@.len() > 0 ==> records@.last().data_offset + records@.last().data_size
                == out@.len(),
            out@.len() >= initial,
            out@.subrange(0, initial as int) == old(out)@,
            forall|i: int|
                0 <= i < pi ==> payload_preserved(
                    tracks@,
                    #[trigger] plan@[i],
                    records@[i],
                    file_data@,
                    out@,
                ),
        decreases plan@.len() - pi,
    {
        let it = plan[pi];
        let t = &tracks[it.track];
        let s = t.samples[it.sample_index - 1];
        let cur: u64 = out.len() as u64;
        if (s.data_offset as u128) + (s.data_size as u128) > file_data.len() as u128 {
            return Err(ExtractError::SampleOutOfBounds);
        }
        let ghost out0 = out@;
        append_from(&mut *out, file_data, s.data_offset as usize, s.data_size as usize);
        proof {
            // Appending touches nothing below the old length: every
            // range already written, and the initial prefix, stand.
            assert(out@.subrange(0, initial as int) =~= out0.subrange(0, initial as int));
            assert forall|i: int| 0 <= i < pi implies payload_preserved(
                tracks@,
                #[trigger] plan@[i],
                records@[i],
                file_data@,
                out@,
            ) by {
                let a = records@[i].data_offset as int;
                let b = records@[i].data_offset + records@[i].data_size;
                assert(payload_preserved(tracks@, plan@[i], records@[i], file_data@, out0));
                assert(out@.subrange(a, b) =~= out0.subrange(a, b));
            }
            // The just-appended range is the source payload itself.
            assert(out@.subrange(out0.len() as int, out0.len() + s.data_size) =~= file_data@
                .subrange(s.data_offset as int, s.data_offset + s.data_size));
        }
        let entry_ref: Option<&SampleEntry> = if it.first_of_track {
            Some(&entries[it.track])
        } else {
            None
        };
        match mux_append(
            &mut *muxer,
            t.kind,
            entry_ref,
            s.is_sync,
            t.timescale,
            s.duration,
            cur,
            s.data_size,
        ) {
            Ok(()) => {},
            Err(e) => {
                return Err(ExtractError::Muxer(e));
            },
        }
        proof {
            lemma_ts_after_base(tracks@[it.track as int], it.sample_index as int);
        }
        let rec = OutputRecord {
            track: it.track,
            kind: t.kind,
            has_entry: it.first_of_track,
            keyframe: s.is_sync,
            timescale: t.timescale,
            duration: s.duration,
            rel_timestamp: s.timestamp - t.base_timestamp,
            data_offset: cur,
            data_size: s.data_size,
        };
        records.push(rec);
        pi = pi + 1;
    }
    Ok(records)
}

/// The image `s` after writing `bytes` at `offset`, as a seek-and-write
/// on a file leaves it: overwritten in place, any gap zero-filled.
pub open spec fn patched_once(s: Seq<u8>, offset: int, bytes: Seq<u8>) -> Seq<u8> {
    Seq::new(
        if offset + bytes.len() > s.len() {
            (offset + bytes.len()) as nat
        } else {
            s.len()
        },
        |i: int|
            if offset <= i < offset + bytes.len() {
                bytes[i - offset]
            } else if i < s.len() {
                s[i]
            } else {
                0u8
            },
    )
}

/// The image after the patches from position `q` on, applied in order.
pub open spec fn patched_all(s: Seq<u8>, pairs: Seq<(u64, Seq<u8>)>, q: int) -> Seq<u8>
    decreases pairs.len() - q,
{
    if q < 0 || q >= pairs.len() {
        s
    } else {
        patched_all(patched_once(s, pairs[q].0 as int, pairs[q].1), pairs, q + 1)
    }
}

/// The views of the patch pairs.
pub open spec fn pair_views(pairs: Seq<(u64, Vec<u8>)>) -> Seq<(u64, Seq<u8>)> {
    pairs.map_values(|p: (u64, Vec<u8>)| (p.0, p.1@))
}

/// Writes every finalize patch back into the output image, in order,
/// with seek-and-write semantics.
fn apply_patches(out: &mut Vec<u8>, pairs: &Vec<(u64, Vec<u8>)>) -> (r: Result<(), ExtractError>)
    ensures
        final(out)@.len() >= old(out)@.len(),
        r is Ok ==> final(out)@ == patched_all(old(out)@, pair_views(pairs@), 0),
        r matches Err(e) ==> e == ExtractError::PatchOutOfRange,
{
    let mut qi: usize = 0;
    while qi < pairs.len()
        invariant
            0 <= qi <= pairs@.len(),
            out@.len() >= old(out)@.len(),
            patched_all(out@, pair_views(pairs@), qi as int) == patched_all(
                old(out)@,
                pair_views(pairs@),
                0,
            ),
        decreases pairs@.len() - qi,
    {
        let off: u64 = pairs[qi].0;
        let plen: usize = pairs[qi].1.len();
        if (off as u128) + (plen as u128) > usize::MAX as u128 {
            return Err(ExtractError::PatchOutOfRange);
        }
        let ghost out0 = out@;
        apply_patch(&mut *out, off, &pairs[qi].1);
        proof {
            assert(pair_views(pairs@)[qi as int] == (off, pairs@[qi as int].1@));
            assert(out@ =~= patched_once(out0, off as int, pairs@[qi as int].1@));
        }
        qi = qi + 1;
    }
    Ok(())
}

/// Checks the finalized metadata against its reservation: the exact
/// size on success, `MetadataOverflow` exactly when it does not fit —
/// an oversized metadata box is never silently truncated.
pub fn check_reservation(f: &FinalizedBoxes, reserved: usize) -> (r: Result<usize, ExtractError>)
    ensures
        r matches Ok(sz) ==> sz == moov_size_of(*f) && sz <= reserved,
        (r is Err) == (moov_size_of(*f) > reserved),
        r matches Err(e) ==> e == ExtractError::MetadataOverflow,
{
    let sz = finalized_moov_size(f);
    if sz > reserved {
        Err(ExtractError::MetadataOverflow)
    } else {
        Ok(sz)
    }
}

/// Everything `extract` owes on success: the record guarantees, the
/// layout accounting, and the ties to the finalized metadata.
pub open spec fn extract_ok_post(out: ExtractOutput) -> bool {
    &&& records_time_ordered(out.records@)
    &&& entries_once(out.records@)
    &&& video_first_is_sync(out.records@)
    &&& offsets_contiguous(out.records@, out.initial_offset as int)
    &&& out.initial_offset <= out.bytes@.len()
    &&& out.metadata_size == moov_size_of(out.finalized)
    &&& out.metadata_size <= out.reserved_metadata_size
    &&& out.faststart == faststart_of(out.finalized)
    &&& out.reserved_metadata_size == metadata_size_bound(
        out.summaries@.map_values(|s: TrackSummary| s.sample_count),
    )
    &&& out.summaries@.len() > 0
}

/// Runs the reserve-write-finalize-patch protocol over the collected
/// tracks.  Past this point only the muxer's own refusals, payload
/// bounds, and machine limits can fail.
#[verifier::spinoff_prover]
#[verifier::rlimit(100)]
fn run_protocol(file_data: &[u8], p: Prepared) -> (r: Result<ExtractOutput, ExtractError>)
    requires
        prepared_wf(p),
        p.tracks@.len() > 0,
    ensures
        r matches Ok(out) ==> extract_ok_post(out) && out.summaries == p.summaries,
        r matches Err(e) ==> e is Muxer || e is SampleOutOfBounds || e is MetadataOverflow || e
            is PatchOutOfRange,
{
    let reserved = estimate_metadata_size(&p.counts);
    let mut muxer = match mux_new(reserved) {
        Ok(m) => m,
        Err(e) => {
            return Err(ExtractError::Muxer(e));
        },
    };
    let mut out = mux_initial_bytes(&muxer);
    let initial_offset: u64 = out.len() as u64;
    let plan = build_plan(&p.tracks);
    let records = match write_samples(file_data, &p.tracks, &p.entries, &plan, &mut muxer, &mut out)
        {
        Ok(records) => records,
        Err(e) => {
            return Err(e);
        },
    };
    proof {
        lemma_records_from_plan(p.tracks@, plan@, records@);
    }
    let finalized = match mux_finalize(&mut muxer) {
        Ok(f) => f,
        Err(e) => {
            return Err(ExtractError::Muxer(e));
        },
    };
    let metadata_size = match check_reservation(&finalized, reserved) {
        Ok(sz) => sz,
        Err(e) => {
            return Err(e);
        },
    };
    let faststart = finalized_is_faststart(&finalized);
    let pairs = finalized_pairs(&finalized);
    match apply_patches(&mut out, &pairs) {
        Ok(()) => {},
        Err(e) => {
            return Err(e);
        },
    }
    Ok(
        ExtractOutput {
            bytes: out,
            records,
            summaries: p.summaries,
            initial_offset,
            reserved_metadata_size: reserved,
            metadata_size,
            faststart,
            finalized,
        },
    )
}

/// What extraction owes once the first `moov` box's traks are in hand:
/// each preparation failure is reported as its own error, an input
/// without video or audio tracks as `NoTracks`, and past preparation
/// only the muxer's refusals, payload bounds, and machine limits remain.
pub open spec fn extract_stage_post(
    traks: Seq<TrakBox>,
    start_us: u64,
    r: Result<ExtractOutput, ExtractError>,
) -> bool {
    match stage_scan_from(traks, start_us, 0) {
        Some(f) => r matches Err(e) && err_matches_failure(Some(f), e),
        None => if !any_selected(traks) {
            r == Err::<ExtractOutput, ExtractError>(ExtractError::NoTracks)
        } else {
            &&& (r matches Ok(out) ==> extract_ok_post(out))
            &&& (r matches Err(e) ==> e is Muxer || e is SampleOutOfBounds || e
                is MetadataOverflow || e is PatchOutOfRange)
        },
    }
}

/// Extracts the samples of `[start_us, end_us)` microseconds from the
/// container in `file_data` and writes them as a new container.
///
/// On success the returned records describe exactly what the metadata
/// protocol was told: their normalized timestamps never decrease, their
/// payloads sit back to back from the end of the initial placeholder on,
/// each track carries its codec descriptor exactly once, and a video
/// track opens on a synchronization sample.  Each stage that can refuse
/// the input reports its own error: the range is validated before any
/// decoding, decode and missing-`moov` failures are tied to the bytes,
/// and per-track preparation failures to the first failing track.
#[verifier::spinoff_prover]
#[verifier::rlimit(100)]
pub fn extract(file_data: &[u8], start_us: u64, end_us: u64) -> (r: Result<
    ExtractOutput,
    ExtractError,
>)
    ensures
        end_us <= start_us <==> r == Err::<ExtractOutput, ExtractError>(
            ExtractError::InvalidTimeRange,
        ),
        (r matches Err(e) && e is Decode) <==> (start_us < end_us && !decode_ok(file_data@)),
        r == Err::<ExtractOutput, ExtractError>(ExtractError::MoovNotFound) <==> (start_us < end_us
            && decode_ok(file_data@) && !has_moov(decode_roots(file_data@))),
        (start_us < end_us && decode_ok(file_data@) && has_moov(decode_roots(file_data@)))
            ==> exists|i: int|
            #[trigger] moov_at(decode_roots(file_data@), i) && extract_stage_post(
                moov_traks(decode_roots(file_data@)[i]),
                start_us,
                r,
            ),
        r matches Ok(out) ==> extract_ok_post(out),
{
    if end_us <= start_us {
        return Err(ExtractError::InvalidTimeRange);
    }
    let roots = match decode_root_boxes(file_data) {
        Ok(b) => b,
        Err(e) => {
            return Err(ExtractError::Decode(e));
        },
    };
    let mut traks_found: Option<Vec<TrakBox>> = None;
    let mut bi: usize = 0;
    while bi < roots.len()
        invariant
            roots@ == decode_roots(file_data@),
            0 <= bi <= roots@.len(),
            match traks_found {
                None => forall|j: int| 0 <= j < bi ==> !is_moov(#[trigger] roots@[j]),
                Some(v) => exists|i: int|
                    #[trigger] moov_at(roots@, i) && v@ == moov_traks(roots@[i]),
            },
        decreases roots@.len() - bi,
    {
        if traks_found.is_none() {
            match moov_tracks(&roots[bi]) {
                Some(ts) => {
                    proof {
                        assert(moov_at(roots@, bi as int));
                    }
                    traks_found = Some(ts);
                },
                None => {
                    proof {
                        assert(!is_moov(roots@[bi as int]));
                    }
                },
            }
        }
        bi = bi + 1;
    }
    let Some(traks) = traks_found else {
        proof {
            assert forall|i: int| !moov_at(roots@, i) by {
                if 0 <= i < roots@.len() {
                    assert(!is_moov(roots@[i]));
                }
            }
        }
        return Err(ExtractError::MoovNotFound);
    };
    let ghost w = choose|i: int| #[trigger] moov_at(roots@, i) && traks@ == moov_traks(roots@[i]);
    let p = match collect_tracks(&traks, start_us, end_us) {
        Ok(p) => p,
        Err(e) => {
            proof {
                assert(moov_at(decode_roots(file_data@), w));
            }
            return Err(e);
        },
    };
    if p.tracks.len() == 0 {
        proof {
            assert(moov_at(decode_roots(file_data@), w));
        }
        return Err(ExtractError::NoTracks);
    }
    let result = run_protocol(file_data, p);
    proof {
        assert(moov_at(decode_roots(file_data@), w));
    }
    result
}

} // verus!
