//! Trusted boundary to the `shiguredo_mp4` container library.
//!
//! Every function here is an `external_body` wrapper around one call
//! into that crate; its contract states only what the crate's source
//! shows.  The declared types are opaque to the verifier: values of them
//! are carried through the verified logic, never inspected by it.
use vstd::prelude::*;

use crate::info::CodecKind;
use crate::sample::{SampleMeta, TrackKind, table_wf};
use shiguredo_mp4::Decode;
use shiguredo_mp4::Mp4File;
use shiguredo_mp4::aux::SampleTableAccessor;
use shiguredo_mp4::boxes::{RootBox, SampleEntry, StblBox, TrakBox};
use shiguredo_mp4::mux::{
    FinalizedBoxes, Mp4FileMuxer, Mp4FileMuxerOptions, Sample, estimate_maximum_moov_box_size,
};

verus! {

#[verifier::external_type_specification]
#[verifier::external_body]
pub struct ExRootBox(RootBox);

#[verifier::external_type_specification]
#[verifier::external_body]
pub struct ExTrakBox(TrakBox);

#[verifier::external_type_specification]
#[verifier::external_body]
pub struct ExStblBox(StblBox);

#[verifier::external_type_specification]
#[verifier::external_body]
pub struct ExSampleEntry(SampleEntry);

#[verifier::external_type_specification]
#[verifier::external_body]
#[verifier::reject_recursive_types(T)]
pub struct ExSampleTableAccessor<T>(SampleTableAccessor<T>);

#[verifier::external_type_specification]
#[verifier::external_body]
pub struct ExMp4FileMuxer(Mp4FileMuxer);

#[verifier::external_type_specification]
#[verifier::external_body]
pub struct ExFinalizedBoxes(FinalizedBoxes);

/// The samples of the track behind a sample-table accessor, as the plain
/// records the extraction logic reads.  The wrappers below say what each
/// accessor method returns in terms of this sequence.
pub uninterp spec fn table_samples(t: SampleTableAccessor<Box<StblBox>>) -> Seq<SampleMeta>;

/// The byte position at which a muxer expects the next sample payload.
pub uninterp spec fn mux_position(m: Mp4FileMuxer) -> u64;

/// The byte length of the initial boxes a muxer was constructed with.
pub uninterp spec fn mux_initial_len(m: Mp4FileMuxer) -> u64;

/// Whether `Mp4File::decode` succeeds on the given bytes.
pub uninterp spec fn decode_ok(data: Seq<u8>) -> bool;

/// The top-level boxes `Mp4File::decode` yields on the given bytes
/// (meaningful only when `decode_ok` holds): the value of the same call,
/// named separately from its success.
pub uninterp spec fn decode_roots(data: Seq<u8>) -> Seq<RootBox>;

/// Whether a top-level box is the `moov` metadata box.
pub uninterp spec fn is_moov(b: RootBox) -> bool;

/// The `trak` boxes a `moov` top-level box carries, in file order.
pub uninterp spec fn moov_traks(b: RootBox) -> Seq<TrakBox>;

/// The four handler-tag bytes of a track's `hdlr` box.
pub uninterp spec fn trak_handler_of(t: TrakBox) -> Seq<u8>;

/// The tick rate of a track's `mdhd` box.
pub uninterp spec fn trak_timescale_of(t: TrakBox) -> u32;

/// The duration of a track's `mdhd` box, in its own ticks.
pub uninterp spec fn trak_duration_of(t: TrakBox) -> u64;

/// The first sample entry of a track's `stsd` box, if any.
pub uninterp spec fn first_entry_of(t: TrakBox) -> Option<SampleEntry>;

/// The library's codec tag of a sample entry.
pub uninterp spec fn codec_of(e: SampleEntry) -> crate::info::CodecKind;

/// Whether `SampleTableAccessor::new` accepts a track's sample table.
pub uninterp spec fn table_ok(t: TrakBox) -> bool;

/// The sample records of a track's table (meaningful only when
/// `table_ok` holds): what `table_samples` reports of the accessor that
/// `SampleTableAccessor::new` builds for the track.
pub uninterp spec fn trak_samples(t: TrakBox) -> Seq<SampleMeta>;

/// The chunk count of a track's table (meaningful only when `table_ok`
/// holds).
pub uninterp spec fn trak_chunk_total(t: TrakBox) -> u32;

/// The chunk count behind a sample-table accessor.
pub uninterp spec fn table_chunks(t: SampleTableAccessor<Box<StblBox>>) -> u32;

/// What `String::from_utf8_lossy` makes of a byte sequence: valid UTF-8
/// passes through, invalid sequences become replacement characters.
pub uninterp spec fn lossy_of(bytes: Seq<u8>) -> Seq<char>;

/// The byte size of the final `moov` box of a finalized muxer.
pub uninterp spec fn moov_size_of(f: FinalizedBoxes) -> usize;

/// Whether a finalized muxer placed its metadata before the media data.
pub uninterp spec fn faststart_of(f: FinalizedBoxes) -> bool;

/// `i` is the position of the first `moov` box among the roots.
pub open spec fn moov_at(roots: Seq<RootBox>, i: int) -> bool {
    &&& 0 <= i < roots.len()
    &&& is_moov(roots[i])
    &&& forall|j: int| 0 <= j < i ==> !is_moov(#[trigger] roots[j])
}

/// Some root is the `moov` box.
pub open spec fn has_moov(roots: Seq<RootBox>) -> bool {
    exists|i: int| moov_at(roots, i)
}

/// Relies on `Mp4File::decode`: parses the file's box tree and yields
/// the top-level boxes.  The call is a function of the bytes alone.
#[verifier::external_body]
pub(crate) fn decode_root_boxes(data: &[u8]) -> (r: Result<Vec<RootBox>, String>)
    ensures
        (r is Ok) == decode_ok(data@),
        r matches Ok(v) ==> v@ == decode_roots(data@),
{
    match Mp4File::<RootBox>::decode(data) {
        Ok((file, _)) => Ok(file.boxes),
        Err(e) => Err(format!("MP4 ファイルの解析に失敗しました: {}", e)),
    }
}

/// Relies on the `RootBox` enum: a `moov` top-level box carries the
/// `trak` boxes of the file's metadata tree.
#[verifier::external_body]
pub(crate) fn moov_tracks(b: &RootBox) -> (r: Option<Vec<TrakBox>>)
    ensures
        (r is Some) == is_moov(*b),
        r matches Some(v) ==> v@ == moov_traks(*b),
{
    match b {
        RootBox::Moov(m) => Some(m.trak_boxes.clone()),
        _ => None,
    }
}

/// Relies on the `hdlr` box of a `TrakBox`: the four-byte handler tag
/// (`b"vide"` for video, `b"soun"` for audio).
#[verifier::external_body]
pub(crate) fn track_handler(t: &TrakBox) -> (r: [u8; 4])
    ensures
        r@ == trak_handler_of(*t),
{
    t.mdia_box.hdlr_box.handler_type
}

/// Relies on the `mdhd` box of a `TrakBox`: its timescale is a
/// `NonZeroU32`, so the returned tick rate is positive.
#[verifier::external_body]
pub(crate) fn track_timescale(t: &TrakBox) -> (r: u32)
    ensures
        r == trak_timescale_of(*t),
        r >= 1,
{
    t.mdia_box.mdhd_box.timescale.get()
}

/// Relies on the `mdhd` box of a `TrakBox`: the track duration in ticks.
#[verifier::external_body]
pub(crate) fn track_duration(t: &TrakBox) -> (r: u64)
    ensures
        r == trak_duration_of(*t),
{
    t.mdia_box.mdhd_box.duration
}

/// Relies on the `stsd` box of a `TrakBox`: its first sample entry, if any.
#[verifier::external_body]
pub(crate) fn first_sample_entry(t: &TrakBox) -> (r: Option<SampleEntry>)
    ensures
        r == first_entry_of(*t),
{
    t.mdia_box.minf_box.stbl_box.stsd_box.entries.first().cloned()
}

/// Relies on the `SampleEntry` enum: maps each variant to the library's
/// codec tag, carrying the raw box type bytes for unknown entries.
#[verifier::external_body]
pub(crate) fn sample_entry_codec(e: &SampleEntry) -> (r: CodecKind)
    ensures
        r == codec_of(*e),
{
    match e {
        SampleEntry::Avc1(_) => CodecKind::Avc1,
        SampleEntry::Hev1(_) => CodecKind::Hev1,
        SampleEntry::Hvc1(_) => CodecKind::Hvc1,
        SampleEntry::Vp08(_) => CodecKind::Vp08,
        SampleEntry::Vp09(_) => CodecKind::Vp09,
        SampleEntry::Av01(_) => CodecKind::Av01,
        SampleEntry::Opus(_) => CodecKind::Opus,
        SampleEntry::Mp4a(_) => CodecKind::Mp4a,
        SampleEntry::Flac(_) => CodecKind::Flac,
        SampleEntry::Stpp(_) => CodecKind::Stpp,
        SampleEntry::Wvtt(_) => CodecKind::Wvtt,
        SampleEntry::Tx3g(_) => CodecKind::Tx3g,
        SampleEntry::Unknown(u) => CodecKind::Unknown(u.box_type.as_bytes().to_vec()),
    }
}

/// Relies on `SampleTableAccessor::new`: it validates the sample table,
/// and it exposes each sample's timestamp as the running sum of the
/// `stts` durations, so the mirrored sequence is well-formed.
#[verifier::external_body]
pub(crate) fn new_sample_table(t: &TrakBox) -> (r: Result<
    SampleTableAccessor<Box<StblBox>>,
    String,
>)
    ensures
        (r is Ok) == table_ok(*t),
        r matches Ok(a) ==> table_wf(table_samples(a)) && table_samples(a) == trak_samples(*t)
            && table_chunks(a) == trak_chunk_total(*t),
{
    SampleTableAccessor::new(Box::new(t.mdia_box.minf_box.stbl_box.clone())).map_err(
        |e| format!("サンプルテーブルの解析に失敗しました: {}", e),
    )
}

/// Relies on `SampleTableAccessor::sample_count`.
#[verifier::external_body]
pub(crate) fn table_len(t: &SampleTableAccessor<Box<StblBox>>) -> (r: u32)
    ensures
        r == table_samples(*t).len(),
{
    t.sample_count()
}

/// Relies on `SampleTableAccessor::chunk_count`.
#[verifier::external_body]
pub(crate) fn table_chunk_count(t: &SampleTableAccessor<Box<StblBox>>) -> (r: u32)
    ensures
        r == table_chunks(*t),
{
    t.chunk_count()
}

/// Relies on `SampleTableAccessor::get_sample` and the field accessors of
/// `SampleAccessor`: a valid 1-based index yields that sample's record.
#[verifier::external_body]
pub(crate) fn table_get(t: &SampleTableAccessor<Box<StblBox>>, i: u32) -> (r: Option<SampleMeta>)
    ensures
        r == if 1 <= i <= table_samples(*t).len() {
            Some(table_samples(*t)[i - 1])
        } else {
            None::<SampleMeta>
        },
{
    let i = core::num::NonZeroU32::new(i)?;
    let s = t.get_sample(i)?;
    Some(SampleMeta {
        timestamp: s.timestamp(),
        duration: s.duration(),
        is_sync: s.is_sync_sample(),
        data_offset: s.data_offset(),
        data_size: s.data_size(),
    })
}

/// Relies on `SampleTableAccessor::get_sample` and
/// `ChunkAccessor::sample_entry`: every valid sample belongs to a chunk
/// whose sample entry exists (the accessor validates `stsc` against
/// `stsd` on construction).
#[verifier::external_body]
pub(crate) fn sample_entry_at(t: &SampleTableAccessor<Box<StblBox>>, i: u32) -> (r: Option<
    SampleEntry,
>)
    ensures
        1 <= i <= table_samples(*t).len() ==> r is Some,
{
    let i = core::num::NonZeroU32::new(i)?;
    let s = t.get_sample(i)?;
    Some(s.chunk().sample_entry().clone())
}

/// Total of the per-track sample counts.
pub open spec fn counts_total(counts: Seq<usize>) -> int
    decreases counts.len(),
{
    if counts.len() == 0 {
        0
    } else {
        counts_total(counts.drop_last()) + counts.last()
    }
}

/// Value `x` clamped to the machine word range.
pub open spec fn sat_usize(x: int) -> int {
    if x > usize::MAX {
        usize::MAX as int
    } else {
        x
    }
}

/// The metadata reservation owed for the given per-track sample counts:
/// 512 bytes of base overhead, 1024 per track and 16 per sample,
/// saturating at the machine word range.
pub open spec fn metadata_size_bound(counts: Seq<usize>) -> int {
    sat_usize(512 + counts.len() * 1024 + counts_total(counts) * 16)
}

/// Relies on `estimate_maximum_moov_box_size`: 512 bytes of base
/// overhead, 1024 per track and 16 per sample, all arithmetic saturating.
#[verifier::external_body]
pub(crate) fn estimate_metadata_size(counts: &Vec<usize>) -> (r: usize)
    ensures
        r == metadata_size_bound(counts@),
{
    estimate_maximum_moov_box_size(counts)
}

/// Relies on `Mp4FileMuxer::with_options`: a fresh muxer's write
/// position sits at the end of its initial boxes (`ftyp`, the reserved
/// `free` space and the open `mdat` header).
#[verifier::external_body]
pub(crate) fn mux_new(reserved_metadata_size: usize) -> (r: Result<Mp4FileMuxer, String>)
    ensures
        r matches Ok(m) ==> mux_position(m) == mux_initial_len(m),
{
    let options = Mp4FileMuxerOptions {
        reserved_moov_box_size: reserved_metadata_size,
        ..Default::default()
    };
    Mp4FileMuxer::with_options(options).map_err(|e| format!("Muxer の初期化に失敗しました: {}", e))
}

/// Relies on `Mp4FileMuxer::initial_boxes_bytes`: the initial boxes are
/// fixed at construction; their length is the muxer's initial length.
#[verifier::external_body]
pub(crate) fn mux_initial_bytes(m: &Mp4FileMuxer) -> (r: Vec<u8>)
    ensures
        r@.len() == mux_initial_len(*m),
{
    m.initial_boxes_bytes().to_vec()
}

/// Relies on `Mp4FileMuxer::append_sample`: it accepts a sample only at
/// the current write position, advances the position by the payload size
/// on success, and leaves the muxer unchanged on error.
#[verifier::external_body]
pub(crate) fn mux_append(
    m: &mut Mp4FileMuxer,
    kind: TrackKind,
    entry: Option<&SampleEntry>,
    keyframe: bool,
    timescale: u32,
    duration: u32,
    data_offset: u64,
    data_size: u32,
) -> (r: Result<(), String>)
    requires
        timescale >= 1,
    ensures
        r is Ok ==> data_offset == mux_position(*old(m)) && mux_position(*final(m)) == data_offset
            + data_size && mux_initial_len(*final(m)) == mux_initial_len(*old(m)),
        r is Err ==> *final(m) == *old(m),
{
    let sample = Sample {
        track_kind: match kind {
            TrackKind::Video => shiguredo_mp4::TrackKind::Video,
            TrackKind::Audio => shiguredo_mp4::TrackKind::Audio,
        },
        sample_entry: entry.cloned(),
        keyframe,
        timescale: core::num::NonZeroU32::new(timescale).expect("positive timescale"),
        duration,
        composition_time_offset: None,
        data_offset,
        data_size: data_size as usize,
    };
    m.append_sample(&sample).map_err(|e| format!("サンプルの追加に失敗しました: {}", e))
}

/// Relies on `Mp4FileMuxer::finalize`: builds the final metadata boxes
/// from everything appended so far.
#[verifier::external_body]
pub(crate) fn mux_finalize(m: &mut Mp4FileMuxer) -> (r: Result<FinalizedBoxes, String>) {
    m.finalize().map(|b| b.clone()).map_err(|e| format!("ファイナライズに失敗しました: {}", e))
}

/// Relies on `FinalizedBoxes::offset_and_bytes_pairs`: the offset and
/// byte-string pairs to write back into the already-written output.
#[verifier::external_body]
pub(crate) fn finalized_pairs(f: &FinalizedBoxes) -> (r: Vec<(u64, Vec<u8>)>) {
    f.offset_and_bytes_pairs().map(|(o, b)| (o, b.to_vec())).collect()
}

/// Relies on `FinalizedBoxes::is_faststart_enabled`: whether the final
/// metadata box lands before the media data.
#[verifier::external_body]
pub(crate) fn finalized_is_faststart(f: &FinalizedBoxes) -> (r: bool)
    ensures
        r == faststart_of(*f),
{
    f.is_faststart_enabled()
}

/// Relies on `String::from_utf8_lossy` of std: the result depends on
/// the bytes alone, and valid UTF-8 (all ASCII in particular) passes
/// through unchanged.
#[verifier::external_body]
pub(crate) fn lossy_utf8(bytes: &Vec<u8>) -> (r: String)
    ensures
        r@ == lossy_of(bytes@),
        (forall|i: int| 0 <= i < bytes@.len() ==> bytes@[i] < 0x80) ==> r@ == bytes@.map_values(
            |b: u8| b as char,
        ),
{
    String::from_utf8_lossy(bytes).into_owned()
}

/// Relies on `FinalizedBoxes::moov_box_size`: the byte size of the final
/// metadata box.
#[verifier::external_body]
pub(crate) fn finalized_moov_size(f: &FinalizedBoxes) -> (r: usize)
    ensures
        r == moov_size_of(*f),
{
    f.moov_box_size()
}

} // verus!
