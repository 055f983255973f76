use mp4util::extract::{extract, ExtractError};
use mp4util::info::InputMp4;
use mp4util::sample::TrackKind;
use shiguredo_mp4::boxes::{
    AudioSampleEntryFields, Avc1Box, AvccBox, DopsBox, OpusBox, SampleEntry,
    VisualSampleEntryFields,
};
use shiguredo_mp4::mux::{
    estimate_maximum_moov_box_size, Mp4FileMuxer, Mp4FileMuxerOptions, Sample,
};
use shiguredo_mp4::{FixedPointNumber, Uint};
use std::num::NonZeroU32;

fn avc1_entry() -> SampleEntry {
    SampleEntry::Avc1(Avc1Box {
        visual: VisualSampleEntryFields {
            data_reference_index: VisualSampleEntryFields::DEFAULT_DATA_REFERENCE_INDEX,
            width: 640,
            height: 480,
            horizresolution: VisualSampleEntryFields::DEFAULT_HORIZRESOLUTION,
            vertresolution: VisualSampleEntryFields::DEFAULT_VERTRESOLUTION,
            frame_count: VisualSampleEntryFields::DEFAULT_FRAME_COUNT,
            compressorname: VisualSampleEntryFields::NULL_COMPRESSORNAME,
            depth: VisualSampleEntryFields::DEFAULT_DEPTH,
        },
        avcc_box: AvccBox {
            avc_profile_indication: 66,
            profile_compatibility: 0,
            avc_level_indication: 30,
            length_size_minus_one: Uint::new(3),
            sps_list: vec![],
            pps_list: vec![],
            chroma_format: None,
            bit_depth_luma_minus8: None,
            bit_depth_chroma_minus8: None,
            sps_ext_list: vec![],
        },
        unknown_boxes: vec![],
    })
}

fn opus_entry() -> SampleEntry {
    SampleEntry::Opus(OpusBox {
        audio: AudioSampleEntryFields {
            data_reference_index: AudioSampleEntryFields::DEFAULT_DATA_REFERENCE_INDEX,
            channelcount: 2,
            samplesize: AudioSampleEntryFields::DEFAULT_SAMPLESIZE,
            samplerate: FixedPointNumber::new(48000u16, 0),
        },
        dops_box: DopsBox {
            output_channel_count: 2,
            pre_skip: 312,
            input_sample_rate: 48000,
            output_gain: 0,
        },
        unknown_boxes: vec![],
    })
}

/// Deterministic payload for track `t`, 1-based sample `i`.
fn payload(t: u8, i: u32) -> Vec<u8> {
    vec![t, i as u8, (i >> 8) as u8, 0xab]
}

struct TrackSpec {
    kind: shiguredo_mp4::TrackKind,
    entry: SampleEntry,
    timescale: u32,
    duration: u32,
    count: u32,
    /// 1-based index of the first keyframe; keyframes repeat every `sync_gap`.
    first_sync: u32,
    sync_gap: u32,
}

/// Builds a complete MP4 in memory with the real muxer, interleaving the
/// tracks sample by sample in timestamp order.
fn build_mp4(specs: &[TrackSpec]) -> Vec<u8> {
    let counts: Vec<usize> = specs.iter().map(|s| s.count as usize).collect();
    let options = Mp4FileMuxerOptions {
        reserved_moov_box_size: estimate_maximum_moov_box_size(&counts),
        ..Default::default()
    };
    let mut muxer = Mp4FileMuxer::with_options(options).expect("muxer");
    let mut file: Vec<u8> = muxer.initial_boxes_bytes().to_vec();
    let mut next: Vec<u32> = specs.iter().map(|_| 0).collect();
    loop {
        let mut best: Option<(usize, u128)> = None;
        for (t, spec) in specs.iter().enumerate() {
            if next[t] < spec.count {
                let ts = next[t] as u128 * spec.duration as u128;
                let norm = ts * 1_000_000_000 / spec.timescale as u128;
                if best.map_or(true, |(_, b)| norm < b) {
                    best = Some((t, norm));
                }
            }
        }
        let Some((t, _)) = best else { break };
        let spec = &specs[t];
        let i = next[t];
        let data = payload(t as u8, i + 1);
        let keyframe = spec.first_sync > 0
            && i + 1 >= spec.first_sync
            && (i + 1 - spec.first_sync) % spec.sync_gap == 0;
        let sample = Sample {
            track_kind: spec.kind,
            sample_entry: if i == 0 { Some(spec.entry.clone()) } else { None },
            keyframe,
            timescale: NonZeroU32::new(spec.timescale).unwrap(),
            duration: spec.duration,
            composition_time_offset: None,
            data_offset: file.len() as u64,
            data_size: data.len(),
        };
        muxer.append_sample(&sample).expect("append");
        file.extend_from_slice(&data);
        next[t] = i + 1;
    }
    let finalized = muxer.finalize().expect("finalize");
    for (offset, bytes) in finalized.offset_and_bytes_pairs() {
        let offset = offset as usize;
        if file.len() < offset {
            file.resize(offset, 0);
        }
        let end = offset + bytes.len();
        if file.len() < end {
            file.resize(end, 0);
        }
        file[offset..end].copy_from_slice(bytes);
    }
    file
}

/// A video track at 30000 ticks/s (30 fps, keyframe every 30 frames)
/// plus an Opus audio track at 48000 ticks/s, both a bit over 11 s long.
fn two_track_file() -> Vec<u8> {
    build_mp4(&[
        TrackSpec {
            kind: shiguredo_mp4::TrackKind::Video,
            entry: avc1_entry(),
            timescale: 30000,
            duration: 1000,
            count: 330,
            first_sync: 1,
            sync_gap: 30,
        },
        TrackSpec {
            kind: shiguredo_mp4::TrackKind::Audio,
            entry: opus_entry(),
            timescale: 48000,
            duration: 1024,
            count: 530,
            first_sync: 0,
            sync_gap: 1,
        },
    ])
}

#[test]
fn scenario_one_frame_around_ten_seconds() {
    let file = two_track_file();
    // One video frame is 1/30 s; ask for it plus a small margin.
    let out = extract(&file, 10_000_000, 10_040_000).expect("extract");
    assert_eq!(out.summaries.len(), 2);
    let video = &out.summaries[0];
    let audio = &out.summaries[1];
    assert_eq!(video.kind, TrackKind::Video);
    assert_eq!(audio.kind, TrackKind::Audio);
    // The video start snaps to the keyframe at tick 300000 exactly.
    assert_eq!(video.start_timestamp, 300_000);
    assert_eq!(video.sample_count, 2);
    // The audio samples enclosing the same span: ticks 479232..482304.
    assert_eq!(audio.start_timestamp, 479_232);
    assert_eq!(audio.sample_count, 3);
    // The first video record is keyframe-aligned.
    let first_video = out.records.iter().find(|r| r.kind == TrackKind::Video).unwrap();
    assert!(first_video.keyframe);
    assert!(first_video.has_entry);
}

#[test]
fn scenario_end_past_duration_clamps() {
    let file = two_track_file();
    let out = extract(&file, 10_000_000, 99_000_000_000).expect("extract");
    // Video window: keyframe 301 through the last sample 330.
    assert_eq!(out.summaries[0].sample_count, 30);
    // Audio window: sample 469 through the last sample 530.
    assert_eq!(out.summaries[1].sample_count, 62);
}

#[test]
fn scenario_start_at_or_after_end_is_rejected() {
    let file = two_track_file();
    assert!(matches!(
        extract(&file, 10_000_000, 10_000_000),
        Err(ExtractError::InvalidTimeRange)
    ));
    assert!(matches!(extract(&file, 2, 1), Err(ExtractError::InvalidTimeRange)));
    // Validation precedes decoding: garbage input is never touched.
    assert!(matches!(extract(&[0u8; 4], 5, 5), Err(ExtractError::InvalidTimeRange)));
}

#[test]
fn scenario_no_keyframe_before_start() {
    let file = build_mp4(&[TrackSpec {
        kind: shiguredo_mp4::TrackKind::Video,
        entry: avc1_entry(),
        timescale: 30000,
        duration: 1000,
        count: 90,
        first_sync: 61,
        sync_gap: 1000,
    }]);
    assert!(matches!(
        extract(&file, 500_000, 1_000_000),
        Err(ExtractError::NoPrecedingKeyframe)
    ));
}

#[test]
fn records_are_time_ordered_and_ties_favor_the_first_track() {
    let file = two_track_file();
    let out = extract(&file, 0, 2_000_000).expect("extract");
    // Both tracks rebase to zero; the tie goes to the first-registered
    // track, which is the video track.
    assert_eq!(out.records[0].track, 0);
    assert_eq!(out.records[0].kind, TrackKind::Video);
    let mut last: u128 = 0;
    for r in &out.records {
        let norm = r.rel_timestamp as u128 * 1_000_000_000 / r.timescale as u128;
        assert!(norm >= last);
        last = norm;
    }
}

#[test]
fn offsets_are_gapless_and_payloads_survive() {
    let file = two_track_file();
    let out = extract(&file, 10_000_000, 10_040_000).expect("extract");
    let mut expected = out.initial_offset;
    let mut total: u64 = 0;
    for r in &out.records {
        assert_eq!(r.data_offset, expected);
        expected += r.data_size as u64;
        total += r.data_size as u64;
    }
    assert_eq!(expected, out.initial_offset + total);
    // The first video payload is sample 301 of track 0, byte for byte.
    let v = out.records.iter().find(|r| r.kind == TrackKind::Video).unwrap();
    let got = &out.bytes[v.data_offset as usize..(v.data_offset + v.data_size as u64) as usize];
    assert_eq!(got, payload(0, 301).as_slice());
}

#[test]
fn each_track_contributes_its_descriptor_once() {
    let file = two_track_file();
    let out = extract(&file, 9_000_000, 11_000_000).expect("extract");
    for t in 0..out.summaries.len() {
        let flagged: Vec<_> =
            out.records.iter().filter(|r| r.track == t && r.has_entry).collect();
        assert_eq!(flagged.len(), 1);
        let first = out.records.iter().find(|r| r.track == t).unwrap();
        assert!(first.has_entry);
    }
}

#[test]
fn metadata_fits_its_reservation() {
    let file = two_track_file();
    let out = extract(&file, 10_000_000, 11_000_000).expect("extract");
    // The reservation follows the estimator's formula: a 512-byte base,
    // 1024 per track and 16 per sample.
    let samples = out.summaries[0].sample_count + out.summaries[1].sample_count;
    assert_eq!(out.reserved_metadata_size, 512 + 2 * 1024 + samples * 16);
    assert!(out.metadata_size <= out.reserved_metadata_size);
    assert!(out.faststart);
}

#[test]
fn output_is_a_playable_container_again() {
    let file = two_track_file();
    let out = extract(&file, 10_000_000, 11_000_000).expect("extract");
    let parsed = InputMp4::parse(&out.bytes).expect("parse output");
    let infos = parsed.get_track_infos().expect("infos");
    assert_eq!(infos.len(), 2);
    assert_eq!(infos[0].media_type, "ビデオ");
    assert_eq!(infos[0].codec, "AVC(H.264)");
    assert_eq!(infos[0].sample_count, Some(out.summaries[0].sample_count as u32));
    assert_eq!(infos[1].media_type, "オーディオ");
    assert_eq!(infos[1].codec, "Opus");
    assert_eq!(infos[1].timescale, 48000);
}

#[test]
fn garbage_input_fails_to_decode() {
    assert!(matches!(
        extract(&[1u8, 2, 3, 4, 5], 0, 1_000_000),
        Err(ExtractError::Decode(_))
    ));
}

#[test]
fn file_without_tracks_is_rejected() {
    // A muxer finalized with no samples still produces a valid file,
    // whose moov holds no tracks at all.
    let file = build_mp4(&[]);
    let r = extract(&file, 0, 1_000_000);
    assert!(matches!(r, Err(ExtractError::NoTracks) | Err(ExtractError::Muxer(_)) | Err(ExtractError::Decode(_))));
}

#[test]
fn start_past_track_end_has_no_sample() {
    let file = two_track_file();
    assert!(matches!(
        extract(&file, 60_000_000, 61_000_000),
        Err(ExtractError::NoSampleAtTime)
    ));
}
