use mp4util::extract::{apply_patch, ticks_from_micros};
use mp4util::info::{get_codec_name, CodecKind};
use mp4util::sample::{
    find_sample_at, find_sync_before, resolve_window, SampleMeta, TrackKind, WindowError,
};
use mp4util::schedule::normalize_timestamp;

fn meta(timestamp: u64, duration: u32, is_sync: bool) -> SampleMeta {
    SampleMeta { timestamp, duration, is_sync, data_offset: 0, data_size: 1 }
}

/// A well-formed table: `n` samples of equal duration, sync every `gap`
/// starting at 1-based index `first_sync` (0 disables sync marks).
fn table(n: u64, duration: u32, first_sync: u64, gap: u64) -> Vec<SampleMeta> {
    let mut v = Vec::new();
    for i in 0..n {
        let is_sync = first_sync > 0 && i + 1 >= first_sync && (i + 1 - first_sync) % gap == 0;
        v.push(meta(i * duration as u64, duration, is_sync));
    }
    v
}

#[test]
fn normalize_timestamp_exact_values() {
    assert_eq!(normalize_timestamp(1500, 30000), 50_000_000);
    assert_eq!(normalize_timestamp(1024, 48000), 21_333_333);
    assert_eq!(normalize_timestamp(0, 90000), 0);
}

#[test]
fn ticks_from_micros_rounds_down_and_saturates() {
    assert_eq!(ticks_from_micros(10_000_000, 30000), 300_000);
    assert_eq!(ticks_from_micros(1, 30000), 0);
    assert_eq!(ticks_from_micros(1_000_001, 48000), 48_000);
    assert_eq!(ticks_from_micros(u64::MAX, 2_000_000), u64::MAX);
}

#[test]
fn find_sample_at_picks_covering_sample() {
    let t = table(10, 100, 1, 1);
    assert_eq!(find_sample_at(&t, 0), Some(1));
    assert_eq!(find_sample_at(&t, 99), Some(1));
    assert_eq!(find_sample_at(&t, 100), Some(2));
    assert_eq!(find_sample_at(&t, 950), Some(10));
    assert_eq!(find_sample_at(&t, 1000), None);
}

#[test]
fn find_sync_before_picks_nearest_keyframe() {
    let t = table(90, 1000, 1, 30);
    assert_eq!(find_sync_before(&t, 45), Some(31));
    assert_eq!(find_sync_before(&t, 31), Some(31));
    assert_eq!(find_sync_before(&t, 30), Some(1));
    let no_sync = table(20, 1000, 10, 100);
    assert_eq!(find_sync_before(&no_sync, 5), None);
}

#[test]
fn resolve_window_snaps_video_to_keyframe() {
    let t = table(90, 1000, 1, 30);
    let w = resolve_window(&t, TrackKind::Video, 45_000, 50_000).unwrap();
    assert_eq!(w.start_index, 31);
    assert_eq!(w.end_index, 51);
    let a = resolve_window(&t, TrackKind::Audio, 45_000, 50_000).unwrap();
    assert_eq!(a.start_index, 46);
}

#[test]
fn resolve_window_clamps_end_to_last_sample() {
    let t = table(90, 1000, 1, 30);
    let w = resolve_window(&t, TrackKind::Audio, 45_000, u64::MAX).unwrap();
    assert_eq!(w.end_index, 90);
}

#[test]
fn resolve_window_reports_missing_start_sample() {
    let t = table(90, 1000, 1, 30);
    assert_eq!(
        resolve_window(&t, TrackKind::Audio, 90_000, 91_000),
        Err(WindowError::NoSampleAtTime)
    );
    let empty: Vec<SampleMeta> = Vec::new();
    assert_eq!(
        resolve_window(&empty, TrackKind::Audio, 0, 1),
        Err(WindowError::NoSampleAtTime)
    );
}

#[test]
fn resolve_window_reports_missing_keyframe() {
    // The only synchronization sample is number 61.
    let t = table(90, 1000, 61, 1000);
    assert_eq!(
        resolve_window(&t, TrackKind::Video, 15_000, 20_000),
        Err(WindowError::NoPrecedingKeyframe)
    );
}

#[test]
fn apply_patch_overwrites_in_place() {
    let mut out = vec![1u8, 2, 3, 4];
    apply_patch(&mut out, 1, &vec![9u8, 8]);
    assert_eq!(out, vec![1u8, 9, 8, 4]);
}

#[test]
fn apply_patch_appends_at_end() {
    let mut out = vec![1u8, 2];
    apply_patch(&mut out, 2, &vec![7u8, 6]);
    assert_eq!(out, vec![1u8, 2, 7, 6]);
}

#[test]
fn apply_patch_zero_fills_a_gap() {
    let mut out = vec![1u8];
    apply_patch(&mut out, 3, &vec![5u8]);
    assert_eq!(out, vec![1u8, 0, 0, 5]);
}

#[test]
fn codec_names_match_the_tags() {
    assert_eq!(get_codec_name(&CodecKind::Avc1), "AVC(H.264)");
    assert_eq!(get_codec_name(&CodecKind::Opus), "Opus");
    assert_eq!(get_codec_name(&CodecKind::Mp4a), "MPEG AAC Audio (mp4a)");
}

#[test]
fn unknown_codec_renders_its_box_type() {
    let bytes = vec![b'a', b'b', b'c', b'd'];
    assert_eq!(get_codec_name(&CodecKind::Unknown(bytes)), "不明 (abcd)");
    // Invalid UTF-8 becomes the replacement character, as a lossy
    // conversion of the raw type bytes.
    let bad = vec![0xffu8];
    assert_eq!(get_codec_name(&CodecKind::Unknown(bad)), "不明 (\u{fffd})");
}
