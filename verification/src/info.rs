//! Track inspection: the parsed input file and per-track summaries.
use vstd::prelude::*;

use crate::container::{
    codec_of, decode_ok, decode_root_boxes, decode_roots, first_entry_of, first_sample_entry,
    has_moov, is_moov, lossy_of, lossy_utf8, moov_at, moov_tracks, moov_traks, new_sample_table,
    sample_entry_codec, table_chunk_count, table_len, table_ok, track_duration, track_handler,
    track_timescale, trak_chunk_total, trak_duration_of, trak_handler_of, trak_samples,
    trak_timescale_of,
};
use shiguredo_mp4::boxes::{RootBox, TrakBox};
use vstd::string::StringExecFns;

verus! {

/// Codec tag of a track's first sample entry.
#[derive(Clone, Debug, PartialEq, Eq)]
pub enum CodecKind {
    /// H.264 (`avc1`).
    Avc1,
    /// H.265 with in-band parameter sets (`hev1`).
    Hev1,
    /// H.265 with out-of-band parameter sets (`hvc1`).
    Hvc1,
    /// VP8 (`vp08`).
    Vp08,
    /// VP9 (`vp09`).
    Vp09,
    /// AV1 (`av01`).
    Av01,
    /// Opus audio (`Opus`).
    Opus,
    /// MPEG-4 audio (`mp4a`).
    Mp4a,
    /// FLAC audio (`fLaC`).
    Flac,
    /// XML subtitles (`stpp`).
    Stpp,
    /// WebVTT subtitles (`wvtt`).
    Wvtt,
    /// 3GPP timed text (`tx3g`).
    Tx3g,
    /// Any other sample entry, with its raw box type bytes.
    Unknown(Vec<u8>),
}

/// The display name of a codec tag.
pub open spec fn codec_name_of(kind: CodecKind) -> Seq<char> {
    match kind {
        CodecKind::Avc1 => "AVC(H.264)"@,
        CodecKind::Hev1 => "HEVC(H.265)"@,
        CodecKind::Hvc1 => "HEVC(H.265)"@,
        CodecKind::Vp08 => "VP8"@,
        CodecKind::Vp09 => "VP9"@,
        CodecKind::Av01 => "AV1"@,
        CodecKind::Opus => "Opus"@,
        CodecKind::Mp4a => "MPEG AAC Audio (mp4a)"@,
        CodecKind::Flac => "FLAC"@,
        CodecKind::Stpp => "字幕 (stpp)"@,
        CodecKind::Wvtt => "字幕 (wvtt)"@,
        CodecKind::Tx3g => "字幕 (tx3g)"@,
        CodecKind::Unknown(u) => "不明 ("@ + lossy_of(u@) + ")"@,
    }
}

/// Returns the display name of a codec tag.  An unknown tag renders its
/// raw box type bytes into the name.
pub fn get_codec_name(kind: &CodecKind) -> (r: String)
    ensures
        r@ == codec_name_of(*kind),
{
    match kind {
        CodecKind::Avc1 => String::from_str("AVC(H.264)"),
        CodecKind::Hev1 => String::from_str("HEVC(H.265)"),
        CodecKind::Hvc1 => String::from_str("HEVC(H.265)"),
        CodecKind::Vp08 => String::from_str("VP8"),
        CodecKind::Vp09 => String::from_str("VP9"),
        CodecKind::Av01 => String::from_str("AV1"),
        CodecKind::Opus => String::from_str("Opus"),
        CodecKind::Mp4a => String::from_str("MPEG AAC Audio (mp4a)"),
        CodecKind::Flac => String::from_str("FLAC"),
        CodecKind::Stpp => String::from_str("字幕 (stpp)"),
        CodecKind::Wvtt => String::from_str("字幕 (wvtt)"),
        CodecKind::Tx3g => String::from_str("字幕 (tx3g)"),
        CodecKind::Unknown(u) => {
            let mut name = String::from_str("不明 (");
            let rendered = lossy_utf8(u);
            name.append(rendered.as_str());
            name.append(")");
            name
        },
    }
}

/// The display text of a handler tag: the ASCII bytes of `vide` and
/// `soun` name the two known media kinds.
pub open spec fn media_type_of(h: Seq<u8>) -> Seq<char> {
    if h == seq![118u8, 105u8, 100u8, 101u8] {
        "ビデオ"@
    } else if h == seq![115u8, 111u8, 117u8, 110u8] {
        "オーディオ"@
    } else {
        "不明"@
    }
}

/// Summary of one track, as the inspection command reports it.
#[derive(Clone, Debug)]
pub struct TrackInfo {
    /// The media kind as display text.
    pub media_type: String,
    /// The track's duration in its own ticks.
    pub duration_ticks: u64,
    /// Ticks per second of the track; positive.
    pub timescale: u32,
    /// Display name of the codec.
    pub codec: String,
    /// Number of samples, where the sample table could be interpreted.
    pub sample_count: Option<u32>,
    /// Number of chunks, where the sample table could be interpreted.
    pub chunk_count: Option<u32>,
}

/// How a track's summary derives from its `trak` box: the media kind
/// from the handler tag, timing from the `mdhd` box, the codec name from
/// the first sample entry, and the counts exactly when the sample table
/// can be interpreted.
pub open spec fn track_info_matches(t: TrakBox, r: TrackInfo) -> bool {
    &&& r.media_type@ == media_type_of(trak_handler_of(t))
    &&& r.timescale == trak_timescale_of(t)
    &&& r.timescale >= 1
    &&& r.duration_ticks == trak_duration_of(t)
    &&& r.codec@ == match first_entry_of(t) {
        Some(e) => codec_name_of(codec_of(e)),
        None => "不明 (サンプルエントリなし)"@,
    }
    &&& (r.sample_count is Some) == table_ok(t)
    &&& (r.chunk_count is Some) == table_ok(t)
    &&& r.sample_count matches Some(n) ==> n == trak_samples(t).len()
    &&& r.chunk_count matches Some(c) ==> c == trak_chunk_total(t)
}

/// A parsed input file, reduced to its track boxes.
pub struct InputMp4 {
    tracks: Vec<TrakBox>,
}

impl InputMp4 {
    /// Number of track boxes the file holds.
    pub closed spec fn spec_track_count(&self) -> nat {
        self.tracks@.len()
    }

    /// The track boxes the file holds, in file order.
    pub closed spec fn spec_tracks(&self) -> Seq<TrakBox> {
        self.tracks@
    }

    /// Decodes a container file and keeps its track boxes: it succeeds
    /// exactly when the bytes decode and a `moov` root exists, and then
    /// holds the first `moov` box's `trak` boxes in their file order.
    pub fn parse(data: &[u8]) -> (r: Result<InputMp4, String>)
        ensures
            (r is Ok) == (decode_ok(data@) && has_moov(decode_roots(data@))),
            r matches Ok(m) ==> exists|i: int|
                #[trigger] moov_at(decode_roots(data@), i) && m.spec_tracks() == moov_traks(
                    decode_roots(data@)[i],
                ),
    {
        let roots = match decode_root_boxes(data) {
            Ok(b) => b,
            Err(e) => {
                return Err(e);
            },
        };
        let mut traks_found: Option<Vec<TrakBox>> = None;
        let mut bi: usize = 0;
        while bi < roots.len()
            invariant
                roots@ == decode_roots(data@),
                0 <= bi <= roots@.len(),
                match traks_found {
                    None => forall|j: int| 0 <= j < bi ==> !is_moov(#[trigger] roots@[j]),
                    Some(v) => exists|i: int|
                        #[trigger] moov_at(roots@, i) && v@ == moov_traks(roots@[i]),
                },
            decreases roots@.len() - bi,
        {
            if traks_found.is_none() {
                match moov_tracks(&roots[bi]) {
                    Some(ts) => {
                        proof {
                            assert(moov_at(roots@, bi as int));
                        }
                        traks_found = Some(ts);
                    },
                    None => {
                        proof {
                            assert(!is_moov(roots@[bi as int]));
                        }
                    },
                }
            }
            bi = bi + 1;
        }
        match traks_found {
            Some(tracks) => Ok(InputMp4 { tracks }),
            None => {
                proof {
                    assert forall|i: int| !moov_at(roots@, i) by {
                        if 0 <= i < roots@.len() {
                            assert(!is_moov(roots@[i]));
                        }
                    }
                }
                Err(String::from_str("moov box not found"))
            },
        }
    }

    /// Summarizes every track of the file.
    pub fn get_track_infos(&self) -> (r: Option<Vec<TrackInfo>>)
        ensures
            r matches Some(infos) && infos@.len() == self.spec_track_count(),
            r matches Some(infos) ==> forall|i: int|
                0 <= i < infos@.len() ==> track_info_matches(
                    self.spec_tracks()[i],
                    #[trigger] infos@[i],
                ),
    {
        let mut infos: Vec<TrackInfo> = Vec::new();
        let mut ti: usize = 0;
        while ti < self.tracks.len()
            invariant
                0 <= ti <= self.tracks@.len(),
                infos@.len() == ti,
                forall|i: int|
                    0 <= i < ti ==> track_info_matches(self.tracks@[i], #[trigger] infos@[i]),
            decreases self.tracks@.len() - ti,
        {
            infos.push(self.get_track_info(&self.tracks[ti]));
            ti = ti + 1;
        }
        Some(infos)
    }

    /// Summarizes one track: media kind, duration, codec, table counts.
    fn get_track_info(&self, trak: &TrakBox) -> (r: TrackInfo)
        ensures
            track_info_matches(*trak, r),
    {
        let h = track_handler(trak);
        // The handler tags are the ASCII bytes of `vide` and `soun`.
        let media_type = if h[0] == 118 && h[1] == 105 && h[2] == 100 && h[3] == 101 {
            proof {
                assert(h@ =~= seq![118u8, 105u8, 100u8, 101u8]);
            }
            String::from_str("ビデオ")
        } else if h[0] == 115 && h[1] == 111 && h[2] == 117 && h[3] == 110 {
            proof {
                assert(h@ =~= seq![115u8, 111u8, 117u8, 110u8]);
            }
            String::from_str("オーディオ")
        } else {
            proof {
                assert(h@ != seq![118u8, 105u8, 100u8, 101u8] && h@ != seq![
                    115u8,
                    111u8,
                    117u8,
                    110u8,
                ]) by {
                    assert(h@[0] == h[0] && h@[1] == h[1] && h@[2] == h[2] && h@[3] == h[3]);
                }
            }
            String::from_str("不明")
        };
        let timescale = track_timescale(trak);
        let duration_ticks = track_duration(trak);
        let codec = match first_sample_entry(trak) {
            Some(entry) => {
                let kind = sample_entry_codec(&entry);
                get_codec_name(&kind)
            },
            None => String::from_str("不明 (サンプルエントリなし)"),
        };
        let (sample_count, chunk_count) = match new_sample_table(trak) {
            Ok(table) => (Some(table_len(&table)), Some(table_chunk_count(&table))),
            Err(_) => (None, None),
        };
        TrackInfo { media_type, duration_ticks, timescale, codec, sample_count, chunk_count }
    }
}

} // verus!
