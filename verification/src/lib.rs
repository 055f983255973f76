//! Extraction of a contiguous time range from a multi-track MP4 file.
//!
//! The crate models each track as a plain list of sample records and
//! verifies the whole remux pipeline over that model: per-track window
//! resolution (with keyframe snapping for video), the timestamp-ordered
//! k-way merge across tracks, byte-offset accounting of the written
//! stream, and the reserve-then-patch metadata protocol.  The binary box
//! decoding, the sample-table construction and the metadata muxing are
//! delegated to the `shiguredo_mp4` crate behind a small trusted layer.
use vstd::prelude::*;

pub mod sample;
pub mod container;
pub mod schedule;
pub mod extract;
pub mod io;
pub mod info;

verus! {

} // verus!
