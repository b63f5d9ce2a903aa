//! Decoders for the metadata boxes of fragmented MP4 segments, with the
//! helpers of the playlist collector.

pub mod reader;
pub mod boxes;
pub mod collect;
