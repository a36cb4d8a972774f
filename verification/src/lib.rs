//! Verified core of an osu! beatmap dataset pipeline: the text formats,
//! encodings and selection rules shared by the archive extractor, the
//! dataset builder, the folder reconstructor and the beatmap viewers.

pub mod text;
pub mod storyboard;
pub mod sorted;
pub mod paths;
pub mod extract;
pub mod beatmap;
pub mod order;
pub mod types;
pub mod playback;
pub mod reader;
pub mod folder;
pub mod enricher;
pub mod builder;
pub mod batch;
