//! Verified core of an offline music-transcription pipeline: windowed
//! framing, onset novelty post-processing, adaptive peak-picking, tempo lag
//! search, and equal-tempered note quantization, all stated over plain
//! integer models of the real-valued signals they operate on.

pub mod arith;
pub mod bpm_detection;
pub mod errors;
pub mod flux;
pub mod framing;
pub mod notes;
pub mod onset_detection;
pub mod peak_picking;
pub mod shared;

pub use framing::frame_to_frames;
pub use framing::make_frames;
pub use framing::num_frames;
