//! Animated-GIF recompression pipeline: disposal-aware frame compositing,
//! minimal inter-frame deltas, quality-adaptive quantization parameters, and
//! re-encoding into a new GIF stream, together with the small utilities the
//! surrounding application shares (format detection, size formatting, result
//! records).

pub mod align;
pub mod compose;
pub mod delta;
pub mod encode;
pub mod pipeline;
pub mod quality;
pub mod result;
pub mod schedule;
pub mod stream;
pub mod utils;
