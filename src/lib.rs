//! Subtitle timing synchronisation: the timing logic around an alignment engine.
//!
//! Timelines are lists of millisecond spans. They are discretised into ticks for
//! the alignment engine, voice activity flags are turned into speech spans, the
//! engine's per-line offsets are grouped for reporting, and corrected timelines
//! are shifted so that no timestamp becomes negative.

pub mod chunker;
pub mod framerate;
pub mod groups;
pub mod pipeline;
pub mod sanitize;
pub mod segments;
pub mod timing;
