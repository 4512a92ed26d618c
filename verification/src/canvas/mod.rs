//! Presenting canvases without copying: the producer and the consumer of the buffers.
pub mod present;
pub mod source_cache;
pub mod styles;
pub mod target;
