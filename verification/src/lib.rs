//! Compression and run-packing engine for bi-level raster video.
//!
//! A frame is a row-major sequence of pixels, each 0 or 1. Every frame is
//! encoded by several competing algorithms, the shortest payload is kept, and
//! consecutive frames that chose the same algorithm are packed into
//! length-prefixed runs behind a fixed container header.

pub mod algorithm;
pub mod bitpack;
pub mod container;
pub mod error;
pub mod frame;
pub mod runlength;
pub mod runs;
pub mod selector;
pub mod video;
