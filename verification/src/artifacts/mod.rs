//! Processor artifacts kept in immutable, individually seekable segments.

pub mod batch;
pub mod laws;
pub mod messages;
pub mod scan;
pub mod segment;
pub mod segment_sink;
pub mod sink;
pub mod sink_laws;
pub mod verify;
pub mod writer;
