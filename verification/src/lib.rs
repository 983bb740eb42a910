//! A compact binary codec for recorded activity tracks: a stream of
//! geo-tagged, time-stamped samples with optional sensor channels.
//!
//! The stream is one header followed by segment, track-point and
//! time-sync records, each introduced by a one-byte marker. Timestamps
//! inside a segment are stored as one-byte deltas against a rolling
//! reference time; a seven-byte "fat time" record re-anchors the
//! reference when a delta would not fit.

pub mod activity_type;
pub mod records;
pub mod reader;
pub mod session;
pub mod time;
pub mod writer;
