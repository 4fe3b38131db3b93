//! Verified core of an SSH authentication-log shipper.
//!
//! The crate turns raw log lines into typed session events, decides what a
//! location lookup contributes to an event, lays out the metric point that is
//! sent for it, and keeps the bookkeeping of a file tailer that survives log
//! rotation. All of it works on plain values; reading files, querying the
//! location database and talking to the metrics store are left to the caller.

pub mod classifier;
pub mod geo;
pub mod grammar;
pub mod metric;
pub mod pipeline;
pub mod tailer;
pub mod text;
