//! A concurrent website-availability checker: a bounded retry policy for each URL,
//! a shared work board that hands every URL to exactly one worker and collects one
//! record per URL, and a JSON report of the records.

pub mod board;
pub mod config;
pub mod exercises;
pub mod number;
pub mod readback;
pub mod report;
pub mod retry;
pub mod status;
