//! The record of one checked URL.

use vstd::prelude::*;

verus! {

/// A wall-clock instant, as whole seconds and nanoseconds since the Unix epoch.
#[derive(Clone, Copy, Debug, PartialEq, Eq, Structural)]
pub struct Timestamp {
    pub secs: u64,
    pub nanos: u32,
}

/// The terminal record of one checked URL.
pub struct WebsiteStatus {
    /// The URL exactly as it was given.
    pub url: String,
    /// The HTTP status code of a successful check, or the failure message.
    pub action_status: Result<u16, String>,
    /// Time from the start of the first attempt to the end of the last one, in whole milliseconds.
    pub response_time_ms: u64,
    /// When the last attempt resolved.
    pub timestamp: Timestamp,
}

/// Mathematical view of a `WebsiteStatus`.
pub struct StatusView {
    pub url: Seq<char>,
    pub action_status: Result<u16, Seq<char>>,
    pub response_time_ms: u64,
    pub timestamp: Timestamp,
}

/// The view of an outcome, with the failure message as a sequence of characters.
pub open spec fn outcome_view(o: Result<u16, String>) -> Result<u16, Seq<char>> {
    match o {
        Ok(c) => Ok(c),
        Err(m) => Err(m@),
    }
}

impl View for WebsiteStatus {
    type V = StatusView;

    open spec fn view(&self) -> StatusView {
        StatusView {
            url: self.url@,
            action_status: outcome_view(self.action_status),
            response_time_ms: self.response_time_ms,
            timestamp: self.timestamp,
        }
    }
}

impl WebsiteStatus {
    /// Builds the record of a finished check.
    pub fn new(url: String, action_status: Result<u16, String>, response_time_ms: u64, timestamp: Timestamp) -> (r: Self)
        ensures
            r@ == (StatusView {
                url: url@,
                action_status: outcome_view(action_status),
                response_time_ms,
                timestamp,
            }),
    {
        WebsiteStatus { url, action_status, response_time_ms, timestamp }
    }
}

} // verus!
