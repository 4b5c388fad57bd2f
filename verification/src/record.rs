//! The per-request result model.
//!
//! One `ResultRecord` describes one request attempt: when it started, how
//! long it took, what came back. A transport failure (timeout, connection,
//! DNS or TLS error, or a body that could not be read) carries no status
//! code; a received response always does, whatever its numeric code.

use vstd::prelude::*;

verus! {

/// What one request attempt produced, as the transport reports it.
///
/// `Response` means a status line was received, even an error status.
/// `TransportFailure` means no response was obtained at all.
#[derive(Clone, Copy, PartialEq, Eq, Structural, Debug)]
pub enum RequestOutcome {
    Response {
        /// The numeric HTTP status code of the response.
        status: u16,
        /// The transport-reported content length, if the header was present.
        content_length: Option<u64>,
        /// The number of body bytes actually read.
        body_len: u64,
    },
    TransportFailure,
}

/// One completed or failed request attempt.
#[derive(Clone, Copy, PartialEq, Eq, Structural, Debug)]
pub struct ResultRecord {
    /// Monotonic timestamp, in milliseconds, at which the request began.
    pub start_ms: u64,
    /// Status code of the response; absent when no response was received.
    pub status_code: Option<u16>,
    /// Duration from request start to completion or failure, in milliseconds.
    pub elapsed_ms: u64,
    /// Byte count of the response body; zero for failed requests.
    pub bytes_transferred: u64,
    /// True iff the transport failed to produce a response.
    pub is_error: bool,
}

impl ResultRecord {
    /// A record is well formed when a status code is present exactly on the
    /// attempts that received a response.
    pub open spec fn wf(self) -> bool {
        self.is_error <==> self.status_code is None
    }

    /// The record that a given outcome yields, with the given timing.
    pub open spec fn of_outcome(start_ms: u64, elapsed_ms: u64, outcome: RequestOutcome) -> ResultRecord {
        match outcome {
            RequestOutcome::Response { status, content_length, body_len } => ResultRecord {
                start_ms,
                status_code: Some(status),
                elapsed_ms,
                bytes_transferred: match content_length {
                    Some(len) => len,
                    None => body_len,
                },
                is_error: false,
            },
            RequestOutcome::TransportFailure => ResultRecord {
                start_ms,
                status_code: None,
                elapsed_ms,
                bytes_transferred: 0,
                is_error: true,
            },
        }
    }

    /// Builds the record for an outcome. The content length reported by the
    /// transport is preferred; the body length actually read is the fallback.
    /// A transport failure yields no status code and zero bytes.
    pub fn from_outcome(start_ms: u64, elapsed_ms: u64, outcome: RequestOutcome) -> (r: ResultRecord)
        ensures
            r == Self::of_outcome(start_ms, elapsed_ms, outcome),
            r.wf(),
    {
        match outcome {
            RequestOutcome::Response { status, content_length, body_len } => {
                let bytes: u64 = match content_length {
                    Some(len) => len,
                    None => body_len,
                };
                ResultRecord {
                    start_ms,
                    status_code: Some(status),
                    elapsed_ms,
                    bytes_transferred: bytes,
                    is_error: false,
                }
            },
            RequestOutcome::TransportFailure => ResultRecord {
                start_ms,
                status_code: None,
                elapsed_ms,
                bytes_transferred: 0,
                is_error: true,
            },
        }
    }
}

} // verus!
