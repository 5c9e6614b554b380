//! The ways in which the library refuses an input.

use vstd::prelude::*;

verus! {

/// Why a registration, a request or a wire token was refused.
#[derive(Clone, Copy, Debug, PartialEq, Eq, Structural)]
pub enum Error {
    /// A route was registered under a path that does not start with `/`.
    InvalidRoute,
    /// A request line without exactly three tokens or with an unknown method,
    /// a header line without the `": "` separator, or no line at all.
    MalformedRequest,
    /// A token that names no HTTP method.
    UnknownMethod,
    /// A string that is the status line text of no known status.
    UnknownStatus,
}

impl Error {
    /// The text of the message of each error.
    pub open spec fn text(self) -> Seq<char> {
        match self {
            Error::InvalidRoute => "Route must start with /"@,
            Error::MalformedRequest => "Malformed request"@,
            Error::UnknownMethod => "Unknown method"@,
            Error::UnknownStatus => "Unknown status"@,
        }
    }

    /// A short message for the error, fit for a log line.
    pub fn message(&self) -> (s: &'static str)
        ensures
            s@ == self.text(),
    {
        match self {
            Error::InvalidRoute => "Route must start with /",
            Error::MalformedRequest => "Malformed request",
            Error::UnknownMethod => "Unknown method",
            Error::UnknownStatus => "Unknown status",
        }
    }
}

} // verus!
