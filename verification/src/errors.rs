use vstd::prelude::*;

verus! {

/// Failures that can come out of the first-commit discovery engine.
///
/// A rate-limited response is never surfaced as an error: the client retries
/// it internally, so no variant stands for it here.
#[derive(Debug)]
pub enum Error {
    /// The remote API answered with a non-success, non-rate-limit status.
    RemoteRequestFailed { status: u16, body: String },
    /// A response body could not be decoded; carries the raw body for diagnosis.
    DecodingFailed { cause: String, raw_body: String },
    /// A pagination cursor was empty where one was required.
    CursorMissing,
    /// Wraps any of the above with the repository whose resolution failed.
    RepositoryResolutionFailed { owner: String, name: String, cause: Box<Error> },
}

impl Error {
    /// True when this error carries the identity of the given repository.
    pub open spec fn identifies(&self, owner: Seq<char>, name: Seq<char>) -> bool {
        &&& self matches Error::RepositoryResolutionFailed { owner: o, name: n, .. }
        &&& o@ == owner
        &&& n@ == name
    }
}

} // verus!
