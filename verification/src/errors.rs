//! Errors of the library.
use crate::fetch::Method;
use vstd::prelude::*;

verus! {

/// The error of an HTTP exchange, [`ureq::Error`].
#[verifier::external_type_specification]
#[verifier::external_body]
pub struct ExHttpError(ureq::Error);

/// An I/O error, [`std::io::Error`].
#[verifier::external_type_specification]
#[verifier::external_body]
pub struct ExIoError(std::io::Error);

/// Why a worker pool could not be started.
#[derive(Debug)]
pub enum FetchError {
    /// More threads were requested than the machine offers.
    TooManyThreads { requested: usize, available: usize },
    /// The number of available threads could not be determined.
    ParallelismUnavailable(std::io::Error),
}

/// Why a fetch failed. Stored in the results of a pool.
#[derive(Debug)]
pub enum FetchLinkError {
    /// The library does not implement this method: say so explicitly instead of
    /// masquerading as an HTTP 405 from the server.
    UnsupportedMethod(Method),
    /// The worker thread panicked while fetching the URL.
    WorkerPanic,
    /// The exchange failed.
    Http(ureq::Error),
}

impl From<std::io::Error> for FetchError {
    fn from(error: std::io::Error) -> (converted: FetchError) {
        FetchError::ParallelismUnavailable(error)
    }
}

impl vstd::std_specs::convert::FromSpecImpl<std::io::Error> for FetchError {
    open spec fn obeys_from_spec() -> bool {
        true
    }

    open spec fn from_spec(error: std::io::Error) -> FetchError {
        FetchError::ParallelismUnavailable(error)
    }
}

impl From<ureq::Error> for FetchLinkError {
    fn from(error: ureq::Error) -> (converted: FetchLinkError) {
        FetchLinkError::Http(error)
    }
}

impl vstd::std_specs::convert::FromSpecImpl<ureq::Error> for FetchLinkError {
    open spec fn obeys_from_spec() -> bool {
        true
    }

    open spec fn from_spec(error: ureq::Error) -> FetchLinkError {
        FetchLinkError::Http(error)
    }
}

} // verus!
