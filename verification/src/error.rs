//! Error taxonomy shared by the download and search components.

use vstd::prelude::*;

verus! {

/// Failure kinds of the download side.
#[derive(Debug, Clone)]
pub enum DownloadError {
    /// The URL was rejected before any external work started.
    InvalidUrl(String),
    /// The transfer itself failed; carries a message.
    DownloadFailed(String),
    /// The platform is not supported for this operation.
    UnsupportedPlatform(String),
    /// A local input/output failure.
    IoError(String),
    /// Metadata extraction failed.
    ExtractionError(String),
    /// A network failure.
    NetworkError(String),
    /// The item does not exist or is unavailable.
    VideoNotFound,
    /// The output directory does not exist or is not writable.
    InvalidOutputDirectory,
    /// The caller abandoned the operation.
    Cancelled,
}

/// Failure kinds of the search side.
#[derive(Debug)]
pub enum SearchError {
    /// The query was empty or otherwise unusable.
    InvalidQuery(String),
    /// The external tool exited with a failure.
    CommandFailed(String),
    /// A metadata payload could not be decoded.
    JsonParseError(String),
    /// The external tool is not installed.
    MissingYtDlp,
    /// The remote side reported a request-rate limit.
    RateLimited(String),
    /// A local input/output failure.
    IoError(String),
}

impl Clone for SearchError {
    fn clone(&self) -> (r: Self)
        ensures
            r == *self,
    {
        match self {
            SearchError::InvalidQuery(m) => SearchError::InvalidQuery(m.clone()),
            SearchError::CommandFailed(m) => SearchError::CommandFailed(m.clone()),
            SearchError::JsonParseError(m) => SearchError::JsonParseError(m.clone()),
            SearchError::MissingYtDlp => SearchError::MissingYtDlp,
            SearchError::RateLimited(m) => SearchError::RateLimited(m.clone()),
            SearchError::IoError(m) => SearchError::IoError(m.clone()),
        }
    }
}

} // verus!
