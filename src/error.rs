//! The errors that the library reports.

use vstd::prelude::*;

verus! {

/// What went wrong while parsing, listing or resolving interpreter builds.
#[derive(Debug, PartialEq, Eq)]
pub enum Error {
    /// A text found upstream does not carry a version a download can be matched against.
    ParseAsset(String),
    /// A user-supplied version does not follow the version grammar.
    InvalidVersion(String),
    /// No listed build is compatible with the requested version.
    VersionNotFound(String),
    /// The platform the library was built for has no known download tag.
    Platform(String),
    /// The download page could not be read as a table of links.
    Scraper(String),
    /// A download link is not a valid URL.
    Url(url::ParseError),
    /// The release listing is blocked by the upstream rate limit.
    CPythonDownloadRateLimit,
    /// The release listing kept failing to decode after every retry.
    CPythonDownloadError,
}

} // verus!
