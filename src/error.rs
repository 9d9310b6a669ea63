//! Error taxonomy of the scraper.

use vstd::prelude::*;

verus! {

/// Why a feed document could not be had: the fetch or the parse failed.
#[derive(Clone, Debug, PartialEq, Eq)]
pub enum RssError {
    /// The document was fetched but is not a valid feed.
    ParseFeed(String),
    /// The document could not be fetched.
    Reqwest(String),
}

/// An error of one feed's ingestion or of a scheduling pass.
#[derive(Clone, Debug, PartialEq, Eq)]
pub enum Error {
    /// Fetching or parsing one feed failed; only that feed is affected.
    FeedUnavailable(RssError),
    /// A read or write against the store failed; the current pass stops.
    Storage(String),
    /// The flags or the feed list could not be read before any resync succeeded.
    ConfigurationMissing(String),
}

impl Error {
    /// Whether the error stops the rest of the current scheduling pass.
    pub open spec fn spec_aborts_pass(&self) -> bool {
        !(self is FeedUnavailable)
    }

    /// Whether the error stops the rest of the current scheduling pass.
    pub fn aborts_pass(&self) -> (r: bool)
        ensures
            r == self.spec_aborts_pass(),
    {
        match self {
            Error::FeedUnavailable(_) => false,
            _ => true,
        }
    }
}

} // verus!
