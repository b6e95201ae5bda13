//! The error kinds the schedule engine can report. Every error is terminal
//! for the request that raised it: nothing is retried or recovered locally.

use vstd::prelude::*;

verus! {

/// Why a schedule could not be produced.
#[derive(Debug, PartialEq, Eq)]
pub enum Error {
    /// The property identifier failed the prefix check; the upstream source
    /// was never contacted.
    IdError(String),
    /// The identifier is well-formed but the upstream source does not know
    /// it and answered with its redirect landing page.
    RedirectPage(String),
    /// The page fetch itself failed; possibly transient, surfaced as-is.
    TransportError(String),
    /// Scraped content did not match the expected shape: an unknown kind
    /// name, a malformed date, or a missing page element.
    ParseError,
}

} // verus!
