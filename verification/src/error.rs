//! The service's error taxonomy.

use vstd::prelude::*;

verus! {

/// Everything that can go wrong while serving crawler requests.
#[derive(Debug, Clone, PartialEq, Eq)]
pub enum MFBotError {
    /// The store could not complete an operation.
    DBError(String),
    /// A player report was malformed: the payload or the fetch date could
    /// not be parsed.
    InvalidPlayer(String),
    /// A scrapbook payload could not be parsed.
    InvalidScrapbook,
    /// A server URL could not be parsed or could not be forced to the
    /// secure scheme.
    InvalidServer,
    /// An internal invariant was violated.
    Internal,
}

} // verus!
