//! The request payloads of the service's endpoints, as plain data.

use vstd::prelude::*;

verus! {

/// One raw crawler report of one player.
pub struct RawOtherPlayer {
    /// The player's name.
    pub name: String,
    /// The raw server URL the player was seen on.
    pub server: String,
    /// The game's slash-delimited integer encoding of the player.
    pub info: String,
    /// The player's free-text description, if any.
    pub description: Option<String>,
    /// The player's guild name, if any.
    pub guild: Option<String>,
    /// Suggested soldier count, if the crawler derived one.
    pub soldier_advice: Option<i64>,
    /// When the crawler fetched the data, as an RFC 3339 timestamp.
    pub fetch_date: String,
    /// A client-side row id; the service ignores it.
    pub player_id: i64,
}

/// Arguments of the player recrawl claim endpoint.
pub struct GetCharactersArgs {
    /// The raw server URL whose players are wanted.
    pub server: String,
    /// How many players the caller can take.
    pub limit: u64,
}

/// Arguments of the hall-of-fame page claim endpoint.
pub struct GetHofArgs {
    /// The raw server URL whose pages are wanted.
    pub server: String,
    /// The server's current player count, sizing the page list.
    pub player_count: u32,
    /// How many pages the caller can take.
    pub limit: u64,
}

/// Arguments of the hall-of-fame report endpoint.
pub struct ReportHofArgs {
    /// The raw server URL the pages belong to.
    pub server: String,
    /// The reported pages: page index and raw listing text.
    pub pages: Vec<(i64, String)>,
}

/// One ranked scrapbook target.
pub struct ScrapBookAdvice {
    /// The target player's name.
    pub player_name: String,
    /// How many of the target's worn items the collector still misses.
    pub new_count: i64,
}

} // verus!
