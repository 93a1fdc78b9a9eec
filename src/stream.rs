//! What a stream lookup returns.
use vstd::prelude::*;

verus! {

/// One live stream.
pub struct StreamData {
    pub id: String,
    pub user_id: String,
    pub user_login: String,
    pub user_name: String,
    pub game_id: String,
    /// The name of the game being played.
    pub game_name: String,
    pub stream_type: String,
    /// The stream's title; empty if not set.
    pub title: String,
    pub tags: Vec<String>,
    pub viewer_count: u32,
    /// RFC 3339.
    pub started_at: String,
    pub language: String,
    pub thumbnail_url: String,
    pub is_mature: bool,
}

/// The cursor for the next page of results, if any.
pub struct Pagination {
    pub cursor: Option<String>,
}

/// The streams a lookup found; empty when the user is not live.
pub struct StreamInfo {
    pub data: Vec<StreamData>,
    pub pagination: Pagination,
}

/// A stream entry as the stream lookup returns it.
pub type Data = StreamData;

} // verus!
