//! The playlist source's response shapes, as plain values: the identity
//! triple it attaches to playlists and items, and the two list responses
//! the draft is populated from.

use vstd::prelude::*;

verus! {

/// The source system's identity triple: a stable uuid, a display name,
/// and the position in the containing list.
#[derive(Debug, Clone, PartialEq)]
pub struct Dictionary {
    pub uuid: String,
    pub name: String,
    pub index: usize,
}

/// One playlist item: its identity and its category string, passed
/// through unchanged.
#[derive(Debug, Clone, PartialEq)]
pub struct PlaylistItem {
    pub id: Dictionary,
    pub item_type: String,
}

/// A playlist's contents.
#[derive(Debug, Clone, PartialEq)]
pub struct PlaylistResponse {
    pub id: Dictionary,
    pub items: Vec<PlaylistItem>,
}

/// One row of the playlist listing.
#[derive(Debug, Clone, PartialEq)]
pub struct PlaylistInfo {
    pub id: Dictionary,
}

} // verus!
