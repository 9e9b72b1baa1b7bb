//! Links between songs and filters.
use vstd::prelude::*;

verus! {

/// The link of one song to one filter.
#[derive(Debug, Clone, Copy, PartialEq, Eq)]
pub struct SongFilter {
    pub id: i32,
    pub song_id: i32,
    pub filter_id: i32,
}

} // verus!
