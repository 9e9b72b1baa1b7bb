use vstd::prelude::*;

pub mod config;
pub mod decimal;
pub mod filter;
pub mod filter_sync;
pub mod manager;
pub mod metadata;
pub mod order;
pub mod player;
pub mod search_blob;
pub mod setting;
pub mod song;
pub mod song_filter;
pub mod song_query;
pub mod song_search;
pub mod sqlite;
pub mod text;
pub mod watcher;

verus! {
}
