use zmp::manager::{
    affected_song_file_paths, loaded_settings_to_save, partition_song_metadata_sync_paths,
    pending_songs, playback_settings_to_save, shifted_seek, should_start_playing,
    song_id_for_path, song_ids_for_paths, PlaybackChange, PreviewCache,
};
use zmp::player::PlaybackAttempt;
use zmp::song::Song;
use zmp::song_filter::SongFilter;
use zmp::song_query::SongWithFilters;

fn song(id: i32, path: &str) -> Song {
    Song {
        id,
        title: format!("song-{id}"),
        artist: "artist".to_string(),
        release_year: 1999,
        album: "album".to_string(),
        remix: String::new(),
        search_blob: String::new(),
        file_path: path.to_string(),
        duration: 180,
        extension: "mp3".to_string(),
        file_size: 1,
        file_modified_millis: 2,
    }
}

fn strings(v: &[&str]) -> Vec<String> {
    v.iter().map(|s| s.to_string()).collect()
}

#[test]
fn partition_defers_only_the_playing_song() {
    let (ready, deferred) = partition_song_metadata_sync_paths(
        strings(&["/a", "/b", "/a", "/c", "/b"]),
        Some("/b"),
    );
    assert_eq!(ready, vec!["/a", "/c"]);
    assert_eq!(deferred, vec!["/b"]);
}

#[test]
fn partition_without_current_song_defers_nothing() {
    let (ready, deferred) = partition_song_metadata_sync_paths(strings(&["/x", "/x"]), None);
    assert_eq!(ready, vec!["/x"]);
    assert!(deferred.is_empty());
}

#[test]
fn playback_settings_follow_the_change() {
    let started = PlaybackChange::from_attempt(
        Some(2),
        PlaybackAttempt { failed_song_ids: vec![4], should_emit_track_changed: true },
    );
    assert_eq!(started.failed_song_ids, vec![4]);
    let ws = playback_settings_to_save(&started).unwrap();
    assert_eq!(ws[0].value, "2");
    assert_eq!(ws[2].value, "true");

    let stopped = PlaybackChange { current_index: None, failed_song_ids: vec![], should_emit_track_changed: false };
    let ws = playback_settings_to_save(&stopped).unwrap();
    assert_eq!(ws[2].value, "false");

    let unchanged = PlaybackChange { current_index: Some(1), failed_song_ids: vec![], should_emit_track_changed: false };
    assert!(playback_settings_to_save(&unchanged).is_none());
}

#[test]
fn loaded_settings_save_position_or_clear() {
    let ws = loaded_settings_to_save(Some(5), true);
    assert_eq!(ws.len(), 1);
    assert_eq!(ws[0].key, "index_value");
    assert_eq!(ws[0].value, "5");
    let ws = loaded_settings_to_save(None, true);
    assert_eq!(ws.len(), 3);
    let ws = loaded_settings_to_save(None, false);
    assert_eq!(ws.len(), 1);
    assert_eq!(ws[0].value, "0");
}

#[test]
fn start_playing_unless_always_paused() {
    assert!(should_start_playing(true, false));
    assert!(!should_start_playing(true, true));
    assert!(!should_start_playing(false, false));
}

#[test]
fn seek_shifts_saturate() {
    assert_eq!(shifted_seek(10, 5, true), 15);
    assert_eq!(shifted_seek(10, 15, false), 0);
    assert_eq!(shifted_seek(u64::MAX - 1, 5, true), u64::MAX);
    assert_eq!(shifted_seek(10, 4, false), 6);
}

#[test]
fn preview_cache_hands_back_a_matching_search_once() {
    let mut cache = PreviewCache::new();
    cache.cache("ambient", Vec::<SongWithFilters>::new());
    assert!(cache.take_matching("other").is_none());
    assert!(cache.take_matching("ambient").is_some());
    assert!(cache.take_matching("ambient").is_none());
    cache.cache("x", Vec::new());
    cache.clear();
    assert!(cache.take_matching("x").is_none());
}

#[test]
fn affected_paths_follow_song_order() {
    let songs = vec![song(1, "/a"), song(2, "/b"), song(3, "/c")];
    let links = vec![
        SongFilter { id: 1, song_id: 3, filter_id: 9 },
        SongFilter { id: 2, song_id: 1, filter_id: 9 },
    ];
    assert_eq!(affected_song_file_paths(&links, &songs), vec!["/a", "/c"]);
}

#[test]
fn song_ids_by_path_take_the_last_song() {
    let songs = vec![song(1, "/a"), song(2, "/b"), song(3, "/a")];
    assert_eq!(song_id_for_path(&songs, "/a"), Some(3));
    assert_eq!(song_id_for_path(&songs, "/z"), None);
    assert_eq!(song_ids_for_paths(&songs, &strings(&["/b", "/z", "/a"])), vec![2, 3]);
}

#[test]
fn pending_songs_are_those_at_pending_paths() {
    let songs = vec![song(1, "/a"), song(2, "/b"), song(3, "/c")];
    let pending = pending_songs(&songs, &strings(&["/c", "/a"]));
    let ids: Vec<i32> = pending.iter().map(|s| s.id).collect();
    assert_eq!(ids, vec![1, 3]);
}

#[test]
fn error_response_keeps_the_message() {
    let e = zmp::manager::ErrorResponse::from_message("no cached preview search for query: x".to_string());
    assert_eq!(e.message(), "no cached preview search for query: x");
}

#[test]
fn collected_filters_prefer_pending_store_filters() {
    let songs = vec![song(1, "/a"), song(2, "/b")];
    let stored = vec![zmp::filter::Filter { id: 3, name: "kept".to_string() }];
    let pending = vec![("/b".to_string(), stored.clone())];
    let tags = vec![
        vec![zmp::filter::Filter { id: 0, name: "from tag a".to_string() }],
        vec![zmp::filter::Filter { id: 0, name: "stale tag b".to_string() }],
    ];
    let out = zmp::manager::collect_song_metadata_filters(&songs, &pending, tags);
    assert_eq!(out[0].0, "/a");
    assert_eq!(out[0].1[0].name, "from tag a");
    assert_eq!(out[1].0, "/b");
    assert_eq!(out[1].1, stored);
}
