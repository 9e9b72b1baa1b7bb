use zmp::setting::MusicFolderSyncSettings;
use zmp::song::Song;
use zmp::watcher::{
    combine_signals, music_folder_to_sync, plan_library_sync, rescanned_song_update,
    should_announce_library_change, should_sync_for_event, song_matches_discovered_file,
    songs_match_metadata,
    DiscoveredMusicFile, FileRescan, WatcherLoop, WatcherSignal,
};

fn song(id: i32, path: &str, size: i64, modified: i64) -> Song {
    Song {
        id,
        title: "t".to_string(),
        artist: "a".to_string(),
        release_year: 2000,
        album: String::new(),
        remix: String::new(),
        search_blob: "t a 2000".to_string(),
        file_path: path.to_string(),
        duration: 100,
        extension: "mp3".to_string(),
        file_size: size,
        file_modified_millis: modified,
    }
}

fn file(path: &str, size: i64, modified: i64) -> DiscoveredMusicFile {
    DiscoveredMusicFile { file_path: path.to_string(), file_size: size, file_modified_millis: modified }
}

#[test]
fn folder_to_sync_needs_a_processed_non_empty_folder() {
    let s = MusicFolderSyncSettings { music_folder_path: "  /music  ".to_string(), has_processed_music_folder: true };
    assert_eq!(music_folder_to_sync(&s), Some("/music".to_string()));
    let s = MusicFolderSyncSettings { music_folder_path: "/music".to_string(), has_processed_music_folder: false };
    assert_eq!(music_folder_to_sync(&s), None);
    let s = MusicFolderSyncSettings { music_folder_path: "   ".to_string(), has_processed_music_folder: true };
    assert_eq!(music_folder_to_sync(&s), None);
}

#[test]
fn signals_combine() {
    assert_eq!(combine_signals(&[WatcherSignal::SyncLibrary, WatcherSignal::SyncLibrary]), (false, true));
    assert_eq!(combine_signals(&[WatcherSignal::RefreshConfig, WatcherSignal::SyncLibrary]), (true, true));
    assert_eq!(combine_signals(&[]), (false, false));
}

#[test]
fn watcher_loop_debounces_syncs() {
    let mut l = WatcherLoop::new();
    assert!(!l.on_quiet_period_end());
    let r = l.on_signals(&[WatcherSignal::RefreshConfig]);
    assert!(r.refresh_watcher && !r.restart_debounce);
    let r = l.on_signals(&[WatcherSignal::SyncLibrary]);
    assert!(r.restart_debounce);
    assert!(l.on_quiet_period_end());
    assert!(!l.on_quiet_period_end());
    assert!(should_announce_library_change(true, true));
    assert!(!should_announce_library_change(true, false));
}

#[test]
fn matching_compares_everything_but_the_id() {
    let a = song(1, "/a", 5, 6);
    let mut b = song(2, "/a", 5, 6);
    assert!(songs_match_metadata(&a, &b));
    b.title = "other".to_string();
    assert!(!songs_match_metadata(&a, &b));
    assert!(song_matches_discovered_file(&a, &file("/a", 5, 6)));
    assert!(!song_matches_discovered_file(&a, &file("/a", 5, 7)));
}

#[test]
fn plan_rescans_new_and_changed_files_and_drops_missing_songs() {
    let existing = vec![song(1, "/keep", 1, 1), song(2, "/changed", 1, 1), song(3, "/gone", 1, 1)];
    let files = vec![file("/new", 1, 1), file("/changed", 2, 1), file("/keep", 1, 1)];
    let plan = plan_library_sync(&existing, &files);
    assert_eq!(
        plan.rescans,
        vec![
            FileRescan { file_index: 0, existing_index: None },
            FileRescan { file_index: 1, existing_index: Some(1) },
        ]
    );
    assert_eq!(plan.removed_song_ids, vec![3]);
}

#[test]
fn plan_treats_a_repeated_file_path_as_new() {
    let existing = vec![song(1, "/a", 1, 1)];
    let files = vec![file("/a", 1, 1), file("/a", 1, 1)];
    let plan = plan_library_sync(&existing, &files);
    assert_eq!(plan.rescans, vec![FileRescan { file_index: 1, existing_index: None }]);
    assert!(plan.removed_song_ids.is_empty());
}

#[test]
fn rescanned_song_keeps_the_stored_id() {
    let existing = song(7, "/a", 1, 1);
    assert_eq!(rescanned_song_update(&existing, song(0, "/a", 1, 1)), None);
    let updated = rescanned_song_update(&existing, song(0, "/a", 2, 1)).unwrap();
    assert_eq!(updated.id, 7);
    assert_eq!(updated.file_size, 2);
}

#[test]
fn events_inside_the_folder_call_for_a_sync() {
    let paths = vec!["/music/album/song.mp3".to_string()];
    assert!(should_sync_for_event(false, &paths, "/music"));
    assert!(!should_sync_for_event(true, &paths, "/music"));
    assert!(!should_sync_for_event(false, &paths, "/musicals"));
    let paths = vec!["/other/x.mp3".to_string(), "/music".to_string()];
    assert!(should_sync_for_event(false, &paths, "/music"));
    assert!(!should_sync_for_event(false, &[], "/music"));
}
