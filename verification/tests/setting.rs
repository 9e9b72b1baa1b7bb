use zmp::setting::{
    app_settings_snapshot, bool_value, library_reset_settings, music_folder_sync_settings,
    normalize_sync_paths, pending_sync_paths, pending_sync_paths_setting, positive_i32_value,
    queue_sync_settings, song_list_limit_setting, song_list_query_settings, started_track_settings,
    string_value, usize_value, Setting, SettingError, SettingKey, DEFAULT_SONG_LIST_LIMIT,
};

fn setting(key: &str, value: &str) -> Setting {
    Setting { key: key.to_string(), value: value.to_string() }
}

fn pairs(settings: &[Setting]) -> Vec<(String, String)> {
    settings.iter().map(|s| (s.key.clone(), s.value.clone())).collect()
}

fn p(key: &str, value: &str) -> (String, String) {
    (key.to_string(), value.to_string())
}

#[test]
fn key_names_match_the_stored_keys() {
    assert_eq!(SettingKey::MusicFolderPath.name(), "music_folder_path");
    assert_eq!(SettingKey::SongListLimit.name(), "song_list_limit");
    assert_eq!(SettingKey::FocusSearchKeybind.name(), "focus_search_kb");
    assert_eq!(SettingKey::PendingSongMetadataSyncPaths.name(), "pending_song_metadata_sync_paths");
}

#[test]
fn values_decode_with_their_defaults() {
    let rows = vec![
        setting("repeat_flag", "true"),
        setting("random_play_flag", "yes"),
        setting("index_value", "12"),
        setting("current_seek_value", "-3"),
        setting("song_list_limit", "0"),
    ];
    assert!(bool_value(&rows, SettingKey::RepeatFlag));
    assert!(!bool_value(&rows, SettingKey::RandomPlayFlag));
    assert!(!bool_value(&rows, SettingKey::PlayPauseFlag));
    assert_eq!(usize_value(&rows, SettingKey::IndexValue, 0), 12);
    assert_eq!(usize_value(&rows, SettingKey::CurrentSeekValue, 0), 0);
    assert_eq!(positive_i32_value(&rows, SettingKey::SongListLimit, DEFAULT_SONG_LIST_LIMIT), 10000);
    assert_eq!(string_value(&rows, SettingKey::SearchBlob), "");
}

#[test]
fn the_last_row_for_a_key_wins() {
    let rows = vec![setting("search_blob", "old"), setting("search_blob", "new")];
    assert_eq!(string_value(&rows, SettingKey::SearchBlob), "new");
}

#[test]
fn app_settings_snapshot_reads_saved_values() {
    let rows = vec![
        setting("music_folder_path", "/music"),
        setting("processed_music_flag", "true"),
        setting("search_blob", "genre:ambient"),
        setting("song_list_limit", "2500"),
        setting("always_start_paused_flag", "false"),
        setting("play_pause_kb", "Space"),
        setting("settings_kb", "Ctrl+,"),
        setting("apply_selected_filter_kb", "Enter"),
    ];
    let snapshot = app_settings_snapshot(&rows);
    assert_eq!(snapshot.music_folder_path, "/music");
    assert!(snapshot.has_processed_music_folder);
    assert_eq!(snapshot.saved_search_blob, "genre:ambient");
    assert_eq!(snapshot.song_list_limit, 2500);
    assert!(!snapshot.always_start_paused);
    assert_eq!(snapshot.keybinds.play_pause, "Space");
    assert_eq!(snapshot.keybinds.toggle_settings, "Ctrl+,");
    assert_eq!(snapshot.keybinds.apply_selected_filter, "Enter");
    assert_eq!(snapshot.keybinds.mute, "");
}

#[test]
fn music_folder_sync_settings_default_when_missing() {
    let settings = music_folder_sync_settings(&[]);
    assert_eq!(settings.music_folder_path, "");
    assert!(!settings.has_processed_music_folder);
}

#[test]
fn song_list_query_settings_default_the_limit() {
    let settings = song_list_query_settings(&[setting("song_list_limit", "abc")]);
    assert_eq!(settings.song_list_limit, DEFAULT_SONG_LIST_LIMIT);
    assert_eq!(settings.saved_search_blob, "");
}

#[test]
fn song_list_limit_rejects_non_positive_values() {
    let zero = song_list_limit_setting(0).unwrap_err();
    let negative = song_list_limit_setting(-25).unwrap_err();
    assert_eq!(zero, SettingError::NonPositiveSongListLimit);
    assert!(zero.message().contains("greater than 0"));
    assert!(negative.message().contains("greater than 0"));
    let ok = song_list_limit_setting(2500).unwrap();
    assert_eq!(pairs(&[ok.clone()]), vec![p("song_list_limit", "2500")]);
    assert_eq!(positive_i32_value(&[ok], SettingKey::SongListLimit, DEFAULT_SONG_LIST_LIMIT), 2500);
}

#[test]
fn started_track_writes_position_zero_seek_and_playing() {
    assert_eq!(
        pairs(&started_track_settings(Some(3))),
        vec![p("index_value", "3"), p("current_seek_value", "0"), p("play_pause_flag", "true")]
    );
    assert_eq!(
        pairs(&started_track_settings(None)),
        vec![p("index_value", "0"), p("current_seek_value", "0"), p("play_pause_flag", "false")]
    );
}

#[test]
fn queue_sync_clears_playback_only_when_the_song_is_gone() {
    assert_eq!(
        pairs(&queue_sync_settings(None, true)),
        vec![p("index_value", "0"), p("current_seek_value", "0"), p("play_pause_flag", "false")]
    );
    assert_eq!(pairs(&queue_sync_settings(Some(1), false)), vec![p("index_value", "1")]);
}

#[test]
fn persisted_writes_read_back() {
    let mut rows = vec![setting("current_seek_value", "27"), setting("play_pause_flag", "false")];
    rows.extend(started_track_settings(Some(3)));
    assert_eq!(usize_value(&rows, SettingKey::IndexValue, 0), 3);
    assert_eq!(usize_value(&rows, SettingKey::CurrentSeekValue, 0), 0);
    assert!(bool_value(&rows, SettingKey::PlayPauseFlag));

    let mut rows = vec![setting("current_seek_value", "42"), setting("play_pause_flag", "true")];
    rows.extend(queue_sync_settings(Some(1), false));
    assert_eq!(usize_value(&rows, SettingKey::IndexValue, 0), 1);
    assert_eq!(usize_value(&rows, SettingKey::CurrentSeekValue, 0), 42);
    assert!(bool_value(&rows, SettingKey::PlayPauseFlag));
}

#[test]
fn library_reset_writes_the_fresh_state() {
    assert_eq!(
        pairs(&library_reset_settings()),
        vec![
            p("search_blob", ""),
            p("index_value", "0"),
            p("current_seek_value", "0"),
            p("play_pause_flag", "false"),
            p("processed_music_flag", "true"),
        ]
    );
}

#[test]
fn sync_paths_are_trimmed_sorted_and_unique() {
    let paths = vec![
        " /music/b.mp3 ".to_string(),
        "".to_string(),
        "/music/a.mp3".to_string(),
        "/music/b.mp3".to_string(),
        "   ".to_string(),
    ];
    assert_eq!(normalize_sync_paths(&paths), vec!["/music/a.mp3", "/music/b.mp3"]);
}

#[test]
fn pending_sync_paths_are_stored_as_json() {
    let setting = pending_sync_paths_setting(&["/b".to_string(), "/a".to_string()]);
    assert_eq!(setting.key, "pending_song_metadata_sync_paths");
    assert_eq!(setting.value, "[\"/a\",\"/b\"]");
    assert_eq!(pending_sync_paths(Some(setting.value.as_str())), vec!["/a", "/b"]);
}

#[test]
fn pending_sync_paths_default_to_none() {
    assert!(pending_sync_paths(None).is_empty());
    assert!(pending_sync_paths(Some("not json")).is_empty());
    assert!(pending_sync_paths(Some("{\"a\":1}")).is_empty());
}

#[test]
fn pending_sync_paths_escape_and_read_back() {
    let paths = vec![
        "  /music/say \"hi\".mp3 ".to_string(),
        "C:\\music\\b.mp3".to_string(),
        "/tab\there".to_string(),
        "/bell\u{7}".to_string(),
        "/é".to_string(),
        "".to_string(),
        "/music/say \"hi\".mp3".to_string(),
    ];
    let setting = pending_sync_paths_setting(&paths);
    assert_eq!(
        setting.value,
        "[\"/bell\\u0007\",\"/music/say \\\"hi\\\".mp3\",\"/tab\\there\",\"/é\",\"C:\\\\music\\\\b.mp3\"]"
    );
    assert_eq!(pending_sync_paths(Some(setting.value.as_str())), normalize_sync_paths(&paths));
}

#[test]
fn pending_sync_paths_of_no_paths_is_an_empty_array() {
    assert_eq!(pending_sync_paths_setting(&[]).value, "[]");
}
