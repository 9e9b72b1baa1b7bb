//! Settings are text values stored under fixed keys. This module names the
//! keys, reads typed values out of the rows a store hands back, and says which
//! keys and values each update writes.
use vstd::prelude::*;
use crate::decimal::{format_i32, format_usize, int_decimal, nat_decimal, parse_i32, parse_i32_spec, parse_usize, parse_usize_spec};
use crate::metadata::kept_names;
use crate::order::{lemma_lt_asym, lemma_lt_total, lemma_lt_trans, seq_lt, sort_by_key};
use crate::text::{chars_of, string_of, string_views, strings_equal, trim_chars};

verus! {

broadcast use vstd::seq_lib::group_to_multiset_ensures;

/// The song list limit used when none is stored or the stored one is unusable.
pub const DEFAULT_SONG_LIST_LIMIT: i32 = 10000;

/// One stored setting.
#[derive(Debug, Clone)]
pub struct Setting {
    pub key: String,
    pub value: String,
}

/// The keys settings are stored under.
#[derive(Debug, Clone, Copy, PartialEq, Eq)]
pub enum SettingKey {
    MusicFolderPath,
    ProcessedMusicFlag,
    VolumeValue,
    SearchBlob,
    SongListLimit,
    RepeatFlag,
    RandomPlayFlag,
    PlayPauseFlag,
    AlwaysStartPausedFlag,
    PlayPauseKeybind,
    PreviousKeybind,
    NextKeybind,
    RepeatKeybind,
    ShuffleKeybind,
    MuteKeybind,
    FocusSearchKeybind,
    SettingsKeybind,
    IncreaseVolumeKeybind,
    DecreaseVolumeKeybind,
    SeekForwardKeybind,
    SeekBackwardKeybind,
    FilterMenuKeybind,
    SongFilterMenuKeybind,
    KeybindSettingsKeybind,
    SwitchSongFilterPaneKeybind,
    ApplySelectedFilterKeybind,
    IndexValue,
    CurrentSeekValue,
    PendingSongMetadataSyncPaths,
}

/// The text a key is stored under.
pub open spec fn key_name(k: SettingKey) -> Seq<char> {
    match k {
        SettingKey::MusicFolderPath => "music_folder_path"@,
        SettingKey::ProcessedMusicFlag => "processed_music_flag"@,
        SettingKey::VolumeValue => "volume_value"@,
        SettingKey::SearchBlob => "search_blob"@,
        SettingKey::SongListLimit => "song_list_limit"@,
        SettingKey::RepeatFlag => "repeat_flag"@,
        SettingKey::RandomPlayFlag => "random_play_flag"@,
        SettingKey::PlayPauseFlag => "play_pause_flag"@,
        SettingKey::AlwaysStartPausedFlag => "always_start_paused_flag"@,
        SettingKey::PlayPauseKeybind => "play_pause_kb"@,
        SettingKey::PreviousKeybind => "previous_kb"@,
        SettingKey::NextKeybind => "next_kb"@,
        SettingKey::RepeatKeybind => "repeat_kb"@,
        SettingKey::ShuffleKeybind => "shuffle_kb"@,
        SettingKey::MuteKeybind => "mute_kb"@,
        SettingKey::FocusSearchKeybind => "focus_search_kb"@,
        SettingKey::SettingsKeybind => "settings_kb"@,
        SettingKey::IncreaseVolumeKeybind => "increase_volume_kb"@,
        SettingKey::DecreaseVolumeKeybind => "decrease_volume_kb"@,
        SettingKey::SeekForwardKeybind => "seek_forward_kb"@,
        SettingKey::SeekBackwardKeybind => "seek_backward_kb"@,
        SettingKey::FilterMenuKeybind => "filter_menu_kb"@,
        SettingKey::SongFilterMenuKeybind => "song_filter_menu_kb"@,
        SettingKey::KeybindSettingsKeybind => "keybind_settings_kb"@,
        SettingKey::SwitchSongFilterPaneKeybind => "switch_song_filter_pane_kb"@,
        SettingKey::ApplySelectedFilterKeybind => "apply_selected_filter_kb"@,
        SettingKey::IndexValue => "index_value"@,
        SettingKey::CurrentSeekValue => "current_seek_value"@,
        SettingKey::PendingSongMetadataSyncPaths => "pending_song_metadata_sync_paths"@,
    }
}

impl SettingKey {
    /// The text this key is stored under.
    pub fn name(&self) -> (r: &'static str)
        ensures
            r@ == key_name(*self),
    {
        match self {
            SettingKey::MusicFolderPath => "music_folder_path",
            SettingKey::ProcessedMusicFlag => "processed_music_flag",
            SettingKey::VolumeValue => "volume_value",
            SettingKey::SearchBlob => "search_blob",
            SettingKey::SongListLimit => "song_list_limit",
            SettingKey::RepeatFlag => "repeat_flag",
            SettingKey::RandomPlayFlag => "random_play_flag",
            SettingKey::PlayPauseFlag => "play_pause_flag",
            SettingKey::AlwaysStartPausedFlag => "always_start_paused_flag",
            SettingKey::PlayPauseKeybind => "play_pause_kb",
            SettingKey::PreviousKeybind => "previous_kb",
            SettingKey::NextKeybind => "next_kb",
            SettingKey::RepeatKeybind => "repeat_kb",
            SettingKey::ShuffleKeybind => "shuffle_kb",
            SettingKey::MuteKeybind => "mute_kb",
            SettingKey::FocusSearchKeybind => "focus_search_kb",
            SettingKey::SettingsKeybind => "settings_kb",
            SettingKey::IncreaseVolumeKeybind => "increase_volume_kb",
            SettingKey::DecreaseVolumeKeybind => "decrease_volume_kb",
            SettingKey::SeekForwardKeybind => "seek_forward_kb",
            SettingKey::SeekBackwardKeybind => "seek_backward_kb",
            SettingKey::FilterMenuKeybind => "filter_menu_kb",
            SettingKey::SongFilterMenuKeybind => "song_filter_menu_kb",
            SettingKey::KeybindSettingsKeybind => "keybind_settings_kb",
            SettingKey::SwitchSongFilterPaneKeybind => "switch_song_filter_pane_kb",
            SettingKey::ApplySelectedFilterKeybind => "apply_selected_filter_kb",
            SettingKey::IndexValue => "index_value",
            SettingKey::CurrentSeekValue => "current_seek_value",
            SettingKey::PendingSongMetadataSyncPaths => "pending_song_metadata_sync_paths",
        }
    }
}

/// The value stored under `key` among `rows`: that of the last row with that
/// key, as a map filled from the rows in order would hold it.
pub open spec fn setting_lookup(rows: Seq<Setting>, key: Seq<char>) -> Option<Seq<char>>
    decreases rows.len(),
{
    if rows.len() == 0 {
        None
    } else if rows.last().key@ == key {
        Some(rows.last().value@)
    } else {
        setting_lookup(rows.drop_last(), key)
    }
}

/// A text setting: its value, or empty when it is missing.
pub open spec fn text_of(v: Option<Seq<char>>) -> Seq<char> {
    match v {
        Some(t) => t,
        None => Seq::empty(),
    }
}

/// A flag setting: set exactly when its value is `true`.
pub open spec fn flag_of(v: Option<Seq<char>>) -> bool {
    v == Some("true"@)
}

/// A positive number setting: its value read as an `i32` when that is
/// greater than zero, else `default`.
pub open spec fn positive_i32_of(v: Option<Seq<char>>, default: i32) -> i32 {
    match v {
        Some(t) => match parse_i32_spec(t) {
            Some(n) => if n > 0 {
                n
            } else {
                default
            },
            None => default,
        },
        None => default,
    }
}

/// A count setting: its value read as a `usize`, else `default`.
pub open spec fn usize_of(v: Option<Seq<char>>, default: usize) -> usize {
    match v {
        Some(t) => match parse_usize_spec(t) {
            Some(n) => n,
            None => default,
        },
        None => default,
    }
}

/// The text a flag is stored as.
pub open spec fn flag_text(b: bool) -> Seq<char> {
    if b {
        "true"@
    } else {
        "false"@
    }
}

/// The value stored under `key` among `rows`, if any.
pub fn lookup(rows: &[Setting], key: SettingKey) -> (r: Option<&String>)
    ensures
        match setting_lookup(rows@, key_name(key)) {
            Some(v) => r matches Some(s) && s@ == v,
            None => r is None,
        },
{
    let wanted = key.name().to_owned();
    let mut i = rows.len();
    assert(rows@.subrange(0, i as int) =~= rows@);
    while i > 0
        invariant
            i <= rows.len(),
            wanted@ == key_name(key),
            setting_lookup(rows@, key_name(key)) == setting_lookup(
                rows@.subrange(0, i as int),
                key_name(key),
            ),
        decreases i,
    {
        let ghost prefix = rows@.subrange(0, i as int);
        if strings_equal(&rows[i - 1].key, &wanted) {
            return Some(&rows[i - 1].value);
        }
        i = i - 1;
        assert(prefix.drop_last() =~= rows@.subrange(0, i as int));
    }
    None
}

/// The text stored under `key`, or empty when it is missing.
pub fn string_value(rows: &[Setting], key: SettingKey) -> (r: String)
    ensures
        r@ == text_of(setting_lookup(rows@, key_name(key))),
{
    match lookup(rows, key) {
        Some(v) => v.clone(),
        None => String::new(),
    }
}

/// The flag stored under `key`: set exactly when its value is `true`.
pub fn bool_value(rows: &[Setting], key: SettingKey) -> (r: bool)
    ensures
        r == flag_of(setting_lookup(rows@, key_name(key))),
{
    match lookup(rows, key) {
        Some(v) => strings_equal(v, &"true".to_owned()),
        None => false,
    }
}

/// The positive number stored under `key`, or `default` when it is missing,
/// not a number, or not above zero.
pub fn positive_i32_value(rows: &[Setting], key: SettingKey, default: i32) -> (r: i32)
    ensures
        r == positive_i32_of(setting_lookup(rows@, key_name(key)), default),
{
    match lookup(rows, key) {
        Some(v) => match parse_i32(v.as_str()) {
            Some(n) => if n > 0 {
                n
            } else {
                default
            },
            None => default,
        },
        None => default,
    }
}

/// The count stored under `key`, or `default` when it is missing or not a
/// count.
pub fn usize_value(rows: &[Setting], key: SettingKey, default: usize) -> (r: usize)
    ensures
        r == usize_of(setting_lookup(rows@, key_name(key)), default),
{
    match lookup(rows, key) {
        Some(v) => match parse_usize(v.as_str()) {
            Some(n) => n,
            None => default,
        },
        None => default,
    }
}

/// The key bindings of the interface.
#[derive(Debug, Clone, PartialEq, Eq)]
pub struct KeybindSettings {
    pub play_pause: String,
    pub previous: String,
    pub next: String,
    pub repeat: String,
    pub shuffle: String,
    pub mute: String,
    pub increase_volume: String,
    pub decrease_volume: String,
    pub seek_forward: String,
    pub seek_backward: String,
    pub toggle_search: String,
    pub toggle_settings: String,
    pub open_keybind_settings: String,
    pub toggle_filter_menu: String,
    pub toggle_song_filter_menu: String,
    pub switch_song_filter_pane: String,
    pub apply_selected_filter: String,
}

/// The settings the interface starts from.
#[derive(Debug, Clone, PartialEq, Eq)]
pub struct AppSettingsSnapshot {
    pub music_folder_path: String,
    pub has_processed_music_folder: bool,
    pub saved_search_blob: String,
    pub song_list_limit: i32,
    pub always_start_paused: bool,
    pub keybinds: KeybindSettings,
}

/// The settings that decide whether the music folder is scanned.
#[derive(Debug, Clone, PartialEq, Eq)]
pub struct MusicFolderSyncSettings {
    pub music_folder_path: String,
    pub has_processed_music_folder: bool,
}

/// The settings that shape the song list query.
#[derive(Debug, Clone, PartialEq, Eq)]
pub struct SongListQuerySettings {
    pub saved_search_blob: String,
    pub song_list_limit: i32,
}

/// The text stored under `k` among `rows`, empty when missing.
pub open spec fn text_setting(rows: Seq<Setting>, k: SettingKey) -> Seq<char> {
    text_of(setting_lookup(rows, key_name(k)))
}

/// The flag stored under `k` among `rows`.
pub open spec fn flag_setting(rows: Seq<Setting>, k: SettingKey) -> bool {
    flag_of(setting_lookup(rows, key_name(k)))
}

/// The song list limit stored among `rows`, or the default.
pub open spec fn limit_setting(rows: Seq<Setting>) -> i32 {
    positive_i32_of(setting_lookup(rows, key_name(SettingKey::SongListLimit)), DEFAULT_SONG_LIST_LIMIT)
}

/// The key bindings stored among `rows`.
pub open spec fn keybinds_match(k: KeybindSettings, rows: Seq<Setting>) -> bool {
    &&& k.play_pause@ == text_setting(rows, SettingKey::PlayPauseKeybind)
    &&& k.previous@ == text_setting(rows, SettingKey::PreviousKeybind)
    &&& k.next@ == text_setting(rows, SettingKey::NextKeybind)
    &&& k.repeat@ == text_setting(rows, SettingKey::RepeatKeybind)
    &&& k.shuffle@ == text_setting(rows, SettingKey::ShuffleKeybind)
    &&& k.mute@ == text_setting(rows, SettingKey::MuteKeybind)
    &&& k.increase_volume@ == text_setting(rows, SettingKey::IncreaseVolumeKeybind)
    &&& k.decrease_volume@ == text_setting(rows, SettingKey::DecreaseVolumeKeybind)
    &&& k.seek_forward@ == text_setting(rows, SettingKey::SeekForwardKeybind)
    &&& k.seek_backward@ == text_setting(rows, SettingKey::SeekBackwardKeybind)
    &&& k.toggle_search@ == text_setting(rows, SettingKey::FocusSearchKeybind)
    &&& k.toggle_settings@ == text_setting(rows, SettingKey::SettingsKeybind)
    &&& k.open_keybind_settings@ == text_setting(rows, SettingKey::KeybindSettingsKeybind)
    &&& k.toggle_filter_menu@ == text_setting(rows, SettingKey::FilterMenuKeybind)
    &&& k.toggle_song_filter_menu@ == text_setting(rows, SettingKey::SongFilterMenuKeybind)
    &&& k.switch_song_filter_pane@ == text_setting(rows, SettingKey::SwitchSongFilterPaneKeybind)
    &&& k.apply_selected_filter@ == text_setting(rows, SettingKey::ApplySelectedFilterKeybind)
}

/// The keys the interface's starting settings are read from.
pub fn app_settings_keys() -> (r: Vec<SettingKey>)
    ensures
        r@ == seq![
            SettingKey::MusicFolderPath,
            SettingKey::ProcessedMusicFlag,
            SettingKey::SearchBlob,
            SettingKey::SongListLimit,
            SettingKey::AlwaysStartPausedFlag,
            SettingKey::PlayPauseKeybind,
            SettingKey::PreviousKeybind,
            SettingKey::NextKeybind,
            SettingKey::RepeatKeybind,
            SettingKey::ShuffleKeybind,
            SettingKey::MuteKeybind,
            SettingKey::IncreaseVolumeKeybind,
            SettingKey::DecreaseVolumeKeybind,
            SettingKey::SeekForwardKeybind,
            SettingKey::SeekBackwardKeybind,
            SettingKey::FocusSearchKeybind,
            SettingKey::SettingsKeybind,
            SettingKey::KeybindSettingsKeybind,
            SettingKey::FilterMenuKeybind,
            SettingKey::SongFilterMenuKeybind,
            SettingKey::SwitchSongFilterPaneKeybind,
            SettingKey::ApplySelectedFilterKeybind,
        ],
{
    let r = vec![
        SettingKey::MusicFolderPath,
        SettingKey::ProcessedMusicFlag,
        SettingKey::SearchBlob,
        SettingKey::SongListLimit,
        SettingKey::AlwaysStartPausedFlag,
        SettingKey::PlayPauseKeybind,
        SettingKey::PreviousKeybind,
        SettingKey::NextKeybind,
        SettingKey::RepeatKeybind,
        SettingKey::ShuffleKeybind,
        SettingKey::MuteKeybind,
        SettingKey::IncreaseVolumeKeybind,
        SettingKey::DecreaseVolumeKeybind,
        SettingKey::SeekForwardKeybind,
        SettingKey::SeekBackwardKeybind,
        SettingKey::FocusSearchKeybind,
        SettingKey::SettingsKeybind,
        SettingKey::KeybindSettingsKeybind,
        SettingKey::FilterMenuKeybind,
        SettingKey::SongFilterMenuKeybind,
        SettingKey::SwitchSongFilterPaneKeybind,
        SettingKey::ApplySelectedFilterKeybind,
    ];
    r
}

/// The keys the player's saved state is read from.
pub fn player_settings_keys() -> (r: Vec<SettingKey>)
    ensures
        r@ == seq![
            SettingKey::IndexValue,
            SettingKey::CurrentSeekValue,
            SettingKey::PlayPauseFlag,
            SettingKey::RepeatFlag,
            SettingKey::RandomPlayFlag,
            SettingKey::AlwaysStartPausedFlag,
            SettingKey::VolumeValue,
        ],
{
    let r = vec![
        SettingKey::IndexValue,
        SettingKey::CurrentSeekValue,
        SettingKey::PlayPauseFlag,
        SettingKey::RepeatFlag,
        SettingKey::RandomPlayFlag,
        SettingKey::AlwaysStartPausedFlag,
        SettingKey::VolumeValue,
    ];
    r
}

/// The keys the music folder settings are read from.
pub fn music_folder_sync_keys() -> (r: Vec<SettingKey>)
    ensures
        r@ == seq![SettingKey::MusicFolderPath, SettingKey::ProcessedMusicFlag],
{
    let r = vec![SettingKey::MusicFolderPath, SettingKey::ProcessedMusicFlag];
    r
}

/// The keys the song list query settings are read from.
pub fn song_list_query_keys() -> (r: Vec<SettingKey>)
    ensures
        r@ == seq![SettingKey::SearchBlob, SettingKey::SongListLimit],
{
    let r = vec![SettingKey::SearchBlob, SettingKey::SongListLimit];
    r
}

/// The key bindings stored among `rows`, each empty when missing.
pub fn keybind_settings(rows: &[Setting]) -> (r: KeybindSettings)
    ensures
        keybinds_match(r, rows@),
        r.play_pause@ == text_of(setting_lookup(rows@, "play_pause_kb"@)),
        r.previous@ == text_of(setting_lookup(rows@, "previous_kb"@)),
        r.next@ == text_of(setting_lookup(rows@, "next_kb"@)),
        r.repeat@ == text_of(setting_lookup(rows@, "repeat_kb"@)),
        r.shuffle@ == text_of(setting_lookup(rows@, "shuffle_kb"@)),
        r.mute@ == text_of(setting_lookup(rows@, "mute_kb"@)),
        r.increase_volume@ == text_of(setting_lookup(rows@, "increase_volume_kb"@)),
        r.decrease_volume@ == text_of(setting_lookup(rows@, "decrease_volume_kb"@)),
        r.seek_forward@ == text_of(setting_lookup(rows@, "seek_forward_kb"@)),
        r.seek_backward@ == text_of(setting_lookup(rows@, "seek_backward_kb"@)),
        r.toggle_search@ == text_of(setting_lookup(rows@, "focus_search_kb"@)),
        r.toggle_settings@ == text_of(setting_lookup(rows@, "settings_kb"@)),
        r.open_keybind_settings@ == text_of(setting_lookup(rows@, "keybind_settings_kb"@)),
        r.toggle_filter_menu@ == text_of(setting_lookup(rows@, "filter_menu_kb"@)),
        r.toggle_song_filter_menu@ == text_of(setting_lookup(rows@, "song_filter_menu_kb"@)),
        r.switch_song_filter_pane@ == text_of(setting_lookup(rows@, "switch_song_filter_pane_kb"@)),
        r.apply_selected_filter@ == text_of(setting_lookup(rows@, "apply_selected_filter_kb"@)),
{
    KeybindSettings {
        play_pause: string_value(rows, SettingKey::PlayPauseKeybind),
        previous: string_value(rows, SettingKey::PreviousKeybind),
        next: string_value(rows, SettingKey::NextKeybind),
        repeat: string_value(rows, SettingKey::RepeatKeybind),
        shuffle: string_value(rows, SettingKey::ShuffleKeybind),
        mute: string_value(rows, SettingKey::MuteKeybind),
        increase_volume: string_value(rows, SettingKey::IncreaseVolumeKeybind),
        decrease_volume: string_value(rows, SettingKey::DecreaseVolumeKeybind),
        seek_forward: string_value(rows, SettingKey::SeekForwardKeybind),
        seek_backward: string_value(rows, SettingKey::SeekBackwardKeybind),
        toggle_search: string_value(rows, SettingKey::FocusSearchKeybind),
        toggle_settings: string_value(rows, SettingKey::SettingsKeybind),
        open_keybind_settings: string_value(rows, SettingKey::KeybindSettingsKeybind),
        toggle_filter_menu: string_value(rows, SettingKey::FilterMenuKeybind),
        toggle_song_filter_menu: string_value(rows, SettingKey::SongFilterMenuKeybind),
        switch_song_filter_pane: string_value(rows, SettingKey::SwitchSongFilterPaneKeybind),
        apply_selected_filter: string_value(rows, SettingKey::ApplySelectedFilterKeybind),
    }
}

/// The interface's starting settings stored among `rows`: texts empty and
/// flags unset when missing, the song list limit defaulted.
pub fn app_settings_snapshot(rows: &[Setting]) -> (r: AppSettingsSnapshot)
    ensures
        r.music_folder_path@ == text_setting(rows@, SettingKey::MusicFolderPath),
        r.has_processed_music_folder == flag_setting(rows@, SettingKey::ProcessedMusicFlag),
        r.saved_search_blob@ == text_setting(rows@, SettingKey::SearchBlob),
        r.song_list_limit == limit_setting(rows@),
        r.always_start_paused == flag_setting(rows@, SettingKey::AlwaysStartPausedFlag),
        keybinds_match(r.keybinds, rows@),
        r.music_folder_path@ == text_of(setting_lookup(rows@, "music_folder_path"@)),
        r.has_processed_music_folder == (setting_lookup(rows@, "processed_music_flag"@) == Some(
            "true"@,
        )),
        r.saved_search_blob@ == text_of(setting_lookup(rows@, "search_blob"@)),
        r.always_start_paused == (setting_lookup(rows@, "always_start_paused_flag"@) == Some(
            "true"@,
        )),
        r.song_list_limit == match setting_lookup(rows@, "song_list_limit"@) {
            Some(t) => match parse_i32_spec(t) {
                Some(n) => if n > 0 {
                    n
                } else {
                    10000i32
                },
                None => 10000i32,
            },
            None => 10000i32,
        },
        r.keybinds.play_pause@ == text_of(setting_lookup(rows@, "play_pause_kb"@)),
        r.keybinds.previous@ == text_of(setting_lookup(rows@, "previous_kb"@)),
        r.keybinds.next@ == text_of(setting_lookup(rows@, "next_kb"@)),
        r.keybinds.repeat@ == text_of(setting_lookup(rows@, "repeat_kb"@)),
        r.keybinds.shuffle@ == text_of(setting_lookup(rows@, "shuffle_kb"@)),
        r.keybinds.mute@ == text_of(setting_lookup(rows@, "mute_kb"@)),
        r.keybinds.increase_volume@ == text_of(setting_lookup(rows@, "increase_volume_kb"@)),
        r.keybinds.decrease_volume@ == text_of(setting_lookup(rows@, "decrease_volume_kb"@)),
        r.keybinds.seek_forward@ == text_of(setting_lookup(rows@, "seek_forward_kb"@)),
        r.keybinds.seek_backward@ == text_of(setting_lookup(rows@, "seek_backward_kb"@)),
        r.keybinds.toggle_search@ == text_of(setting_lookup(rows@, "focus_search_kb"@)),
        r.keybinds.toggle_settings@ == text_of(setting_lookup(rows@, "settings_kb"@)),
        r.keybinds.open_keybind_settings@ == text_of(setting_lookup(rows@, "keybind_settings_kb"@)),
        r.keybinds.toggle_filter_menu@ == text_of(setting_lookup(rows@, "filter_menu_kb"@)),
        r.keybinds.toggle_song_filter_menu@ == text_of(setting_lookup(rows@, "song_filter_menu_kb"@)),
        r.keybinds.switch_song_filter_pane@ == text_of(setting_lookup(rows@, "switch_song_filter_pane_kb"@)),
        r.keybinds.apply_selected_filter@ == text_of(setting_lookup(rows@, "apply_selected_filter_kb"@)),
{
    AppSettingsSnapshot {
        music_folder_path: string_value(rows, SettingKey::MusicFolderPath),
        has_processed_music_folder: bool_value(rows, SettingKey::ProcessedMusicFlag),
        saved_search_blob: string_value(rows, SettingKey::SearchBlob),
        song_list_limit: positive_i32_value(
            rows,
            SettingKey::SongListLimit,
            DEFAULT_SONG_LIST_LIMIT,
        ),
        always_start_paused: bool_value(rows, SettingKey::AlwaysStartPausedFlag),
        keybinds: keybind_settings(rows),
    }
}

/// The music folder settings stored among `rows`.
pub fn music_folder_sync_settings(rows: &[Setting]) -> (r: MusicFolderSyncSettings)
    ensures
        r.music_folder_path@ == text_setting(rows@, SettingKey::MusicFolderPath),
        r.has_processed_music_folder == flag_setting(rows@, SettingKey::ProcessedMusicFlag),
{
    MusicFolderSyncSettings {
        music_folder_path: string_value(rows, SettingKey::MusicFolderPath),
        has_processed_music_folder: bool_value(rows, SettingKey::ProcessedMusicFlag),
    }
}

/// The song list query settings stored among `rows`.
pub fn song_list_query_settings(rows: &[Setting]) -> (r: SongListQuerySettings)
    ensures
        r.saved_search_blob@ == text_setting(rows@, SettingKey::SearchBlob),
        r.song_list_limit == limit_setting(rows@),
{
    SongListQuerySettings {
        saved_search_blob: string_value(rows, SettingKey::SearchBlob),
        song_list_limit: positive_i32_value(
            rows,
            SettingKey::SongListLimit,
            DEFAULT_SONG_LIST_LIMIT,
        ),
    }
}

/// Why a setting cannot be written.
#[derive(Debug, Clone, Copy, PartialEq, Eq)]
pub enum SettingError {
    /// The song list limit is zero or negative.
    NonPositiveSongListLimit,
}

impl SettingError {
    /// The message that describes the error.
    pub fn message(&self) -> (r: &'static str)
        ensures
            r@ == "song list limit must be greater than 0"@,
    {
        match self {
            SettingError::NonPositiveSongListLimit => "song list limit must be greater than 0",
        }
    }
}

/// The key and value text of each setting, in order.
pub open spec fn setting_pairs(rows: Seq<Setting>) -> Seq<(Seq<char>, Seq<char>)> {
    rows.map_values(|s: Setting| (s.key@, s.value@))
}

/// A write of `value` under `k`.
pub open spec fn write_of(k: SettingKey, value: Seq<char>) -> (Seq<char>, Seq<char>) {
    (key_name(k), value)
}

/// The saved position a current index is stored as: the index, or zero when
/// none is current.
pub open spec fn saved_index_of(current_index: Option<usize>) -> nat {
    match current_index {
        Some(i) => i as nat,
        None => 0,
    }
}

/// What is written once a track starts: its position, a seek of zero, and
/// whether something plays.
pub open spec fn started_track_writes(current_index: Option<usize>) -> Seq<(Seq<char>, Seq<char>)> {
    seq![
        write_of(SettingKey::IndexValue, nat_decimal(saved_index_of(current_index))),
        write_of(SettingKey::CurrentSeekValue, nat_decimal(0)),
        write_of(SettingKey::PlayPauseFlag, flag_text(current_index is Some)),
    ]
}

/// What is written once the queue follows a rebuilt song list: the position,
/// and, when the current song is gone, a seek of zero and playback paused.
pub open spec fn queue_sync_writes(current_index: Option<usize>, cleared_current_song: bool) -> Seq<
    (Seq<char>, Seq<char>),
> {
    let index = seq![write_of(SettingKey::IndexValue, nat_decimal(saved_index_of(current_index)))];
    if cleared_current_song {
        index + seq![
            write_of(SettingKey::CurrentSeekValue, nat_decimal(0)),
            write_of(SettingKey::PlayPauseFlag, flag_text(false)),
        ]
    } else {
        index
    }
}

/// What is written when the library is rebuilt: no saved search, the first
/// position, a seek of zero, playback paused, and the folder processed.
pub open spec fn library_reset_writes() -> Seq<(Seq<char>, Seq<char>)> {
    seq![
        write_of(SettingKey::SearchBlob, Seq::empty()),
        write_of(SettingKey::IndexValue, nat_decimal(0)),
        write_of(SettingKey::CurrentSeekValue, nat_decimal(0)),
        write_of(SettingKey::PlayPauseFlag, flag_text(false)),
        write_of(SettingKey::ProcessedMusicFlag, flag_text(true)),
    ]
}

/// A setting holding `value` under `key`.
pub fn text_setting_of(key: SettingKey, value: &str) -> (r: Setting)
    ensures
        r.key@ == key_name(key),
        r.value@ == value@,
{
    Setting { key: key.name().to_owned(), value: value.to_owned() }
}

/// A setting holding a flag under `key`, as `true` or `false`.
pub fn flag_setting_of(key: SettingKey, flag: bool) -> (r: Setting)
    ensures
        r.key@ == key_name(key),
        r.value@ == flag_text(flag),
{
    text_setting_of(key, if flag { "true" } else { "false" })
}

/// A setting holding a count under `key`, in decimal.
pub fn count_setting_of(key: SettingKey, n: usize) -> (r: Setting)
    ensures
        r.key@ == key_name(key),
        r.value@ == nat_decimal(n as nat),
{
    Setting { key: key.name().to_owned(), value: format_usize(n) }
}

/// The song list limit setting, refused unless the limit is above zero.
pub fn song_list_limit_setting(limit: i32) -> (r: Result<Setting, SettingError>)
    ensures
        limit <= 0 <==> r is Err,
        r matches Err(e) ==> e == SettingError::NonPositiveSongListLimit,
        r matches Ok(s) ==> s.key@ == key_name(SettingKey::SongListLimit) && s.value@
            == int_decimal(limit as int),
{
    if limit <= 0 {
        return Err(SettingError::NonPositiveSongListLimit);
    }
    Ok(Setting { key: SettingKey::SongListLimit.name().to_owned(), value: format_i32(limit) })
}

/// The settings written once a track starts.
pub fn started_track_settings(current_index: Option<usize>) -> (r: Vec<Setting>)
    ensures
        setting_pairs(r@) == started_track_writes(current_index),
{
    let index = match current_index {
        Some(i) => i,
        None => 0,
    };
    let r = vec![
        count_setting_of(SettingKey::IndexValue, index),
        count_setting_of(SettingKey::CurrentSeekValue, 0),
        flag_setting_of(SettingKey::PlayPauseFlag, current_index.is_some()),
    ];
    assert(setting_pairs(r@) =~= started_track_writes(current_index));
    r
}

/// The settings written once the queue follows a rebuilt song list.
pub fn queue_sync_settings(current_index: Option<usize>, cleared_current_song: bool) -> (r: Vec<
    Setting,
>)
    ensures
        setting_pairs(r@) == queue_sync_writes(current_index, cleared_current_song),
{
    let index = match current_index {
        Some(i) => i,
        None => 0,
    };
    let mut r = vec![count_setting_of(SettingKey::IndexValue, index)];
    if cleared_current_song {
        r.push(count_setting_of(SettingKey::CurrentSeekValue, 0));
        r.push(flag_setting_of(SettingKey::PlayPauseFlag, false));
    }
    assert(setting_pairs(r@) =~= queue_sync_writes(current_index, cleared_current_song));
    r
}

/// The settings written when the library is rebuilt.
pub fn library_reset_settings() -> (r: Vec<Setting>)
    ensures
        setting_pairs(r@) == library_reset_writes(),
{
    let r = vec![
        text_setting_of(SettingKey::SearchBlob, ""),
        count_setting_of(SettingKey::IndexValue, 0),
        count_setting_of(SettingKey::CurrentSeekValue, 0),
        flag_setting_of(SettingKey::PlayPauseFlag, false),
        flag_setting_of(SettingKey::ProcessedMusicFlag, true),
    ];
    proof {
        reveal_strlit("");
        assert(""@ =~= Seq::<char>::empty());
        assert(r@[0].value@ =~= Seq::<char>::empty());
    }
    assert(setting_pairs(r@) =~= library_reset_writes());
    r
}

/// The lower-case hexadecimal digit of a value below sixteen.
pub open spec fn hex_digit(d: int) -> char {
    if d < 10 {
        (d + 48) as char
    } else {
        (d + 87) as char
    }
}

/// How a character stands inside a JSON string as serde_json writes it: a
/// quote and a backslash are escaped with a backslash; backspace, tab, line
/// feed, form feed and carriage return by `\b`, `\t`, `\n`, `\f`, `\r`; the
/// other control characters below 0x20 as `\u00` and two lower-case hex
/// digits; every other character stands for itself.
pub open spec fn json_escape(c: char) -> Seq<char> {
    let n = c as u32;
    if c == '"' {
        seq!['\\', '"']
    } else if c == '\\' {
        seq!['\\', '\\']
    } else if n == 8 {
        seq!['\\', 'b']
    } else if n == 9 {
        seq!['\\', 't']
    } else if n == 10 {
        seq!['\\', 'n']
    } else if n == 12 {
        seq!['\\', 'f']
    } else if n == 13 {
        seq!['\\', 'r']
    } else if n < 32 {
        seq!['\\', 'u', '0', '0', hex_digit(n as int / 16), hex_digit(n as int % 16)]
    } else {
        seq![c]
    }
}

/// The characters of a string, each escaped.
pub open spec fn json_escaped(s: Seq<char>) -> Seq<char>
    decreases s.len(),
{
    if s.len() == 0 {
        Seq::empty()
    } else {
        json_escaped(s.drop_last()) + json_escape(s.last())
    }
}

/// A string as a JSON string: escaped, between quotes.
pub open spec fn json_string(s: Seq<char>) -> Seq<char> {
    seq!['"'] + json_escaped(s) + seq!['"']
}

/// The JSON strings of the items, separated by commas.
pub open spec fn json_elements(items: Seq<Seq<char>>) -> Seq<char>
    decreases items.len(),
{
    if items.len() == 0 {
        Seq::empty()
    } else if items.len() == 1 {
        json_string(items[0])
    } else {
        json_elements(items.drop_last()) + seq![','] + json_string(items.last())
    }
}

/// What `serde_json::to_string` writes for a list of strings: the JSON
/// strings of the items, separated by commas, between square brackets, with
/// no white space.
pub open spec fn json_of_strings(items: Seq<Seq<char>>) -> Seq<char> {
    seq!['['] + json_elements(items) + seq![']']
}

/// What `serde_json::from_str::<Vec<String>>` reads from a text: the strings
/// of a JSON array of strings, or nothing when the text is not one.
pub uninterp spec fn strings_of_json(text: Seq<char>) -> Option<Seq<Seq<char>>>;

/// Writes the strings as a JSON array, by `serde_json::to_string`. Its
/// documentation says it fails only when a `Serialize` impl fails or a map has
/// keys that are not strings, neither of which a list of strings can cause, so
/// it gives the text; serde_json reads that text back as the same list.
#[verifier::external_body]
fn strings_to_json(items: &Vec<String>) -> (r: Option<String>)
    ensures
        r is Some,
        r matches Some(text) ==> text@ == json_of_strings(string_views(items@)),
        r matches Some(text) ==> strings_of_json(text@) == Some(string_views(items@)),
{
    serde_json::to_string(items).ok()
}

/// Reads a JSON array of strings, by `serde_json::from_str`.
#[verifier::external_body]
fn strings_from_json(text: &str) -> (r: Option<Vec<String>>)
    ensures
        match r {
            Some(items) => strings_of_json(text@) == Some(string_views(items@)),
            None => strings_of_json(text@) is None,
        },
{
    serde_json::from_str::<Vec<String>>(text).ok()
}

/// Whether the texts are in strictly increasing order, so each occurs once.
pub open spec fn strictly_sorted(s: Seq<Seq<char>>) -> bool {
    forall|i: int, j: int| 0 <= i < j < s.len() ==> seq_lt(#[trigger] s[i], #[trigger] s[j])
}

/// The paths kept for a later metadata sync: each trimmed, the empty ones
/// dropped, sorted, and each kept once.
pub open spec fn normalized_paths_of(paths: Seq<Seq<char>>, out: Seq<Seq<char>>) -> bool {
    &&& strictly_sorted(out)
    &&& forall|x: Seq<char>| out.contains(x) <==> kept_names(paths).contains(x)
}

/// The paths trimmed, without empty ones, sorted and without repeats.
pub fn normalize_sync_paths(paths: &[String]) -> (r: Vec<String>)
    ensures
        normalized_paths_of(string_views(paths@), string_views(r@)),
{
    let mut kept: Vec<String> = Vec::new();
    let mut i: usize = 0;
    while i < paths.len()
        invariant
            i <= paths.len(),
            string_views(kept@) == kept_names(string_views(paths@).take(i as int)),
        decreases paths.len() - i,
    {
        proof {
            let p = string_views(paths@).take(i + 1);
            assert(p.drop_last() =~= string_views(paths@).take(i as int));
        }
        let t = trim_chars(&chars_of(paths[i].as_str()));
        if t.len() > 0 {
            let ghost before = string_views(kept@);
            kept.push(string_of(&t));
            assert(string_views(kept@) =~= before.push(t@));
        }
        i = i + 1;
    }
    assert(string_views(paths@).take(paths.len() as int) =~= string_views(paths@));
    let ghost kept_views = string_views(kept@);
    let sorted = sort_by_key(kept);
    proof {
        assert forall|x: Seq<char>| string_views(sorted@).contains(x) <==> kept_views.contains(x) by {
            if string_views(sorted@).contains(x) {
                let k = choose|k: int| 0 <= k < sorted@.len() && string_views(sorted@)[k] == x;
                assert(sorted@.contains(sorted@[k]));
                assert(kept@.to_multiset().count(sorted@[k]) > 0);
                assert(kept@.contains(sorted@[k]));
                let j = choose|j: int| 0 <= j < kept@.len() && kept@[j] == sorted@[k];
                assert(kept_views[j] == x);
            }
            if kept_views.contains(x) {
                let j = choose|j: int| 0 <= j < kept_views.len() && kept_views[j] == x;
                assert(kept@.contains(kept@[j]));
                assert(sorted@.to_multiset().count(kept@[j]) > 0);
                assert(sorted@.contains(kept@[j]));
                let k = choose|k: int| 0 <= k < sorted@.len() && sorted@[k] == kept@[j];
                assert(string_views(sorted@)[k] == x);
            }
        }
    }
    proof {
        assert forall|a: int, b: int| 0 <= a < b < sorted@.len() implies !seq_lt(
            (#[trigger] sorted@[b])@,
            (#[trigger] sorted@[a])@,
        ) by {
            assert(<String as crate::order::SortKey>::key_le(sorted@[a], sorted@[b]));
        }
    }
    let mut out: Vec<String> = Vec::new();
    let mut k: usize = 0;
    while k < sorted.len()
        invariant
            k <= sorted.len(),
            forall|a: int, b: int|
                0 <= a < b < sorted@.len() ==> !seq_lt(
                    (#[trigger] sorted@[b])@,
                    (#[trigger] sorted@[a])@,
                ),
            strictly_sorted(string_views(out@)),
            k == 0 <==> out@.len() == 0,
            k > 0 ==> out@.last()@ == sorted@[k - 1]@,
            forall|x: Seq<char>|
                string_views(out@).contains(x) <==> string_views(sorted@).take(k as int).contains(x),
        decreases sorted.len() - k,
    {
        let ghost before = string_views(out@);
        let is_repeat = if out.len() == 0 {
            false
        } else {
            strings_equal(&out[out.len() - 1], &sorted[k])
        };
        if !is_repeat {
            proof {
                if k > 0 {
                    lemma_lt_total(sorted@[k - 1]@, sorted@[k as int]@);
                    assert(seq_lt(before.last(), sorted@[k as int]@));
                    assert forall|a: int| 0 <= a < before.len() implies seq_lt(
                        before[a],
                        sorted@[k as int]@,
                    ) by {
                        if a < before.len() - 1 {
                            lemma_lt_trans(before[a], before.last(), sorted@[k as int]@);
                        }
                    }
                }
            }
            out.push(sorted[k].clone());
            assert(string_views(out@) =~= before.push(sorted@[k as int]@));
        }
        proof {
            let p = string_views(sorted@).take(k + 1);
            let q = string_views(sorted@).take(k as int);
            let now = string_views(out@);
            assert(p =~= q.push(sorted@[k as int]@));
            assert(now[now.len() - 1] == sorted@[k as int]@);
            assert(is_repeat ==> now == before);
            assert(!is_repeat ==> now == before.push(sorted@[k as int]@));
            assert forall|x: Seq<char>| now.contains(x) <==> p.contains(x) by {
                if p.contains(x) {
                    let j = choose|j: int| 0 <= j < p.len() && p[j] == x;
                    if j < k {
                        assert(q[j] == x);
                        assert(q.contains(x));
                        assert(before.contains(x));
                        let m = choose|m: int| 0 <= m < before.len() && before[m] == x;
                        assert(now[m] == x);
                    } else {
                        assert(now[now.len() - 1] == x);
                    }
                }
                if now.contains(x) {
                    let j = choose|j: int| 0 <= j < now.len() && now[j] == x;
                    if j < before.len() {
                        assert(before[j] == x);
                        assert(before.contains(x));
                        assert(q.contains(x));
                        let m = choose|m: int| 0 <= m < q.len() && q[m] == x;
                        assert(p[m] == x);
                    } else {
                        assert(p[k as int] == x);
                    }
                }
            }
        }
        k = k + 1;
    }
    assert(string_views(sorted@).take(sorted.len() as int) =~= string_views(sorted@));
    out
}

/// The pending-sync setting for the paths: the normalized paths as a JSON
/// array of strings, which reads back as those paths.
pub fn pending_sync_paths_setting(paths: &[String]) -> (r: Setting)
    ensures
        r.key@ == key_name(SettingKey::PendingSongMetadataSyncPaths),
        exists|out: Seq<Seq<char>>|
            normalized_paths_of(string_views(paths@), out) && r.value@ == json_of_strings(out)
                && strings_of_json(r.value@) == Some(out),
{
    let normalized = normalize_sync_paths(paths);
    let value = strings_to_json(&normalized).unwrap();
    Setting { key: SettingKey::PendingSongMetadataSyncPaths.name().to_owned(), value }
}

/// The normalized form of a list of paths is unique: two strictly sorted
/// lists holding the same texts are the same list. So the paths read back
/// after a write are exactly the written paths, trimmed, without empty ones,
/// sorted and each kept once.
pub proof fn lemma_normalized_paths_unique(
    paths: Seq<Seq<char>>,
    a: Seq<Seq<char>>,
    b: Seq<Seq<char>>,
)
    requires
        normalized_paths_of(paths, a),
        normalized_paths_of(paths, b),
    ensures
        a == b,
{
    lemma_sorted_same_texts(a, b);
}

proof fn lemma_sorted_same_texts(a: Seq<Seq<char>>, b: Seq<Seq<char>>)
    requires
        strictly_sorted(a),
        strictly_sorted(b),
        forall|x: Seq<char>| a.contains(x) <==> b.contains(x),
    ensures
        a == b,
    decreases a.len(),
{
    if a.len() == 0 {
        if b.len() > 0 {
            assert(b.contains(b[0]));
        }
        assert(a =~= b);
    } else {
        if b.len() == 0 {
            assert(a.contains(a[0]));
        }
        assert(a.contains(a[0]));
        assert(b.contains(b[0]));
        let j = choose|j: int| 0 <= j < b.len() && b[j] == a[0];
        let i = choose|i: int| 0 <= i < a.len() && a[i] == b[0];
        if i > 0 && j > 0 {
            assert(seq_lt(a[0], a[i]));
            assert(seq_lt(b[0], b[j]));
            lemma_lt_trans(a[0], b[0], a[0]);
            lemma_lt_asym(a[0], a[0]);
        } else if i > 0 {
            assert(seq_lt(a[0], a[i]));
            lemma_lt_asym(a[0], a[0]);
        } else if j > 0 {
            assert(seq_lt(b[0], b[j]));
            lemma_lt_asym(b[0], b[0]);
        }
        assert(a[0] == b[0]);
        let ta = a.drop_first();
        let tb = b.drop_first();
        assert forall|p: int, q: int| 0 <= p < q < ta.len() implies seq_lt(#[trigger] ta[p], #[trigger] ta[q]) by {
            assert(ta[p] == a[p + 1] && ta[q] == a[q + 1]);
        }
        assert forall|p: int, q: int| 0 <= p < q < tb.len() implies seq_lt(#[trigger] tb[p], #[trigger] tb[q]) by {
            assert(tb[p] == b[p + 1] && tb[q] == b[q + 1]);
        }
        assert forall|x: Seq<char>| ta.contains(x) <==> tb.contains(x) by {
            if ta.contains(x) {
                let p = choose|p: int| 0 <= p < ta.len() && ta[p] == x;
                assert(a[p + 1] == x);
                assert(seq_lt(a[0], a[p + 1]));
                lemma_lt_asym(a[0], a[0]);
                assert(a.contains(x));
                assert(b.contains(x));
                let q = choose|q: int| 0 <= q < b.len() && b[q] == x;
                assert(q != 0);
                assert(tb[q - 1] == x);
            }
            if tb.contains(x) {
                let p = choose|p: int| 0 <= p < tb.len() && tb[p] == x;
                assert(b[p + 1] == x);
                assert(seq_lt(b[0], b[p + 1]));
                lemma_lt_asym(b[0], b[0]);
                assert(b.contains(x));
                assert(a.contains(x));
                let q = choose|q: int| 0 <= q < a.len() && a[q] == x;
                assert(q != 0);
                assert(ta[q - 1] == x);
            }
        }
        lemma_sorted_same_texts(ta, tb);
        assert(a =~= seq![a[0]] + ta);
        assert(b =~= seq![b[0]] + tb);
    }
}

/// The paths waiting for a metadata sync, from the stored value: none when it
/// is missing or not a JSON array of strings.
pub fn pending_sync_paths(value: Option<&str>) -> (r: Vec<String>)
    ensures
        string_views(r@) == match value {
            Some(text) => match strings_of_json(text@) {
                Some(items) => items,
                None => Seq::<Seq<char>>::empty(),
            },
            None => Seq::<Seq<char>>::empty(),
        },
{
    match value {
        Some(text) => match strings_from_json(text) {
            Some(items) => items,
            None => {
                let r: Vec<String> = Vec::new();
                assert(string_views(r@) =~= Seq::<Seq<char>>::empty());
                r
            },
        },
        None => {
            let r: Vec<String> = Vec::new();
            assert(string_views(r@) =~= Seq::<Seq<char>>::empty());
            r
        },
    }
}

/// A store of settings after the writes, in order, each replacing the value
/// under its key.
pub open spec fn apply_writes(
    store: Map<Seq<char>, Seq<char>>,
    writes: Seq<(Seq<char>, Seq<char>)>,
) -> Map<Seq<char>, Seq<char>>
    decreases writes.len(),
{
    if writes.len() == 0 {
        store
    } else {
        apply_writes(store, writes.drop_last()).insert(writes.last().0, writes.last().1)
    }
}

/// The value a store holds under `key`, if any.
pub open spec fn value_at(store: Map<Seq<char>, Seq<char>>, key: Seq<char>) -> Option<Seq<char>> {
    if store.contains_key(key) {
        Some(store[key])
    } else {
        None
    }
}

/// Reading a key among rows gives what a store filled from those rows, in
/// order, holds under it: the last row with that key wins.
pub proof fn lemma_lookup_is_last_write(rows: Seq<Setting>, key: Seq<char>)
    ensures
        setting_lookup(rows, key) == value_at(
            apply_writes(Map::empty(), setting_pairs(rows)),
            key,
        ),
    decreases rows.len(),
{
    if rows.len() > 0 {
        assert(setting_pairs(rows).drop_last() =~= setting_pairs(rows.drop_last()));
        lemma_lookup_is_last_write(rows.drop_last(), key);
    }
}

proof fn lemma_apply_push(
    store: Map<Seq<char>, Seq<char>>,
    writes: Seq<(Seq<char>, Seq<char>)>,
    w: (Seq<char>, Seq<char>),
)
    ensures
        apply_writes(store, writes.push(w)) == apply_writes(store, writes).insert(w.0, w.1),
{
    assert(writes.push(w).drop_last() =~= writes);
}

proof fn lemma_apply_empty(store: Map<Seq<char>, Seq<char>>)
    ensures
        apply_writes(store, Seq::empty()) == store,
{
}

proof fn lemma_written_keys_distinct()
    ensures
        key_name(SettingKey::IndexValue) != key_name(SettingKey::CurrentSeekValue),
        key_name(SettingKey::IndexValue) != key_name(SettingKey::PlayPauseFlag),
        key_name(SettingKey::CurrentSeekValue) != key_name(SettingKey::PlayPauseFlag),
        key_name(SettingKey::SearchBlob) != key_name(SettingKey::IndexValue),
        key_name(SettingKey::SearchBlob) != key_name(SettingKey::CurrentSeekValue),
        key_name(SettingKey::SearchBlob) != key_name(SettingKey::PlayPauseFlag),
        key_name(SettingKey::ProcessedMusicFlag) != key_name(SettingKey::SearchBlob),
        key_name(SettingKey::ProcessedMusicFlag) != key_name(SettingKey::IndexValue),
        key_name(SettingKey::ProcessedMusicFlag) != key_name(SettingKey::CurrentSeekValue),
        key_name(SettingKey::ProcessedMusicFlag) != key_name(SettingKey::PlayPauseFlag),
{
    reveal_strlit("index_value");
    reveal_strlit("current_seek_value");
    reveal_strlit("play_pause_flag");
    reveal_strlit("search_blob");
    reveal_strlit("processed_music_flag");
    assert("index_value"@[0] != "search_blob"@[0]);
    assert("play_pause_flag"@[0] != "processed_music_flag"@[1]
        || "play_pause_flag"@.len() != "processed_music_flag"@.len());
}

/// A flag reads back as it was written.
pub proof fn lemma_flag_read_back(flag: bool)
    ensures
        flag_of(Some(flag_text(flag))) == flag,
{
    reveal_strlit("true");
    reveal_strlit("false");
    assert("true"@.len() != "false"@.len());
}

/// After a track starts, the saved state reads back as its position (zero
/// when none is current), a seek of zero, and playing exactly when a song is
/// current.
pub proof fn lemma_started_track_read_back(
    store: Map<Seq<char>, Seq<char>>,
    current_index: Option<usize>,
)
    ensures
        ({
            let after = apply_writes(store, started_track_writes(current_index));
            &&& usize_of(value_at(after, key_name(SettingKey::IndexValue)), 0) == saved_index_of(
                current_index,
            )
            &&& usize_of(value_at(after, key_name(SettingKey::CurrentSeekValue)), 0) == 0
            &&& flag_of(value_at(after, key_name(SettingKey::PlayPauseFlag))) == (
            current_index is Some)
        }),
{
    let ws = started_track_writes(current_index);
    lemma_written_keys_distinct();
    lemma_flag_read_back(current_index is Some);
    crate::decimal::lemma_usize_decimal_roundtrip(saved_index_of(current_index) as usize);
    crate::decimal::lemma_usize_decimal_roundtrip(0);
    assert(ws.drop_last().drop_last().drop_last() =~= Seq::<(Seq<char>, Seq<char>)>::empty());
    let s1 = apply_writes(store, ws.drop_last().drop_last());
    let s2 = apply_writes(store, ws.drop_last());
    assert(s1 == apply_writes(store, ws.drop_last().drop_last().drop_last()).insert(ws[0].0, ws[0].1));
    assert(s2 == s1.insert(ws[1].0, ws[1].1));
}

/// After the queue follows a rebuilt list, the saved position reads back as
/// the new one; when the current song is gone the seek reads back as zero and
/// playback as paused, and otherwise both are left as they were.
pub proof fn lemma_queue_sync_read_back(
    store: Map<Seq<char>, Seq<char>>,
    current_index: Option<usize>,
    cleared_current_song: bool,
)
    ensures
        ({
            let after = apply_writes(store, queue_sync_writes(current_index, cleared_current_song));
            &&& usize_of(value_at(after, key_name(SettingKey::IndexValue)), 0) == saved_index_of(
                current_index,
            )
            &&& cleared_current_song ==> usize_of(
                value_at(after, key_name(SettingKey::CurrentSeekValue)),
                0,
            ) == 0 && !flag_of(value_at(after, key_name(SettingKey::PlayPauseFlag)))
            &&& !cleared_current_song ==> value_at(
                after,
                key_name(SettingKey::CurrentSeekValue),
            ) == value_at(store, key_name(SettingKey::CurrentSeekValue)) && value_at(
                after,
                key_name(SettingKey::PlayPauseFlag),
            ) == value_at(store, key_name(SettingKey::PlayPauseFlag))
        }),
{
    let ws = queue_sync_writes(current_index, cleared_current_song);
    lemma_written_keys_distinct();
    lemma_flag_read_back(false);
    crate::decimal::lemma_usize_decimal_roundtrip(saved_index_of(current_index) as usize);
    crate::decimal::lemma_usize_decimal_roundtrip(0);
    let e = Seq::<(Seq<char>, Seq<char>)>::empty();
    lemma_apply_empty(store);
    lemma_apply_push(store, e, ws[0]);
    if cleared_current_song {
        assert(ws =~= e.push(ws[0]).push(ws[1]).push(ws[2]));
        lemma_apply_push(store, e.push(ws[0]), ws[1]);
        lemma_apply_push(store, e.push(ws[0]).push(ws[1]), ws[2]);
    } else {
        assert(ws =~= e.push(ws[0]));
    }
}

/// After the library is rebuilt, the saved search reads back as empty, the
/// position and seek as zero, playback as paused and the folder as processed.
pub proof fn lemma_library_reset_read_back(store: Map<Seq<char>, Seq<char>>)
    ensures
        ({
            let after = apply_writes(store, library_reset_writes());
            &&& text_of(value_at(after, key_name(SettingKey::SearchBlob))) == Seq::<char>::empty()
            &&& usize_of(value_at(after, key_name(SettingKey::IndexValue)), 0) == 0
            &&& usize_of(value_at(after, key_name(SettingKey::CurrentSeekValue)), 0) == 0
            &&& !flag_of(value_at(after, key_name(SettingKey::PlayPauseFlag)))
            &&& flag_of(value_at(after, key_name(SettingKey::ProcessedMusicFlag)))
        }),
{
    let ws = library_reset_writes();
    lemma_written_keys_distinct();
    lemma_flag_read_back(false);
    lemma_flag_read_back(true);
    crate::decimal::lemma_usize_decimal_roundtrip(0);
    let e = Seq::<(Seq<char>, Seq<char>)>::empty();
    assert(ws =~= e.push(ws[0]).push(ws[1]).push(ws[2]).push(ws[3]).push(ws[4]));
    lemma_apply_empty(store);
    lemma_apply_push(store, e, ws[0]);
    lemma_apply_push(store, e.push(ws[0]), ws[1]);
    lemma_apply_push(store, e.push(ws[0]).push(ws[1]), ws[2]);
    lemma_apply_push(store, e.push(ws[0]).push(ws[1]).push(ws[2]), ws[3]);
    lemma_apply_push(store, e.push(ws[0]).push(ws[1]).push(ws[2]).push(ws[3]), ws[4]);
}

/// A song list limit that was accepted reads back as itself.
pub proof fn lemma_song_list_limit_read_back(store: Map<Seq<char>, Seq<char>>, limit: i32)
    requires
        limit > 0,
    ensures
        positive_i32_of(
            value_at(
                apply_writes(
                    store,
                    seq![write_of(SettingKey::SongListLimit, int_decimal(limit as int))],
                ),
                key_name(SettingKey::SongListLimit),
            ),
            DEFAULT_SONG_LIST_LIMIT,
        ) == limit,
{
    let ws = seq![write_of(SettingKey::SongListLimit, int_decimal(limit as int))];
    assert(ws.drop_last() =~= Seq::<(Seq<char>, Seq<char>)>::empty());
    crate::decimal::lemma_i32_decimal_roundtrip(limit);
}

/// Each key binding is the value stored under its own key, empty when that
/// key is missing: the play/pause binding under `play_pause_kb`, the previous
/// binding under `previous_kb`, and so on.
pub proof fn lemma_keybinds_read_their_own_keys(k: KeybindSettings, rows: Seq<Setting>)
    requires
        keybinds_match(k, rows),
    ensures
        k.play_pause@ == text_of(setting_lookup(rows, "play_pause_kb"@)),
        k.previous@ == text_of(setting_lookup(rows, "previous_kb"@)),
        k.next@ == text_of(setting_lookup(rows, "next_kb"@)),
        k.repeat@ == text_of(setting_lookup(rows, "repeat_kb"@)),
        k.shuffle@ == text_of(setting_lookup(rows, "shuffle_kb"@)),
        k.mute@ == text_of(setting_lookup(rows, "mute_kb"@)),
        k.increase_volume@ == text_of(setting_lookup(rows, "increase_volume_kb"@)),
        k.decrease_volume@ == text_of(setting_lookup(rows, "decrease_volume_kb"@)),
        k.seek_forward@ == text_of(setting_lookup(rows, "seek_forward_kb"@)),
        k.seek_backward@ == text_of(setting_lookup(rows, "seek_backward_kb"@)),
        k.toggle_search@ == text_of(setting_lookup(rows, "focus_search_kb"@)),
        k.toggle_settings@ == text_of(setting_lookup(rows, "settings_kb"@)),
        k.open_keybind_settings@ == text_of(setting_lookup(rows, "keybind_settings_kb"@)),
        k.toggle_filter_menu@ == text_of(setting_lookup(rows, "filter_menu_kb"@)),
        k.toggle_song_filter_menu@ == text_of(setting_lookup(rows, "song_filter_menu_kb"@)),
        k.switch_song_filter_pane@ == text_of(setting_lookup(rows, "switch_song_filter_pane_kb"@)),
        k.apply_selected_filter@ == text_of(setting_lookup(rows, "apply_selected_filter_kb"@)),
{
}

/// Reading a key among rows gives the value of the last row with that key,
/// and nothing exactly when no row has that key.
pub proof fn lemma_lookup_reads_last_row_with_key(rows: Seq<Setting>, key: Seq<char>)
    ensures
        setting_lookup(rows, key) is None <==> forall|i: int| 0 <= i < rows.len() ==> (#[trigger] rows[i]).key@ != key,
        setting_lookup(rows, key) matches Some(v) ==> exists|i: int|
            0 <= i < rows.len() && (#[trigger] rows[i]).key@ == key && rows[i].value@ == v && forall|j: int|
                i < j < rows.len() ==> (#[trigger] rows[j]).key@ != key,
    decreases rows.len(),
{
    if rows.len() > 0 {
        let init = rows.drop_last();
        lemma_lookup_reads_last_row_with_key(init, key);
        let n = rows.len() - 1;
        if rows.last().key@ == key {
            assert(rows[n].key@ == key);
        } else {
            assert forall|i: int| 0 <= i < n implies rows[i] == init[i] by {}
            if setting_lookup(init, key) is None {
                assert forall|i: int| 0 <= i < rows.len() implies (#[trigger] rows[i]).key@ != key by {
                    if i < n {
                        assert(rows[i] == init[i]);
                    }
                }
            } else {
                let v = setting_lookup(init, key).unwrap();
                let i = choose|i: int|
                    0 <= i < init.len() && (#[trigger] init[i]).key@ == key && init[i].value@ == v
                        && forall|j: int| i < j < init.len() ==> (#[trigger] init[j]).key@ != key;
                assert(rows[i] == init[i]);
                assert forall|j: int| i < j < rows.len() implies (#[trigger] rows[j]).key@ != key by {
                    if j < n {
                        assert(rows[j] == init[j]);
                    }
                }
                assert(!(forall|i: int| 0 <= i < init.len() ==> (#[trigger] init[i]).key@ != key)) by {
                    assert(init[i].key@ == key);
                }
                assert(rows[i].key@ == key);
            }
        }
    }
}

} // verus!
