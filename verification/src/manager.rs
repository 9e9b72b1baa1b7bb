//! The decisions the player manager makes between its reads and writes:
//! what to save after playback moves, which paths get their filter tags
//! rewritten now and which wait, and the cached preview search.
use vstd::prelude::*;
use crate::filter::Filter;
use crate::player::PlaybackAttempt;
use crate::setting::{count_setting_of, started_track_settings, Setting, SettingKey};
use crate::song::Song;
use crate::song_filter::SongFilter;
use crate::song_query::SongWithFilters;
use crate::text::{string_views, strings_equal};

verus! {

/// Where playback stands after a request to play, skip or go back.
#[derive(Debug, Clone, PartialEq, Eq)]
pub struct PlaybackChange {
    pub current_index: Option<usize>,
    pub failed_song_ids: Vec<i32>,
    pub should_emit_track_changed: bool,
}

/// The size of a reloaded song list and where its current song stands.
#[derive(Debug, Clone, Copy, PartialEq, Eq)]
pub struct SongListChange {
    pub count: usize,
    pub current_index: Option<usize>,
}

/// Whether a change to filters took effect, and where the current song stands
/// in the reloaded list.
#[derive(Debug, Clone, Copy, PartialEq, Eq)]
pub struct QueueMutation {
    pub changed: bool,
    pub current_index: Option<usize>,
}

impl PlaybackChange {
    /// The change an attempt to start songs made, with the queue's position
    /// after it.
    pub fn from_attempt(current_index: Option<usize>, attempt: PlaybackAttempt) -> (r:
        PlaybackChange)
        ensures
            r.current_index == current_index,
            r.failed_song_ids@ == attempt.failed_song_ids@,
            r.should_emit_track_changed == attempt.should_emit_track_changed,
    {
        PlaybackChange {
            current_index,
            failed_song_ids: attempt.failed_song_ids,
            should_emit_track_changed: attempt.should_emit_track_changed,
        }
    }
}

/// The started-track state saved after playback moved: the new position when
/// a track started, no position when nothing is current, else nothing saved.
pub open spec fn track_state_to_save(
    current_index: Option<usize>,
    should_emit_track_changed: bool,
) -> Option<Option<usize>> {
    if should_emit_track_changed {
        Some(current_index)
    } else if current_index is None {
        Some(None)
    } else {
        None
    }
}

/// The settings to write after playback moved, if any.
pub fn playback_settings_to_save(change: &PlaybackChange) -> (r: Option<Vec<Setting>>)
    ensures
        match track_state_to_save(change.current_index, change.should_emit_track_changed) {
            Some(ci) => r matches Some(ws) && crate::setting::setting_pairs(ws@)
                == crate::setting::started_track_writes(ci),
            None => r is None,
        },
{
    if change.should_emit_track_changed {
        Some(started_track_settings(change.current_index))
    } else if change.current_index.is_none() {
        Some(started_track_settings(None))
    } else {
        None
    }
}

/// The settings to write once the saved state was loaded into the player:
/// when songs failed and none is current, the started-track state for no
/// song; otherwise the position reached.
pub fn loaded_settings_to_save(current_index: Option<usize>, any_failed: bool) -> (r: Vec<Setting>)
    ensures
        any_failed && current_index is None ==> crate::setting::setting_pairs(r@)
            == crate::setting::started_track_writes(None),
        !(any_failed && current_index is None) ==> crate::setting::setting_pairs(r@) == seq![
            crate::setting::write_of(
                SettingKey::IndexValue,
                crate::decimal::nat_decimal(crate::setting::saved_index_of(current_index)),
            ),
        ],
{
    if any_failed && current_index.is_none() {
        started_track_settings(None)
    } else {
        let index = match current_index {
            Some(i) => i,
            None => 0,
        };
        let r = vec![count_setting_of(SettingKey::IndexValue, index)];
        assert(crate::setting::setting_pairs(r@) =~= seq![
            crate::setting::write_of(
                SettingKey::IndexValue,
                crate::decimal::nat_decimal(crate::setting::saved_index_of(current_index)),
            ),
        ]);
        r
    }
}

/// Whether the restored song starts playing: it was playing when saved and
/// the player is not set to always start paused.
pub fn should_start_playing(was_playing: bool, always_start_paused: bool) -> (r: bool)
    ensures
        r == (was_playing && !always_start_paused),
{
    was_playing && !always_start_paused
}

/// The seek position moved by `seconds`, forwards or backwards, stopping at
/// the ends of the range instead of wrapping.
pub fn shifted_seek(current_seconds: u64, seconds: u64, forward: bool) -> (r: u64)
    ensures
        forward ==> r == if current_seconds + seconds > u64::MAX {
            u64::MAX as int
        } else {
            current_seconds + seconds
        },
        !forward ==> r == if current_seconds < seconds {
            0
        } else {
            current_seconds - seconds
        },
{
    if forward {
        current_seconds.saturating_add(seconds)
    } else {
        current_seconds.saturating_sub(seconds)
    }
}

/// Each text at its first occurrence, in order.
pub open spec fn first_occurrences(s: Seq<Seq<char>>) -> Seq<Seq<char>>
    decreases s.len(),
{
    if s.len() == 0 {
        Seq::empty()
    } else {
        let rest = first_occurrences(s.drop_last());
        if rest.contains(s.last()) {
            rest
        } else {
            rest.push(s.last())
        }
    }
}

/// Holds of the path of the current song.
pub open spec fn is_current_path(current: Option<Seq<char>>) -> spec_fn(Seq<char>) -> bool {
    |p: Seq<char>| current == Some(p)
}

/// Holds of every path but that of the current song.
pub open spec fn not_current_path(current: Option<Seq<char>>) -> spec_fn(Seq<char>) -> bool {
    |p: Seq<char>| current != Some(p)
}

/// The view of an optional string slice.
pub open spec fn opt_view(s: Option<&str>) -> Option<Seq<char>> {
    match s {
        Some(t) => Some(t@),
        None => None,
    }
}

/// Whether some string of `v` holds the same text as `s`.
pub fn contains_string(v: &Vec<String>, s: &String) -> (r: bool)
    ensures
        r == string_views(v@).contains(s@),
{
    let mut i: usize = 0;
    while i < v.len()
        invariant
            i <= v.len(),
            forall|j: int| 0 <= j < i ==> (#[trigger] v@[j])@ != s@,
        decreases v.len() - i,
    {
        if strings_equal(&v[i], s) {
            assert(string_views(v@)[i as int] == s@);
            return true;
        }
        i = i + 1;
    }
    proof {
        if string_views(v@).contains(s@) {
            let j = choose|j: int| 0 <= j < v@.len() && string_views(v@)[j] == s@;
            assert(v@[j]@ == s@);
        }
    }
    false
}

/// Splits the paths whose filter tags must be rewritten into those that can
/// be written now and those that must wait because the song is playing; each
/// path is kept once, at its first occurrence.
pub fn partition_song_metadata_sync_paths(
    file_paths: Vec<String>,
    current_song_file_path: Option<&str>,
) -> (r: (Vec<String>, Vec<String>))
    ensures
        string_views(r.0@) == first_occurrences(string_views(file_paths@)).filter(
            not_current_path(opt_view(current_song_file_path)),
        ),
        string_views(r.1@) == first_occurrences(string_views(file_paths@)).filter(
            is_current_path(opt_view(current_song_file_path)),
        ),
{
    let ghost cur = opt_view(current_song_file_path);
    let current: Option<String> = match current_song_file_path {
        Some(p) => Some(p.to_owned()),
        None => None,
    };
    let mut ready: Vec<String> = Vec::new();
    let mut deferred: Vec<String> = Vec::new();
    let mut seen: Vec<String> = Vec::new();
    let mut i: usize = 0;
    while i < file_paths.len()
        invariant
            i <= file_paths.len(),
            match current {
                Some(c) => cur == Some(c@),
                None => cur is None,
            },
            string_views(seen@) == first_occurrences(string_views(file_paths@).take(i as int)),
            string_views(ready@) == string_views(seen@).filter(not_current_path(cur)),
            string_views(deferred@) == string_views(seen@).filter(is_current_path(cur)),
        decreases file_paths.len() - i,
    {
        let ghost before_seen = string_views(seen@);
        let ghost before_ready = string_views(ready@);
        let ghost before_deferred = string_views(deferred@);
        let ghost x = file_paths@[i as int]@;
        proof {
            let p = string_views(file_paths@).take(i + 1);
            assert(p.drop_last() =~= string_views(file_paths@).take(i as int));
            assert(p.last() == x);
        }
        let path = &file_paths[i];
        if !contains_string(&seen, path) {
            seen.push(path.clone());
            assert(string_views(seen@) =~= before_seen.push(x));
            proof {
                before_seen.lemma_filter_push(x, not_current_path(cur));
                before_seen.lemma_filter_push(x, is_current_path(cur));
            }
            let is_current = match &current {
                Some(c) => strings_equal(c, path),
                None => false,
            };
            if is_current {
                deferred.push(path.clone());
                assert(string_views(deferred@) =~= before_deferred.push(x));
            } else {
                ready.push(path.clone());
                assert(string_views(ready@) =~= before_ready.push(x));
            }
        }
        i = i + 1;
    }
    assert(string_views(file_paths@).take(file_paths.len() as int) =~= string_views(file_paths@));
    (ready, deferred)
}

/// The first occurrences hold each text of the sequence once.
pub proof fn lemma_first_occurrences(s: Seq<Seq<char>>)
    ensures
        first_occurrences(s).no_duplicates(),
        forall|x: Seq<char>| first_occurrences(s).contains(x) <==> s.contains(x),
    decreases s.len(),
{
    if s.len() > 0 {
        lemma_first_occurrences(s.drop_last());
        let rest = first_occurrences(s.drop_last());
        assert forall|x: Seq<char>| first_occurrences(s).contains(x) <==> s.contains(x) by {
            if s.contains(x) && !s.drop_last().contains(x) {
                let j = choose|j: int| 0 <= j < s.len() && s[j] == x;
                if j < s.len() - 1 {
                    assert(s.drop_last()[j] == x);
                }
                assert(x == s.last());
                if !rest.contains(s.last()) {
                    assert(rest.push(s.last())[rest.len() as int] == x);
                }
            }
            if s.drop_last().contains(x) {
                let j = choose|j: int| 0 <= j < s.len() - 1 && s.drop_last()[j] == x;
                assert(s[j] == x);
                if !rest.contains(s.last()) {
                    let k = choose|k: int| 0 <= k < rest.len() && rest[k] == x;
                    assert(rest.push(s.last())[k] == x);
                }
            }
            if first_occurrences(s).contains(x) && !rest.contains(x) {
                assert(x == s.last());
                assert(s[s.len() - 1] == x);
            }
        }
    }
}

/// Every path to rewrite lands in exactly one of the two lists, once; only
/// the current song's path waits.
pub proof fn lemma_partition_splits_paths(paths: Seq<Seq<char>>, current: Option<Seq<char>>)
    ensures
        ({
            let ready = first_occurrences(paths).filter(not_current_path(current));
            let deferred = first_occurrences(paths).filter(is_current_path(current));
            &&& forall|x: Seq<char>|
                (ready.contains(x) || deferred.contains(x)) <==> paths.contains(x)
            &&& forall|x: Seq<char>| !(ready.contains(x) && deferred.contains(x))
            &&& forall|x: Seq<char>| deferred.contains(x) ==> current == Some(x)
            &&& ready.no_duplicates()
            &&& deferred.len() <= 1
        }),
{
    broadcast use vstd::seq_lib::group_filter_ensures;

    let f = first_occurrences(paths);
    lemma_first_occurrences(paths);
    let ready = f.filter(not_current_path(current));
    let deferred = f.filter(is_current_path(current));
    assert forall|x: Seq<char>| (ready.contains(x) || deferred.contains(x)) <==> paths.contains(
        x,
    ) by {
        if ready.contains(x) {
            f.lemma_filter_contains_rev(not_current_path(current), x);
        }
        if deferred.contains(x) {
            f.lemma_filter_contains_rev(is_current_path(current), x);
        }
        if paths.contains(x) {
            assert(f.contains(x));
            let j = choose|j: int| 0 <= j < f.len() && f[j] == x;
            if current == Some(x) {
                f.lemma_filter_contains(is_current_path(current), j);
            } else {
                f.lemma_filter_contains(not_current_path(current), j);
            }
        }
    }
    assert forall|x: Seq<char>| deferred.contains(x) implies current == Some(x) by {
        let j = choose|j: int| 0 <= j < deferred.len() && deferred[j] == x;
        f.lemma_filter_pred(is_current_path(current), j);
    }
    assert forall|x: Seq<char>| !(ready.contains(x) && deferred.contains(x)) by {
        if ready.contains(x) && deferred.contains(x) {
            let j = choose|j: int| 0 <= j < ready.len() && ready[j] == x;
            f.lemma_filter_pred(not_current_path(current), j);
        }
    }
    lemma_filter_keeps_distinct(f, not_current_path(current));
    lemma_filter_keeps_distinct(f, is_current_path(current));
    if deferred.len() > 1 {
        f.lemma_filter_pred(is_current_path(current), 0);
        f.lemma_filter_pred(is_current_path(current), 1);
        assert(deferred[0] == deferred[1]);
    }
}

proof fn lemma_filter_keeps_distinct(s: Seq<Seq<char>>, p: spec_fn(Seq<char>) -> bool)
    requires
        s.no_duplicates(),
    ensures
        s.filter(p).no_duplicates(),
    decreases s.len(),
{
    broadcast use vstd::seq_lib::group_filter_ensures;

    if s.len() > 0 {
        let init = s.drop_last();
        assert(init =~= s.subrange(0, s.len() - 1));
        assert(init.no_duplicates());
        lemma_filter_keeps_distinct(init, p);
        assert(s =~= init.push(s.last()));
        init.lemma_filter_push(s.last(), p);
        if p(s.last()) {
            let f = init.filter(p);
            if f.contains(s.last()) {
                init.lemma_filter_contains_rev(p, s.last());
                let j = choose|j: int| 0 <= j < init.len() && init[j] == s.last();
                assert(s[j] == s[s.len() - 1]);
            }
            assert forall|a: int, b: int|
                0 <= a < b < f.push(s.last()).len() implies f.push(s.last())[a] != f.push(
                s.last(),
            )[b] by {
                if b == f.len() {
                    assert(f.contains(f[a]));
                }
            }
        }
    }
}

/// The last search previewed, kept so that committing it needs no new query.
pub struct PreviewCache {
    entry: Option<(String, Vec<SongWithFilters>)>,
}

/// The cache after a search is taken: emptied when it held that search, else
/// as it was.
pub open spec fn cache_after_take(
    cached: Option<(Seq<char>, Seq<SongWithFilters>)>,
    query: Seq<char>,
) -> Option<(Seq<char>, Seq<SongWithFilters>)> {
    match cached {
        Some((q, _)) => if q == query {
            None
        } else {
            cached
        },
        None => None,
    }
}

/// The songs a take hands back: those cached for that very search.
pub open spec fn taken_songs(
    cached: Option<(Seq<char>, Seq<SongWithFilters>)>,
    query: Seq<char>,
) -> Option<Seq<SongWithFilters>> {
    match cached {
        Some((q, songs)) => if q == query {
            Some(songs)
        } else {
            None
        },
        None => None,
    }
}

impl PreviewCache {
    /// The search held and its songs, if any.
    pub closed spec fn cached(&self) -> Option<(Seq<char>, Seq<SongWithFilters>)> {
        match self.entry {
            Some((q, songs)) => Some((q@, songs@)),
            None => None,
        }
    }

    /// An empty cache.
    pub fn new() -> (r: PreviewCache)
        ensures
            r.cached() is None,
    {
        PreviewCache { entry: None }
    }

    /// Keeps the songs found for `query`, replacing what was held.
    pub fn cache(&mut self, query: &str, songs: Vec<SongWithFilters>)
        ensures
            final(self).cached() == Some((query@, songs@)),
    {
        self.entry = Some((query.to_owned(), songs));
    }

    /// Hands back the songs held for `query` and empties the cache; nothing,
    /// and the cache untouched, when it holds another search or none.
    pub fn take_matching(&mut self, query: &str) -> (r: Option<Vec<SongWithFilters>>)
        ensures
            match r {
                Some(songs) => taken_songs(old(self).cached(), query@) == Some(songs@),
                None => taken_songs(old(self).cached(), query@) is None,
            },
            final(self).cached() == cache_after_take(old(self).cached(), query@),
    {
        let wanted = query.to_owned();
        let matches = match &self.entry {
            Some((q, _)) => strings_equal(q, &wanted),
            None => false,
        };
        if matches {
            let mut taken: Option<(String, Vec<SongWithFilters>)> = None;
            std::mem::swap(&mut taken, &mut self.entry);
            match taken {
                Some((_, songs)) => Some(songs),
                None => None,
            }
        } else {
            None
        }
    }

    /// Forgets what was held.
    pub fn clear(&mut self)
        ensures
            final(self).cached() is None,
    {
        self.entry = None;
    }
}

/// Committing a previewed search hands back the songs found for it, once.
pub proof fn lemma_preview_taken_once(query: Seq<char>, songs: Seq<SongWithFilters>)
    ensures
        taken_songs(Some((query, songs)), query) == Some(songs),
        cache_after_take(Some((query, songs)), query) is None,
        taken_songs(cache_after_take(Some((query, songs)), query), query) is None,
{
}

/// Whether some link ties a song with this id to a filter.
pub open spec fn links_song(links: Seq<SongFilter>, song_id: i32) -> bool {
    exists|k: int| 0 <= k < links.len() && (#[trigger] links[k]).song_id == song_id
}

/// The file paths of the songs that some link ties to a filter, in song order.
pub open spec fn linked_paths(songs: Seq<Song>, links: Seq<SongFilter>) -> Seq<Seq<char>>
    decreases songs.len(),
{
    if songs.len() == 0 {
        Seq::empty()
    } else {
        let rest = linked_paths(songs.drop_last(), links);
        if links_song(links, songs.last().id) {
            rest.push(songs.last().file_path@)
        } else {
            rest
        }
    }
}

fn links_song_exec(links: &[SongFilter], song_id: i32) -> (r: bool)
    ensures
        r == links_song(links@, song_id),
{
    let mut k: usize = 0;
    while k < links.len()
        invariant
            k <= links.len(),
            forall|j: int| 0 <= j < k ==> (#[trigger] links@[j]).song_id != song_id,
        decreases links.len() - k,
    {
        if links[k].song_id == song_id {
            return true;
        }
        k = k + 1;
    }
    false
}

/// The file paths of the songs tied by `links` to a filter, in song order:
/// those whose tags must be rewritten when that filter goes.
pub fn affected_song_file_paths(links: &[SongFilter], songs: &[Song]) -> (r: Vec<String>)
    ensures
        string_views(r@) == linked_paths(songs@, links@),
{
    let mut out: Vec<String> = Vec::new();
    let mut i: usize = 0;
    while i < songs.len()
        invariant
            i <= songs.len(),
            string_views(out@) == linked_paths(songs@.take(i as int), links@),
        decreases songs.len() - i,
    {
        let ghost before = string_views(out@);
        proof {
            assert(songs@.take(i + 1).drop_last() =~= songs@.take(i as int));
        }
        if links_song_exec(links, songs[i].id) {
            out.push(songs[i].file_path.clone());
            assert(string_views(out@) =~= before.push(songs@[i as int].file_path@));
        }
        i = i + 1;
    }
    assert(songs@.take(songs.len() as int) =~= songs@);
    out
}

/// The id a map from file path to song id, filled from the songs in order,
/// holds for `path`: that of the last song stored at that path.
pub open spec fn song_id_at_path(songs: Seq<Song>, path: Seq<char>) -> Option<i32>
    decreases songs.len(),
{
    if songs.len() == 0 {
        None
    } else if songs.last().file_path@ == path {
        Some(songs.last().id)
    } else {
        song_id_at_path(songs.drop_last(), path)
    }
}

/// The id of the song stored at `path`; the last one when several are.
pub fn song_id_for_path(songs: &[Song], path: &str) -> (r: Option<i32>)
    ensures
        r == song_id_at_path(songs@, path@),
{
    let wanted = path.to_owned();
    let mut i = songs.len();
    assert(songs@.take(i as int) =~= songs@);
    while i > 0
        invariant
            i <= songs.len(),
            wanted@ == path@,
            song_id_at_path(songs@, path@) == song_id_at_path(songs@.take(i as int), path@),
        decreases i,
    {
        let ghost prefix = songs@.take(i as int);
        if strings_equal(&songs[i - 1].file_path, &wanted) {
            return Some(songs[i - 1].id);
        }
        i = i - 1;
        assert(prefix.drop_last() =~= songs@.take(i as int));
    }
    None
}

/// The ids of the songs at the paths, in path order, passing over paths no
/// song is stored at.
pub open spec fn song_ids_at_paths(songs: Seq<Song>, paths: Seq<Seq<char>>) -> Seq<i32>
    decreases paths.len(),
{
    if paths.len() == 0 {
        Seq::empty()
    } else {
        let rest = song_ids_at_paths(songs, paths.drop_last());
        match song_id_at_path(songs, paths.last()) {
            Some(id) => rest.push(id),
            None => rest,
        }
    }
}

/// The ids of the songs whose tags are rewritten for these paths.
pub fn song_ids_for_paths(songs: &[Song], paths: &[String]) -> (r: Vec<i32>)
    ensures
        r@ == song_ids_at_paths(songs@, string_views(paths@)),
{
    let mut out: Vec<i32> = Vec::new();
    let mut i: usize = 0;
    while i < paths.len()
        invariant
            i <= paths.len(),
            out@ == song_ids_at_paths(songs@, string_views(paths@).take(i as int)),
        decreases paths.len() - i,
    {
        proof {
            let p = string_views(paths@).take(i + 1);
            assert(p.drop_last() =~= string_views(paths@).take(i as int));
            assert(p.last() == paths@[i as int]@);
        }
        match song_id_for_path(songs, paths[i].as_str()) {
            Some(id) => {
                out.push(id);
            },
            None => {},
        }
        i = i + 1;
    }
    assert(string_views(paths@).take(paths.len() as int) =~= string_views(paths@));
    out
}

/// The songs stored at one of the paths, in song order.
pub open spec fn songs_at_paths(songs: Seq<Song>, paths: Seq<Seq<char>>) -> Seq<Song>
    decreases songs.len(),
{
    if songs.len() == 0 {
        Seq::empty()
    } else {
        let rest = songs_at_paths(songs.drop_last(), paths);
        if paths.contains(songs.last().file_path@) {
            rest.push(songs.last())
        } else {
            rest
        }
    }
}

/// The songs waiting for a tag rewrite: those stored at one of the paths.
pub fn pending_songs(songs: &[Song], paths: &Vec<String>) -> (r: Vec<Song>)
    ensures
        r@ == songs_at_paths(songs@, string_views(paths@)),
{
    let mut out: Vec<Song> = Vec::new();
    let mut i: usize = 0;
    while i < songs.len()
        invariant
            i <= songs.len(),
            out@ == songs_at_paths(songs@.take(i as int), string_views(paths@)),
        decreases songs.len() - i,
    {
        proof {
            assert(songs@.take(i + 1).drop_last() =~= songs@.take(i as int));
        }
        if contains_string(paths, &songs[i].file_path) {
            out.push(songs[i].duplicate());
        }
        i = i + 1;
    }
    assert(songs@.take(songs.len() as int) =~= songs@);
    out
}

/// The error a command reports to the interface: its message.
#[derive(Debug, Clone, PartialEq, Eq)]
pub struct ErrorResponse {
    message: String,
}

impl ErrorResponse {
    /// The response carrying this message.
    pub fn from_message(message: String) -> (r: ErrorResponse)
        ensures
            r.message_text() == message@,
    {
        ErrorResponse { message }
    }

    /// The text of the message.
    pub closed spec fn message_text(&self) -> Seq<char> {
        self.message@
    }

    /// The message.
    pub fn message(&self) -> (r: &str)
        ensures
            r@ == self.message_text(),
    {
        self.message.as_str()
    }
}

/// The filters that a map from path to filters, filled from the pending
/// entries in order, holds for `path`: those of the last entry for it.
pub open spec fn pending_filters_at(pending: Seq<(String, Vec<Filter>)>, path: Seq<char>) -> Option<
    Seq<Filter>,
>
    decreases pending.len(),
{
    if pending.len() == 0 {
        None
    } else if pending.last().0@ == path {
        Some(pending.last().1@)
    } else {
        pending_filters_at(pending.drop_last(), path)
    }
}

fn copy_filters(v: &Vec<Filter>) -> (r: Vec<Filter>)
    ensures
        r@ == v@,
{
    let mut out: Vec<Filter> = Vec::new();
    let mut i: usize = 0;
    while i < v.len()
        invariant
            i <= v.len(),
            out@ == v@.take(i as int),
        decreases v.len() - i,
    {
        out.push(v[i].duplicate());
        i = i + 1;
        assert(out@ =~= v@.take(i as int));
    }
    assert(v@.take(v.len() as int) =~= v@);
    out
}

fn pending_filters_for(pending: &[(String, Vec<Filter>)], path: &String) -> (r: Option<Vec<Filter>>)
    ensures
        match pending_filters_at(pending@, path@) {
            Some(f) => r matches Some(v) && v@ == f,
            None => r is None,
        },
{
    let mut i = pending.len();
    assert(pending@.take(i as int) =~= pending@);
    while i > 0
        invariant
            i <= pending.len(),
            pending_filters_at(pending@, path@) == pending_filters_at(pending@.take(i as int), path@),
        decreases i,
    {
        let ghost prefix = pending@.take(i as int);
        if strings_equal(&pending[i - 1].0, path) {
            return Some(copy_filters(&pending[i - 1].1));
        }
        i = i - 1;
        assert(prefix.drop_last() =~= pending@.take(i as int));
    }
    None
}

/// The filters to import for each song of a rebuilt library: those kept in
/// the store for a path waiting for a tag rewrite, else those read from the
/// song's file tag, `tag_filters[k]` for `songs[k]`.
pub fn collect_song_metadata_filters(
    songs: &[Song],
    pending: &[(String, Vec<Filter>)],
    tag_filters: Vec<Vec<Filter>>,
) -> (r: Vec<(String, Vec<Filter>)>)
    requires
        tag_filters@.len() == songs@.len(),
    ensures
        r@.len() == songs@.len(),
        forall|k: int|
            0 <= k < songs@.len() ==> {
                &&& (#[trigger] r@[k]).0@ == songs@[k].file_path@
                &&& r@[k].1@ == match pending_filters_at(pending@, songs@[k].file_path@) {
                    Some(f) => f,
                    None => tag_filters@[k]@,
                }
            },
{
    let mut out: Vec<(String, Vec<Filter>)> = Vec::new();
    let mut i: usize = 0;
    while i < songs.len()
        invariant
            i <= songs.len(),
            tag_filters@.len() == songs@.len(),
            out@.len() == i,
            forall|k: int|
                0 <= k < i ==> {
                    &&& (#[trigger] out@[k]).0@ == songs@[k].file_path@
                    &&& out@[k].1@ == match pending_filters_at(pending@, songs@[k].file_path@) {
                        Some(f) => f,
                        None => tag_filters@[k]@,
                    }
                },
        decreases songs.len() - i,
    {
        let filters = match pending_filters_for(pending, &songs[i].file_path) {
            Some(f) => f,
            None => copy_filters(&tag_filters[i]),
        };
        out.push((songs[i].file_path.clone(), filters));
        i = i + 1;
    }
    out
}

/// The affected paths are exactly the paths of the songs some link ties to a
/// filter: each is the path of such a song, and each such song's path is
/// among them.
pub proof fn lemma_affected_paths_are_linked_songs(songs: Seq<Song>, links: Seq<SongFilter>)
    ensures
        forall|p: Seq<char>|
            #[trigger] linked_paths(songs, links).contains(p) ==> exists|i: int|
                0 <= i < songs.len() && (#[trigger] songs[i]).file_path@ == p && exists|k: int|
                    0 <= k < links.len() && (#[trigger] links[k]).song_id == songs[i].id,
        forall|i: int, k: int|
            0 <= i < songs.len() && 0 <= k < links.len() && (#[trigger] links[k]).song_id
                == (#[trigger] songs[i]).id ==> linked_paths(songs, links).contains(songs[i].file_path@),
    decreases songs.len(),
{
    if songs.len() > 0 {
        let init = songs.drop_last();
        lemma_affected_paths_are_linked_songs(init, links);
        let rest = linked_paths(init, links);
        let last = songs.last();
        let n = songs.len() - 1;
        let out = linked_paths(songs, links);
        assert(songs[n] == last);
        assert forall|p: Seq<char>| #[trigger] out.contains(p) implies exists|i: int|
            0 <= i < songs.len() && (#[trigger] songs[i]).file_path@ == p && exists|k: int|
                0 <= k < links.len() && (#[trigger] links[k]).song_id == songs[i].id by {
            let m = choose|m: int| 0 <= m < out.len() && out[m] == p;
            if m < rest.len() {
                assert(rest[m] == p);
                assert(rest.contains(p));
                let i = choose|i: int|
                    0 <= i < init.len() && (#[trigger] init[i]).file_path@ == p && exists|k: int|
                        0 <= k < links.len() && (#[trigger] links[k]).song_id == init[i].id;
                assert(songs[i] == init[i]);
            } else {
                assert(links_song(links, last.id));
            }
        }
        assert forall|i: int, k: int|
            0 <= i < songs.len() && 0 <= k < links.len() && (#[trigger] links[k]).song_id
                == (#[trigger] songs[i]).id implies out.contains(songs[i].file_path@) by {
            if i < n {
                assert(songs[i] == init[i]);
                assert(rest.contains(init[i].file_path@));
                let m = choose|m: int| 0 <= m < rest.len() && rest[m] == init[i].file_path@;
                if links_song(links, last.id) {
                    assert(rest.push(last.file_path@)[m] == songs[i].file_path@);
                }
            } else {
                assert(links_song(links, last.id));
                assert(rest.push(last.file_path@)[rest.len() as int] == last.file_path@);
            }
        }
    }
}

/// The id found for a path is that of the last song stored at that path, and
/// none is found exactly when no song is stored there.
pub proof fn lemma_song_id_is_last_song_at_path(songs: Seq<Song>, path: Seq<char>)
    ensures
        song_id_at_path(songs, path) is None <==> forall|i: int|
            0 <= i < songs.len() ==> (#[trigger] songs[i]).file_path@ != path,
        song_id_at_path(songs, path) matches Some(id) ==> exists|i: int|
            0 <= i < songs.len() && (#[trigger] songs[i]).file_path@ == path && songs[i].id == id
                && forall|j: int| i < j < songs.len() ==> (#[trigger] songs[j]).file_path@ != path,
    decreases songs.len(),
{
    if songs.len() > 0 {
        let init = songs.drop_last();
        lemma_song_id_is_last_song_at_path(init, path);
        let n = songs.len() - 1;
        if songs.last().file_path@ == path {
            assert(songs[n].file_path@ == path);
        } else {
            if song_id_at_path(init, path) is None {
                assert forall|i: int| 0 <= i < songs.len() implies (#[trigger] songs[i]).file_path@ != path by {
                    if i < n {
                        assert(songs[i] == init[i]);
                    }
                }
            } else {
                let id = song_id_at_path(init, path).unwrap();
                let i = choose|i: int|
                    0 <= i < init.len() && (#[trigger] init[i]).file_path@ == path && init[i].id == id
                        && forall|j: int| i < j < init.len() ==> (#[trigger] init[j]).file_path@ != path;
                assert(songs[i] == init[i]);
                assert forall|j: int| i < j < songs.len() implies (#[trigger] songs[j]).file_path@ != path by {
                    if j < n {
                        assert(songs[j] == init[j]);
                    }
                }
                assert(!(forall|i: int| 0 <= i < init.len() ==> (#[trigger] init[i]).file_path@ != path)) by {
                    assert(init[i].file_path@ == path);
                }
                assert(songs[i].file_path@ == path);
            }
        }
    }
}

} // verus!
