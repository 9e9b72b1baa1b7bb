//! Keeping the library in step with the music folder: which folder to watch,
//! how queued signals combine, and which files a rescan must read again, add
//! or drop.
use vstd::prelude::*;
use crate::setting::MusicFolderSyncSettings;
use crate::song::Song;
use crate::text::{chars_of, string_of, strings_equal, trim, trim_chars};

verus! {

/// A music file found in the folder, with what tells whether it changed.
#[derive(Debug, Clone, PartialEq, Eq)]
pub struct DiscoveredMusicFile {
    pub file_path: String,
    pub file_size: i64,
    pub file_modified_millis: i64,
}

/// A request sent to the watcher's loop.
#[derive(Debug, Clone, Copy, PartialEq, Eq)]
pub enum WatcherSignal {
    RefreshConfig,
    SyncLibrary,
}

/// Whether a stored song and a freshly read one agree on everything but
/// their ids.
pub open spec fn same_metadata(existing: Song, scanned: Song) -> bool {
    &&& existing.title@ == scanned.title@
    &&& existing.artist@ == scanned.artist@
    &&& existing.release_year == scanned.release_year
    &&& existing.album@ == scanned.album@
    &&& existing.remix@ == scanned.remix@
    &&& existing.search_blob@ == scanned.search_blob@
    &&& existing.file_path@ == scanned.file_path@
    &&& existing.duration == scanned.duration
    &&& existing.extension@ == scanned.extension@
    &&& existing.file_size == scanned.file_size
    &&& existing.file_modified_millis == scanned.file_modified_millis
}

/// Whether a stored song and a freshly read one agree on everything but
/// their ids.
pub fn songs_match_metadata(existing: &Song, scanned: &Song) -> (r: bool)
    ensures
        r == same_metadata(*existing, *scanned),
{
    strings_equal(&existing.title, &scanned.title) && strings_equal(
        &existing.artist,
        &scanned.artist,
    ) && existing.release_year == scanned.release_year && strings_equal(
        &existing.album,
        &scanned.album,
    ) && strings_equal(&existing.remix, &scanned.remix) && strings_equal(
        &existing.search_blob,
        &scanned.search_blob,
    ) && strings_equal(&existing.file_path, &scanned.file_path) && existing.duration
        == scanned.duration && strings_equal(&existing.extension, &scanned.extension)
        && existing.file_size == scanned.file_size && existing.file_modified_millis
        == scanned.file_modified_millis
}

/// Whether a file looks unchanged since its song was stored: same size and
/// same modification time.
pub fn song_matches_discovered_file(existing: &Song, discovered: &DiscoveredMusicFile) -> (r: bool)
    ensures
        r == (existing.file_size == discovered.file_size && existing.file_modified_millis
            == discovered.file_modified_millis),
{
    existing.file_size == discovered.file_size && existing.file_modified_millis
        == discovered.file_modified_millis
}

/// The folder to keep in step with, trimmed: none before the folder was
/// first processed or when no folder is set.
pub open spec fn folder_to_sync(settings: MusicFolderSyncSettings) -> Option<Seq<char>> {
    if !settings.has_processed_music_folder || trim(settings.music_folder_path@).len() == 0 {
        None
    } else {
        Some(trim(settings.music_folder_path@))
    }
}

/// The folder to keep in step with, if any.
pub fn music_folder_to_sync(settings: &MusicFolderSyncSettings) -> (r: Option<String>)
    ensures
        match folder_to_sync(*settings) {
            Some(p) => r matches Some(s) && s@ == p,
            None => r is None,
        },
{
    if !settings.has_processed_music_folder {
        return None;
    }
    let t = trim_chars(&chars_of(settings.music_folder_path.as_str()));
    if t.len() == 0 {
        None
    } else {
        Some(string_of(&t))
    }
}

/// What a batch of queued signals asks for: a fresh look at the settings when
/// any asked for one, a library sync when any asked for one.
pub open spec fn signals_request(signals: Seq<WatcherSignal>) -> (bool, bool) {
    (signals.contains(WatcherSignal::RefreshConfig), signals.contains(WatcherSignal::SyncLibrary))
}

/// Folds a batch of queued signals into whether to refresh the watched
/// folder and whether to schedule a sync.
pub fn combine_signals(signals: &[WatcherSignal]) -> (r: (bool, bool))
    ensures
        r == signals_request(signals@),
{
    let mut refresh = false;
    let mut sync = false;
    let mut i: usize = 0;
    while i < signals.len()
        invariant
            i <= signals.len(),
            refresh == signals@.take(i as int).contains(WatcherSignal::RefreshConfig),
            sync == signals@.take(i as int).contains(WatcherSignal::SyncLibrary),
        decreases signals.len() - i,
    {
        let ghost before = signals@.take(i as int);
        proof {
            assert(signals@.take(i + 1) =~= before.push(signals@[i as int]));
        }
        match signals[i] {
            WatcherSignal::RefreshConfig => {
                refresh = true;
            },
            WatcherSignal::SyncLibrary => {
                sync = true;
            },
        }
        proof {
            let after = signals@.take(i + 1);
            assert(after[i as int] == signals@[i as int]);
            if before.contains(WatcherSignal::RefreshConfig) {
                let j = choose|j: int| 0 <= j < before.len() && before[j]
                    == WatcherSignal::RefreshConfig;
                assert(after[j] == WatcherSignal::RefreshConfig);
            }
            if before.contains(WatcherSignal::SyncLibrary) {
                let j = choose|j: int| 0 <= j < before.len() && before[j]
                    == WatcherSignal::SyncLibrary;
                assert(after[j] == WatcherSignal::SyncLibrary);
            }
            if after.contains(WatcherSignal::RefreshConfig) && signals@[i as int]
                != WatcherSignal::RefreshConfig {
                let j = choose|j: int| 0 <= j < after.len() && after[j]
                    == WatcherSignal::RefreshConfig;
                assert(before[j] == WatcherSignal::RefreshConfig);
            }
            if after.contains(WatcherSignal::SyncLibrary) && signals@[i as int]
                != WatcherSignal::SyncLibrary {
                let j = choose|j: int| 0 <= j < after.len() && after[j]
                    == WatcherSignal::SyncLibrary;
                assert(before[j] == WatcherSignal::SyncLibrary);
            }
        }
        i = i + 1;
    }
    assert(signals@.take(signals.len() as int) =~= signals@);
    (refresh, sync)
}

/// Whether the song at `i` is the last one stored at its path, the one a map
/// from path to song filled in order keeps.
pub open spec fn last_at_its_path(existing: Seq<Song>, i: int) -> bool {
    forall|j: int| i < j < existing.len() ==> (#[trigger] existing[j]).file_path@ != existing[i].file_path@
}

/// Before a rescan every song the map keeps is still unclaimed.
pub open spec fn initial_unclaimed(existing: Seq<Song>) -> Seq<bool> {
    Seq::new(existing.len(), |i: int| last_at_its_path(existing, i))
}

/// The unclaimed song stored at `path`, if any.
pub open spec fn unclaimed_at(existing: Seq<Song>, unclaimed: Seq<bool>, path: Seq<char>) -> Option<
    int,
> {
    if exists|i: int|
        0 <= i < existing.len() && unclaimed[i] && (#[trigger] existing[i]).file_path@ == path {
        Some(
            choose|i: int|
                0 <= i < existing.len() && unclaimed[i] && (#[trigger] existing[i]).file_path@
                    == path,
        )
    } else {
        None
    }
}

/// Which songs stay unclaimed after the files are matched in order, and the
/// stored song each file was matched to: every file claims the unclaimed song
/// at its path, as a removal from a map by path does.
pub open spec fn claim_files(existing: Seq<Song>, paths: Seq<Seq<char>>) -> (
    Seq<bool>,
    Seq<Option<int>>,
)
    decreases paths.len(),
{
    if paths.len() == 0 {
        (initial_unclaimed(existing), Seq::empty())
    } else {
        let (unclaimed, found) = claim_files(existing, paths.drop_last());
        match unclaimed_at(existing, unclaimed, paths.last()) {
            Some(i) => (unclaimed.update(i, false), found.push(Some(i))),
            None => (unclaimed, found.push(None)),
        }
    }
}

/// The paths of the files.
pub open spec fn file_paths(files: Seq<DiscoveredMusicFile>) -> Seq<Seq<char>> {
    files.map_values(|f: DiscoveredMusicFile| f.file_path@)
}

/// A file a rescan must read again: new to the library, or changed since its
/// song was stored.
#[derive(Debug, Clone, Copy, PartialEq, Eq)]
pub struct FileRescan {
    /// The position of the file among those found.
    pub file_index: usize,
    /// The position of its stored song, when it has one.
    pub existing_index: Option<usize>,
}

/// What a rescan of the folder must do: read again the new and changed
/// files, and drop the songs whose file is gone.
#[derive(Debug, Clone, PartialEq, Eq)]
pub struct LibrarySyncPlan {
    pub rescans: Vec<FileRescan>,
    pub removed_song_ids: Vec<i32>,
}

/// Whether the file at `k` needs reading: no stored song claimed it, or its
/// song's size or modification time differ.
pub open spec fn needs_rescan(
    existing: Seq<Song>,
    files: Seq<DiscoveredMusicFile>,
    found: Seq<Option<int>>,
    k: int,
) -> bool {
    match found[k] {
        Some(i) => !(existing[i].file_size == files[k].file_size
            && existing[i].file_modified_millis == files[k].file_modified_millis),
        None => true,
    }
}

/// The files to read again, in the order found.
pub open spec fn rescans_of(
    existing: Seq<Song>,
    files: Seq<DiscoveredMusicFile>,
    found: Seq<Option<int>>,
    n: int,
) -> Seq<(int, Option<int>)>
    decreases n,
{
    if n <= 0 {
        Seq::empty()
    } else {
        let rest = rescans_of(existing, files, found, n - 1);
        if needs_rescan(existing, files, found, n - 1) {
            rest.push((n - 1, found[n - 1]))
        } else {
            rest
        }
    }
}

/// The ids of the songs left unclaimed, in stored order.
pub open spec fn unclaimed_ids(existing: Seq<Song>, unclaimed: Seq<bool>, n: int) -> Seq<i32>
    decreases n,
{
    if n <= 0 {
        Seq::empty()
    } else {
        let rest = unclaimed_ids(existing, unclaimed, n - 1);
        if unclaimed[n - 1] {
            rest.push(existing[n - 1].id)
        } else {
            rest
        }
    }
}

/// The view of a rescan as positions.
pub open spec fn rescan_view(r: FileRescan) -> (int, Option<int>) {
    (
        r.file_index as int,
        match r.existing_index {
            Some(i) => Some(i as int),
            None => None,
        },
    )
}

proof fn lemma_unclaimed_unique(existing: Seq<Song>, unclaimed: Seq<bool>, a: int, b: int)
    requires
        unclaimed.len() == existing.len(),
        forall|i: int| 0 <= i < existing.len() && #[trigger] unclaimed[i] ==> last_at_its_path(existing, i),
        0 <= a < existing.len(),
        0 <= b < existing.len(),
        unclaimed[a],
        unclaimed[b],
        existing[a].file_path@ == existing[b].file_path@,
    ensures
        a == b,
{
    if a < b {
        assert(existing[b].file_path@ != existing[a].file_path@);
    } else if b < a {
        assert(existing[a].file_path@ != existing[b].file_path@);
    }
}

/// Plans a rescan: each found file claims the stored song at its path that
/// no earlier file claimed; a claimed song whose size and modification time
/// match is left alone, every other file is read again, and the songs no file
/// claimed are dropped.
pub fn plan_library_sync(existing: &[Song], files: &[DiscoveredMusicFile]) -> (r: LibrarySyncPlan)
    ensures
        ({
            let (unclaimed, found) = claim_files(existing@, file_paths(files@));
            &&& r.rescans@.map_values(|x: FileRescan| rescan_view(x)) == rescans_of(
                existing@,
                files@,
                found,
                files@.len() as int,
            )
            &&& r.removed_song_ids@ == unclaimed_ids(existing@, unclaimed, existing@.len() as int)
        }),
{
    let n = existing.len();
    let mut unclaimed: Vec<bool> = Vec::new();
    let mut i: usize = 0;
    while i < n
        invariant
            i <= n == existing.len(),
            unclaimed@.len() == i,
            forall|a: int| 0 <= a < i ==> unclaimed@[a] == last_at_its_path(existing@, a),
        decreases n - i,
    {
        let mut last = true;
        let mut j: usize = i + 1;
        while j < n
            invariant
                i < j <= n == existing.len(),
                last == forall|b: int|
                    i < b < j ==> (#[trigger] existing@[b]).file_path@ != existing@[i as int].file_path@,
            decreases n - j,
        {
            if strings_equal(&existing[j].file_path, &existing[i].file_path) {
                last = false;
            }
            j = j + 1;
        }
        unclaimed.push(last);
        i = i + 1;
    }
    assert(unclaimed@ =~= initial_unclaimed(existing@));
    let ghost paths = file_paths(files@);
    let mut found: Vec<Option<usize>> = Vec::new();
    let mut rescans: Vec<FileRescan> = Vec::new();
    let mut k: usize = 0;
    while k < files.len()
        invariant
            k <= files.len(),
            n == existing.len(),
            paths == file_paths(files@),
            unclaimed@.len() == n,
            found@.len() == k,
            ({
                let (u, f) = claim_files(existing@, paths.take(k as int));
                &&& unclaimed@ == u
                &&& forall|m: int|
                    0 <= m < k ==> f[m] == match #[trigger] found@[m] {
                        Some(x) => Some(x as int),
                        None => None,
                    }
                &&& f.len() == k
                &&& rescans@.map_values(|x: FileRescan| rescan_view(x)) == rescans_of(
                    existing@,
                    files@,
                    f,
                    k as int,
                )
            }),
            forall|a: int| 0 <= a < n && #[trigger] unclaimed@[a] ==> last_at_its_path(existing@, a),
            forall|m: int| 0 <= m < k ==> match #[trigger] found@[m] {
                Some(x) => x < n,
                None => true,
            },
        decreases files.len() - k,
    {
        let ghost (u0, f0) = claim_files(existing@, paths.take(k as int));
        proof {
            assert(paths.take(k + 1).drop_last() =~= paths.take(k as int));
            assert(paths.take(k + 1).last() == files@[k as int].file_path@);
        }
        let mut hit: Option<usize> = None;
        let mut a: usize = 0;
        while a < n
            invariant
                a <= n == existing.len(),
                k < files.len(),
                unclaimed@.len() == n,
                match hit {
                    Some(x) => x < a && unclaimed@[x as int] && existing@[x as int].file_path@
                        == files@[k as int].file_path@,
                    None => forall|b: int|
                        0 <= b < a ==> !(unclaimed@[b] && (#[trigger] existing@[b]).file_path@
                            == files@[k as int].file_path@),
                },
            decreases n - a,
        {
            if hit.is_none() && unclaimed[a] && strings_equal(
                &existing[a].file_path,
                &files[k].file_path,
            ) {
                hit = Some(a);
            }
            a = a + 1;
        }
        let ghost before_rescans = rescans@;
        proof {
            let p = files@[k as int].file_path@;
            match hit {
                Some(x) => {
                    assert(exists|i: int|
                        0 <= i < existing@.len() && unclaimed@[i] && (#[trigger] existing@[i]).file_path@
                            == p) by {
                        assert(existing@[x as int].file_path@ == p);
                    }
                    let c = choose|i: int|
                        0 <= i < existing@.len() && unclaimed@[i] && (#[trigger] existing@[i]).file_path@
                            == p;
                    lemma_unclaimed_unique(existing@, unclaimed@, c, x as int);
                    assert(unclaimed_at(existing@, u0, p) == Some(x as int));
                },
                None => {
                    assert(unclaimed_at(existing@, u0, p) is None);
                },
            }
        }
        match hit {
            Some(x) => {
                unclaimed.set(x, false);
                if !song_matches_discovered_file(&existing[x], &files[k]) {
                    rescans.push(FileRescan { file_index: k, existing_index: Some(x) });
                }
            },
            None => {
                rescans.push(FileRescan { file_index: k, existing_index: None });
            },
        }
        found.push(hit);
        proof {
            let (u1, f1) = claim_files(existing@, paths.take(k + 1));
            assert(f1 =~= f0.push(
                match hit {
                    Some(x) => Some(x as int),
                    None => None,
                },
            ));
            assert(unclaimed@ =~= u1);
            assert forall|m: int| 0 <= m < k + 1 implies f1[m] == match #[trigger] found@[m] {
                Some(x) => Some(x as int),
                None => None,
            } by {
                if m < k {
                    assert(f1[m] == f0[m]);
                }
            }
            assert(f1[k as int] == match hit {
                Some(x) => Some(x as int),
                None => None,
            });
            assert(rescans_of(existing@, files@, f1, k as int) == rescans_of(
                existing@,
                files@,
                f0,
                k as int,
            )) by {
                lemma_rescans_prefix(existing@, files@, f0, f1, k as int);
            }
            assert(rescans@.map_values(|x: FileRescan| rescan_view(x)) =~= rescans_of(
                existing@,
                files@,
                f1,
                (k + 1) as int,
            ));
        }
        k = k + 1;
    }
    assert(paths.take(files.len() as int) =~= paths);
    let mut removed: Vec<i32> = Vec::new();
    let mut b: usize = 0;
    while b < n
        invariant
            b <= n == existing.len(),
            unclaimed@.len() == n,
            removed@ == unclaimed_ids(existing@, unclaimed@, b as int),
        decreases n - b,
    {
        if unclaimed[b] {
            removed.push(existing[b].id);
        }
        b = b + 1;
    }
    LibrarySyncPlan { rescans, removed_song_ids: removed }
}

proof fn lemma_rescans_prefix(
    existing: Seq<Song>,
    files: Seq<DiscoveredMusicFile>,
    f0: Seq<Option<int>>,
    f1: Seq<Option<int>>,
    n: int,
)
    requires
        0 <= n <= f0.len(),
        n <= f1.len(),
        forall|m: int| 0 <= m < n ==> f0[m] == f1[m],
    ensures
        rescans_of(existing, files, f1, n) == rescans_of(existing, files, f0, n),
    decreases n,
{
    if n > 0 {
        lemma_rescans_prefix(existing, files, f0, f1, n - 1);
    }
}

/// The song to store for a file read again: none when it matches the stored
/// song, else the new reading under the stored song's id.
pub fn rescanned_song_update(existing: &Song, scanned: Song) -> (r: Option<Song>)
    ensures
        same_metadata(*existing, scanned) ==> r is None,
        !same_metadata(*existing, scanned) ==> r == Some(Song { id: existing.id, ..scanned }),
{
    if songs_match_metadata(existing, &scanned) {
        None
    } else {
        let mut updated = scanned;
        updated.id = existing.id;
        Some(updated)
    }
}

proof fn lemma_rescans_of_contents(
    existing: Seq<Song>,
    files: Seq<DiscoveredMusicFile>,
    found: Seq<Option<int>>,
    n: int,
    p: (int, Option<int>),
)
    requires
        0 <= n <= found.len(),
    ensures
        rescans_of(existing, files, found, n).contains(p) <==> (0 <= p.0 < n && p.1 == found[p.0]
            && needs_rescan(existing, files, found, p.0)),
    decreases n,
{
    if n > 0 {
        lemma_rescans_of_contents(existing, files, found, n - 1, p);
        let rest = rescans_of(existing, files, found, n - 1);
        if needs_rescan(existing, files, found, n - 1) {
            let q = (n - 1, found[n - 1]);
            if rest.contains(p) {
                let m = choose|m: int| 0 <= m < rest.len() && rest[m] == p;
                assert(rest.push(q)[m] == p);
            }
            if p == q {
                assert(rest.push(q)[rest.len() as int] == p);
            }
            if rest.push(q).contains(p) && p != q {
                let m = choose|m: int| 0 <= m < rest.push(q).len() && rest.push(q)[m] == p;
                assert(rest[m] == p);
            }
        }
    }
}

/// A rescan reads a found file again exactly when it is new or changed: a
/// file claimed by a stored song is read again, paired with that song, exactly
/// when the song's size or modification time differs from the file's; a file
/// no stored song claims is read again as new; and nothing else is read.
pub proof fn lemma_rescan_exactly_new_and_changed_files(
    existing: Seq<Song>,
    files: Seq<DiscoveredMusicFile>,
)
    ensures
        ({
            let (unclaimed, found) = claim_files(existing, file_paths(files));
            let rescans = rescans_of(existing, files, found, files.len() as int);
            &&& forall|k: int, i: int|
                0 <= k < files.len() && found[k] == Some(i) ==> (#[trigger] rescans.contains((k, Some(i)))
                    <==> !(existing[i].file_size == files[k].file_size
                    && existing[i].file_modified_millis == files[k].file_modified_millis))
            &&& forall|k: int|
                0 <= k < files.len() && found[k] is None ==> #[trigger] rescans.contains((k, None::<int>))
            &&& forall|j: int|
                0 <= j < rescans.len() ==> 0 <= (#[trigger] rescans[j]).0 < files.len()
                    && rescans[j].1 == found[rescans[j].0]
        }),
{
    let paths = file_paths(files);
    lemma_claims_are_one_to_one(existing, paths);
    let (unclaimed, found) = claim_files(existing, paths);
    let n = files.len() as int;
    let rescans = rescans_of(existing, files, found, n);
    assert forall|k: int, i: int|
        0 <= k < files.len() && found[k] == Some(i) implies (#[trigger] rescans.contains((k, Some(i)))
            <==> !(existing[i].file_size == files[k].file_size
            && existing[i].file_modified_millis == files[k].file_modified_millis)) by {
        lemma_rescans_of_contents(existing, files, found, n, (k, Some(i)));
    }
    assert forall|k: int| 0 <= k < files.len() && found[k] is None implies #[trigger] rescans.contains(
        (k, None::<int>),
    ) by {
        lemma_rescans_of_contents(existing, files, found, n, (k, None::<int>));
    }
    assert forall|j: int| 0 <= j < rescans.len() implies 0 <= (#[trigger] rescans[j]).0 < files.len()
        && rescans[j].1 == found[rescans[j].0] by {
        assert(rescans.contains(rescans[j]));
        lemma_rescans_of_contents(existing, files, found, n, rescans[j]);
    }
}

proof fn lemma_unclaimed_ids_contents(existing: Seq<Song>, unclaimed: Seq<bool>, n: int, id: i32)
    requires
        0 <= n <= existing.len(),
        n <= unclaimed.len(),
    ensures
        unclaimed_ids(existing, unclaimed, n).contains(id) <==> exists|i: int|
            0 <= i < n && unclaimed[i] && #[trigger] existing[i].id == id,
    decreases n,
{
    if n > 0 {
        lemma_unclaimed_ids_contents(existing, unclaimed, n - 1, id);
        let rest = unclaimed_ids(existing, unclaimed, n - 1);
        if unclaimed[n - 1] {
            let out = rest.push(existing[n - 1].id);
            if rest.contains(id) {
                let m = choose|m: int| 0 <= m < rest.len() && rest[m] == id;
                assert(out[m] == id);
            }
            if existing[n - 1].id == id {
                assert(out[rest.len() as int] == id);
            }
            if out.contains(id) && existing[n - 1].id != id {
                let m = choose|m: int| 0 <= m < out.len() && out[m] == id;
                assert(rest[m] == id);
            }
        }
    }
}

/// A rescan drops exactly the stored songs no found file matches: the id of
/// every song a map by path keeps and no file claimed is dropped, and every
/// dropped id is that of such a song.
pub proof fn lemma_drops_exactly_unmatched_songs(
    existing: Seq<Song>,
    files: Seq<DiscoveredMusicFile>,
)
    ensures
        ({
            let (unclaimed, found) = claim_files(existing, file_paths(files));
            let removed = unclaimed_ids(existing, unclaimed, existing.len() as int);
            &&& forall|i: int|
                0 <= i < existing.len() && last_at_its_path(existing, i) && (forall|k: int|
                    0 <= k < files.len() ==> #[trigger] found[k] != Some(i)) ==> removed.contains(
                    #[trigger] existing[i].id,
                )
            &&& forall|id: i32| #[trigger] removed.contains(id) ==> exists|i: int|
                0 <= i < existing.len() && #[trigger] existing[i].id == id && last_at_its_path(existing, i)
                    && forall|k: int| 0 <= k < files.len() ==> found[k] != Some(i)
        }),
{
    let paths = file_paths(files);
    lemma_claims_are_one_to_one(existing, paths);
    let (unclaimed, found) = claim_files(existing, paths);
    let n = existing.len() as int;
    let removed = unclaimed_ids(existing, unclaimed, n);
    assert forall|i: int|
        0 <= i < existing.len() && last_at_its_path(existing, i) && (forall|k: int|
            0 <= k < files.len() ==> #[trigger] found[k] != Some(i)) implies removed.contains(
            #[trigger] existing[i].id,
        ) by {
        if !unclaimed[i] {
            let k = choose|k: int| 0 <= k < found.len() && found[k] == Some(i);
            assert(found[k] != Some(i));
        }
        lemma_unclaimed_ids_contents(existing, unclaimed, n, existing[i].id);
    }
    assert forall|id: i32| #[trigger] removed.contains(id) implies exists|i: int|
        0 <= i < existing.len() && #[trigger] existing[i].id == id && last_at_its_path(existing, i)
            && forall|k: int| 0 <= k < files.len() ==> found[k] != Some(i) by {
        lemma_unclaimed_ids_contents(existing, unclaimed, n, id);
        let i = choose|i: int| 0 <= i < n && unclaimed[i] && #[trigger] existing[i].id == id;
        assert forall|k: int| 0 <= k < files.len() implies found[k] != Some(i) by {
            if found[k] == Some(i) {
                assert(found[k] matches Some(j) ==> !unclaimed[j]);
            }
        }
    }
}

/// A rescan matches each file to a song stored at its own path, never
/// matches one song to two files, and leaves unclaimed exactly the songs a
/// map by path keeps and no file matched; those are the songs dropped.
pub proof fn lemma_claims_are_one_to_one(existing: Seq<Song>, paths: Seq<Seq<char>>)
    ensures
        ({
            let (unclaimed, found) = claim_files(existing, paths);
            &&& unclaimed.len() == existing.len()
            &&& found.len() == paths.len()
            &&& forall|i: int| 0 <= i < existing.len() && #[trigger] unclaimed[i] ==> last_at_its_path(existing, i)
            &&& forall|k: int|
                0 <= k < found.len() ==> (#[trigger] found[k] matches Some(i) ==> 0 <= i
                    < existing.len() && existing[i].file_path@ == paths[k] && !unclaimed[i])
            &&& forall|k1: int, k2: int|
                0 <= k1 < k2 < found.len() && (#[trigger] found[k1]) is Some && (#[trigger] found[k2]) is Some
                    ==> found[k1] != found[k2]
            &&& forall|i: int|
                0 <= i < existing.len() && last_at_its_path(existing, i) && !(#[trigger] unclaimed[i])
                    ==> exists|k: int| 0 <= k < found.len() && found[k] == Some(i)
        }),
    decreases paths.len(),
{
    if paths.len() == 0 {
    } else {
        let init = paths.drop_last();
        lemma_claims_are_one_to_one(existing, init);
        let (u0, f0) = claim_files(existing, init);
        let (u1, f1) = claim_files(existing, paths);
        let p = paths.last();
        match unclaimed_at(existing, u0, p) {
            Some(x) => {
                assert(0 <= x < existing.len() && u0[x] && existing[x].file_path@ == p);
                assert(f1 == f0.push(Some(x)));
                assert(u1 == u0.update(x, false));
                assert forall|k: int|
                    0 <= k < f1.len() implies (#[trigger] f1[k] matches Some(i) ==> 0 <= i
                        < existing.len() && existing[i].file_path@ == paths[k] && !u1[i]) by {
                    if k < f0.len() {
                        assert(f1[k] == f0[k]);
                        assert(paths[k] == init[k]);
                    }
                }
                assert forall|k1: int, k2: int|
                    0 <= k1 < k2 < f1.len() && (#[trigger] f1[k1]) is Some && (#[trigger] f1[k2]) is Some
                        implies f1[k1] != f1[k2] by {
                    if k2 < f0.len() {
                        assert(f1[k1] == f0[k1] && f1[k2] == f0[k2]);
                    } else {
                        assert(f1[k1] == f0[k1]);
                    }
                }
                assert forall|i: int|
                    0 <= i < existing.len() && last_at_its_path(existing, i) && !(#[trigger] u1[i])
                        implies exists|k: int| 0 <= k < f1.len() && f1[k] == Some(i) by {
                    if i == x {
                        assert(f1[f0.len() as int] == Some(i));
                    } else {
                        assert(!u0[i]);
                        let k = choose|k: int| 0 <= k < f0.len() && f0[k] == Some(i);
                        assert(f1[k] == Some(i));
                    }
                }
            },
            None => {
                assert(f1 == f0.push(None));
                assert(u1 == u0);
                assert forall|k: int|
                    0 <= k < f1.len() implies (#[trigger] f1[k] matches Some(i) ==> 0 <= i
                        < existing.len() && existing[i].file_path@ == paths[k] && !u1[i]) by {
                    if k < f0.len() {
                        assert(f1[k] == f0[k]);
                        assert(paths[k] == init[k]);
                    }
                }
                assert forall|k1: int, k2: int|
                    0 <= k1 < k2 < f1.len() && (#[trigger] f1[k1]) is Some && (#[trigger] f1[k2]) is Some
                        implies f1[k1] != f1[k2] by {
                    assert(f1[k1] == f0[k1] && f1[k2] == f0[k2]);
                }
                assert forall|i: int|
                    0 <= i < existing.len() && last_at_its_path(existing, i) && !(#[trigger] u1[i])
                        implies exists|k: int| 0 <= k < f1.len() && f1[k] == Some(i) by {
                    let k = choose|k: int| 0 <= k < f0.len() && f0[k] == Some(i);
                    assert(f1[k] == Some(i));
                }
            },
        }
    }
}

/// What the watcher's loop does for a batch of signals.
#[derive(Debug, Clone, Copy, PartialEq, Eq)]
pub struct SignalResponse {
    /// Look again at which folder to watch.
    pub refresh_watcher: bool,
    /// Restart the quiet period after which the library is synced.
    pub restart_debounce: bool,
}

/// The state the watcher's loop keeps between events: whether a sync waits
/// for the quiet period to end.
pub struct WatcherLoop {
    debounce_armed: bool,
}

impl WatcherLoop {
    /// Whether a sync is waiting.
    pub closed spec fn sync_waiting(&self) -> bool {
        self.debounce_armed
    }

    /// A loop with no sync waiting.
    pub fn new() -> (r: WatcherLoop)
        ensures
            !r.sync_waiting(),
    {
        WatcherLoop { debounce_armed: false }
    }

    /// Takes a batch of queued signals: a refresh when any asked for one, and
    /// a sync scheduled anew when any asked for one.
    pub fn on_signals(&mut self, signals: &[WatcherSignal]) -> (r: SignalResponse)
        ensures
            r.refresh_watcher == signals_request(signals@).0,
            r.restart_debounce == signals_request(signals@).1,
            final(self).sync_waiting() == (old(self).sync_waiting() || signals_request(signals@).1),
    {
        let (refresh, sync) = combine_signals(signals);
        if sync {
            self.debounce_armed = true;
        }
        SignalResponse { refresh_watcher: refresh, restart_debounce: sync }
    }

    /// The quiet period ended: whether to sync now, which is when a sync was
    /// waiting; afterwards none waits.
    pub fn on_quiet_period_end(&mut self) -> (r: bool)
        ensures
            r == old(self).sync_waiting(),
            !final(self).sync_waiting(),
    {
        let armed = self.debounce_armed;
        self.debounce_armed = false;
        armed
    }
}

/// Whether a finished sync is announced: when it changed the library and the
/// saved state was already loaded.
pub fn should_announce_library_change(library_changed: bool, has_loaded_saved_state: bool) -> (r:
    bool)
    ensures
        r == (library_changed && has_loaded_saved_state),
{
    library_changed && has_loaded_saved_state
}

/// What `Path::starts_with` says of two paths: whether `base` is a leading
/// run of whole components of `path`.
pub uninterp spec fn path_has_prefix(path: Seq<char>, base: Seq<char>) -> bool;

/// What `Path::parent` gives for a path, as text.
pub uninterp spec fn path_parent(path: Seq<char>) -> Option<Seq<char>>;

/// Whether `base` is a leading run of whole components of `path`, by
/// `Path::starts_with`.
#[verifier::external_body]
fn starts_with_path(path: &str, base: &str) -> (r: bool)
    ensures
        r == path_has_prefix(path@, base@),
{
    std::path::Path::new(path).starts_with(base)
}

/// The parent of a path, by `Path::parent`.
#[verifier::external_body]
fn parent_path(path: &str) -> (r: Option<String>)
    ensures
        match r {
            Some(p) => path_parent(path@) == Some(p@),
            None => path_parent(path@) is None,
        },
{
    std::path::Path::new(path).parent().and_then(|p| p.to_str()).map(|p| p.to_string())
}

/// Whether a changed path lies in the watched folder: it or its parent is
/// under it.
pub open spec fn path_in_folder(path: Seq<char>, folder: Seq<char>) -> bool {
    path_has_prefix(path, folder) || match path_parent(path) {
        Some(parent) => path_has_prefix(parent, folder),
        None => false,
    }
}

/// Whether a file system event calls for a library sync: it is not a mere
/// access, and one of its paths lies in the watched folder.
pub open spec fn event_calls_for_sync(is_access: bool, paths: Seq<Seq<char>>, folder: Seq<char>) -> bool {
    !is_access && exists|k: int| 0 <= k < paths.len() && path_in_folder(#[trigger] paths[k], folder)
}

/// Whether a file system event calls for a library sync.
pub fn should_sync_for_event(is_access: bool, paths: &[String], watched_path: &str) -> (r: bool)
    ensures
        r == event_calls_for_sync(is_access, crate::text::string_views(paths@), watched_path@),
{
    if is_access {
        return false;
    }
    let ghost views = crate::text::string_views(paths@);
    let mut k: usize = 0;
    while k < paths.len()
        invariant
            k <= paths.len(),
            !is_access,
            views == crate::text::string_views(paths@),
            forall|j: int| 0 <= j < k ==> !path_in_folder(#[trigger] views[j], watched_path@),
        decreases paths.len() - k,
    {
        let path = paths[k].as_str();
        let inside = if starts_with_path(path, watched_path) {
            true
        } else {
            match parent_path(path) {
                Some(parent) => starts_with_path(parent.as_str(), watched_path),
                None => false,
            }
        };
        assert(views[k as int] == paths@[k as int]@);
        if inside {
            assert(path_in_folder(views[k as int], watched_path@));
            assert(0 <= k < views.len() && path_in_folder(views[k as int], watched_path@));
            return true;
        }
        k = k + 1;
    }
    false
}

} // verus!
