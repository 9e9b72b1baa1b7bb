//! Songs of the library.
use vstd::prelude::*;

verus! {

/// A song of the library as it is stored.
#[derive(Debug, Clone, PartialEq)]
pub struct Song {
    pub id: i32,
    pub title: String,
    pub artist: String,
    pub release_year: i32,
    pub album: String,
    pub remix: String,
    pub search_blob: String,
    pub file_path: String,
    pub duration: i64,
    pub extension: String,
    pub file_size: i64,
    pub file_modified_millis: i64,
}

impl Song {
    /// A field-by-field copy of the song.
    pub fn duplicate(&self) -> (r: Song)
        ensures
            r == *self,
    {
        Song {
            id: self.id,
            title: self.title.clone(),
            artist: self.artist.clone(),
            release_year: self.release_year,
            album: self.album.clone(),
            remix: self.remix.clone(),
            search_blob: self.search_blob.clone(),
            file_path: self.file_path.clone(),
            duration: self.duration,
            extension: self.extension.clone(),
            file_size: self.file_size,
            file_modified_millis: self.file_modified_millis,
        }
    }
}

/// The most values one SQLite statement may bind.
pub const SQLITE_BIND_LIMIT: usize = 32766;

/// The values one song binds when it is inserted.
pub const SONG_INSERT_FIELDS_PER_ROW: usize = 11;

/// The most songs one insert statement carries.
pub const SONG_INSERT_BATCH_SIZE: usize = SQLITE_BIND_LIMIT / SONG_INSERT_FIELDS_PER_ROW;

/// The batches `count` songs are inserted in: consecutive ranges of positions
/// from the start, each of `SONG_INSERT_BATCH_SIZE` songs but the last, which
/// holds the rest.
pub fn song_insert_batches(count: usize) -> (r: Vec<(usize, usize)>)
    ensures
        r@.len() * SONG_INSERT_BATCH_SIZE >= count,
        r@.len() == 0 || (r@.len() - 1) * SONG_INSERT_BATCH_SIZE < count,
        forall|k: int|
            0 <= k < r@.len() ==> (#[trigger] r@[k]).0 == k * SONG_INSERT_BATCH_SIZE && r@[k].1 == if (
            k + 1) * SONG_INSERT_BATCH_SIZE < count {
                (k + 1) * SONG_INSERT_BATCH_SIZE
            } else {
                count as int
            },
{
    let size = SONG_INSERT_BATCH_SIZE;
    assert(size == 2978);
    let mut out: Vec<(usize, usize)> = Vec::new();
    let mut start: usize = 0;
    let mut done = count == 0;
    while !done
        invariant
            size == SONG_INSERT_BATCH_SIZE == 2978,
            start <= count,
            !done ==> start == out@.len() * size && start < count,
            done ==> out@.len() * size >= count,
            out@.len() == 0 || (out@.len() - 1) * size < count,
            forall|k: int|
                0 <= k < out@.len() ==> (#[trigger] out@[k]).0 == k * size && out@[k].1 == if (k + 1)
                    * size < count {
                    (k + 1) * size
                } else {
                    count as int
                },
        decreases count - start + (if done { 0int } else { 1int }),
    {
        if count - start > size {
            out.push((start, start + size));
            start = start + size;
        } else {
            out.push((start, count));
            done = true;
        }
    }
    out
}

} // verus!
