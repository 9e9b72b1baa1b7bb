//! Songs listed together with the filters attached to them.
use vstd::prelude::*;
use std::collections::HashMap;
use crate::filter::Filter;
use crate::order::{sort_by_key, sorted_by_key};
use crate::song::Song;
use crate::text::{chars_of, seqs_of, string_views, split_whitespace_chars, string_of, words};

verus! {

broadcast use vstd::std_specs::hash::group_hash_axioms;

/// A song together with its filters.
#[derive(Debug, Clone, PartialEq)]
pub struct SongWithFilters {
    pub song: Song,
    pub filters: Vec<Filter>,
}

/// One row of a song joined with at most one of its filters.
#[derive(Debug, Clone, PartialEq)]
pub struct SongWithFilterRow {
    pub id: i32,
    pub title: String,
    pub artist: String,
    pub release_year: i32,
    pub album: String,
    pub remix: String,
    pub search_blob: String,
    pub file_path: String,
    pub duration: i64,
    pub extension: String,
    pub file_size: i64,
    pub file_modified_millis: i64,
    pub filter_id: Option<i32>,
    pub filter_name: Option<String>,
}

/// The song a row describes.
pub open spec fn row_song(r: SongWithFilterRow) -> Song {
    Song {
        id: r.id,
        title: r.title,
        artist: r.artist,
        release_year: r.release_year,
        album: r.album,
        remix: r.remix,
        search_blob: r.search_blob,
        file_path: r.file_path,
        duration: r.duration,
        extension: r.extension,
        file_size: r.file_size,
        file_modified_millis: r.file_modified_millis,
    }
}

/// The filter a row carries: one when both its id and its name are present.
pub open spec fn row_filters(r: SongWithFilterRow) -> Seq<Filter> {
    match (r.filter_id, r.filter_name) {
        (Some(id), Some(name)) => seq![Filter { id, name }],
        _ => Seq::empty(),
    }
}

/// Whether some group already holds the song with this id.
pub open spec fn has_group(groups: Seq<(Song, Seq<Filter>)>, id: i32) -> bool {
    exists|p: int| 0 <= p < groups.len() && (#[trigger] groups[p]).0.id == id
}

/// The position of the group that holds the song with this id.
pub open spec fn group_pos(groups: Seq<(Song, Seq<Filter>)>, id: i32) -> int {
    choose|p: int| 0 <= p < groups.len() && (#[trigger] groups[p]).0.id == id
}

/// Adds one row: its filter joins the group of its song, or the song opens a
/// new group at the end.
pub open spec fn group_step(groups: Seq<(Song, Seq<Filter>)>, r: SongWithFilterRow) -> Seq<
    (Song, Seq<Filter>),
> {
    if has_group(groups, r.id) {
        let p = group_pos(groups, r.id);
        groups.update(p, (groups[p].0, groups[p].1 + row_filters(r)))
    } else {
        groups.push((row_song(r), row_filters(r)))
    }
}

/// The songs of the rows in order of first appearance, each with the filters
/// of all its rows in row order.
pub open spec fn group_scan(rows: Seq<SongWithFilterRow>) -> Seq<(Song, Seq<Filter>)>
    decreases rows.len(),
{
    if rows.len() == 0 {
        Seq::empty()
    } else {
        group_step(group_scan(rows.drop_last()), rows.last())
    }
}

/// Whether no two groups hold the same song id.
pub open spec fn distinct_ids(groups: Seq<(Song, Seq<Filter>)>) -> bool {
    forall|p: int, q: int|
        0 <= p < q < groups.len() ==> (#[trigger] groups[p]).0.id != (#[trigger] groups[q]).0.id
}

/// The grouping that `group_song_rows` returns, before the filters are sorted.
pub open spec fn grouped_as(out: Seq<SongWithFilters>, groups: Seq<(Song, Seq<Filter>)>) -> bool {
    &&& out.len() == groups.len()
    &&& forall|k: int|
        0 <= k < out.len() ==> (#[trigger] out[k]).song == groups[k].0 && out[k].filters@
            == groups[k].1
}

/// Grouping lists each song of the rows exactly once: every row's song has a
/// group, no two groups share a song id, and there are no more groups than
/// rows.
pub proof fn lemma_grouping_lists_each_song_once(rows: Seq<SongWithFilterRow>)
    ensures
        distinct_ids(group_scan(rows)),
        group_scan(rows).len() <= rows.len(),
        forall|i: int| 0 <= i < rows.len() ==> has_group(group_scan(rows), #[trigger] rows[i].id),
    decreases rows.len(),
{
    if rows.len() > 0 {
        let init = rows.drop_last();
        lemma_grouping_lists_each_song_once(init);
        let groups = group_scan(init);
        let r = rows.last();
        let next = group_scan(rows);
        if has_group(groups, r.id) {
            let p = group_pos(groups, r.id);
            assert(next == groups.update(p, (groups[p].0, groups[p].1 + row_filters(r))));
            assert forall|a: int, b: int| 0 <= a < b < next.len() implies (#[trigger] next[a]).0.id
                != (#[trigger] next[b]).0.id by {
                assert(next[a].0 == groups[a].0);
                assert(next[b].0 == groups[b].0);
            }
            assert forall|i: int| 0 <= i < rows.len() implies has_group(next, #[trigger] rows[i].id) by {
                if i < rows.len() - 1 {
                    assert(rows[i] == init[i]);
                    let q = choose|q: int| 0 <= q < groups.len() && (#[trigger] groups[q]).0.id == init[i].id;
                    assert(next[q].0.id == rows[i].id);
                } else {
                    assert(next[p].0.id == r.id);
                }
            }
        } else {
            assert(next == groups.push((row_song(r), row_filters(r))));
            assert forall|a: int, b: int| 0 <= a < b < next.len() implies (#[trigger] next[a]).0.id
                != (#[trigger] next[b]).0.id by {
                if b == groups.len() {
                    assert(next[a].0 == groups[a].0);
                    assert(next[b].0.id == r.id);
                } else {
                    assert(next[a].0 == groups[a].0);
                    assert(next[b].0 == groups[b].0);
                }
            }
            assert forall|i: int| 0 <= i < rows.len() implies has_group(next, #[trigger] rows[i].id) by {
                if i < rows.len() - 1 {
                    assert(rows[i] == init[i]);
                    let q = choose|q: int| 0 <= q < groups.len() && (#[trigger] groups[q]).0.id == init[i].id;
                    assert(next[q].0.id == rows[i].id);
                } else {
                    assert(next[groups.len() as int].0.id == r.id);
                }
            }
        }
    }
}

/// Each grouped song carries, unchanged, the fields of the first row with
/// its id: its id, title, artist, year, album, remixer, search text, path,
/// duration, extension, size and modification time are those of that row.
pub proof fn lemma_grouped_songs_carry_row_fields(rows: Seq<SongWithFilterRow>)
    ensures
        forall|k: int|
            0 <= k < group_scan(rows).len() ==> exists|i: int|
                0 <= i < rows.len() && (forall|j: int| 0 <= j < i ==> rows[j].id != rows[i].id)
                    && (#[trigger] group_scan(rows)[k]).0.id == #[trigger] rows[i].id
                    && group_scan(rows)[k].0.title == rows[i].title
                    && group_scan(rows)[k].0.artist == rows[i].artist
                    && group_scan(rows)[k].0.release_year == rows[i].release_year
                    && group_scan(rows)[k].0.album == rows[i].album
                    && group_scan(rows)[k].0.remix == rows[i].remix
                    && group_scan(rows)[k].0.search_blob == rows[i].search_blob
                    && group_scan(rows)[k].0.file_path == rows[i].file_path
                    && group_scan(rows)[k].0.duration == rows[i].duration
                    && group_scan(rows)[k].0.extension == rows[i].extension
                    && group_scan(rows)[k].0.file_size == rows[i].file_size
                    && group_scan(rows)[k].0.file_modified_millis == rows[i].file_modified_millis,
    decreases rows.len(),
{
    if rows.len() > 0 {
        let init = rows.drop_last();
        lemma_grouped_songs_carry_row_fields(init);
        lemma_grouping_lists_each_song_once(init);
        let groups = group_scan(init);
        let r = rows.last();
        let next = group_scan(rows);
        assert forall|k: int| 0 <= k < groups.len() implies exists|i: int|
            0 <= i < rows.len() && (forall|j: int| 0 <= j < i ==> rows[j].id != rows[i].id)
                && (#[trigger] next[k]).0.id == #[trigger] rows[i].id
                    && next[k].0.title == rows[i].title
                    && next[k].0.artist == rows[i].artist
                    && next[k].0.release_year == rows[i].release_year
                    && next[k].0.album == rows[i].album
                    && next[k].0.remix == rows[i].remix
                    && next[k].0.search_blob == rows[i].search_blob
                    && next[k].0.file_path == rows[i].file_path
                    && next[k].0.duration == rows[i].duration
                    && next[k].0.extension == rows[i].extension
                    && next[k].0.file_size == rows[i].file_size
                    && next[k].0.file_modified_millis == rows[i].file_modified_millis by {
            assert(next[k].0 == groups[k].0);
            let i = choose|i: int|
                0 <= i < init.len() && (forall|j: int| 0 <= j < i ==> init[j].id != init[i].id)
                    && (#[trigger] groups[k]).0.id == #[trigger] init[i].id
                    && groups[k].0.title == init[i].title
                    && groups[k].0.artist == init[i].artist
                    && groups[k].0.release_year == init[i].release_year
                    && groups[k].0.album == init[i].album
                    && groups[k].0.remix == init[i].remix
                    && groups[k].0.search_blob == init[i].search_blob
                    && groups[k].0.file_path == init[i].file_path
                    && groups[k].0.duration == init[i].duration
                    && groups[k].0.extension == init[i].extension
                    && groups[k].0.file_size == init[i].file_size
                    && groups[k].0.file_modified_millis == init[i].file_modified_millis;
            assert(rows[i] == init[i]);
            assert forall|j: int| 0 <= j < i implies rows[j].id != rows[i].id by {
                assert(rows[j] == init[j]);
            }
        }
        if !has_group(groups, r.id) {
            let k = groups.len() as int;
            let i = rows.len() - 1;
            assert(next[k].0 == row_song(r));
            assert(rows[i] == r);
            assert forall|j: int| 0 <= j < i implies rows[j].id != rows[i].id by {
                assert(rows[j] == init[j]);
                if init[j].id == r.id {
                    assert(has_group(groups, init[j].id));
                }
            }
        }
    }
}

proof fn lemma_group_filters_from_rows(rows: Seq<SongWithFilterRow>, k: int, m: int)
    requires
        0 <= k < group_scan(rows).len(),
        0 <= m < group_scan(rows)[k].1.len(),
    ensures
        exists|i: int|
            0 <= i < rows.len() && #[trigger] rows[i].id == group_scan(rows)[k].0.id
                && rows[i].filter_id == Some(group_scan(rows)[k].1[m].id)
                && rows[i].filter_name == Some(group_scan(rows)[k].1[m].name),
    decreases rows.len(),
{
    let init = rows.drop_last();
    let groups = group_scan(init);
    let r = rows.last();
    let next = group_scan(rows);
    let rf = row_filters(r);
    let last = rows.len() - 1;
    assert(rows[last] == r);
    let (gk, gm, from_last) = if has_group(groups, r.id) {
        let p = group_pos(groups, r.id);
        assert(next == groups.update(p, (groups[p].0, groups[p].1 + rf)));
        if k != p || m < groups[p].1.len() {
            assert(next[k].1[m] == groups[k].1[m]);
            assert(next[k].0 == groups[k].0);
            (k, m, false)
        } else {
            assert(next[k].1[m] == rf[m - groups[p].1.len()]);
            (k, m - groups[p].1.len(), true)
        }
    } else {
        assert(next == groups.push((row_song(r), rf)));
        if k < groups.len() {
            assert(next[k] == groups[k]);
            (k, m, false)
        } else {
            assert(next[k].1 == rf);
            (k, m, true)
        }
    };
    if from_last {
        assert(rf.len() > 0);
        assert(r.filter_id is Some && r.filter_name is Some);
        assert(rf[0] == Filter { id: r.filter_id.unwrap(), name: r.filter_name.unwrap() });
        assert(rows[last].id == next[k].0.id && rows[last].filter_id == Some(next[k].1[m].id)
            && rows[last].filter_name == Some(next[k].1[m].name));
    } else {
        lemma_group_filters_from_rows(init, gk, gm);
        let i = choose|i: int|
            0 <= i < init.len() && #[trigger] init[i].id == groups[gk].0.id
                && init[i].filter_id == Some(groups[gk].1[gm].id)
                && init[i].filter_name == Some(groups[gk].1[gm].name);
        assert(rows[i] == init[i]);
    }
}

proof fn lemma_row_filters_reach_groups(rows: Seq<SongWithFilterRow>, i: int)
    requires
        0 <= i < rows.len(),
        rows[i].filter_id is Some,
        rows[i].filter_name is Some,
    ensures
        exists|k: int|
            0 <= k < group_scan(rows).len() && (#[trigger] group_scan(rows)[k]).0.id == rows[i].id
                && group_scan(rows)[k].1.contains(
                Filter { id: rows[i].filter_id.unwrap(), name: rows[i].filter_name.unwrap() },
            ),
    decreases rows.len(),
{
    let init = rows.drop_last();
    let groups = group_scan(init);
    let r = rows.last();
    let next = group_scan(rows);
    let rf = row_filters(r);
    let last = rows.len() - 1;
    let f = Filter { id: rows[i].filter_id.unwrap(), name: rows[i].filter_name.unwrap() };
    if has_group(groups, r.id) {
        let p = group_pos(groups, r.id);
        assert(0 <= p < groups.len() && groups[p].0.id == r.id);
        assert(next == groups.update(p, (groups[p].0, groups[p].1 + rf)));
        if i < last {
            assert(rows[i] == init[i]);
            lemma_row_filters_reach_groups(init, i);
            let k = choose|k: int|
                0 <= k < groups.len() && (#[trigger] groups[k]).0.id == init[i].id
                    && groups[k].1.contains(f);
            let m = choose|m: int| 0 <= m < groups[k].1.len() && groups[k].1[m] == f;
            assert(next[k].1[m] == f);
            assert(next[k].1.contains(f));
            assert(next[k].0.id == rows[i].id);
        } else {
            assert(rows[i] == r);
            assert(rf == seq![f]);
            assert(next[p].1[groups[p].1.len() as int] == f);
            assert(next[p].1.contains(f));
            assert(next[p].0.id == rows[i].id);
        }
    } else {
        assert(next == groups.push((row_song(r), rf)));
        let g = groups.len() as int;
        if i < last {
            assert(rows[i] == init[i]);
            lemma_row_filters_reach_groups(init, i);
            let k = choose|k: int|
                0 <= k < groups.len() && (#[trigger] groups[k]).0.id == init[i].id
                    && groups[k].1.contains(f);
            assert(next[k] == groups[k]);
        } else {
            assert(rows[i] == r);
            assert(rf == seq![f]);
            assert(next[g].1[0] == f);
            assert(next[g].1.contains(f));
            assert(next[g].0.id == rows[i].id);
        }
    }
}

/// Whether some row of the song with this id carries this filter in its
/// filter columns.
pub open spec fn row_carries_filter(rows: Seq<SongWithFilterRow>, song_id: i32, f: Filter) -> bool {
    exists|i: int|
        0 <= i < rows.len() && (#[trigger] rows[i]).id == song_id && rows[i].filter_id == Some(f.id)
            && rows[i].filter_name == Some(f.name)
}

/// The filters of a grouped song are the filters of its rows: each comes
/// from a row with that song's id whose filter columns hold its id and name,
/// and each row with both filter columns has its filter in its song's group.
pub proof fn lemma_grouped_filters_are_row_filters(rows: Seq<SongWithFilterRow>)
    ensures
        forall|k: int, m: int|
            0 <= k < group_scan(rows).len() && 0 <= m < group_scan(rows)[k].1.len()
                ==> row_carries_filter(rows, group_scan(rows)[k].0.id, #[trigger] group_scan(rows)[k].1[m]),
        forall|i: int|
            0 <= i < rows.len() && (#[trigger] rows[i]).filter_id is Some
                && rows[i].filter_name is Some ==> exists|k: int|
                0 <= k < group_scan(rows).len() && (#[trigger] group_scan(rows)[k]).0.id == rows[i].id
                    && group_scan(rows)[k].1.contains(
                    Filter { id: rows[i].filter_id.unwrap(), name: rows[i].filter_name.unwrap() },
                ),
{
    assert forall|k: int, m: int|
        0 <= k < group_scan(rows).len() && 0 <= m < group_scan(rows)[k].1.len()
            implies row_carries_filter(rows, group_scan(rows)[k].0.id, #[trigger] group_scan(rows)[k].1[m]) by {
        lemma_group_filters_from_rows(rows, k, m);
    }
    assert forall|i: int|
        0 <= i < rows.len() && (#[trigger] rows[i]).filter_id is Some
            && rows[i].filter_name is Some implies exists|k: int|
            0 <= k < group_scan(rows).len() && (#[trigger] group_scan(rows)[k]).0.id == rows[i].id
                && group_scan(rows)[k].1.contains(
                Filter { id: rows[i].filter_id.unwrap(), name: rows[i].filter_name.unwrap() },
            ) by {
        lemma_row_filters_reach_groups(rows, i);
    }
}

/// Groups rows by song: one entry per song id, in order of first appearance,
/// each with the filters of its rows sorted by name and then id.
pub fn group_song_rows(rows: Vec<SongWithFilterRow>) -> (r: Vec<SongWithFilters>)
    ensures
        r@.len() == group_scan(rows@).len(),
        forall|k: int|
            0 <= k < r@.len() ==> {
                &&& (#[trigger] r@[k]).song == group_scan(rows@)[k].0
                &&& r@[k].filters@.to_multiset() == group_scan(rows@)[k].1.to_multiset()
                &&& sorted_by_key(r@[k].filters@)
            },
{
    let ghost all_rows = rows@;
    let mut grouped: Vec<SongWithFilters> = Vec::new();
    let mut positions: HashMap<i32, usize> = HashMap::new();
    for row in iter: rows.into_iter()
        invariant
            iter.seq() == all_rows,
            grouped_as(grouped@, group_scan(all_rows.take(iter.index() as int))),
            distinct_ids(group_scan(all_rows.take(iter.index() as int))),
            forall|id: i32|
                #![trigger positions@.contains_key(id)]
                positions@.contains_key(id) <==> has_group(
                    group_scan(all_rows.take(iter.index() as int)),
                    id,
                ),
            forall|id: i32|
                #![trigger positions@[id]]
                positions@.contains_key(id) ==> positions@[id] < grouped@.len()
                    && grouped@[positions@[id] as int].song.id == id,
    {
        let ghost i = iter.index() as int;
        let ghost groups = group_scan(all_rows.take(i));
        proof {
            assert(all_rows.take(i + 1).drop_last() =~= all_rows.take(i));
            assert(all_rows.take(i + 1).last() == row);
        }
        let filter = match (row.filter_id, row.filter_name) {
            (Some(id), Some(name)) => Some(Filter { id, name }),
            _ => None,
        };
        let found = positions.get(&row.id);
        match found {
            Some(p) => {
                let position = *p;
                proof {
                    assert(has_group(groups, row.id));
                    let q = group_pos(groups, row.id);
                    assert(groups[q].0.id == row.id);
                    assert(grouped@[position as int].song.id == row.id);
                    assert(q == position);
                }
                match filter {
                    Some(f) => {
                        grouped[position].filters.push(f);
                    },
                    None => {},
                }
                proof {
                    let next = group_scan(all_rows.take(i + 1));
                    assert(grouped@[position as int].filters@ =~= next[position as int].1);
                    assert(grouped_as(grouped@, next));
                    assert(distinct_ids(next));
                    assert forall|id: i32| positions@.contains_key(id) <==> has_group(next, id) by {
                        if has_group(groups, id) {
                            let p2 = choose|p: int| 0 <= p < groups.len() && (#[trigger] groups[p]).0.id == id;
                            assert(next[p2].0.id == id);
                        }
                        if has_group(next, id) {
                            let p2 = choose|p: int| 0 <= p < next.len() && (#[trigger] next[p]).0.id == id;
                            assert(groups[p2].0.id == id);
                        }
                    }
                }
            },
            None => {
                let position = grouped.len();
                let song = Song {
                    id: row.id,
                    title: row.title,
                    artist: row.artist,
                    release_year: row.release_year,
                    album: row.album,
                    remix: row.remix,
                    search_blob: row.search_blob,
                    file_path: row.file_path,
                    duration: row.duration,
                    extension: row.extension,
                    file_size: row.file_size,
                    file_modified_millis: row.file_modified_millis,
                };
                let mut filters: Vec<Filter> = Vec::new();
                match filter {
                    Some(f) => {
                        filters.push(f);
                    },
                    None => {},
                }
                grouped.push(SongWithFilters { song, filters });
                positions.insert(row.id, position);
                proof {
                    assert(!has_group(groups, row.id));
                    let next = group_scan(all_rows.take(i + 1));
                    assert(next == groups.push((row_song(row), row_filters(row))));
                    assert(grouped@[position as int].filters@ =~= row_filters(row));
                    assert(grouped_as(grouped@, next));
                    assert(distinct_ids(next));
                    assert forall|id: i32| positions@.contains_key(id) <==> has_group(next, id) by {
                        if has_group(groups, id) {
                            let p2 = choose|p: int| 0 <= p < groups.len() && (#[trigger] groups[p]).0.id == id;
                            assert(next[p2].0.id == id);
                        }
                        if has_group(next, id) && id != row.id {
                            let p2 = choose|p: int| 0 <= p < next.len() && (#[trigger] next[p]).0.id == id;
                            assert(p2 < groups.len());
                            assert(groups[p2].0.id == id);
                        }
                        if id == row.id {
                            assert(next[position as int].0.id == id);
                        }
                    }
                }
            },
        }
    }
    let ghost groups = group_scan(all_rows);
    proof {
        assert(all_rows.take(all_rows.len() as int) =~= all_rows);
    }
    let mut k: usize = 0;
    while k < grouped.len()
        invariant
            k <= grouped.len() == groups.len(),
            forall|j: int|
                0 <= j < grouped.len() ==> (#[trigger] grouped@[j]).song == groups[j].0,
            forall|j: int|
                0 <= j < k ==> {
                    &&& (#[trigger] grouped@[j]).filters@.to_multiset() == groups[j].1.to_multiset()
                    &&& sorted_by_key(grouped@[j].filters@)
                },
            forall|j: int| k <= j < grouped.len() ==> (#[trigger] grouped@[j]).filters@ == groups[j].1,
        decreases grouped.len() - k,
    {
        let mut taken: Vec<Filter> = Vec::new();
        std::mem::swap(&mut grouped[k].filters, &mut taken);
        let sorted = sort_by_key(taken);
        grouped[k].filters = sorted;
        k = k + 1;
    }
    grouped
}

/// The search words of a query: its whitespace-separated words.
pub fn query_words(query: &str) -> (r: Vec<String>)
    ensures
        string_views(r@) == words(query@),
{
    let cs = chars_of(query);
    let ws = split_whitespace_chars(&cs);
    let mut out: Vec<String> = Vec::new();
    let mut i: usize = 0;
    while i < ws.len()
        invariant
            i <= ws.len(),
            seqs_of(ws@) == words(query@),
            out@.len() == i,
            forall|j: int| 0 <= j < i ==> (#[trigger] out@[j])@ == ws@[j]@,
        decreases ws.len() - i,
    {
        let w = string_of(&ws[i]);
        out.push(w);
        i = i + 1;
    }
    assert(string_views(out@) =~= seqs_of(ws@));
    out
}

} // verus!
