//! The song store's search over songs already in memory.
use vstd::prelude::*;
use crate::order::{keeps_order_of_equal_keys, sort_by_key, sorted_by_key};
use crate::search_blob::str_views;
use crate::song::Song;
use crate::song_search::{matches_all, matches_words, matching_songs};
use crate::text::{chars_of, contains_seq};

verus! {

broadcast use vstd::seq_lib::group_to_multiset_ensures;

/// The SQLite song store.
#[derive(Debug, Clone, Copy, PartialEq, Eq)]
pub struct SqliteImpl {}

impl SqliteImpl {
    /// Finds the songs whose search text holds every word, listed by title,
    /// artist, album, year and id, songs with all of these equal in the order
    /// they came, and keeps the first `max_results`.
    pub fn search_by(&self, songs: &[Song], words: &[&str], max_results: usize) -> (r: Vec<Song>)
        ensures
            exists|listed: Seq<Song>|
                sorted_by_key(listed) && keeps_order_of_equal_keys(
                    listed,
                    matching_songs(songs@, str_views(words@)),
                ) && listed.to_multiset() == matching_songs(
                    songs@,
                    str_views(words@),
                ).to_multiset() && r@ == listed.take(
                    if max_results < listed.len() {
                        max_results as int
                    } else {
                        listed.len() as int
                    },
                ),
            r@.len() <= max_results,
            forall|j: int|
                0 <= j < r@.len() ==> songs@.contains(#[trigger] r@[j]) && forall|k: int|
                    0 <= k < words@.len() ==> contains_seq(r@[j].search_blob@, (#[trigger] words@[k])@),
            r@.len() < max_results ==> forall|i: int|
                0 <= i < songs@.len() && (forall|k: int|
                    0 <= k < words@.len() ==> contains_seq(songs@[i].search_blob@, (#[trigger] words@[k])@))
                    ==> r@.contains(#[trigger] songs@[i]),
    {
        let mut word_chars: Vec<Vec<char>> = Vec::new();
        let mut w: usize = 0;
        while w < words.len()
            invariant
                w <= words.len(),
                word_chars@.len() == w,
                forall|j: int| 0 <= j < w ==> (#[trigger] word_chars@[j])@ == words@[j]@,
            decreases words.len() - w,
        {
            word_chars.push(chars_of(words[w]));
            w = w + 1;
        }
        let mut found: Vec<Song> = Vec::new();
        let mut i: usize = 0;
        while i < songs.len()
            invariant
                i <= songs.len(),
                word_chars@.len() == words@.len(),
                forall|j: int| 0 <= j < words@.len() ==> (#[trigger] word_chars@[j])@ == words@[j]@,
                found@ == matching_songs(songs@.take(i as int), str_views(words@)),
            decreases songs.len() - i,
        {
            proof {
                assert(songs@.take(i + 1).drop_last() =~= songs@.take(i as int));
            }
            let blob = chars_of(songs[i].search_blob.as_str());
            let hit = matches_all(&blob, &word_chars);
            proof {
                let ws = str_views(words@);
                assert(hit == matches_words(songs@[i as int], ws)) by {
                    if hit {
                        assert forall|k: int| 0 <= k < ws.len() implies contains_seq(
                            songs@[i as int].search_blob@,
                            #[trigger] ws[k],
                        ) by {
                            assert(word_chars@[k]@ == ws[k]);
                        }
                    } else {
                        let k = choose|k: int|
                            0 <= k < word_chars@.len() && !contains_seq(blob@, #[trigger] word_chars@[k]@);
                        assert(ws[k] == word_chars@[k]@);
                    }
                }
            }
            if hit {
                found.push(songs[i].duplicate());
            }
            i = i + 1;
        }
        assert(songs@.take(songs.len() as int) =~= songs@);
        let sorted = sort_by_key(found);
        let mut out: Vec<Song> = Vec::new();
        let mut k: usize = 0;
        while k < sorted.len() && k < max_results
            invariant
                k <= sorted.len(),
                k <= max_results,
                out@ == sorted@.take(k as int),
            decreases sorted.len() - k,
        {
            out.push(sorted[k].duplicate());
            k = k + 1;
            assert(out@ =~= sorted@.take(k as int));
        }
        proof {
            let listed = sorted@;
            let n = if max_results < listed.len() {
                max_results as int
            } else {
                listed.len() as int
            };
            assert(k == n);
            assert(sorted_by_key(listed) && keeps_order_of_equal_keys(
                listed,
                matching_songs(songs@, str_views(words@)),
            ) && listed.to_multiset() == matching_songs(
                songs@,
                str_views(words@),
            ).to_multiset() && out@ == listed.take(n));
            let ws = str_views(words@);
            let m = matching_songs(songs@, ws);
            crate::song_search::lemma_matching_songs_hold_every_word(songs@, ws);
            assert forall|j: int| 0 <= j < out@.len() implies songs@.contains(#[trigger] out@[j]) && forall|t: int|
                0 <= t < words@.len() ==> contains_seq(out@[j].search_blob@, (#[trigger] words@[t])@) by {
                assert(out@[j] == listed[j]);
                assert(listed.contains(listed[j]));
                assert(listed.to_multiset().count(listed[j]) > 0);
                assert(m.contains(listed[j]));
                assert forall|t: int| 0 <= t < words@.len() implies contains_seq(out@[j].search_blob@, (#[trigger] words@[t])@) by {
                    assert(ws[t] == words@[t]@);
                }
            }
            if out@.len() < max_results {
                assert(n == listed.len());
                assert(out@ =~= listed);
                assert forall|i: int|
                    0 <= i < songs@.len() && (forall|t: int|
                        0 <= t < words@.len() ==> contains_seq(songs@[i].search_blob@, (#[trigger] words@[t])@))
                        implies out@.contains(#[trigger] songs@[i]) by {
                    assert forall|t: int| 0 <= t < ws.len() implies contains_seq(songs@[i].search_blob@, #[trigger] ws[t]) by {
                        assert(ws[t] == words@[t]@);
                    }
                    assert(m.contains(songs@[i]));
                    assert(m.to_multiset().count(songs@[i]) > 0);
                    assert(listed.contains(songs@[i]));
                }
            }
        }
        out
    }
}

} // verus!
