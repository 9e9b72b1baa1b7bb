//! Finding songs by the words of a search, and the search text of a song.
use vstd::prelude::*;
use crate::decimal::{format_i32, int_decimal};
use crate::order::{compare_str, lemma_lt_asym, lemma_lt_total, lemma_lt_trans, seq_lt, LexOrder, SortKey};
use crate::search_blob::{build_search_blob, search_blob_of, str_views};
use crate::song::Song;
use crate::text::{chars_of, contains_chars, contains_seq, string_views};

verus! {

/// `a` comes before `b` or equals it in text order.
pub open spec fn text_le(a: Seq<char>, b: Seq<char>) -> bool {
    seq_lt(a, b) || a == b
}

/// Songs are listed by title, then artist, album, release year and id.
impl SortKey for Song {
    open spec fn key_le(a: Song, b: Song) -> bool {
        seq_lt(a.title@, b.title@) || (a.title@ == b.title@ && (seq_lt(a.artist@, b.artist@) || (
        a.artist@ == b.artist@ && (seq_lt(a.album@, b.album@) || (a.album@ == b.album@ && (
        a.release_year < b.release_year || (a.release_year == b.release_year && a.id
            <= b.id)))))))
    }

    proof fn lemma_key_le_total(a: Song, b: Song) {
        lemma_lt_total(a.title@, b.title@);
        lemma_lt_total(a.artist@, b.artist@);
        lemma_lt_total(a.album@, b.album@);
    }

    proof fn lemma_key_le_trans(a: Song, b: Song, c: Song) {
        if seq_lt(a.title@, b.title@) && seq_lt(b.title@, c.title@) {
            lemma_lt_trans(a.title@, b.title@, c.title@);
        }
        if seq_lt(a.artist@, b.artist@) && seq_lt(b.artist@, c.artist@) {
            lemma_lt_trans(a.artist@, b.artist@, c.artist@);
        }
        if seq_lt(a.album@, b.album@) && seq_lt(b.album@, c.album@) {
            lemma_lt_trans(a.album@, b.album@, c.album@);
        }
    }

    fn key_le_exec(&self, other: &Song) -> (r: bool) {
        match compare_str(self.title.as_str(), other.title.as_str()) {
            LexOrder::Less => {
                return true;
            },
            LexOrder::Greater => {
                proof {
                    lemma_lt_asym(other.title@, self.title@);
                }
                return false;
            },
            LexOrder::Same => {},
        }
        match compare_str(self.artist.as_str(), other.artist.as_str()) {
            LexOrder::Less => {
                return true;
            },
            LexOrder::Greater => {
                proof {
                    lemma_lt_asym(other.artist@, self.artist@);
                }
                return false;
            },
            LexOrder::Same => {},
        }
        match compare_str(self.album.as_str(), other.album.as_str()) {
            LexOrder::Less => {
                return true;
            },
            LexOrder::Greater => {
                proof {
                    lemma_lt_asym(other.album@, self.album@);
                }
                return false;
            },
            LexOrder::Same => {},
        }
        if self.release_year != other.release_year {
            return self.release_year < other.release_year;
        }
        self.id <= other.id
    }
}

/// Whether the song's search text holds every one of the words.
pub open spec fn matches_words(song: Song, words: Seq<Seq<char>>) -> bool {
    forall|k: int| 0 <= k < words.len() ==> contains_seq(song.search_blob@, #[trigger] words[k])
}

/// The songs whose search text holds every word, in their order.
pub open spec fn matching_songs(songs: Seq<Song>, words: Seq<Seq<char>>) -> Seq<Song>
    decreases songs.len(),
{
    if songs.len() == 0 {
        Seq::empty()
    } else {
        let rest = matching_songs(songs.drop_last(), words);
        if matches_words(songs.last(), words) {
            rest.push(songs.last())
        } else {
            rest
        }
    }
}

/// The songs matched by a search are exactly the songs whose search text
/// contains every one of the words, in their input order: each matched song
/// is one of the songs and contains every word, and each song that contains
/// every word is matched.
pub proof fn lemma_matching_songs_hold_every_word(songs: Seq<Song>, words: Seq<Seq<char>>)
    ensures
        forall|s: Song|
            #[trigger] matching_songs(songs, words).contains(s) ==> songs.contains(s) && forall|k: int|
                0 <= k < words.len() ==> contains_seq(s.search_blob@, #[trigger] words[k]),
        forall|i: int|
            0 <= i < songs.len() && (forall|k: int|
                0 <= k < words.len() ==> contains_seq(songs[i].search_blob@, #[trigger] words[k]))
                ==> #[trigger] matching_songs(songs, words).contains(songs[i]),
    decreases songs.len(),
{
    if songs.len() > 0 {
        let init = songs.drop_last();
        lemma_matching_songs_hold_every_word(init, words);
        let rest = matching_songs(init, words);
        let last = songs.last();
        let out = matching_songs(songs, words);
        assert forall|s: Song| #[trigger] out.contains(s) implies songs.contains(s) && forall|k: int|
            0 <= k < words.len() ==> contains_seq(s.search_blob@, #[trigger] words[k]) by {
            let m = choose|m: int| 0 <= m < out.len() && out[m] == s;
            if m < rest.len() {
                assert(rest[m] == s);
                assert(rest.contains(s));
                let j = choose|j: int| 0 <= j < init.len() && init[j] == s;
                assert(songs[j] == s);
            } else {
                assert(s == last);
                assert(songs[songs.len() - 1] == s);
                assert(matches_words(last, words));
            }
        }
        assert forall|i: int|
            0 <= i < songs.len() && (forall|k: int|
                0 <= k < words.len() ==> contains_seq(songs[i].search_blob@, #[trigger] words[k]))
                implies #[trigger] out.contains(songs[i]) by {
            if i < songs.len() - 1 {
                assert(songs[i] == init[i]);
                assert(rest.contains(init[i]));
                let m = choose|m: int| 0 <= m < rest.len() && rest[m] == init[i];
                if matches_words(last, words) {
                    assert(rest.push(last)[m] == songs[i]);
                }
            } else {
                assert(songs[i] == last);
                assert(matches_words(last, words));
                assert(rest.push(last)[rest.len() as int] == last);
            }
        }
    }
}

pub(crate) fn matches_all(blob: &Vec<char>, words: &Vec<Vec<char>>) -> (r: bool)
    ensures
        r == forall|k: int| 0 <= k < words@.len() ==> contains_seq(blob@, #[trigger] words@[k]@),
{
    let mut k: usize = 0;
    while k < words.len()
        invariant
            k <= words.len(),
            forall|j: int| 0 <= j < k ==> contains_seq(blob@, #[trigger] words@[j]@),
        decreases words.len() - k,
    {
        if !contains_chars(blob, &words[k]) {
            return false;
        }
        k = k + 1;
    }
    true
}

/// The parts a song's search text is built from: title, artist, album,
/// remixer, release year and the names of its filters.
pub open spec fn song_blob_parts(
    title: Seq<char>,
    artist: Seq<char>,
    album: Seq<char>,
    remix: Seq<char>,
    release_year: i32,
    filter_names: Seq<Seq<char>>,
) -> Seq<Seq<char>> {
    seq![title, artist, album, remix, int_decimal(release_year as int)] + filter_names
}

/// The search text of a song with these fields and filter names.
pub fn song_search_blob(
    title: &str,
    artist: &str,
    album: &str,
    remix: &str,
    release_year: i32,
    filter_names: &[String],
) -> (r: String)
    ensures
        r@ == search_blob_of(
            song_blob_parts(title@, artist@, album@, remix@, release_year, string_views(filter_names@)),
        ),
{
    let year = format_i32(release_year);
    let mut parts: Vec<&str> = Vec::new();
    parts.push(title);
    parts.push(artist);
    parts.push(album);
    parts.push(remix);
    parts.push(year.as_str());
    let mut i: usize = 0;
    while i < filter_names.len()
        invariant
            i <= filter_names.len(),
            str_views(parts@) == seq![title@, artist@, album@, remix@, year@] + string_views(
                filter_names@,
            ).take(i as int),
        decreases filter_names.len() - i,
    {
        let ghost before = str_views(parts@);
        parts.push(filter_names[i].as_str());
        proof {
            assert(str_views(parts@) =~= before.push(filter_names@[i as int]@));
            assert(string_views(filter_names@).take(i + 1) =~= string_views(filter_names@).take(
                i as int,
            ).push(filter_names@[i as int]@));
        }
        i = i + 1;
        assert(str_views(parts@) =~= seq![title@, artist@, album@, remix@, year@] + string_views(
            filter_names@,
        ).take(i as int));
    }
    assert(string_views(filter_names@).take(filter_names.len() as int) =~= string_views(
        filter_names@,
    ));
    build_search_blob(parts.as_slice())
}

} // verus!
