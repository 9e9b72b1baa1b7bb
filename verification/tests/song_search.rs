use zmp::song::{song_insert_batches, Song, SONG_INSERT_BATCH_SIZE};
use zmp::sqlite::SqliteImpl;

fn song(id: i32, title: &str, artist: &str, year: i32, album: &str, blob: &str, ext: &str) -> Song {
    Song {
        id,
        title: title.to_string(),
        artist: artist.to_string(),
        release_year: year,
        album: album.to_string(),
        remix: String::new(),
        search_blob: blob.to_string(),
        file_path: format!("/music/{id}.{ext}"),
        duration: 100,
        extension: ext.to_string(),
        file_size: 0,
        file_modified_millis: 0,
    }
}

fn sample_songs() -> Vec<Song> {
    vec![
        song(1, "Teardrop", "Massive Attack", 1998, "Mezzanine", "teardrop massive attack mezzanine 1998", "mp3"),
        song(2, "Windowlicker", "Aphex Twin", 1999, "Windowlicker", "windowlicker aphex twin windowlicker 1999", "mp4"),
        song(3, "Roygbiv", "Boards of Canada", 1998, "Music Has the Right to Children", "roygbiv boards of canada music has the right to children 1998", "flac"),
    ]
}

#[test]
fn integration_search_by_filters_in_memory_input() {
    let results = SqliteImpl {}.search_by(&sample_songs(), &["boards", "1998"], 10);
    assert_eq!(results.len(), 1);
    assert_eq!(results[0].title, "Roygbiv");
    assert_eq!(results[0].extension, "flac");
}

#[test]
fn search_by_sorts_by_title() {
    let results = SqliteImpl {}.search_by(&sample_songs(), &["19"], 10);
    assert_eq!(results.len(), 3);
    assert_eq!(results[0].title, "Roygbiv");
    assert_eq!(results[1].title, "Teardrop");
    assert_eq!(results[2].title, "Windowlicker");
}

#[test]
fn integration_search_by_honors_max_results() {
    let results = SqliteImpl {}.search_by(&sample_songs(), &["1998"], 1);
    assert_eq!(results.len(), 1);
    assert_eq!(results[0].title, "Roygbiv");
    assert!(SqliteImpl {}.search_by(&sample_songs(), &["1998"], 0).is_empty());
}

#[test]
fn search_by_with_no_words_lists_everything() {
    assert_eq!(SqliteImpl {}.search_by(&sample_songs(), &[], 10).len(), 3);
}

#[test]
fn search_by_breaks_title_ties_by_artist_then_id() {
    let songs = vec![
        song(5, "Same", "B", 2000, "", "x", "mp3"),
        song(4, "Same", "A", 2000, "", "x", "mp3"),
        song(3, "Same", "A", 2000, "", "x", "mp3"),
    ];
    let ids: Vec<i32> = SqliteImpl {}.search_by(&songs, &["x"], 10).iter().map(|s| s.id).collect();
    assert_eq!(ids, vec![3, 4, 5]);
}

#[test]
fn insert_batches_respect_the_bind_limit() {
    assert_eq!(SONG_INSERT_BATCH_SIZE, 2978);
    assert!(song_insert_batches(0).is_empty());
    assert_eq!(song_insert_batches(5), vec![(0, 5)]);
    assert_eq!(song_insert_batches(2978), vec![(0, 2978)]);
    assert_eq!(song_insert_batches(6000), vec![(0, 2978), (2978, 5956), (5956, 6000)]);
}

#[test]
fn search_by_keeps_input_order_among_equal_keys() {
    let mut first = song(7, "Same", "A", 2000, "", "x", "mp3");
    first.file_path = "/first.mp3".to_string();
    let mut second = song(7, "Same", "A", 2000, "", "x", "flac");
    second.file_path = "/second.flac".to_string();
    let other = song(1, "Other", "A", 2000, "", "x", "mp3");
    let songs = vec![first, other, second];
    let paths: Vec<String> = SqliteImpl {}
        .search_by(&songs, &["x"], 10)
        .iter()
        .map(|s| s.file_path.clone())
        .collect();
    assert_eq!(paths, vec!["/music/1.mp3", "/first.mp3", "/second.flac"]);
}
