use zmp::song_query::{group_song_rows, query_words, SongWithFilterRow};

fn row(id: i32, title: &str, filter_id: Option<i32>, filter_name: Option<&str>) -> SongWithFilterRow {
    SongWithFilterRow {
        id,
        title: title.to_string(),
        artist: "artist".to_string(),
        release_year: 1999,
        album: "album".to_string(),
        remix: String::new(),
        search_blob: title.to_lowercase(),
        file_path: format!("/music/{id}.mp3"),
        duration: 180,
        extension: "mp3".to_string(),
        file_size: 4_096,
        file_modified_millis: 1_700_000_000_000,
        filter_id,
        filter_name: filter_name.map(str::to_string),
    }
}

#[test]
fn group_song_rows_preserves_input_song_order() {
    let rows = vec![
        row(2, "Alpha", Some(1), Some("ambient")),
        row(1, "Bravo", Some(2), Some("favorites")),
        row(3, "Charlie", None, None),
    ];

    let grouped = group_song_rows(rows);

    assert_eq!(grouped.len(), 3);
    assert_eq!(grouped[0].song.id, 2);
    assert_eq!(grouped[1].song.id, 1);
    assert_eq!(grouped[2].song.id, 3);
}

#[test]
fn group_song_rows_keeps_multiple_filters_on_the_same_song() {
    let rows = vec![
        row(7, "Teardrop", Some(1), Some("ambient")),
        row(7, "Teardrop", Some(2), Some("favorites")),
    ];

    let grouped = group_song_rows(rows);

    assert_eq!(grouped.len(), 1);
    assert_eq!(grouped[0].filters.len(), 2);
    assert_eq!(grouped[0].filters[0].name, "ambient");
    assert_eq!(grouped[0].filters[1].name, "favorites");
}

#[test]
fn group_song_rows_sorts_filters_by_name_then_id() {
    let rows = vec![
        row(5, "Song", Some(9), Some("zen")),
        row(5, "Song", Some(3), Some("ambient")),
        row(5, "Song", Some(1), Some("ambient")),
        row(5, "Song", None, None),
    ];
    let grouped = group_song_rows(rows);
    assert_eq!(grouped.len(), 1);
    let filters: Vec<(i32, String)> =
        grouped[0].filters.iter().map(|f| (f.id, f.name.clone())).collect();
    assert_eq!(
        filters,
        vec![(1, "ambient".to_string()), (3, "ambient".to_string()), (9, "zen".to_string())]
    );
}

#[test]
fn group_song_rows_drops_half_empty_filter_columns() {
    let rows = vec![row(1, "Song", Some(2), None), row(1, "Song", None, Some("x"))];
    let grouped = group_song_rows(rows);
    assert_eq!(grouped.len(), 1);
    assert!(grouped[0].filters.is_empty());
}

#[test]
fn query_words_splits_on_whitespace() {
    assert_eq!(query_words("  boards \t of\ncanada "), vec!["boards", "of", "canada"]);
    assert!(query_words("   ").is_empty());
}
