use zmp::search_blob::build_search_blob;
use zmp::song_search::song_search_blob;

#[test]
fn build_search_blob_normalizes_case_spacing_and_placeholder_values() {
    let blob = build_search_blob(&["  Song Title  ", "Artist Name", "-", "0", "Mad   Professor"]);

    assert_eq!(blob, "song title artist name mad professor");
}

#[test]
fn build_search_blob_of_no_parts_is_empty() {
    assert_eq!(build_search_blob(&Vec::<&str>::new()), "");
    assert_eq!(build_search_blob(&["  ", "0", "-"]), "");
}

#[test]
fn build_search_blob_keeps_words_containing_placeholders() {
    assert_eq!(build_search_blob(&["10", "-x-", "A-Ha"]), "10 -x- a-ha");
}

#[test]
fn song_search_blob_includes_year_and_filter_names() {
    let blob = song_search_blob(
        "Teardrop",
        "Massive Attack",
        "Mezzanine",
        "",
        1998,
        &["Ambient".to_string(), "Late Night".to_string()],
    );
    assert_eq!(blob, "teardrop massive attack mezzanine 1998 ambient late night");
}

#[test]
fn song_search_blob_skips_zero_year() {
    let blob = song_search_blob("Song", "Artist", "", "", 0, &[]);
    assert_eq!(blob, "song artist");
}

#[test]
fn search_blob_of_joined_parts_joins_the_blobs() {
    let a = ["Song Title", "0"];
    let b = ["-", "Artist  Name"];
    let both = ["Song Title", "0", "-", "Artist  Name"];
    assert_eq!(
        build_search_blob(&both),
        format!("{} {}", build_search_blob(&a), build_search_blob(&b))
    );
    assert_eq!(build_search_blob(&["-", "Artist  Name"]), build_search_blob(&b));
}
