use zmp::filter::Filter;
use zmp::metadata::{
    AudioFileKind, FilterTagFormat, MetadataError, MetadataParser, SongMetadata, TagKind,
    FILTER_TAG_KEY,
};

#[test]
fn parse_filename_fallback_parses_artist_and_title() {
    let path = "Massive Attack - Teardrop.mp3";

    let result = MetadataParser::new().parse_filename_fallback(path).unwrap();

    assert_eq!(result.artist, "Massive Attack");
    assert_eq!(result.title, "Teardrop");
}

#[test]
fn parse_filename_fallback_trims_whitespace() {
    let path = "  Massive Attack   -   Teardrop  .mp3";

    let result = MetadataParser::new().parse_filename_fallback(path).unwrap();

    assert_eq!(result.artist, "Massive Attack");
    assert_eq!(result.title, "Teardrop");
}

#[test]
fn parse_filename_fallback_errors_when_separator_missing() {
    let path = "Teardrop.mp3";

    let result = MetadataParser::new().parse_filename_fallback(path);

    assert!(result.is_err());
}

#[test]
fn parse_filename_fallback_reports_missing_separator() {
    let result = MetadataParser::new().parse_filename_fallback("/music/Teardrop.mp3");
    assert_eq!(result, Err(MetadataError::MissingSeparator));
}

#[test]
fn parse_filename_fallback_splits_at_first_separator_in_directory_path() {
    let result = MetadataParser::new()
        .parse_filename_fallback("/music/Boards - of - Canada.flac")
        .unwrap();
    assert_eq!(result.artist, "Boards");
    assert_eq!(result.title, "of - Canada");
}

#[test]
fn parse_filename_fallback_reports_missing_file_name() {
    let result = MetadataParser::new().parse_filename_fallback("/");
    assert_eq!(result, Err(MetadataError::MissingFileName));
}

#[test]
fn parse_filters_string_trims_and_drops_empty_names() {
    let filters = MetadataParser::parse_filters_string(Some(" ambient | |favorites|"));
    assert_eq!(
        filters,
        vec![
            Filter { id: 0, name: "ambient".to_string() },
            Filter { id: 0, name: "favorites".to_string() },
        ]
    );
}

#[test]
fn parse_filters_string_of_missing_value_is_empty() {
    assert!(MetadataParser::parse_filters_string(None).is_empty());
    assert!(MetadataParser::parse_filters_string(Some("")).is_empty());
}

#[test]
fn filters_string_joins_names_and_reads_back() {
    let filters = vec![
        Filter { id: 4, name: "ambient".to_string() },
        Filter { id: 9, name: "late night".to_string() },
    ];
    let text = MetadataParser::filters_string(&filters);
    assert_eq!(text, "ambient|late night");
    let back = MetadataParser::parse_filters_string(Some(text.as_str()));
    let names: Vec<String> = back.into_iter().map(|f| f.name).collect();
    assert_eq!(names, vec!["ambient".to_string(), "late night".to_string()]);
}

#[test]
fn filter_tag_key_is_zmp_filters() {
    assert_eq!(FILTER_TAG_KEY, "ZMP_FILTERS");
}

#[test]
fn should_fetch_year_only_for_missing_year_on_id3_tags() {
    let parser = MetadataParser::new();
    assert!(parser.should_fetch_metadata_year_id3(0, TagKind::Id3v2));
    assert!(parser.should_fetch_metadata_year_id3(0, TagKind::Id3v1));
    assert!(!parser.should_fetch_metadata_year_id3(1998, TagKind::Id3v2));
    assert!(!parser.should_fetch_metadata_year_id3(0, TagKind::VorbisComments));
}

#[test]
fn blank_metadata_lowercases_the_extension() {
    let m = MetadataParser::new().blank_metadata("/music/Artist - Song.MP3");
    assert_eq!(m.ext, "mp3");
    assert_eq!(m.path, "/music/Artist - Song.MP3");
    assert_eq!(m.title, "");
    assert_eq!(m.year, None);
}

fn metadata(title: &str, artist: &str, path: &str) -> SongMetadata {
    SongMetadata {
        title: title.to_string(),
        artist: artist.to_string(),
        album: Some("Mezzanine".to_string()),
        year: Some(1998),
        path: path.to_string(),
        duration: 330,
        remix: None,
        ext: "mp3".to_string(),
    }
}

#[test]
fn complete_with_fallback_fills_only_the_missing_title() {
    let parser = MetadataParser::new();
    let m = parser
        .complete_with_fallback(metadata("", "Tagged Artist", "/music/File Artist - File Title.mp3"))
        .unwrap();
    assert_eq!(m.title, "File Title");
    assert_eq!(m.artist, "Tagged Artist");
    assert_eq!(m.album, Some("Mezzanine".to_string()));
}

#[test]
fn complete_with_fallback_fills_only_the_missing_artist() {
    let parser = MetadataParser::new();
    let m = parser
        .complete_with_fallback(metadata("Tagged Title", "", "/music/File Artist - File Title.mp3"))
        .unwrap();
    assert_eq!(m.title, "Tagged Title");
    assert_eq!(m.artist, "File Artist");
}

#[test]
fn complete_with_fallback_keeps_complete_tags() {
    let parser = MetadataParser::new();
    let original = metadata("Teardrop", "Massive Attack", "/music/untitled.mp3");
    let m = parser.complete_with_fallback(original.clone()).unwrap();
    assert_eq!(m, original);
}

#[test]
fn complete_with_fallback_fails_without_separator() {
    let parser = MetadataParser::new();
    let result = parser.complete_with_fallback(metadata("", "", "/music/untitled.mp3"));
    assert_eq!(result, Err(MetadataError::MissingSeparator));
}

#[test]
fn song_from_metadata_builds_blob_and_defaults() {
    let parser = MetadataParser::new();
    let m = SongMetadata {
        title: "Teardrop".to_string(),
        artist: "Massive Attack".to_string(),
        album: None,
        year: None,
        path: "/music/teardrop.mp3".to_string(),
        duration: 330,
        remix: Some("Mad Professor".to_string()),
        ext: "mp3".to_string(),
    };
    let song = parser.song_from_metadata(m, 4096, 1_700_000_000_000);
    assert_eq!(song.id, 0);
    assert_eq!(song.album, "");
    assert_eq!(song.release_year, 0);
    assert_eq!(song.remix, "Mad Professor");
    assert_eq!(song.search_blob, "teardrop massive attack mad professor");
    assert_eq!(song.duration, 330);
    assert_eq!(song.file_size, 4096);
    assert_eq!(song.file_modified_millis, 1_700_000_000_000);
}

#[test]
fn filter_tag_format_follows_the_file_kind() {
    assert_eq!(zmp::metadata::filter_tag_format(AudioFileKind::Mpeg), Some(FilterTagFormat::Id3));
    assert_eq!(zmp::metadata::filter_tag_format(AudioFileKind::Wav), Some(FilterTagFormat::Id3));
    assert_eq!(zmp::metadata::filter_tag_format(AudioFileKind::Aac), Some(FilterTagFormat::Id3));
    assert_eq!(zmp::metadata::filter_tag_format(AudioFileKind::Flac), Some(FilterTagFormat::Flac));
    assert_eq!(zmp::metadata::filter_tag_format(AudioFileKind::Mp4), Some(FilterTagFormat::Mp4));
    assert_eq!(zmp::metadata::filter_tag_format(AudioFileKind::Aiff), None);
    assert_eq!(zmp::metadata::filter_tag_format(AudioFileKind::Other), None);
}

#[test]
fn fallback_from_stem_splits_and_trims() {
    let f = zmp::metadata::fallback_from_stem("  Massive Attack -  Teardrop ").unwrap();
    assert_eq!(f.artist, "Massive Attack");
    assert_eq!(f.title, "Teardrop");
    assert_eq!(zmp::metadata::fallback_from_stem("Teardrop"), Err(MetadataError::MissingSeparator));
}
