//! What the library reads from and writes to music files, once the file's tags
//! have been read: filename fallbacks, the filter list tag, and the song record.
use vstd::prelude::*;
use crate::decimal::{format_i32, int_decimal};
use crate::filter::Filter;
use crate::search_blob::{build_search_blob, search_blob_of};
use crate::song::Song;
use crate::text::{
    chars_of, join, join_chars, lowercase_chars, lowercase_of, seqs_of, split, split_chars,
    split_once, split_once_chars, split_scan, string_of, trim, trim_chars, trim_end, trim_start, lemma_split_join,
};

verus! {

/// The tag key under which a file keeps its filter names.
pub const FILTER_TAG_KEY: &'static str = "ZMP_FILTERS";

/// What `Path::with_extension("")` gives for a path.
pub uninterp spec fn path_without_extension(p: Seq<char>) -> Seq<char>;

/// What `Path::file_stem` gives for a path, when it is valid UTF-8.
pub uninterp spec fn path_file_stem(p: Seq<char>) -> Option<Seq<char>>;

/// What `Path::extension` gives for a path, when it is valid UTF-8.
pub uninterp spec fn path_extension(p: Seq<char>) -> Option<Seq<char>>;

/// The path with its extension removed, by `Path::with_extension("")`.
#[verifier::external_body]
fn without_extension(p: &str) -> (r: String)
    ensures
        r@ == path_without_extension(p@),
{
    std::path::Path::new(p).with_extension("").to_string_lossy().into_owned()
}

/// The file name without its extension, by `Path::file_stem`.
#[verifier::external_body]
fn file_stem(p: &str) -> (r: Option<String>)
    ensures
        match r {
            Some(s) => path_file_stem(p@) == Some(s@),
            None => path_file_stem(p@) is None,
        },
{
    std::path::Path::new(p).file_stem().and_then(|s| s.to_str()).map(|s| s.to_string())
}

/// The extension of the file name, by `Path::extension`.
#[verifier::external_body]
fn extension_of(p: &str) -> (r: Option<String>)
    ensures
        match r {
            Some(s) => path_extension(p@) == Some(s@),
            None => path_extension(p@) is None,
        },
{
    std::path::Path::new(p).extension().and_then(|s| s.to_str()).map(|s| s.to_string())
}

/// Why a file name gives no artist and title.
#[derive(Debug, Clone, Copy, PartialEq, Eq)]
pub enum MetadataError {
    /// The path has no file name.
    MissingFileName,
    /// The file name has no ` - ` between artist and title.
    MissingSeparator,
}

/// The artist and title read from a file name of the form `artist - title.ext`.
#[derive(Debug, Clone, PartialEq, Eq)]
pub struct FallbackMetadata {
    pub title: String,
    pub artist: String,
}

/// The kinds of tag a file can carry.
#[derive(Debug, Clone, Copy, PartialEq, Eq)]
pub enum TagKind {
    Ape,
    Id3v1,
    Id3v2,
    Mp4Ilst,
    VorbisComments,
    RiffInfo,
    AiffText,
}

/// The kinds of audio file the tag reader recognizes.
#[derive(Debug, Clone, Copy, PartialEq, Eq)]
pub enum AudioFileKind {
    Aac,
    Aiff,
    Ape,
    Flac,
    Mpeg,
    Mp4,
    Mpc,
    Opus,
    Vorbis,
    Speex,
    Wav,
    WavPack,
    Other,
}

/// Where a kind of file keeps the filter tag.
#[derive(Debug, Clone, Copy, PartialEq, Eq)]
pub enum FilterTagFormat {
    Id3,
    Flac,
    Vorbis,
    Opus,
    Speex,
    Mp4,
    Ape,
}

/// Where the filter tag lives in a file of this kind: an ID3 tag for AAC, MPEG
/// and WAV files, the file's own tag for FLAC, Vorbis, Opus, Speex, MP4 and
/// APE files; none for the other kinds, which cannot carry it.
pub open spec fn filter_tag_format_of(kind: AudioFileKind) -> Option<FilterTagFormat> {
    match kind {
        AudioFileKind::Aac => Some(FilterTagFormat::Id3),
        AudioFileKind::Mpeg => Some(FilterTagFormat::Id3),
        AudioFileKind::Wav => Some(FilterTagFormat::Id3),
        AudioFileKind::Flac => Some(FilterTagFormat::Flac),
        AudioFileKind::Vorbis => Some(FilterTagFormat::Vorbis),
        AudioFileKind::Opus => Some(FilterTagFormat::Opus),
        AudioFileKind::Speex => Some(FilterTagFormat::Speex),
        AudioFileKind::Mp4 => Some(FilterTagFormat::Mp4),
        AudioFileKind::Ape => Some(FilterTagFormat::Ape),
        _ => None,
    }
}

/// Where the filter tag lives in a file of this kind, if it can carry one.
pub fn filter_tag_format(kind: AudioFileKind) -> (r: Option<FilterTagFormat>)
    ensures
        r == filter_tag_format_of(kind),
{
    match kind {
        AudioFileKind::Aac | AudioFileKind::Mpeg | AudioFileKind::Wav => Some(FilterTagFormat::Id3),
        AudioFileKind::Flac => Some(FilterTagFormat::Flac),
        AudioFileKind::Vorbis => Some(FilterTagFormat::Vorbis),
        AudioFileKind::Opus => Some(FilterTagFormat::Opus),
        AudioFileKind::Speex => Some(FilterTagFormat::Speex),
        AudioFileKind::Mp4 => Some(FilterTagFormat::Mp4),
        AudioFileKind::Ape => Some(FilterTagFormat::Ape),
        _ => None,
    }
}

/// What was read from one music file.
#[derive(Debug, Clone, PartialEq, Eq)]
pub struct SongMetadata {
    pub title: String,
    pub artist: String,
    pub album: Option<String>,
    pub year: Option<i32>,
    pub path: String,
    pub duration: u64,
    pub remix: Option<String>,
    pub ext: String,
}

/// The separator between artist and title in a file name.
pub open spec fn artist_title_separator() -> Seq<char> {
    seq![' ', '-', ' ']
}

/// The artist and title of a file stem `artist - title`: split at the first
/// ` - ` and trimmed, or why there are none.
pub open spec fn stem_fallback(stem: Seq<char>) -> Result<(Seq<char>, Seq<char>), MetadataError> {
    match split_once(stem, artist_title_separator()) {
        None => Err(MetadataError::MissingSeparator),
        Some((artist, title)) => Ok((trim(artist), trim(title))),
    }
}

/// The artist and title of a file name, or why there are none.
pub open spec fn fallback_of(path: Seq<char>) -> Result<(Seq<char>, Seq<char>), MetadataError> {
    match path_file_stem(path_without_extension(path)) {
        None => Err(MetadataError::MissingFileName),
        Some(stem) => stem_fallback(stem),
    }
}

/// Reads artist and title from a file stem `artist - title`: split at the
/// first ` - `, both sides trimmed.
pub fn fallback_from_stem(stem: &str) -> (r: Result<FallbackMetadata, MetadataError>)
    ensures
        match r {
            Ok(f) => stem_fallback(stem@) == Ok::<(Seq<char>, Seq<char>), MetadataError>(
                (f.artist@, f.title@),
            ),
            Err(e) => stem_fallback(stem@) == Err::<(Seq<char>, Seq<char>), MetadataError>(e),
        },
{
    let chars = chars_of(stem);
    let sep: Vec<char> = vec![' ', '-', ' '];
    assert(sep@ =~= artist_title_separator());
    match split_once_chars(&chars, &sep) {
        Some((artist, title)) => {
            let artist = trim_chars(&artist);
            let title = trim_chars(&title);
            Ok(FallbackMetadata { title: string_of(&title), artist: string_of(&artist) })
        },
        None => Err(MetadataError::MissingSeparator),
    }
}

/// The trimmed, non-empty pieces, in order.
pub open spec fn kept_names(pieces: Seq<Seq<char>>) -> Seq<Seq<char>>
    decreases pieces.len(),
{
    if pieces.len() == 0 {
        Seq::empty()
    } else {
        let rest = kept_names(pieces.drop_last());
        let t = trim(pieces.last());
        if t.len() > 0 {
            rest.push(t)
        } else {
            rest
        }
    }
}

/// The filter names a filter tag value holds: its `|`-separated pieces,
/// trimmed, with the empty ones left out. A missing value holds none.
pub open spec fn filter_names_of(value: Seq<char>) -> Seq<Seq<char>> {
    kept_names(split(value, '|'))
}

/// The names of the filters.
pub open spec fn names_of(filters: Seq<Filter>) -> Seq<Seq<char>> {
    filters.map_values(|f: Filter| f.name@)
}

/// The text of an optional string slice, empty when absent.
pub open spec fn text_or_empty(s: Option<&str>) -> Seq<char> {
    match s {
        Some(x) => x@,
        None => Seq::empty(),
    }
}

/// The text of an optional string, empty when absent.
pub open spec fn string_or_empty(s: Option<String>) -> Seq<char> {
    match s {
        Some(x) => x@,
        None => Seq::empty(),
    }
}

/// The search-blob parts of a song: title, artist, album, year and remixer.
pub open spec fn metadata_blob_parts(m: SongMetadata) -> Seq<Seq<char>> {
    seq![
        m.title@,
        m.artist@,
        string_or_empty(m.album),
        int_decimal(m.year.unwrap_or(0) as int),
        string_or_empty(m.remix),
    ]
}

#[derive(Debug, Default)]
pub struct MetadataParser {}

impl MetadataParser {
    pub fn new() -> (r: Self) {
        MetadataParser {  }
    }

    /// Whether the year should be read again with the ID3 reader: when the
    /// primary tag gave none and it is an ID3 tag.
    pub fn should_fetch_metadata_year_id3(&self, year: i32, tag_type: TagKind) -> (r: bool)
        ensures
            r == (year == 0 && (tag_type == TagKind::Id3v2 || tag_type == TagKind::Id3v1)),
    {
        year == 0 && (match tag_type {
            TagKind::Id3v2 => true,
            TagKind::Id3v1 => true,
            _ => false,
        })
    }

    /// Reads artist and title from a file name `artist - title.ext`: the
    /// extension is removed twice (once as a path, once as a stem), the name is
    /// split at the first ` - `, and both sides are trimmed.
    pub fn parse_filename_fallback(&self, file_path: &str) -> (r: Result<
        FallbackMetadata,
        MetadataError,
    >)
        ensures
            match r {
                Ok(f) => fallback_of(file_path@) == Ok::<(Seq<char>, Seq<char>), MetadataError>(
                    (f.artist@, f.title@),
                ),
                Err(e) => fallback_of(file_path@) == Err::<(Seq<char>, Seq<char>), MetadataError>(
                    e,
                ),
            },
    {
        let no_ext = without_extension(file_path);
        match file_stem(no_ext.as_str()) {
            Some(stem) => fallback_from_stem(stem.as_str()),
            None => Err(MetadataError::MissingFileName),
        }
    }

    /// The filters named in a filter tag value: its `|`-separated pieces,
    /// trimmed, without the empty ones, each with id 0.
    pub fn parse_filters_string(filters_string: Option<&str>) -> (r: Vec<Filter>)
        ensures
            names_of(r@) == filter_names_of(text_or_empty(filters_string)),
            forall|k: int| 0 <= k < r@.len() ==> (#[trigger] r@[k]).id == 0,
    {
        let text = match filters_string {
            Some(s) => chars_of(s),
            None => Vec::new(),
        };
        let pieces = split_chars(&text, '|');
        let mut out: Vec<Filter> = Vec::new();
        let mut i: usize = 0;
        while i < pieces.len()
            invariant
                i <= pieces.len(),
                seqs_of(pieces@) == split(text@, '|'),
                names_of(out@) == kept_names(seqs_of(pieces@).take(i as int)),
                forall|k: int| 0 <= k < out@.len() ==> (#[trigger] out@[k]).id == 0,
            decreases pieces.len() - i,
        {
            proof {
                let p = seqs_of(pieces@).take(i + 1);
                assert(p.drop_last() =~= seqs_of(pieces@).take(i as int));
                assert(p.last() == pieces@[i as int]@);
            }
            let t = trim_chars(&pieces[i]);
            if t.len() > 0 {
                let ghost before = out@;
                out.push(Filter { id: 0, name: string_of(&t) });
                assert(names_of(out@) =~= names_of(before).push(t@));
            }
            i = i + 1;
        }
        assert(seqs_of(pieces@).take(pieces.len() as int) =~= seqs_of(pieces@));
        out
    }

    /// The filter tag value for the filters: their names joined with `|`.
    pub fn filters_string(filters: &Vec<Filter>) -> (r: String)
        ensures
            r@ == join(names_of(filters@), '|'),
    {
        let mut names: Vec<Vec<char>> = Vec::new();
        let mut i: usize = 0;
        while i < filters.len()
            invariant
                i <= filters.len(),
                seqs_of(names@) == names_of(filters@).take(i as int),
            decreases filters.len() - i,
        {
            let ghost before = seqs_of(names@);
            names.push(chars_of(filters[i].name.as_str()));
            assert(seqs_of(names@) =~= before.push(filters@[i as int].name@));
            i = i + 1;
            assert(names_of(filters@).take(i as int) =~= before.push(filters@[i - 1].name@));
        }
        assert(names_of(filters@).take(filters.len() as int) =~= names_of(filters@));
        let joined = join_chars(&names, '|');
        string_of(&joined)
    }

    /// The record a file starts from before its tags are read: no title,
    /// artist, album, year or remixer, no duration, and the file's extension in
    /// lower case.
    pub fn blank_metadata(&self, file_path: &str) -> (r: SongMetadata)
        ensures
            r.title@ == Seq::<char>::empty(),
            r.artist@ == Seq::<char>::empty(),
            r.album is None,
            r.year is None,
            r.remix is None,
            r.duration == 0,
            r.path@ == file_path@,
            r.ext@ == lowercase_of(
                match path_extension(file_path@) {
                    Some(e) => e,
                    None => Seq::empty(),
                },
            ),
    {
        let ext = match extension_of(file_path) {
            Some(e) => chars_of(e.as_str()),
            None => Vec::new(),
        };
        let lowered = lowercase_chars(&ext);
        let path = string_of(&chars_of(file_path));
        SongMetadata {
            title: String::new(),
            artist: String::new(),
            album: None,
            year: None,
            path,
            duration: 0,
            remix: None,
            ext: string_of(&lowered),
        }
    }

    /// Fills a missing title or artist from the file name. When both are
    /// present the record is returned unchanged; otherwise the file name must
    /// give them, and only the missing ones are replaced.
    pub fn complete_with_fallback(&self, song: SongMetadata) -> (r: Result<
        SongMetadata,
        MetadataError,
    >)
        ensures
            song.title@.len() > 0 && song.artist@.len() > 0 ==> r == Ok::<
                SongMetadata,
                MetadataError,
            >(song),
            !(song.title@.len() > 0 && song.artist@.len() > 0) ==> match fallback_of(song.path@) {
                Err(e) => r == Err::<SongMetadata, MetadataError>(e),
                Ok((artist, title)) => r matches Ok(m) && m.title@ == (if song.title@.len() > 0 {
                    song.title@
                } else {
                    title
                }) && m.artist@ == (if song.artist@.len() > 0 {
                    song.artist@
                } else {
                    artist
                }) && m.album == song.album && m.year == song.year && m.path == song.path
                    && m.duration == song.duration && m.remix == song.remix && m.ext == song.ext,
            },
    {
        if !song.title.as_str().is_empty() && !song.artist.as_str().is_empty() {
            return Ok(song);
        }
        let fallback = match self.parse_filename_fallback(song.path.as_str()) {
            Ok(f) => f,
            Err(e) => {
                return Err(e);
            },
        };
        let mut song = song;
        if song.title.as_str().is_empty() {
            song.title = fallback.title;
        }
        if song.artist.as_str().is_empty() {
            song.artist = fallback.artist;
        }
        Ok(song)
    }

    /// The song record of a file's metadata: missing album, year and remixer
    /// become empty and zero, and the search blob is built from title, artist,
    /// album, year and remixer.
    pub fn song_from_metadata(
        &self,
        metadata: SongMetadata,
        file_size: i64,
        file_modified_millis: i64,
    ) -> (r: Song)
        ensures
            r.id == 0,
            r.title == metadata.title,
            r.artist == metadata.artist,
            r.album@ == string_or_empty(metadata.album),
            r.release_year == metadata.year.unwrap_or(0),
            r.remix@ == string_or_empty(metadata.remix),
            r.search_blob@ == search_blob_of(metadata_blob_parts(metadata)),
            r.file_path == metadata.path,
            r.duration == metadata.duration as i64,
            r.extension == metadata.ext,
            r.file_size == file_size,
            r.file_modified_millis == file_modified_millis,
    {
        let ghost m = metadata;
        let album = match metadata.album {
            Some(a) => a,
            None => String::new(),
        };
        let year = match metadata.year {
            Some(y) => y,
            None => 0,
        };
        let remix = match metadata.remix {
            Some(x) => x,
            None => String::new(),
        };
        let year_text = format_i32(year);
        let parts = [
            metadata.title.as_str(),
            metadata.artist.as_str(),
            album.as_str(),
            year_text.as_str(),
            remix.as_str(),
        ];
        proof {
            assert(crate::search_blob::str_views(parts@) =~= metadata_blob_parts(m));
        }
        let search_blob = build_search_blob(&parts);
        Song {
            id: 0,
            title: metadata.title,
            artist: metadata.artist,
            release_year: year,
            album,
            remix,
            search_blob,
            file_path: metadata.path,
            duration: metadata.duration as i64,
            extension: metadata.ext,
            file_size,
            file_modified_millis,
        }
    }
}


proof fn lemma_kept_names_identity(names: Seq<Seq<char>>)
    requires
        forall|k: int|
            0 <= k < names.len() ==> (#[trigger] names[k]).len() > 0 && trim(names[k]) == names[k],
    ensures
        kept_names(names) == names,
    decreases names.len(),
{
    if names.len() > 0 {
        let dl = names.drop_last();
        assert forall|k: int| 0 <= k < dl.len() implies (#[trigger] dl[k]).len() > 0 && trim(dl[k])
            == dl[k] by {
            assert(dl[k] == names[k]);
        }
        lemma_kept_names_identity(dl);
        assert(names.last() == names[names.len() - 1]);
        assert(dl.push(names.last()) =~= names);
    }
}

/// Writing filters to the filter tag and reading the tag back gives the same
/// names, for names that are non-empty, already trimmed and free of `|`.
pub proof fn lemma_filters_string_roundtrip(filters: Seq<Filter>)
    requires
        forall|k: int|
            0 <= k < filters.len() ==> {
                let n = (#[trigger] filters[k]).name@;
                &&& n.len() > 0
                &&& trim(n) == n
                &&& !n.contains('|')
            },
    ensures
        filter_names_of(join(names_of(filters), '|')) == names_of(filters),
{
    let names = names_of(filters);
    assert forall|k: int|
        0 <= k < names.len() implies (#[trigger] names[k]).len() > 0 && trim(names[k]) == names[k]
        && !names[k].contains('|') by {
        assert(names[k] == filters[k].name@);
    }
    if names.len() == 0 {
        assert(join(names, '|') =~= Seq::<char>::empty());
        let pieces = split(Seq::<char>::empty(), '|');
        assert(pieces =~= seq![Seq::<char>::empty()]);
        assert(pieces.drop_last() =~= Seq::<Seq<char>>::empty());
        assert(pieces.last() =~= Seq::<char>::empty());
        assert(trim_start(Seq::<char>::empty()) =~= Seq::<char>::empty());
        assert(trim_end(Seq::<char>::empty()) =~= Seq::<char>::empty());
        assert(trim(pieces.last()).len() == 0);
        assert(kept_names(pieces.drop_last()) =~= Seq::<Seq<char>>::empty());
        assert(kept_names(pieces) =~= Seq::<Seq<char>>::empty());
    } else {
        lemma_split_join(names, '|');
        lemma_kept_names_identity(names);
    }
}

/// The kept names are exactly the non-empty trimmed pieces: each kept name
/// is non-empty and the trim of some piece, and the trim of every piece that
/// is non-empty once trimmed is kept.
pub proof fn lemma_kept_names_are_trimmed_nonempty_pieces(pieces: Seq<Seq<char>>)
    ensures
        forall|x: Seq<char>|
            #[trigger] kept_names(pieces).contains(x) ==> x.len() > 0 && exists|i: int|
                0 <= i < pieces.len() && trim(#[trigger] pieces[i]) == x,
        forall|i: int|
            0 <= i < pieces.len() && trim(#[trigger] pieces[i]).len() > 0 ==> kept_names(pieces).contains(
                trim(pieces[i]),
            ),
    decreases pieces.len(),
{
    if pieces.len() > 0 {
        let init = pieces.drop_last();
        lemma_kept_names_are_trimmed_nonempty_pieces(init);
        let rest = kept_names(init);
        let t = trim(pieces.last());
        let out = kept_names(pieces);
        let n = pieces.len() - 1;
        assert forall|x: Seq<char>| #[trigger] out.contains(x) implies x.len() > 0 && exists|i: int|
            0 <= i < pieces.len() && trim(#[trigger] pieces[i]) == x by {
            let m = choose|m: int| 0 <= m < out.len() && out[m] == x;
            if m < rest.len() {
                assert(rest[m] == x);
                assert(rest.contains(x));
                let i = choose|i: int| 0 <= i < init.len() && trim(#[trigger] init[i]) == x;
                assert(pieces[i] == init[i]);
            } else {
                assert(x == t);
                assert(pieces[n] == pieces.last());
            }
        }
        assert forall|i: int|
            0 <= i < pieces.len() && trim(#[trigger] pieces[i]).len() > 0 implies out.contains(
                trim(pieces[i]),
            ) by {
            if i < n {
                assert(pieces[i] == init[i]);
                assert(rest.contains(trim(init[i])));
                let m = choose|m: int| 0 <= m < rest.len() && rest[m] == trim(init[i]);
                if t.len() > 0 {
                    assert(rest.push(t)[m] == trim(pieces[i]));
                }
            } else {
                assert(pieces[i] == pieces.last());
                assert(rest.push(t)[rest.len() as int] == t);
            }
        }
    }
}

} // verus!
