//! Extracted audio metadata: which tag field fills which role, the fallbacks
//! for missing values, and the reading of a container through lofty.
use vstd::prelude::*;
use crate::lyrics::{parse_lrc_lyrics, plain_text, synced_timeline, LyricLine, opt_timeline_view};
use crate::text::{chars_of, contains_ci, contains_ignoring_case, opt_string_view};
use base64::Engine;
use lofty::file::{AudioFile, FileType, TaggedFile, TaggedFileExt};
use lofty::probe::Probe;
use lofty::tag::Tag;

verus! {

/// A field of a tag block: its identifier, and its value when that is text.
#[derive(Clone, Debug, PartialEq)]
pub struct TagField {
    pub key: String,
    pub text: Option<String>,
}

/// An embedded picture: its bytes and its declared mime type.
#[derive(Clone, Debug, PartialEq)]
pub struct CoverArt {
    pub data: Vec<u8>,
    pub mime: Option<String>,
}

/// The metadata extracted from an audio file. Times are in milliseconds; the
/// cover's bytes are base64 text.
#[derive(Clone, Debug, PartialEq)]
pub struct ExtractedMetadata {
    pub title: String,
    pub artist: String,
    pub album: String,
    pub duration_ms: u64,
    pub lyrics: String,
    pub synced_lyrics: Option<Vec<LyricLine>>,
    pub cover_data: Option<String>,
    pub cover_mime: Option<String>,
}

/// What an `ExtractedMetadata` holds, as mathematical values.
pub struct MetadataModel {
    pub title: Seq<char>,
    pub artist: Seq<char>,
    pub album: Seq<char>,
    pub duration_ms: u64,
    pub lyrics: Seq<char>,
    pub synced_lyrics: Option<Seq<(u64, Seq<char>)>>,
    pub cover_data: Option<Seq<char>>,
    pub cover_mime: Option<Seq<char>>,
}

impl View for ExtractedMetadata {
    type V = MetadataModel;

    open spec fn view(&self) -> MetadataModel {
        MetadataModel {
            title: self.title@,
            artist: self.artist@,
            album: self.album@,
            duration_ms: self.duration_ms,
            lyrics: self.lyrics@,
            synced_lyrics: opt_timeline_view(self.synced_lyrics),
            cover_data: opt_string_view(self.cover_data),
            cover_mime: opt_string_view(self.cover_mime),
        }
    }
}

/// The values picked from a tag block for each role.
pub struct FieldPicks {
    pub title: Seq<char>,
    pub artist: Seq<char>,
    pub album: Seq<char>,
    pub lyrics: Seq<char>,
}

/// The role names that field identifiers are matched against.
pub open spec fn title_key() -> Seq<char> {
    seq!['t', 'i', 't', 'l', 'e']
}

pub open spec fn artist_key() -> Seq<char> {
    seq!['a', 'r', 't', 'i', 's', 't']
}

pub open spec fn album_key() -> Seq<char> {
    seq!['a', 'l', 'b', 'u', 'm']
}

pub open spec fn lyrics_key() -> Seq<char> {
    seq!['l', 'y', 'r', 'i', 'c', 's']
}

pub open spec fn uslt_key() -> Seq<char> {
    seq!['u', 's', 'l', 't']
}

/// One field applied to the picks so far. The roles are tried in the order
/// title, artist, album, lyrics; a field fills the first role whose name its
/// identifier holds (ignoring case) and that is still empty.
pub open spec fn pick_field(p: FieldPicks, key: Seq<char>, text: Seq<char>) -> FieldPicks {
    if contains_ci(key, title_key()) && p.title.len() == 0 {
        FieldPicks { title: text, ..p }
    } else if contains_ci(key, artist_key()) && p.artist.len() == 0 {
        FieldPicks { artist: text, ..p }
    } else if contains_ci(key, album_key()) && p.album.len() == 0 {
        FieldPicks { album: text, ..p }
    } else if (contains_ci(key, lyrics_key()) || contains_ci(key, uslt_key())) && p.lyrics.len()
        == 0 {
        FieldPicks { lyrics: text, ..p }
    } else {
        p
    }
}

/// The picks of a tag block's fields, taken in order; fields without text are
/// passed over.
pub open spec fn pick_fields(fs: Seq<TagField>) -> FieldPicks
    decreases fs.len(),
{
    if fs.len() == 0 {
        FieldPicks {
            title: Seq::empty(),
            artist: Seq::empty(),
            album: Seq::empty(),
            lyrics: Seq::empty(),
        }
    } else {
        let p = pick_fields(fs.drop_last());
        match fs.last().text {
            Some(t) => pick_field(p, fs.last().key@, t@),
            None => p,
        }
    }
}

/// The picks of `fields`, in the order title, artist, album, lyrics.
pub fn pick_tag_fields(fields: &Vec<TagField>) -> (r: (String, String, String, String))
    ensures
        r.0@ == pick_fields(fields@).title,
        r.1@ == pick_fields(fields@).artist,
        r.2@ == pick_fields(fields@).album,
        r.3@ == pick_fields(fields@).lyrics,
{
    let mut title = String::new();
    let mut artist = String::new();
    let mut album = String::new();
    let mut lyrics = String::new();
    let mut i: usize = 0;
    proof {
        reveal_strlit("title");
        reveal_strlit("artist");
        reveal_strlit("album");
        reveal_strlit("lyrics");
        reveal_strlit("uslt");
    }
    assert("title"@ =~= title_key());
    assert("artist"@ =~= artist_key());
    assert("album"@ =~= album_key());
    assert("lyrics"@ =~= lyrics_key());
    assert("uslt"@ =~= uslt_key());
    while i < fields.len()
        invariant
            i <= fields@.len(),
            "title"@ == title_key(),
            "artist"@ == artist_key(),
            "album"@ == album_key(),
            "lyrics"@ == lyrics_key(),
            "uslt"@ == uslt_key(),
            title@ == pick_fields(fields@.take(i as int)).title,
            artist@ == pick_fields(fields@.take(i as int)).artist,
            album@ == pick_fields(fields@.take(i as int)).album,
            lyrics@ == pick_fields(fields@.take(i as int)).lyrics,
        decreases fields@.len() - i,
    {
        assert(fields@.take(i + 1).drop_last() =~= fields@.take(i as int));
        assert(fields@.take(i + 1).last() == fields@[i as int]);
        let field = &fields[i];
        match &field.text {
            Some(text) => {
                let key = chars_of(field.key.as_str());
                assert(pick_fields(fields@.take(i + 1)) == pick_field(
                    pick_fields(fields@.take(i as int)),
                    key@,
                    text@,
                ));
                if contains_ignoring_case(&key, "title") && title.as_str().is_empty() {
                    title = text.clone();
                } else if contains_ignoring_case(&key, "artist") && artist.as_str().is_empty() {
                    artist = text.clone();
                } else if contains_ignoring_case(&key, "album") && album.as_str().is_empty() {
                    album = text.clone();
                } else if (contains_ignoring_case(&key, "lyrics") || contains_ignoring_case(
                    &key,
                    "uslt",
                )) && lyrics.as_str().is_empty() {
                    lyrics = text.clone();
                }
            },
            None => {},
        }
        i = i + 1;
    }
    assert(fields@.take(i as int) =~= fields@);
    (title, artist, album, lyrics)
}

/// What `base64`'s standard engine (with padding) makes of the bytes `b`.
pub uninterp spec fn base64_of(b: Seq<u8>) -> Seq<char>;

/// Relies on `base64::engine::general_purpose::STANDARD.encode`: the standard
/// alphabet with padding; the text depends on the bytes alone.
#[verifier::external_body]
fn encode_base64(b: &[u8]) -> (r: String)
    ensures
        r@ == base64_of(b@),
{
    base64::engine::general_purpose::STANDARD.encode(b)
}

/// What `std::path::Path::file_stem` gives for the path `p`: its final
/// component without the extension, if it has a final component.
pub uninterp spec fn path_stem(p: Seq<char>) -> Option<Seq<char>>;

/// Relies on `std::path::Path::file_stem`; a stem of a `str` path is valid
/// UTF-8, so the lossy conversion keeps it whole.
#[verifier::external_body]
fn file_stem(path: &str) -> (r: Option<String>)
    ensures
        opt_string_view(r) == path_stem(path@),
{
    std::path::Path::new(path).file_stem().map(|s| s.to_string_lossy().to_string())
}

/// The artist of a file whose tags name none.
pub open spec fn unknown_artist() -> Seq<char> {
    "Unknown Artist"@
}

/// The album of a file whose tags name none.
pub open spec fn unknown_album() -> Seq<char> {
    "Unknown Album"@
}

/// The metadata made of a file's stem, its duration, the fields of its first
/// tag block and its first picture.
pub open spec fn metadata_model(
    stem: Option<Seq<char>>,
    duration_ms: u64,
    fields: Seq<TagField>,
    cover: Option<CoverArt>,
) -> MetadataModel {
    let p = pick_fields(fields);
    MetadataModel {
        title: if p.title.len() > 0 {
            p.title
        } else {
            match stem {
                Some(s) => s,
                None => Seq::empty(),
            }
        },
        artist: if p.artist.len() > 0 {
            p.artist
        } else {
            unknown_artist()
        },
        album: if p.album.len() > 0 {
            p.album
        } else {
            unknown_album()
        },
        duration_ms,
        lyrics: if p.lyrics.len() > 0 {
            plain_text(p.lyrics)
        } else {
            Seq::empty()
        },
        synced_lyrics: if p.lyrics.len() > 0 {
            synced_timeline(p.lyrics)
        } else {
            None
        },
        cover_data: match cover {
            Some(c) => Some(base64_of(c.data@)),
            None => None,
        },
        cover_mime: match cover {
            Some(c) => opt_string_view(c.mime),
            None => None,
        },
    }
}

/// The metadata of a file from its stem (`None` where the path has no final
/// component), its duration, the fields of its first tag block and its first
/// picture. Empty picks fall back: the title to the stem, the artist to
/// "Unknown Artist", the album to "Unknown Album"; lyrics are decoded.
pub fn metadata_from_tag_fields(
    stem: Option<String>,
    duration_ms: u64,
    fields: &Vec<TagField>,
    cover: Option<CoverArt>,
) -> (r: ExtractedMetadata)
    ensures
        r@ == metadata_model(opt_string_view(stem), duration_ms, fields@, cover),
{
    let (picked_title, picked_artist, picked_album, picked_lyrics) = pick_tag_fields(fields);
    let title = if !picked_title.as_str().is_empty() {
        picked_title
    } else {
        match stem {
            Some(s) => s,
            None => String::new(),
        }
    };
    let artist = if !picked_artist.as_str().is_empty() {
        picked_artist
    } else {
        "Unknown Artist".to_owned()
    };
    let album = if !picked_album.as_str().is_empty() {
        picked_album
    } else {
        "Unknown Album".to_owned()
    };
    let (lyrics, synced_lyrics) = if !picked_lyrics.as_str().is_empty() {
        parse_lrc_lyrics(picked_lyrics.as_str())
    } else {
        (String::new(), None)
    };
    let (cover_data, cover_mime) = match cover {
        Some(c) => (Some(encode_base64(c.data.as_slice())), c.mime),
        None => (None, None),
    };
    ExtractedMetadata {
        title,
        artist,
        album,
        duration_ms,
        lyrics,
        synced_lyrics,
        cover_data,
        cover_mime,
    }
}

#[verifier::external_type_specification]
#[verifier::external_body]
pub struct ExTaggedFile(TaggedFile);

#[verifier::external_type_specification]
#[verifier::external_body]
pub struct ExTag(Tag);

#[verifier::external_type_specification]
#[verifier::external_body]
pub struct ExFileType(FileType);

/// Why metadata could not be extracted from a file.
#[derive(Clone, Debug, PartialEq)]
pub enum MetadataError {
    /// The path does not name an existing file.
    NotFound,
    /// The container is corrupt, or of a format that cannot be read.
    UnreadableContainer(String),
    /// The file exists but could not be read.
    IoFailure(String),
}

/// Relies on `lofty::file::FileType::from_path`: the container format that the
/// path's extension names, if any.
#[verifier::external_body]
fn container_type(path: &str) -> (r: Option<FileType>) {
    FileType::from_path(path)
}

/// Relies on `lofty::probe::Probe::with_file_type` and `Probe::read`: parses the
/// container held in `bytes` as a file of format `ty`; a failure is given as
/// its message.
#[verifier::external_body]
fn read_container(bytes: &[u8], ty: FileType) -> (r: Result<TaggedFile, String>) {
    Probe::with_file_type(std::io::Cursor::new(bytes), ty).read().map_err(|e| e.to_string())
}

/// Relies on `lofty::file::AudioFile::properties` and
/// `FileProperties::duration`: the audio length that the container's
/// properties give, in whole milliseconds.
#[verifier::external_body]
fn duration_millis(file: &TaggedFile) -> (r: u128) {
    file.properties().duration().as_millis()
}

/// Relies on `lofty::file::TaggedFileExt::first_tag`: the first tag block of
/// the file, if it has any.
#[verifier::external_body]
fn first_tag(file: &TaggedFile) -> (r: Option<&Tag>) {
    file.first_tag()
}

/// Relies on `lofty::tag::Tag::items`, `TagItem::key` (named by its `Debug`
/// form), `TagItem::value` and `ItemValue::text`: each item of the block, in
/// order.
#[verifier::external_body]
fn tag_fields(tag: &Tag) -> (r: Vec<TagField>) {
    tag.items().map(
        |item| TagField {
            key: format!("{:?}", item.key()),
            text: item.value().text().map(|t| t.to_string()),
        },
    ).collect()
}

/// Relies on `lofty::tag::Tag::pictures`, `Picture::data`, `Picture::mime_type`
/// and `MimeType`'s `Display`: the first picture of the block, if any.
#[verifier::external_body]
fn first_picture(tag: &Tag) -> (r: Option<CoverArt>) {
    tag.pictures().first().map(
        |p| CoverArt { data: p.data().to_vec(), mime: p.mime_type().map(|m| m.to_string()) },
    )
}

/// Extracts the metadata of the audio file at `file_path`, whose bytes are
/// `contents`. The container format follows the path's extension; the
/// duration comes from the container's audio properties, the other values
/// from its first tag block, as `metadata_from_tag_fields` states.
pub fn parse_audio_metadata(file_path: &str, contents: &[u8]) -> (r: Result<
    ExtractedMetadata,
    MetadataError,
>)
    ensures
        r matches Err(e) ==> e is UnreadableContainer,
        r matches Ok(m) ==> exists|d: u64, fields: Seq<TagField>, cover: Option<CoverArt>|
            m@ == #[trigger] metadata_model(path_stem(file_path@), d, fields, cover),
{
    let ty = match container_type(file_path) {
        Some(t) => t,
        None => {
            return Err(MetadataError::UnreadableContainer("unrecognised file extension".to_owned()));
        },
    };
    let file = match read_container(contents, ty) {
        Ok(f) => f,
        Err(e) => {
            return Err(MetadataError::UnreadableContainer(e));
        },
    };
    let millis = duration_millis(&file);
    let duration_ms: u64 = if millis > u64::MAX as u128 {
        u64::MAX
    } else {
        millis as u64
    };
    let (fields, cover) = match first_tag(&file) {
        Some(tag) => (tag_fields(tag), first_picture(tag)),
        None => (Vec::new(), None),
    };
    let ghost picture = cover;
    let m = metadata_from_tag_fields(file_stem(file_path), duration_ms, &fields, cover);
    assert(m@ == metadata_model(path_stem(file_path@), duration_ms, fields@, picture));
    Ok(m)
}

} // verus!
