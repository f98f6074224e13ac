use music_backend::lyrics::LyricLine;
use music_backend::tags::{
    metadata_from_tag_fields, parse_audio_metadata, pick_tag_fields, CoverArt, MetadataError,
    TagField,
};

fn field(key: &str, text: &str) -> TagField {
    TagField { key: key.to_string(), text: Some(text.to_string()) }
}

/// A mono 16-bit PCM WAV file at 8000 Hz holding one second of silence and no tags.
fn silent_wav() -> Vec<u8> {
    let data_len: u32 = 16000;
    let mut b = Vec::new();
    b.extend_from_slice(b"RIFF");
    b.extend_from_slice(&(36 + data_len).to_le_bytes());
    b.extend_from_slice(b"WAVE");
    b.extend_from_slice(b"fmt ");
    b.extend_from_slice(&16u32.to_le_bytes());
    b.extend_from_slice(&1u16.to_le_bytes());
    b.extend_from_slice(&1u16.to_le_bytes());
    b.extend_from_slice(&8000u32.to_le_bytes());
    b.extend_from_slice(&16000u32.to_le_bytes());
    b.extend_from_slice(&2u16.to_le_bytes());
    b.extend_from_slice(&16u16.to_le_bytes());
    b.extend_from_slice(b"data");
    b.extend_from_slice(&data_len.to_le_bytes());
    b.extend(std::iter::repeat(0u8).take(data_len as usize));
    b
}

#[test]
fn no_tags_fall_back() {
    let m = metadata_from_tag_fields(Some("song".to_string()), 0, &vec![], None);
    assert_eq!(m.title, "song");
    assert_eq!(m.artist, "Unknown Artist");
    assert_eq!(m.album, "Unknown Album");
    assert_eq!(m.lyrics, "");
    assert_eq!(m.synced_lyrics, None);
    assert_eq!(m.cover_data, None);
    assert_eq!(m.cover_mime, None);
}

#[test]
fn untagged_wav_file() {
    let m = match parse_audio_metadata("/music/My Song.wav", &silent_wav()) {
        Ok(m) => m,
        Err(e) => panic!("not parsed: {:?}", e),
    };
    assert_eq!(m.title, "My Song");
    assert_eq!(m.artist, "Unknown Artist");
    assert_eq!(m.album, "Unknown Album");
    assert_eq!(m.duration_ms, 1000);
    assert_eq!(m.lyrics, "");
    assert_eq!(m.synced_lyrics, None);
    assert_eq!(m.cover_data, None);
    assert_eq!(m.cover_mime, None);
}

#[test]
fn unknown_extension_is_unreadable() {
    let r = parse_audio_metadata("/music/notes.txt", &silent_wav());
    assert!(matches!(r, Err(MetadataError::UnreadableContainer(_))));
}

#[test]
fn corrupt_container_is_unreadable() {
    let r = parse_audio_metadata("/music/broken.wav", b"RIFF\x00\x00");
    assert!(matches!(r, Err(MetadataError::UnreadableContainer(_))));
}

#[test]
fn fields_fill_roles() {
    let fields = vec![
        field("TrackTitle", "The Song"),
        field("AlbumTitle", "The Album"),
        field("TrackArtist", "The Band"),
        field("UnsyncLyrics", "[00:01]La la"),
    ];
    let m = metadata_from_tag_fields(Some("file".to_string()), 42, &fields, None);
    assert_eq!(m.title, "The Song");
    assert_eq!(m.album, "The Album");
    assert_eq!(m.artist, "The Band");
    assert_eq!(m.duration_ms, 42);
    assert_eq!(m.lyrics, "La la");
    assert_eq!(
        m.synced_lyrics,
        Some(vec![LyricLine { time_ms: 1000, text: "La la".to_string() }])
    );
}

#[test]
fn first_match_wins_ignoring_case() {
    let fields = vec![
        TagField { key: "Comment".to_string(), text: None },
        field("TITLE", "First"),
        field("TrackTitle", "Second"),
        field("uslt", "words"),
        field("Lyrics", "other words"),
    ];
    let (title, artist, album, lyrics) = pick_tag_fields(&fields);
    assert_eq!(title, "First");
    assert_eq!(artist, "");
    assert_eq!(album, "");
    assert_eq!(lyrics, "words");
}

#[test]
fn field_without_text_is_skipped() {
    let fields = vec![
        TagField { key: "TrackTitle".to_string(), text: None },
        field("TrackTitle", "Named"),
    ];
    let (title, _, _, _) = pick_tag_fields(&fields);
    assert_eq!(title, "Named");
}

#[test]
fn empty_title_field_leaves_role_open() {
    let fields = vec![field("TrackTitle", ""), field("TrackTitleSortOrder", "Sorted")];
    let (title, _, _, _) = pick_tag_fields(&fields);
    assert_eq!(title, "Sorted");
}

#[test]
fn cover_is_base64() {
    let cover = CoverArt { data: vec![1, 2, 3, 250], mime: Some("image/png".to_string()) };
    let m = metadata_from_tag_fields(None, 0, &vec![], Some(cover));
    assert_eq!(m.cover_data, Some("AQID+g==".to_string()));
    assert_eq!(m.cover_mime, Some("image/png".to_string()));
    assert_eq!(m.title, "");
}

#[test]
fn cover_without_mime() {
    let cover = CoverArt { data: vec![255], mime: None };
    let m = metadata_from_tag_fields(None, 0, &vec![], Some(cover));
    assert_eq!(m.cover_data, Some("/w==".to_string()));
    assert_eq!(m.cover_mime, None);
}

#[test]
fn stem_of_dotted_name() {
    let m = match parse_audio_metadata("/music/live.2020.wav", &silent_wav()) {
        Ok(m) => m,
        Err(e) => panic!("not parsed: {:?}", e),
    };
    assert_eq!(m.title, "live.2020");
}
