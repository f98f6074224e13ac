use music_backend::stream::{
    after_exists_check, after_read, begin_request, content_type_for, get_audio_url,
    resolve_request_path, ResponseBody, StreamAction, StreamResponse,
};

fn text_body(r: &StreamResponse) -> String {
    match &r.body {
        ResponseBody::Text(t) => t.clone(),
        ResponseBody::Bytes(_) => panic!("expected a text body"),
    }
}

fn header<'a>(r: &'a StreamResponse, name: &str) -> Option<&'a str> {
    r.headers.iter().find(|(n, _)| n == name).map(|(_, v)| v.as_str())
}

#[test]
fn missing_file_is_404() {
    let path = match begin_request("/audio-file", Some("path=%2Fno%2Fsuch%2Ffile.mp3")) {
        StreamAction::CheckExists(p) => p,
        other => panic!("unexpected {:?}", other),
    };
    assert_eq!(path, "/no/such/file.mp3");
    match after_exists_check(path, false) {
        StreamAction::Respond(r) => {
            assert_eq!(r.status, 404);
            assert_eq!(text_body(&r), "File not found");
        },
        other => panic!("unexpected {:?}", other),
    }
}

#[test]
fn existing_mp3_is_200_audio_mpeg() {
    let path = match begin_request("/audio-file", Some("path=/music/track.mp3")) {
        StreamAction::CheckExists(p) => p,
        other => panic!("unexpected {:?}", other),
    };
    let path = match after_exists_check(path, true) {
        StreamAction::ReadFile(p) => p,
        other => panic!("unexpected {:?}", other),
    };
    let r = after_read(&path, Ok(vec![0xff, 0xfb, 0x90]));
    assert_eq!(r.status, 200);
    assert_eq!(header(&r, "Content-Type"), Some("audio/mpeg"));
    assert_eq!(header(&r, "Access-Control-Allow-Origin"), Some("*"));
    assert_eq!(header(&r, "Access-Control-Allow-Methods"), Some("GET, HEAD, OPTIONS"));
    assert_eq!(header(&r, "Accept-Ranges"), Some("bytes"));
    assert_eq!(r.body, ResponseBody::Bytes(vec![0xff, 0xfb, 0x90]));
}

#[test]
fn no_path_is_400() {
    for (path, query) in [("/", None), ("/audio-file", Some("name=x.mp3")), ("/other", Some(""))] {
        match begin_request(path, query) {
            StreamAction::Respond(r) => {
                assert_eq!(r.status, 400);
                assert_eq!(text_body(&r), "Invalid request");
            },
            other => panic!("unexpected {:?}", other),
        }
    }
}

#[test]
fn path_segment_is_taken_as_is() {
    assert_eq!(
        resolve_request_path("/audio-file//music/a%20b.wav", Some("path=/ignored.mp3")),
        Some("/music/a%20b.wav".to_string())
    );
}

#[test]
fn first_path_parameter_is_decoded() {
    assert_eq!(
        resolve_request_path("/audio-file", Some("v=1&path=%2Fmusic%2Fa%20b+c.flac&path=/x")),
        Some("/music/a b+c.flac".to_string())
    );
}

#[test]
fn undecodable_path_is_400() {
    assert_eq!(resolve_request_path("/audio-file", Some("path=%FF")), None);
    match begin_request("/audio-file", Some("path=%FF")) {
        StreamAction::Respond(r) => assert_eq!(r.status, 400),
        other => panic!("unexpected {:?}", other),
    }
}

#[test]
fn read_failure_is_500() {
    let r = after_read("/music/a.flac", Err("permission denied".to_string()));
    assert_eq!(r.status, 500);
    assert_eq!(text_body(&r), "Failed to read file: permission denied");
}

#[test]
fn content_types_by_extension() {
    assert_eq!(content_type_for("/a/b.flac"), "audio/flac");
    assert_eq!(content_type_for("/a/b.mp3"), "audio/mpeg");
    assert_eq!(content_type_for("/a/b.m4a"), "audio/mp4");
    assert_eq!(content_type_for("/a/b.wav"), "audio/wav");
    assert_eq!(content_type_for("/a/b.ogg"), "audio/flac");
    assert_eq!(content_type_for("/a/b.MP3"), "audio/flac");
}

#[test]
fn audio_url_encodes_path() {
    assert_eq!(
        get_audio_url("/music/a b&c.mp3", true),
        Ok("http://localhost:36521/audio-file?path=%2Fmusic%2Fa%20b%26c.mp3".to_string())
    );
}

#[test]
fn audio_url_round_trips_through_resolution() {
    let url = match get_audio_url("/music/Ünïcode & more.flac", true) {
        Ok(u) => u,
        Err(e) => panic!("no url: {}", e),
    };
    let query = url.split_once('?').map(|(_, q)| q.to_string());
    assert_eq!(
        resolve_request_path("/audio-file", query.as_deref()),
        Some("/music/Ünïcode & more.flac".to_string())
    );
}

#[test]
fn audio_url_for_missing_file() {
    assert_eq!(get_audio_url("/nope.mp3", false), Err("File does not exist".to_string()));
}
