//! The local audio-streaming responder, as decisions between the steps that
//! touch the filesystem: resolve the request to a path, check that it exists,
//! read it, and answer with a status, headers and a body. Also the URL under
//! which the responder serves a file.
use vstd::prelude::*;
use crate::text::{
    chars_of, ends_with, find_from, has_prefix, has_suffix, lemma_split_on_piece,
    opt_string_view, prefix_at, push_all, split_on, string_of,
};

verus! {

/// What `urlencoding::decode` makes of `s`: `None` where the decoded bytes are
/// not UTF-8.
pub uninterp spec fn url_decoded(s: Seq<char>) -> Option<Seq<char>>;

/// What `urlencoding::encode` makes of `s`.
pub uninterp spec fn url_encoded(s: Seq<char>) -> Seq<char>;

/// Relies on `urlencoding::decode`: percent-escapes are decoded, `+` is kept;
/// a text without `%` comes back as it is.
#[verifier::external_body]
fn url_decode(s: &str) -> (r: Option<String>)
    ensures
        opt_string_view(r) == url_decoded(s@),
        !s@.contains('%') ==> opt_string_view(r) == Some(s@),
{
    urlencoding::decode(s).ok().map(|d| d.into_owned())
}

/// Relies on `urlencoding::encode`: every byte of the UTF-8 form but ASCII
/// letters, digits and `-_.~` is percent-encoded.
#[verifier::external_body]
fn url_encode(s: &str) -> (r: String)
    ensures
        r@ == url_encoded(s@),
{
    urlencoding::encode(s).into_owned()
}

/// The path under which a file is named directly.
pub open spec fn path_segment_prefix() -> Seq<char> {
    "/audio-file/"@
}

/// The start of the query parameter that names a file.
pub open spec fn path_param_prefix() -> Seq<char> {
    "path="@
}

/// The value of the first `path=` parameter among the query's pieces.
pub open spec fn first_path_param(pieces: Seq<Seq<char>>) -> Option<Seq<char>>
    decreases pieces.len(),
{
    if pieces.len() == 0 {
        None
    } else if has_prefix(pieces[0], path_param_prefix()) {
        Some(pieces[0].subrange(path_param_prefix().len() as int, pieces[0].len() as int))
    } else {
        first_path_param(pieces.drop_first())
    }
}

/// The file that a request names: the rest of a path under `/audio-file/`, or
/// else the URL-decoded value of the query's first `path` parameter.
pub open spec fn resolve_path(path: Seq<char>, query: Option<Seq<char>>) -> Option<Seq<char>> {
    if has_prefix(path, path_segment_prefix()) {
        Some(path.subrange(path_segment_prefix().len() as int, path.len() as int))
    } else {
        match query {
            Some(q) => match first_path_param(split_on(q, '&')) {
                Some(v) => url_decoded(v),
                None => None,
            },
            None => None,
        }
    }
}

/// An optional `str` as characters.
pub open spec fn opt_str_view(o: Option<&str>) -> Option<Seq<char>> {
    match o {
        Some(s) => Some(s@),
        None => None,
    }
}

/// The file that a request for `uri_path` with query `query` names.
pub fn resolve_request_path(uri_path: &str, query: Option<&str>) -> (r: Option<String>)
    ensures
        opt_string_view(r) == resolve_path(uri_path@, opt_str_view(query)),
{
    let p = chars_of(uri_path);
    proof {
        reveal_strlit("/audio-file/");
        reveal_strlit("path=");
    }
    assert(p@.subrange(0, p@.len() as int) =~= p@);
    if prefix_at(&p, 0, p.len(), "/audio-file/") {
        return Some(string_of(&p, 12, p.len()));
    }
    let q = match query {
        Some(q) => chars_of(q),
        None => {
            return None;
        },
    };
    let len = q.len();
    let mut start: usize = 0;
    assert(q@.subrange(0, len as int) =~= q@);
    assert("path="@ =~= seq!['p', 'a', 't', 'h', '=']);
    loop
        invariant
            start <= len == q@.len(),
            "path="@ == seq!['p', 'a', 't', 'h', '='],
            p@ == uri_path@,
            !has_prefix(p@, path_segment_prefix()),
            opt_str_view(query) == Some(q@),
            first_path_param(split_on(q@, '&')) == first_path_param(
                split_on(q@.subrange(start as int, len as int), '&'),
            ),
        decreases len - start,
    {
        let end = find_from(&q, start, '&');
        proof {
            lemma_split_on_piece(q@, '&', start as int, end as int);
        }
        let ghost piece = q@.subrange(start as int, end as int);
        let ghost rest: Seq<Seq<char>> = if end < len {
            split_on(q@.subrange(end + 1, len as int), '&')
        } else {
            Seq::empty()
        };
        assert((seq![piece] + rest).drop_first() =~= rest);
        assert((seq![piece] + rest)[0] == piece);
        if prefix_at(&q, start, end, "path=") {
            let v = string_of(&q, start + 5, end);
            assert(v@ =~= piece.subrange(5, piece.len() as int));
            return url_decode(v.as_str());
        }
        assert(first_path_param(seq![piece] + rest) == first_path_param(rest));
        if end == len {
            assert(first_path_param(rest) is None);
            return None;
        }
        start = end + 1;
    }
}

/// The content type of a file, by its extension; FLAC where it is not known.
pub open spec fn content_type_of(path: Seq<char>) -> Seq<char> {
    if has_suffix(path, ".flac"@) {
        "audio/flac"@
    } else if has_suffix(path, ".mp3"@) {
        "audio/mpeg"@
    } else if has_suffix(path, ".m4a"@) {
        "audio/mp4"@
    } else if has_suffix(path, ".wav"@) {
        "audio/wav"@
    } else {
        "audio/flac"@
    }
}

/// The content type served for a file, from its extension; FLAC where the
/// extension is not known.
pub fn content_type_for(file_path: &str) -> (r: String)
    ensures
        r@ == content_type_of(file_path@),
{
    let p = chars_of(file_path);
    if ends_with(&p, ".flac") {
        "audio/flac".to_owned()
    } else if ends_with(&p, ".mp3") {
        "audio/mpeg".to_owned()
    } else if ends_with(&p, ".m4a") {
        "audio/mp4".to_owned()
    } else if ends_with(&p, ".wav") {
        "audio/wav".to_owned()
    } else {
        "audio/flac".to_owned()
    }
}

/// The body of a response.
#[derive(Clone, Debug, PartialEq)]
pub enum ResponseBody {
    Text(String),
    Bytes(Vec<u8>),
}

/// A response of the responder.
#[derive(Clone, Debug, PartialEq)]
pub struct StreamResponse {
    pub status: u16,
    pub headers: Vec<(String, String)>,
    pub body: ResponseBody,
}

/// What the responder does next.
#[derive(Clone, Debug, PartialEq)]
pub enum StreamAction {
    /// Check whether the file exists, then call `after_exists_check`.
    CheckExists(String),
    /// Read the whole file, then call `after_read`.
    ReadFile(String),
    /// Send this response; the request is done.
    Respond(StreamResponse),
}

/// Headers as (name, value) pairs of characters.
pub open spec fn headers_view(h: Seq<(String, String)>) -> Seq<(Seq<char>, Seq<char>)> {
    h.map_values(|p: (String, String)| (p.0@, p.1@))
}

/// Whether `r` is a response with status `status`, no headers, and the text
/// body `text`.
pub open spec fn is_text_response(r: StreamResponse, status: u16, text: Seq<char>) -> bool {
    &&& r.status == status
    &&& r.headers@.len() == 0
    &&& r.body matches ResponseBody::Text(t) && t@ == text
}

/// The headers of a served file: its content type, cross-origin access for
/// any origin, and the byte-range declaration.
pub open spec fn audio_headers(content_type: Seq<char>) -> Seq<(Seq<char>, Seq<char>)> {
    seq![
        ("Content-Type"@, content_type),
        ("Access-Control-Allow-Origin"@, "*"@),
        ("Access-Control-Allow-Methods"@, "GET, HEAD, OPTIONS"@),
        ("Accept-Ranges"@, "bytes"@),
    ]
}

fn text_response(status: u16, text: String) -> (r: StreamResponse)
    ensures
        is_text_response(r, status, text@),
{
    StreamResponse { status, headers: Vec::new(), body: ResponseBody::Text(text) }
}

/// The first step for a request: where it names a file, check that the file
/// exists; where it names none, answer 400.
pub fn begin_request(uri_path: &str, query: Option<&str>) -> (r: StreamAction)
    ensures
        resolve_path(uri_path@, opt_str_view(query)) matches Some(p) ==> (r matches StreamAction::CheckExists(f) && f@ == p),
        resolve_path(uri_path@, opt_str_view(query)) is None ==> (r matches StreamAction::Respond(resp)
            && is_text_response(resp, 400, "Invalid request"@)),
{
    match resolve_request_path(uri_path, query) {
        Some(p) => StreamAction::CheckExists(p),
        None => StreamAction::Respond(text_response(400, "Invalid request".to_owned())),
    }
}

/// The step after the existence check: read an existing file; answer 404 for
/// a missing one.
pub fn after_exists_check(file_path: String, exists: bool) -> (r: StreamAction)
    ensures
        exists ==> (r matches StreamAction::ReadFile(f) && f@ == file_path@),
        !exists ==> (r matches StreamAction::Respond(resp) && is_text_response(
            resp,
            404,
            "File not found"@,
        )),
{
    if exists {
        StreamAction::ReadFile(file_path)
    } else {
        StreamAction::Respond(text_response(404, "File not found".to_owned()))
    }
}

/// The response once the file has been read: 200 with its bytes, its content
/// type and the cross-origin headers; or 500 with the reason the read failed.
pub fn after_read(file_path: &str, read: Result<Vec<u8>, String>) -> (r: StreamResponse)
    ensures
        read matches Ok(data) ==> {
            &&& r.status == 200
            &&& headers_view(r.headers@) == audio_headers(content_type_of(file_path@))
            &&& r.body matches ResponseBody::Bytes(b) && b@ == data@
        },
        read matches Err(e) ==> is_text_response(r, 500, "Failed to read file: "@ + e@),
{
    match read {
        Ok(data) => {
            let mut headers: Vec<(String, String)> = Vec::new();
            headers.push(("Content-Type".to_owned(), content_type_for(file_path)));
            headers.push(("Access-Control-Allow-Origin".to_owned(), "*".to_owned()));
            headers.push(
                ("Access-Control-Allow-Methods".to_owned(), "GET, HEAD, OPTIONS".to_owned()),
            );
            headers.push(("Accept-Ranges".to_owned(), "bytes".to_owned()));
            assert(headers_view(headers@) =~= audio_headers(content_type_of(file_path@)));
            StreamResponse { status: 200, headers, body: ResponseBody::Bytes(data) }
        },
        Err(e) => {
            let mut text = "Failed to read file: ".to_owned();
            push_all(&mut text, &chars_of(e.as_str()));
            text_response(500, text)
        },
    }
}

/// The start of every URL that the responder serves a file under.
pub open spec fn audio_url_prefix() -> Seq<char> {
    "http://localhost:36521/audio-file?path="@
}

/// The URL under which the responder serves an existing file: its path,
/// URL-encoded, as the `path` query parameter. A missing file has none.
pub fn get_audio_url(file_path: &str, exists: bool) -> (r: Result<String, String>)
    ensures
        exists ==> (r matches Ok(u) && u@ == audio_url_prefix() + url_encoded(file_path@)),
        !exists ==> (r matches Err(e) && e@ == "File does not exist"@),
{
    if !exists {
        return Err("File does not exist".to_owned());
    }
    let encoded = url_encode(file_path);
    let mut url = "http://localhost:36521/audio-file?path=".to_owned();
    push_all(&mut url, &chars_of(encoded.as_str()));
    Ok(url)
}

} // verus!
