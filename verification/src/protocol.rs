//! Serving widget files through the `widget://` protocol.

use vstd::prelude::*;
use crate::text::{chars_of, string_of, trim_start_char, trim_start_char_bound};

verus! {

/// The path below the widgets directory that a `widget://` request asks
/// for: the request's path without its leading slashes.
pub fn protocol_relative_path(uri_path: &str) -> (r: String)
    ensures
        r@ == trim_start_char(uri_path@, '/'),
{
    let v = chars_of(uri_path);
    assert(v@.subrange(0, v@.len() as int) == v@);
    let b = trim_start_char_bound(&v, 0, v.len(), '/');
    string_of(&v, b, v.len())
}

/// The media type `mime_guess` gives a file at `path`.
pub uninterp spec fn guessed_mime(path: Seq<char>) -> Seq<char>;

/// The media type of a file by its extension: `mime_guess::from_path`
/// followed by `first_or_octet_stream`. The result is named, not described:
/// the table of extensions is not restated here. A path without any dot
/// has no extension, and gets `application/octet-stream`.
#[verifier::external_body]
fn mime_for_path(path: &str) -> (r: String)
    ensures
        r@ == guessed_mime(path@),
        !path@.contains('.') ==> r@ == "application/octet-stream"@,
{
    mime_guess::from_path(path).first_or_octet_stream().to_string()
}

/// What looking up a requested file found.
#[derive(Debug, Clone, PartialEq, Eq)]
pub enum FileLookup {
    /// No file is at the requested path.
    Missing,
    /// The file is there but could not be read; the reason.
    Unreadable(String),
    /// The file's contents.
    Contents(Vec<u8>),
}

/// The answer to a `widget://` request.
#[derive(Debug, Clone, PartialEq, Eq)]
pub struct ProtocolResponse {
    pub status: u16,
    pub content_type: Option<String>,
    pub body: Vec<u8>,
}

/// The answer to a request for the file at `file_path`: `404` with no body
/// when it is missing, `500` with no body when it cannot be read, else `200`
/// with its contents and the media type its extension gives.
pub fn widget_protocol_response(file_path: &str, file: FileLookup) -> (r: ProtocolResponse)
    ensures
        file is Missing ==> r.status == 404 && r.content_type is None && r.body@.len() == 0,
        file is Unreadable ==> r.status == 500 && r.content_type is None && r.body@.len() == 0,
        file matches FileLookup::Contents(d) ==> r.status == 200 && r.body@ == d@ && (r.content_type matches Some(
            t,
        ) && t@ == guessed_mime(file_path@)),
{
    match file {
        FileLookup::Missing => ProtocolResponse { status: 404, content_type: None, body: Vec::new() },
        FileLookup::Unreadable(_) => ProtocolResponse { status: 500, content_type: None, body: Vec::new() },
        FileLookup::Contents(data) => ProtocolResponse {
            status: 200,
            content_type: Some(mime_for_path(file_path)),
            body: data,
        },
    }
}

} // verus!
