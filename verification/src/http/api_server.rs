//! Which operation a request is for.

use crate::http::{Answer, Body, Content, Header, Reply};
use vstd::prelude::*;

verus! {

/// The operations that the console offers.
#[derive(Debug, Clone, Copy, PartialEq, Eq, Structural)]
pub enum Route {
    Subscribe,
    ChannelAddress,
    AnnouncementId,
    Readings,
    Annotations,
    ConfidenceScore,
    FilteredAnnotations,
    Preflight,
    NotFound,
}

/// The operation that a request with `method` for `path` is for. `OPTIONS`
/// is a preflight request whatever the path; every other operation has its
/// one method and its one path, and anything else is not found.
pub open spec fn route_of(method: Seq<char>, path: Seq<char>) -> Route {
    if method == "OPTIONS"@ {
        Route::Preflight
    } else if method == "POST"@ && path == "/subscribe"@ {
        Route::Subscribe
    } else if method != "GET"@ {
        Route::NotFound
    } else if path == "/get_channel_address"@ {
        Route::ChannelAddress
    } else if path == "/get_announcement_id"@ {
        Route::AnnouncementId
    } else if path == "/get_readings"@ {
        Route::Readings
    } else if path == "/get_annotations"@ {
        Route::Annotations
    } else if path == "/get_confidence_score"@ {
        Route::ConfidenceScore
    } else if path == "/get_filtered_annotations"@ {
        Route::FilteredAnnotations
    } else {
        Route::NotFound
    }
}

/// The answer to a request that is for no operation. Like every answer it is
/// open to callers of any origin.
pub open spec fn not_found_answer() -> Answer {
    Answer {
        status: 404,
        headers: seq![Header::AllowAnyOrigin],
        content: Content::Text("Not Found"@),
    }
}

/// Whether `text` reads `word`.
fn reads(text: &str, word: &str) -> (same: bool)
    ensures
        same == (text@ == word@),
{
    String::from_str(text) == String::from_str(word)
}

/// Finds the operation that a request is for.
pub fn route(method: &str, path: &str) -> (found: Route)
    ensures
        found == route_of(method@, path@),
{
    if reads(method, "OPTIONS") {
        Route::Preflight
    } else if reads(method, "POST") && reads(path, "/subscribe") {
        Route::Subscribe
    } else if !reads(method, "GET") {
        Route::NotFound
    } else if reads(path, "/get_channel_address") {
        Route::ChannelAddress
    } else if reads(path, "/get_announcement_id") {
        Route::AnnouncementId
    } else if reads(path, "/get_readings") {
        Route::Readings
    } else if reads(path, "/get_annotations") {
        Route::Annotations
    } else if reads(path, "/get_confidence_score") {
        Route::ConfidenceScore
    } else if reads(path, "/get_filtered_annotations") {
        Route::FilteredAnnotations
    } else {
        Route::NotFound
    }
}

/// Answers a request that is for no operation.
pub fn not_found<'a>() -> (reply: Reply<'a>)
    ensures
        reply@ == not_found_answer(),
{
    let mut headers: Vec<Header> = Vec::new();
    headers.push(Header::AllowAnyOrigin);
    let reply = Reply { status: 404, headers, body: Body::Text(String::from_str("Not Found")) };
    assert(reply.headers@ =~= seq![Header::AllowAnyOrigin]);
    reply
}

} // verus!
