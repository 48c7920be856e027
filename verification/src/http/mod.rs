//! What the console answers to a request, as plain values: the program around
//! this library reads requests from the wire and writes these replies to it.

use crate::models::{Annotation, Reading};
use vstd::prelude::*;

pub mod api_server;
pub mod handlers;

pub use handlers::{
    announcement_id_response, annotations_response, channel_address_response,
    confidence_score_response, filter_annotations_response, preflight_response,
    readings_response, subscribe_request, subscribe_response,
};

verus! {

/// A header line of a reply.
#[derive(Debug, Clone, Copy, PartialEq, Eq, Structural)]
pub enum Header {
    /// `content-type: application/json`
    ContentTypeJson,
    /// `Access-Control-Allow-Origin: *`
    AllowAnyOrigin,
    /// `Access-Control-Allow-Methods: GET, POST, OPTIONS, PUT, PATCH, DELETE`
    AllowMethods,
    /// `Access-Control-Allow-Headers: Content-Type`
    AllowHeaders,
}

impl Header {
    /// The name of the header.
    pub open spec fn name_text(&self) -> Seq<char> {
        match self {
            Header::ContentTypeJson => "content-type"@,
            Header::AllowAnyOrigin => "Access-Control-Allow-Origin"@,
            Header::AllowMethods => "Access-Control-Allow-Methods"@,
            Header::AllowHeaders => "Access-Control-Allow-Headers"@,
        }
    }

    /// The value of the header.
    pub open spec fn value_text(&self) -> Seq<char> {
        match self {
            Header::ContentTypeJson => "application/json"@,
            Header::AllowAnyOrigin => "*"@,
            Header::AllowMethods => "GET, POST, OPTIONS, PUT, PATCH, DELETE"@,
            Header::AllowHeaders => "Content-Type"@,
        }
    }

    /// The name of the header as it goes on the wire.
    pub fn name(&self) -> (name: &'static str)
        ensures
            name@ == self.name_text(),
    {
        match self {
            Header::ContentTypeJson => "content-type",
            Header::AllowAnyOrigin => "Access-Control-Allow-Origin",
            Header::AllowMethods => "Access-Control-Allow-Methods",
            Header::AllowHeaders => "Access-Control-Allow-Headers",
        }
    }

    /// The value of the header as it goes on the wire.
    pub fn value(&self) -> (value: &'static str)
        ensures
            value@ == self.value_text(),
    {
        match self {
            Header::ContentTypeJson => "application/json",
            Header::AllowAnyOrigin => "*",
            Header::AllowMethods => "GET, POST, OPTIONS, PUT, PATCH, DELETE",
            Header::AllowHeaders => "Content-Type",
        }
    }
}

/// The body of a reply.
///
/// A text goes on the wire as it is. The other bodies are data that the
/// program around this library encodes: readings and annotations as a JSON
/// array, confidences as their floating-point sum.
#[derive(Debug)]
pub enum Body<'a> {
    Text(String),
    Readings(&'a Vec<Reading>),
    Annotations(Vec<&'a Annotation>),
    /// The confidences to add up, in this order, each as the 64 bits of an
    /// IEEE 754 binary64 number.
    Confidence(Vec<u64>),
}

/// What a body holds.
pub enum Content {
    Text(Seq<char>),
    Readings(Seq<Reading>),
    Annotations(Seq<Annotation>),
    Confidence(Seq<u64>),
}

/// The annotations that `found` points to.
pub open spec fn pointed(found: Seq<&Annotation>) -> Seq<Annotation> {
    found.map_values(|annotation: &Annotation| *annotation)
}

impl<'a> View for Body<'a> {
    type V = Content;

    open spec fn view(&self) -> Content {
        match self {
            Body::Text(text) => Content::Text(text@),
            Body::Readings(readings) => Content::Readings(readings@),
            Body::Annotations(annotations) => Content::Annotations(pointed(annotations@)),
            Body::Confidence(terms) => Content::Confidence(terms@),
        }
    }
}

/// A reply to one request.
#[derive(Debug)]
pub struct Reply<'a> {
    pub status: u16,
    pub headers: Vec<Header>,
    pub body: Body<'a>,
}

/// What a reply says.
pub struct Answer {
    pub status: u16,
    pub headers: Seq<Header>,
    pub content: Content,
}

impl<'a> View for Reply<'a> {
    type V = Answer;

    open spec fn view(&self) -> Answer {
        Answer { status: self.status, headers: self.headers@, content: self.body@ }
    }
}

/// The answer with `status` and `content` that is declared as JSON and open
/// to callers of any origin, as every answer to a data request is.
pub open spec fn json_answer(status: u16, content: Content) -> Answer {
    Answer { status, headers: seq![Header::ContentTypeJson, Header::AllowAnyOrigin], content }
}

/// The failure answer that explains itself with `text`.
pub open spec fn failure(text: Seq<char>) -> Answer {
    json_answer(500, Content::Text(text))
}

/// The answer to a request that found its store in use.
pub open spec fn busy_answer() -> Answer {
    failure("Service is busy"@)
}

/// The reply that `json_answer` describes.
pub fn json_reply<'a>(status: u16, body: Body<'a>) -> (reply: Reply<'a>)
    ensures
        reply@ == json_answer(status, body@),
{
    let mut headers: Vec<Header> = Vec::new();
    headers.push(Header::ContentTypeJson);
    headers.push(Header::AllowAnyOrigin);
    let reply = Reply { status, headers, body };
    assert(reply.headers@ =~= seq![Header::ContentTypeJson, Header::AllowAnyOrigin]);
    reply
}

/// The reply that `failure` describes.
pub fn failure_reply<'a>(text: String) -> (reply: Reply<'a>)
    ensures
        reply@ == failure(text@),
{
    json_reply(500, Body::Text(text))
}

} // verus!
