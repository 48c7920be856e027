//! The answer to each kind of request.

use crate::http::api_server::not_found_answer;
use crate::http::{
    busy_answer, failure, failure_reply, json_answer, json_reply, pointed, Answer, Body, Content,
    Header, Reply,
};
use crate::models::{Annotation, ReadingId, SensorId, SubscriptionRequest};
use crate::store::annotation_store::{AnnotationStore, AnnotationStoreFilter, FilterField};
use crate::store::reading_store::ReadingStore;
use crate::store::{AnnotationStoreFilterId, ReadingStoreFilterId, StoreError};
use crate::streams::author::AuthorError;
use vstd::prelude::*;

verus! {

/// The confidence that each of `annotations` contributes, in their order.
pub open spec fn confidences(annotations: Seq<Annotation>) -> Seq<u64> {
    annotations.map_values(|annotation: Annotation| annotation.annotation.payload.avl)
}

/// Whether `digit` is a hexadecimal digit, in either case.
pub open spec fn is_hex_digit(digit: char) -> bool {
    '0' <= digit <= '9' || 'a' <= digit <= 'f' || 'A' <= digit <= 'F'
}

/// The value of a hexadecimal digit.
pub open spec fn hex_value(digit: char) -> int {
    if '0' <= digit <= '9' {
        digit as int - '0' as int
    } else if 'a' <= digit <= 'f' {
        digit as int - 'a' as int + 10
    } else {
        digit as int - 'A' as int + 10
    }
}

/// Whether `text` writes bytes in hexadecimal: two digits for each.
pub open spec fn is_hex(text: Seq<char>) -> bool {
    &&& text.len() % 2 == 0
    &&& forall|at: int| 0 <= at < text.len() ==> is_hex_digit(#[trigger] text[at])
}

/// The bytes that `text` writes in hexadecimal, the higher digit of each first.
pub open spec fn from_hex(text: Seq<char>) -> Seq<u8> {
    Seq::new(
        text.len() / 2,
        |at: int| (16 * hex_value(text[2 * at]) + hex_value(text[2 * at + 1])) as u8,
    )
}

/// The error of `hex::decode`.
#[verifier::external_type_specification]
#[verifier::external_body]
pub struct ExFromHexError(hex::FromHexError);

/// `hex::decode` on the bytes of `text`.
///
/// It succeeds exactly on an even number of hexadecimal digits, of either
/// case, and then gives one byte for every two digits, sixteen times the
/// value of the first plus the value of the second. A hexadecimal digit is a
/// single byte of the text, and no byte of any other character is one, so
/// this says of the characters what the function does with the bytes.
#[verifier::external_body]
fn decode_hex(text: &str) -> (decoded: Result<Vec<u8>, hex::FromHexError>)
    ensures
        match decoded {
            Ok(bytes) => is_hex(text@) && bytes@ == from_hex(text@),
            Err(_) => !is_hex(text@),
        },
{
    hex::decode(text)
}

/// What a request for admission leads to.
#[derive(Debug)]
pub enum Subscription<'a> {
    /// Nothing but this reply.
    Answered(Reply<'a>),
    /// The author is to admit the subscriber whose handshake `link` names
    /// and whose public key is `pk`.
    Admit { link: String, pk: Vec<u8> },
}

/// The answer to a request for admission that could not be read, or whose
/// public key is not written in hexadecimal.
pub open spec fn malformed_answer() -> Answer {
    json_answer(400, Content::Text("Malformed json request"@))
}

/// The answer to a request for admission, once the author is through with it.
pub open spec fn subscribe_answer(admitted: Result<String, AuthorError>) -> Answer {
    match admitted {
        Ok(keyload) => json_answer(
            200,
            Content::Text("Subscription processed, keyload link: "@ + keyload@),
        ),
        Err(_) => failure("Error while subscribing"@),
    }
}

/// The answer to a request for the address of the channel.
pub open spec fn channel_address_answer(address: Result<String, AuthorError>) -> Answer {
    match address {
        Ok(address) => json_answer(
            200,
            Content::Text("{ \"channel_address\": \""@ + address@ + "\" }"@),
        ),
        Err(_) => failure("Error while getting channel address"@),
    }
}

/// The answer to a request for the link of the announcement.
pub open spec fn announcement_id_answer(link: Result<(String, String), AuthorError>) -> Answer {
    match link {
        Ok(link) => json_answer(
            200,
            Content::Text(
                "{ \"announcement_id\": \""@ + link.0@ + ":"@ + link.1@ + "\" }"@,
            ),
        ),
        Err(_) => failure("Error while getting announcement id"@),
    }
}

/// The answer to a preflight request.
pub open spec fn preflight_answer() -> Answer {
    Answer {
        status: 200,
        headers: seq![Header::AllowAnyOrigin, Header::AllowMethods, Header::AllowHeaders],
        content: Content::Text("OK"@),
    }
}

/// The answer to a request for the readings of one sensor: `request` is
/// `None` where the body of the request could not be read as one, `store`
/// where the store was in use.
pub open spec fn readings_answer(
    request: Option<ReadingStoreFilterId>,
    store: Option<&ReadingStore>,
) -> Answer {
    match (request, store) {
        (None, _) => failure("Error while reading sensor_id field"@),
        (Some(_), None) => busy_answer(),
        (Some(request), Some(store)) => if store@.contains_key(request@) {
            json_answer(200, Content::Readings(store@[request@]))
        } else {
            failure("Error while fetching readings for "@ + request@)
        },
    }
}

/// The answer to a request for the annotations of one reading.
pub open spec fn annotations_answer(
    request: Option<AnnotationStoreFilterId>,
    store: Option<&AnnotationStore>,
) -> Answer {
    match (request, store) {
        (None, _) => failure("Error while reading reading_id field"@),
        (Some(_), None) => busy_answer(),
        (Some(request), Some(store)) => if store@.contains_key(request@) {
            json_answer(200, Content::Annotations(store@[request@]))
        } else {
            failure("Error while fetching annotations for "@ + request@)
        },
    }
}

/// The answer to a request for the confidence in one reading: the
/// contributions of all its annotations, oldest first, for the caller to add
/// up; a failure, and no sum of nothing, where the reading has no annotation.
pub open spec fn confidence_score_answer(
    request: Option<AnnotationStoreFilterId>,
    store: Option<&AnnotationStore>,
) -> Answer {
    match (request, store) {
        (None, _) => failure("Error while reading reading_id field"@),
        (Some(_), None) => busy_answer(),
        (Some(request), Some(store)) => if store@.contains_key(request@) {
            json_answer(200, Content::Confidence(confidences(store@[request@])))
        } else {
            failure("Error while fetching score for "@ + request@)
        },
    }
}

/// The answer to a request for the annotations that a filter finds.
pub open spec fn filter_annotations_answer(
    request: Option<AnnotationStoreFilter>,
    store: Option<&AnnotationStore>,
) -> Answer {
    match (request, store) {
        (None, _) => failure("Error while reading filters fields"@),
        (Some(_), None) => busy_answer(),
        (Some(request), Some(store)) => json_answer(
            200,
            Content::Annotations(request.found(store.keys(), store@)),
        ),
    }
}

/// Whether `answer` declares itself open to callers of any origin.
pub open spec fn open_to_any_origin(answer: Answer) -> bool {
    answer.headers.contains(Header::AllowAnyOrigin)
}

/// Every answer that the console gives is open to callers of any origin: the
/// answers to data requests, whatever their status and content, the answer to
/// a preflight request, and the answer to a request that is for no operation.
pub proof fn lemma_every_answer_is_open_to_any_origin(status: u16, content: Content)
    ensures
        open_to_any_origin(json_answer(status, content)),
        open_to_any_origin(preflight_answer()),
        open_to_any_origin(not_found_answer()),
{
    assert(json_answer(status, content).headers[1] == Header::AllowAnyOrigin);
    assert(preflight_answer().headers[0] == Header::AllowAnyOrigin);
    assert(not_found_answer().headers[0] == Header::AllowAnyOrigin);
}

/// Answers a preflight request: any caller may go on.
pub fn preflight_response<'a>() -> (reply: Reply<'a>)
    ensures
        reply@ == preflight_answer(),
{
    let mut headers: Vec<Header> = Vec::new();
    headers.push(Header::AllowAnyOrigin);
    headers.push(Header::AllowMethods);
    headers.push(Header::AllowHeaders);
    let reply = Reply { status: 200, headers, body: Body::Text(String::from_str("OK")) };
    assert(reply.headers@ =~= seq![
        Header::AllowAnyOrigin,
        Header::AllowMethods,
        Header::AllowHeaders,
    ]);
    reply
}

/// Whether `request` can go to the author: it could be read, and its public
/// key is written in hexadecimal.
pub open spec fn well_formed(request: Option<SubscriptionRequest>) -> bool {
    request matches Some(request) && is_hex(request.pk@)
}

/// The reply to a request for admission that is malformed.
fn malformed<'a>() -> (reply: Reply<'a>)
    ensures
        reply@ == malformed_answer(),
{
    json_reply(400, Body::Text(String::from_str("Malformed json request")))
}

/// Takes up a request for admission: `request` is `None` where the body of
/// the request could not be read as one.
///
/// A request that could not be read, or whose public key is not written in
/// hexadecimal, is answered at once as malformed, and the author hears
/// nothing of it. Any other request goes to the author with its public key decoded.
pub fn subscribe_request<'a>(request: Option<SubscriptionRequest>) -> (next: Subscription<'a>)
    ensures
        match next {
            Subscription::Admit { link, pk } => well_formed(request) && link
                == request->0.msgid && pk@ == from_hex(request->0.pk@),
            Subscription::Answered(reply) => !well_formed(request) && reply@ == malformed_answer(),
        },
{
    match request {
        Some(request) => match decode_hex(request.pk.as_str()) {
            Ok(pk) => Subscription::Admit { link: request.msgid, pk },
            Err(_) => Subscription::Answered(malformed()),
        },
        None => Subscription::Answered(malformed()),
    }
}

/// Answers a request for admission, once the author is through with it.
pub fn subscribe_response<'a>(admitted: Result<String, AuthorError>) -> (reply: Reply<'a>)
    ensures
        reply@ == subscribe_answer(admitted),
{
    match admitted {
        Ok(keyload) => json_reply(
            200,
            Body::Text(
                String::from_str("Subscription processed, keyload link: ").concat(
                    keyload.as_str(),
                ),
            ),
        ),
        Err(_) => failure_reply(String::from_str("Error while subscribing")),
    }
}

/// Answers a request for the address of the channel.
pub fn channel_address_response<'a>(address: Result<String, AuthorError>) -> (reply: Reply<'a>)
    ensures
        reply@ == channel_address_answer(address),
{
    match address {
        Ok(address) => json_reply(
            200,
            Body::Text(
                String::from_str("{ \"channel_address\": \"").concat(address.as_str()).concat(
                    "\" }",
                ),
            ),
        ),
        Err(_) => failure_reply(String::from_str("Error while getting channel address")),
    }
}

/// Answers a request for the link of the announcement.
pub fn announcement_id_response<'a>(link: Result<(String, String), AuthorError>) -> (reply: Reply<
    'a,
>)
    ensures
        reply@ == announcement_id_answer(link),
{
    match link {
        Ok(link) => json_reply(
            200,
            Body::Text(
                String::from_str("{ \"announcement_id\": \"").concat(link.0.as_str()).concat(
                    ":",
                ).concat(link.1.as_str()).concat("\" }"),
            ),
        ),
        Err(_) => failure_reply(String::from_str("Error while getting announcement id")),
    }
}

/// The reply to a request that found its store in use.
pub fn busy<'a>() -> (reply: Reply<'a>)
    ensures
        reply@ == busy_answer(),
{
    failure_reply(String::from_str("Service is busy"))
}

/// Answers a request for the readings of one sensor.
pub fn readings_response<'a>(
    request: Option<ReadingStoreFilterId>,
    store: Option<&'a ReadingStore>,
) -> (reply: Reply<'a>)
    ensures
        reply@ == readings_answer(request, store),
{
    match request {
        Some(request) => match store {
            Some(store) => {
                let sensor_id = SensorId(request.get_sensor_id());
                match store.get(&sensor_id) {
                    Ok(readings) => json_reply(200, Body::Readings(readings)),
                    Err(_) => failure_reply(
                        String::from_str("Error while fetching readings for ").concat(
                            sensor_id.0.as_str(),
                        ),
                    ),
                }
            },
            None => busy(),
        },
        None => failure_reply(String::from_str("Error while reading sensor_id field")),
    }
}

/// A reference to each of `annotations`, in their order.
fn each<'a>(annotations: &'a Vec<Annotation>) -> (all: Vec<&'a Annotation>)
    ensures
        pointed(all@) == annotations@,
{
    let mut all: Vec<&'a Annotation> = Vec::new();
    let mut at: usize = 0;
    while at < annotations.len()
        invariant
            at <= annotations@.len(),
            pointed(all@) == annotations@.take(at as int),
        decreases annotations@.len() - at,
    {
        let annotation = &annotations[at];
        proof {
            assert(pointed(all@.push(annotation)) =~= pointed(all@).push(*annotation));
            assert(annotations@.take(at + 1) =~= annotations@.take(at as int).push(*annotation));
        }
        all.push(annotation);
        at += 1;
    }
    assert(annotations@.take(at as int) =~= annotations@);
    all
}

/// Answers a request for the annotations of one reading.
pub fn annotations_response<'a>(
    request: Option<AnnotationStoreFilterId>,
    store: Option<&'a AnnotationStore>,
) -> (reply: Reply<'a>)
    ensures
        reply@ == annotations_answer(request, store),
{
    match request {
        Some(request) => match store {
            Some(store) => {
                let reading_id = ReadingId(request.get_reading_id());
                match store.get(&reading_id) {
                    Ok(annotations) => json_reply(200, Body::Annotations(each(annotations))),
                    Err(_) => failure_reply(
                        String::from_str("Error while fetching annotations for ").concat(
                            reading_id.0.as_str(),
                        ),
                    ),
                }
            },
            None => busy(),
        },
        None => failure_reply(String::from_str("Error while reading reading_id field")),
    }
}

/// What each of `annotations` contributes to the confidence in their reading.
pub fn confidence_terms(annotations: &Vec<Annotation>) -> (terms: Vec<u64>)
    ensures
        terms@ == confidences(annotations@),
{
    let mut terms: Vec<u64> = Vec::new();
    let mut at: usize = 0;
    while at < annotations.len()
        invariant
            at <= annotations@.len(),
            terms@ == confidences(annotations@.take(at as int)),
        decreases annotations@.len() - at,
    {
        terms.push(annotations[at].get_confidence_score());
        at += 1;
    }
    assert(annotations@.take(at as int) =~= annotations@);
    terms
}

/// Answers a request for the confidence in one reading.
pub fn confidence_score_response<'a>(
    request: Option<AnnotationStoreFilterId>,
    store: Option<&'a AnnotationStore>,
) -> (reply: Reply<'a>)
    ensures
        reply@ == confidence_score_answer(request, store),
{
    match request {
        Some(request) => match store {
            Some(store) => {
                let reading_id = ReadingId(request.get_reading_id());
                match store.get(&reading_id) {
                    Ok(annotations) => json_reply(
                        200,
                        Body::Confidence(confidence_terms(annotations)),
                    ),
                    Err(_) => failure_reply(
                        String::from_str("Error while fetching score for ").concat(
                            reading_id.0.as_str(),
                        ),
                    ),
                }
            },
            None => busy(),
        },
        None => failure_reply(String::from_str("Error while reading reading_id field")),
    }
}

/// The body that reports a confidence, once the caller has added up the
/// contributions and written the sum out as `score`.
pub fn confidence_score_body(score: &str) -> (body: String)
    ensures
        body@ == "{ \"confidence_score\": "@ + score@ + " }"@,
{
    String::from_str("{ \"confidence_score\": ").concat(score).concat(" }")
}

/// Adds to `found` the annotations of `annotations` that `filter` accepts for `field`.
fn gather<'a>(
    found: &mut Vec<&'a Annotation>,
    annotations: &'a Vec<Annotation>,
    filter: &AnnotationStoreFilter,
    field: FilterField,
)
    ensures
        pointed(final(found)@) == pointed(old(found)@) + annotations@.filter(filter.test(field)),
{
    let ghost before = pointed(found@);
    let mut at: usize = 0;
    proof {
        reveal(Seq::filter);
        assert(annotations@.take(0) =~= Seq::<Annotation>::empty());
        assert(before + Seq::<Annotation>::empty() =~= before);
    }
    while at < annotations.len()
        invariant
            at <= annotations@.len(),
            pointed(found@) == before + annotations@.take(at as int).filter(filter.test(field)),
        decreases annotations@.len() - at,
    {
        let annotation = &annotations[at];
        proof {
            let seen = annotations@.take(at as int);
            assert(annotations@.take(at + 1) =~= seen.push(*annotation));
            seen.lemma_filter_push(*annotation, filter.test(field));
            assert(pointed(found@.push(annotation)) =~= pointed(found@).push(*annotation));
            assert(before + seen.filter(filter.test(field)).push(*annotation) =~= (before
                + seen.filter(filter.test(field))).push(*annotation));
        }
        if filter.asks(field, annotation) {
            found.push(annotation);
        }
        at += 1;
    }
    assert(annotations@.take(at as int) =~= annotations@);
}

/// What `filter` finds in `store`: reading after reading, in the order in
/// which each first had an annotation, and within a reading field after field.
pub fn matching_annotations<'a>(store: &'a AnnotationStore, filter: &AnnotationStoreFilter) -> (all:
    Result<Vec<&'a Annotation>, StoreError>)
    ensures
        match all {
            Ok(found) => pointed(found@) == filter.found(store.keys(), store@),
            Err(_) => false,
        },
{
    let groups = match store.iter() {
        Ok(groups) => groups,
        Err(error) => {
            return Err(error);
        },
    };
    let mut found: Vec<&'a Annotation> = Vec::new();
    let mut at: usize = 0;
    assert(pointed(found@) =~= Seq::<Annotation>::empty());
    while at < groups.len()
        invariant
            at <= groups@.len(),
            groups@.len() == store.keys().len(),
            forall|to: int|
                0 <= to < groups@.len() ==> (#[trigger] groups@[to]).1@ == store@[store.keys()[to]],
            pointed(found@) == filter.found(store.keys().take(at as int), store@),
        decreases groups@.len() - at,
    {
        let annotations = groups[at].1;
        let ghost before = pointed(found@);
        gather(&mut found, annotations, filter, FilterField::Iss);
        gather(&mut found, annotations, filter, FilterField::Ann);
        gather(&mut found, annotations, filter, FilterField::Iat);
        gather(&mut found, annotations, filter, FilterField::Jti);
        gather(&mut found, annotations, filter, FilterField::Sub);
        proof {
            let seen = store.keys().take(at + 1);
            assert(seen.drop_last() =~= store.keys().take(at as int));
            assert(seen.last() == store.keys()[at as int]);
            assert(pointed(found@) =~= before + filter.found_in(annotations@));
        }
        at += 1;
    }
    assert(store.keys().take(at as int) =~= store.keys());
    Ok(found)
}

/// Answers a request for the annotations that a filter finds.
pub fn filter_annotations_response<'a>(
    request: Option<AnnotationStoreFilter>,
    store: Option<&'a AnnotationStore>,
) -> (reply: Reply<'a>)
    ensures
        reply@ == filter_annotations_answer(request, store),
{
    match request {
        Some(filter) => match store {
            Some(store) => match matching_annotations(store, &filter) {
                Ok(found) => json_reply(200, Body::Annotations(found)),
                Err(_) => failure_reply(String::from_str("Error while mapping annotations")),
            },
            None => busy(),
        },
        None => failure_reply(String::from_str("Error while reading filters fields")),
    }
}

} // verus!
