use author_console::http::handlers::{
    annotations_response, busy, confidence_score_body, confidence_score_response,
    confidence_terms, filter_annotations_response, matching_annotations,
    preflight_response, readings_response,
};
use author_console::http::{Body, Header, Reply};
use author_console::models::{
    AlvariumAnnotation, AlvariumAnnotationPayload, AlvariumHeader, AlvariumSignature, Annotation,
    Bytes, Reading, ReadingId, SensorId,
};
use author_console::store::annotation_store::FilterField;
use author_console::store::{
    AnnotationStore, AnnotationStoreFilter, AnnotationStoreFilterId, ReadingStore,
    ReadingStoreFilterId,
};

fn reading(sensor: &str, id: &str, data: &str) -> Reading {
    Reading::new()
        .with_sensor_id(SensorId(sensor.to_string()))
        .with_reading_id(ReadingId(id.to_string()))
        .with_data(Bytes(data.to_string()))
}

fn annotation(reading: &str, fields: [&str; 5], avl: f64) -> Annotation {
    Annotation {
        reading_id: ReadingId(reading.to_string()),
        annotation: AlvariumAnnotation {
            header: AlvariumHeader { alg: "ES256".to_string(), typ: "JWT".to_string() },
            payload: AlvariumAnnotationPayload {
                iss: fields[0].to_string(),
                sub: fields[1].to_string(),
                iat: fields[2].to_string(),
                jti: fields[3].to_string(),
                ann: fields[4].to_string(),
                avl: avl.to_bits(),
            },
            signature: AlvariumSignature("sig".to_string()),
        },
    }
}

fn store_of(items: Vec<Annotation>) -> AnnotationStore {
    let mut store = AnnotationStore::new();
    for item in items {
        let key = item.get_reading_id().clone();
        assert!(store.insert(&key, item).is_ok());
    }
    store
}

fn nothing_asked() -> AnnotationStoreFilter {
    AnnotationStoreFilter { iss: None, sub: None, iat: None, jti: None, ann: None }
}

fn jtis(found: &[&Annotation]) -> Vec<String> {
    found.iter().map(|one| one.annotation.payload.jti.clone()).collect()
}

fn text_of<'a>(reply: &'a Reply<'a>) -> &'a str {
    match &reply.body {
        Body::Text(text) => text.as_str(),
        other => panic!("no text: {:?}", other),
    }
}

fn json_headers() -> Vec<Header> {
    vec![Header::ContentTypeJson, Header::AllowAnyOrigin]
}

fn sample() -> AnnotationStore {
    store_of(vec![
        annotation("r1", ["a", "b", "100", "j1", "tpm"], 0.5),
        annotation("r2", ["a", "x", "200", "j2", "pki"], 0.25),
        annotation("r1", ["c", "b", "300", "j3", "tpm"], 1.0),
        annotation("r3", ["c", "x", "0100", "j4", "src"], 0.0),
        annotation("r2", ["d", "d", "100", "j5", "pki"], 2.0),
    ])
}

#[test]
fn filter_by_sub_alone_finds_exactly_that_sub() {
    let store = sample();
    let filter = AnnotationStoreFilter { sub: Some("x".to_string()), ..nothing_asked() };
    let found = matching_annotations(&store, &filter).unwrap();
    assert_eq!(jtis(&found), vec!["j2", "j4"]);
    assert!(found.iter().all(|one| one.annotation.payload.sub == "x"));

    let filter = AnnotationStoreFilter { sub: Some("b".to_string()), ..nothing_asked() };
    assert_eq!(jtis(&matching_annotations(&store, &filter).unwrap()), vec!["j1", "j3"]);

    let filter = AnnotationStoreFilter { sub: Some("none".to_string()), ..nothing_asked() };
    assert!(matching_annotations(&store, &filter).unwrap().is_empty());
}

#[test]
fn filter_by_iss_and_sub_finds_the_union_not_the_intersection() {
    let store = sample();
    let filter = AnnotationStoreFilter {
        iss: Some("a".to_string()),
        sub: Some("b".to_string()),
        ..nothing_asked()
    };
    let found = matching_annotations(&store, &filter).unwrap();
    // r1: by iss j1, by sub j1 and j3; r2: by iss j2; r3: nothing.
    assert_eq!(jtis(&found), vec!["j1", "j1", "j3", "j2"]);
    let both = found.iter().filter(|one| one.annotation.payload.jti == "j1").count();
    assert_eq!(both, 2);
}

#[test]
fn an_annotation_is_found_once_for_each_field_it_has() {
    let store = sample();
    let filter = AnnotationStoreFilter {
        iss: Some("d".to_string()),
        sub: Some("d".to_string()),
        iat: Some("100".to_string()),
        jti: Some("j5".to_string()),
        ann: Some("pki".to_string()),
    };
    let found = matching_annotations(&store, &filter).unwrap();
    // r1: by iat j1; r2: by iss j5, by ann j2 and j5, by iat j5, by jti j5, by sub j5.
    assert_eq!(jtis(&found), vec!["j1", "j5", "j2", "j5", "j5", "j5", "j5"]);
}

#[test]
fn filter_by_iat_compares_the_text_as_it_is() {
    let store = sample();
    let filter = AnnotationStoreFilter { iat: Some("100".to_string()), ..nothing_asked() };
    assert_eq!(jtis(&matching_annotations(&store, &filter).unwrap()), vec!["j1", "j5"]);
    let filter = AnnotationStoreFilter { iat: Some("0100".to_string()), ..nothing_asked() };
    assert_eq!(jtis(&matching_annotations(&store, &filter).unwrap()), vec!["j4"]);
    let filter = AnnotationStoreFilter { iat: Some("0".to_string()), ..nothing_asked() };
    assert!(matching_annotations(&store, &filter).unwrap().is_empty());

    let dated = store_of(vec![
        annotation("r1", ["a", "b", "2021-01-01", "j1", "tpm"], 0.5),
        annotation("r1", ["a", "b", "007", "j2", "tpm"], 0.5),
        annotation("r2", ["a", "b", "7", "j3", "tpm"], 0.5),
    ]);
    let filter = AnnotationStoreFilter { iat: Some("2021-01-01".to_string()), ..nothing_asked() };
    assert_eq!(jtis(&matching_annotations(&dated, &filter).unwrap()), vec!["j1"]);
    let filter = AnnotationStoreFilter { iat: Some("007".to_string()), ..nothing_asked() };
    assert_eq!(jtis(&matching_annotations(&dated, &filter).unwrap()), vec!["j2"]);
    let reply = filter_annotations_response(Some(filter), Some(&dated));
    assert_eq!(reply.status, 200);
    match &reply.body {
        Body::Annotations(found) => assert_eq!(jtis(found), vec!["j2"]),
        other => panic!("no annotations: {:?}", other),
    }
}

#[test]
fn a_filter_that_asks_nothing_finds_nothing() {
    let store = sample();
    assert!(matching_annotations(&store, &nothing_asked()).unwrap().is_empty());
    let empty = AnnotationStore::new();
    let filter = AnnotationStoreFilter { sub: Some("x".to_string()), ..nothing_asked() };
    assert!(matching_annotations(&empty, &filter).unwrap().is_empty());
}

#[test]
fn asks_looks_at_one_field() {
    let one = annotation("r1", ["a", "b", "100", "j1", "tpm"], 0.5);
    let filter = AnnotationStoreFilter {
        iss: Some("a".to_string()),
        sub: Some("nope".to_string()),
        iat: Some("100".to_string()),
        jti: None,
        ann: Some("tpm".to_string()),
    };
    assert!(filter.asks(FilterField::Iss, &one));
    assert!(!filter.asks(FilterField::Sub, &one));
    assert!(filter.asks(FilterField::Iat, &one));
    assert!(!filter.asks(FilterField::Jti, &one));
    assert!(filter.asks(FilterField::Ann, &one));
    assert!(!nothing_asked().asks(FilterField::Iss, &one));
    let blank = annotation("r1", ["", "", "", "", ""], 0.0);
    let empty_texts = AnnotationStoreFilter {
        iss: Some(String::new()),
        sub: Some(String::new()),
        iat: Some(String::new()),
        jti: Some(String::new()),
        ann: Some(String::new()),
    };
    assert!(empty_texts.asks(FilterField::Iss, &blank));
    assert!(empty_texts.asks(FilterField::Jti, &blank));
    assert!(empty_texts.asks(FilterField::Iat, &blank));
    let zero = AnnotationStoreFilter { iat: Some("0".to_string()), ..nothing_asked() };
    assert!(!zero.asks(FilterField::Iat, &blank));
}

#[test]
fn filter_response_carries_what_the_filter_finds() {
    let store = sample();
    let filter = AnnotationStoreFilter { sub: Some("x".to_string()), ..nothing_asked() };
    let reply = filter_annotations_response(Some(filter), Some(&store));
    assert_eq!(reply.status, 200);
    assert_eq!(reply.headers, json_headers());
    match &reply.body {
        Body::Annotations(found) => assert_eq!(jtis(found), vec!["j2", "j4"]),
        other => panic!("no annotations: {:?}", other),
    }

    let reply = filter_annotations_response(Some(nothing_asked()), Some(&store));
    assert_eq!(reply.status, 200);
    match &reply.body {
        Body::Annotations(found) => assert!(found.is_empty()),
        other => panic!("no annotations: {:?}", other),
    }
}

#[test]
fn filter_response_fails_on_unreadable_request_or_busy_store() {
    let store = sample();
    let reply = filter_annotations_response(None, Some(&store));
    assert_eq!(reply.status, 500);
    assert_eq!(reply.headers, json_headers());
    assert_eq!(text_of(&reply), "Error while reading filters fields");

    let reply = filter_annotations_response(None, None);
    assert_eq!(text_of(&reply), "Error while reading filters fields");

    let reply = filter_annotations_response(Some(nothing_asked()), None);
    assert_eq!(reply.status, 500);
    assert_eq!(text_of(&reply), "Service is busy");
}

#[test]
fn readings_response_returns_the_readings_of_the_sensor() {
    let mut store = ReadingStore::new();
    for item in [reading("s1", "r1", "AB"), reading("s2", "r2", "CD"), reading("s1", "r3", "EF")] {
        let key = item.get_sensor_id().clone();
        assert!(store.insert(&key, item).is_ok());
    }
    let reply = readings_response(Some(ReadingStoreFilterId::new("s1".to_string())), Some(&store));
    assert_eq!(reply.status, 200);
    assert_eq!(reply.headers, json_headers());
    match &reply.body {
        Body::Readings(found) => {
            let ids: Vec<&str> = found.iter().map(|one| one.reading_id.0.as_str()).collect();
            assert_eq!(ids, vec!["r1", "r3"]);
        }
        other => panic!("no readings: {:?}", other),
    }
}

#[test]
fn readings_response_fails_for_unknown_sensor() {
    let store = ReadingStore::new();
    let reply = readings_response(Some(ReadingStoreFilterId::new("s9".to_string())), Some(&store));
    assert_eq!(reply.status, 500);
    assert_eq!(reply.headers, json_headers());
    assert_eq!(text_of(&reply), "Error while fetching readings for s9");
}

#[test]
fn readings_response_fails_on_unreadable_request_or_busy_store() {
    let store = ReadingStore::new();
    let reply = readings_response(None, Some(&store));
    assert_eq!(reply.status, 500);
    assert_eq!(text_of(&reply), "Error while reading sensor_id field");
    let reply = readings_response(None, None);
    assert_eq!(text_of(&reply), "Error while reading sensor_id field");
    let reply = readings_response(Some(ReadingStoreFilterId::new("s1".to_string())), None);
    assert_eq!(reply.status, 500);
    assert_eq!(text_of(&reply), "Service is busy");
}

#[test]
fn annotations_response_returns_the_annotations_of_the_reading() {
    let store = sample();
    let reply =
        annotations_response(Some(AnnotationStoreFilterId::new("r2".to_string())), Some(&store));
    assert_eq!(reply.status, 200);
    assert_eq!(reply.headers, json_headers());
    match &reply.body {
        Body::Annotations(found) => assert_eq!(jtis(found), vec!["j2", "j5"]),
        other => panic!("no annotations: {:?}", other),
    }
}

#[test]
fn annotations_response_fails_for_unknown_reading_unreadable_request_or_busy_store() {
    let store = sample();
    let reply =
        annotations_response(Some(AnnotationStoreFilterId::new("r9".to_string())), Some(&store));
    assert_eq!(reply.status, 500);
    assert_eq!(text_of(&reply), "Error while fetching annotations for r9");
    let reply = annotations_response(None, Some(&store));
    assert_eq!(reply.status, 500);
    assert_eq!(text_of(&reply), "Error while reading reading_id field");
    let reply = annotations_response(Some(AnnotationStoreFilterId::new("r1".to_string())), None);
    assert_eq!(reply.status, 500);
    assert_eq!(text_of(&reply), "Service is busy");
}

#[test]
fn confidence_score_sums_the_annotations_of_the_reading() {
    let store = store_of(vec![
        annotation("r1", ["a", "b", "1", "j1", "tpm"], 0.5),
        annotation("r2", ["a", "b", "1", "j2", "tpm"], 8.0),
        annotation("r1", ["a", "b", "1", "j3", "tpm"], 0.25),
    ]);
    let reply = confidence_score_response(
        Some(AnnotationStoreFilterId::new("r1".to_string())),
        Some(&store),
    );
    assert_eq!(reply.status, 200);
    assert_eq!(reply.headers, json_headers());
    let terms = match &reply.body {
        Body::Confidence(terms) => terms.clone(),
        other => panic!("no confidence: {:?}", other),
    };
    assert_eq!(terms, vec![0.5f64.to_bits(), 0.25f64.to_bits()]);
    let mut score = 0 as f64;
    for term in terms {
        score += f64::from_bits(term);
    }
    assert_eq!(score, 0.75);
    assert_eq!(confidence_score_body(&score.to_string()), "{ \"confidence_score\": 0.75 }");
}

#[test]
fn confidence_score_of_unknown_reading_fails_rather_than_being_zero() {
    let store = sample();
    let reply = confidence_score_response(
        Some(AnnotationStoreFilterId::new("r9".to_string())),
        Some(&store),
    );
    assert_eq!(reply.status, 500);
    assert_eq!(text_of(&reply), "Error while fetching score for r9");
    let empty = AnnotationStore::new();
    let reply = confidence_score_response(
        Some(AnnotationStoreFilterId::new("r1".to_string())),
        Some(&empty),
    );
    assert_eq!(reply.status, 500);
    assert_eq!(text_of(&reply), "Error while fetching score for r1");
}

#[test]
fn confidence_score_fails_on_unreadable_request_or_busy_store() {
    let store = sample();
    let reply = confidence_score_response(None, Some(&store));
    assert_eq!(reply.status, 500);
    assert_eq!(text_of(&reply), "Error while reading reading_id field");
    let reply =
        confidence_score_response(Some(AnnotationStoreFilterId::new("r1".to_string())), None);
    assert_eq!(reply.status, 500);
    assert_eq!(text_of(&reply), "Service is busy");
}

#[test]
fn confidence_terms_keep_order_and_bits() {
    let items = vec![
        annotation("r1", ["", "", "", "", ""], 0.1),
        annotation("r1", ["", "", "", "", ""], -2.5),
        annotation("r1", ["", "", "", "", ""], f64::INFINITY),
    ];
    assert_eq!(
        confidence_terms(&items),
        vec![0.1f64.to_bits(), (-2.5f64).to_bits(), f64::INFINITY.to_bits()]
    );
    assert!(confidence_terms(&Vec::new()).is_empty());
}

#[test]
fn confidence_score_body_wraps_the_score() {
    assert_eq!(confidence_score_body("0"), "{ \"confidence_score\": 0 }");
    assert_eq!(confidence_score_body("1.5"), "{ \"confidence_score\": 1.5 }");
    assert_eq!(confidence_score_body(""), "{ \"confidence_score\":  }");
}

#[test]
fn preflight_allows_everything() {
    let reply = preflight_response();
    assert_eq!(reply.status, 200);
    assert_eq!(
        reply.headers,
        vec![Header::AllowAnyOrigin, Header::AllowMethods, Header::AllowHeaders]
    );
    assert_eq!(text_of(&reply), "OK");
}

#[test]
fn busy_is_a_failure_that_says_so() {
    let reply = busy();
    assert_eq!(reply.status, 500);
    assert_eq!(reply.headers, json_headers());
    assert_eq!(text_of(&reply), "Service is busy");
}

#[test]
fn headers_have_their_wire_form() {
    assert_eq!(Header::ContentTypeJson.name(), "content-type");
    assert_eq!(Header::ContentTypeJson.value(), "application/json");
    assert_eq!(Header::AllowAnyOrigin.name(), "Access-Control-Allow-Origin");
    assert_eq!(Header::AllowAnyOrigin.value(), "*");
    assert_eq!(Header::AllowMethods.name(), "Access-Control-Allow-Methods");
    assert_eq!(Header::AllowMethods.value(), "GET, POST, OPTIONS, PUT, PATCH, DELETE");
    assert_eq!(Header::AllowHeaders.name(), "Access-Control-Allow-Headers");
    assert_eq!(Header::AllowHeaders.value(), "Content-Type");
}
