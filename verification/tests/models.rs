use author_console::models::{
    AlvariumAnnotation, AlvariumAnnotationPayload, AlvariumHeader, AlvariumSignature, Annotation,
    Bytes, Reading, ReadingId, SensorId, SubscriptionRequest,
};

fn text(value: &str) -> String {
    value.to_string()
}

#[test]
fn identifiers_compare_by_their_text() {
    assert!(SensorId(text("s1")) == SensorId(text("s1")));
    assert!(SensorId(text("s1")) != SensorId(text("s2")));
    assert!(ReadingId(text("r1")) == ReadingId(text("r1")));
    assert!(ReadingId(text("r1")) != ReadingId(text("")));
    assert!(Bytes(text("AB")) == Bytes(text("AB")));
    assert!(Bytes(text("AB")) != Bytes(text("ab")));
}

#[test]
fn identifiers_clone_to_equal_values() {
    let sensor = SensorId(text("s1"));
    assert!(sensor.clone() == sensor);
    let reading = ReadingId(text("r1"));
    assert!(reading.clone() == reading);
    let data = Bytes(text("AB"));
    assert!(data.clone() == data);
}

#[test]
fn default_identifiers_are_empty() {
    assert_eq!(SensorId::default().0, "");
    assert_eq!(ReadingId::default().0, "");
    assert_eq!(Bytes::default().0, "");
}

#[test]
fn new_reading_is_empty() {
    let reading = Reading::new();
    assert_eq!(reading.sensor_id.0, "");
    assert_eq!(reading.reading_id.0, "");
    assert_eq!(reading.data.0, "");
}

#[test]
fn reading_builders_replace_one_field_each() {
    let reading = Reading::new()
        .with_sensor_id(SensorId(text("s1")))
        .with_reading_id(ReadingId(text("r1")))
        .with_data(Bytes(text("AB")));
    assert_eq!(reading.get_sensor_id().0, "s1");
    assert_eq!(reading.get_reading_id().0, "r1");
    assert_eq!(reading.get_data().0, "AB");

    let moved = reading.with_sensor_id(SensorId(text("s2")));
    assert_eq!(moved.sensor_id.0, "s2");
    assert_eq!(moved.reading_id.0, "r1");
    assert_eq!(moved.data.0, "AB");

    let renamed = moved.with_reading_id(ReadingId(text("r2")));
    assert_eq!(renamed.sensor_id.0, "s2");
    assert_eq!(renamed.reading_id.0, "r2");
    assert_eq!(renamed.data.0, "AB");

    let refilled = renamed.with_data(Bytes(text("CD")));
    assert_eq!(refilled.sensor_id.0, "s2");
    assert_eq!(refilled.reading_id.0, "r2");
    assert_eq!(refilled.data.0, "CD");
}

#[test]
fn new_annotation_is_blank() {
    let annotation = Annotation::new();
    assert_eq!(annotation.reading_id.0, "");
    assert_eq!(annotation.annotation.header.alg, "");
    assert_eq!(annotation.annotation.header.typ, "");
    assert_eq!(annotation.annotation.payload.iss, "");
    assert_eq!(annotation.annotation.payload.sub, "");
    assert_eq!(annotation.annotation.payload.iat, "");
    assert_eq!(annotation.annotation.payload.jti, "");
    assert_eq!(annotation.annotation.payload.ann, "");
    assert_eq!(annotation.annotation.payload.avl, 0);
    assert_eq!(f64::from_bits(annotation.get_confidence_score()), 0.0);
    assert_eq!(annotation.annotation.signature.0, "");
}

#[test]
fn annotation_builders_replace_one_field_each() {
    let record = AlvariumAnnotation {
        header: AlvariumHeader { alg: text("ES256"), typ: text("JWT") },
        payload: AlvariumAnnotationPayload {
            iss: text("issuer"),
            sub: text("subject"),
            iat: text("1600000000"),
            jti: text("id-1"),
            ann: text("tpm"),
            avl: 0.5f64.to_bits(),
        },
        signature: AlvariumSignature(text("sig")),
    };
    let annotation = Annotation::new().with_reading_id(ReadingId(text("r1"))).with_annotation(record);
    assert_eq!(annotation.get_reading_id().0, "r1");
    assert_eq!(annotation.get_annotation().header.alg, "ES256");
    assert_eq!(annotation.get_annotation().header.typ, "JWT");
    assert_eq!(annotation.get_annotation().payload.iss, "issuer");
    assert_eq!(annotation.get_annotation().payload.sub, "subject");
    assert_eq!(annotation.get_annotation().payload.iat, "1600000000");
    assert_eq!(annotation.get_annotation().payload.jti, "id-1");
    assert_eq!(annotation.get_annotation().payload.ann, "tpm");
    assert_eq!(annotation.get_annotation().signature.0, "sig");
    assert_eq!(annotation.get_confidence_score(), 0.5f64.to_bits());
    assert_eq!(f64::from_bits(annotation.get_confidence_score()), 0.5);

    let moved = annotation.with_reading_id(ReadingId(text("r2")));
    assert_eq!(moved.reading_id.0, "r2");
    assert_eq!(moved.annotation.payload.iss, "issuer");
    assert_eq!(moved.get_confidence_score(), 0.5f64.to_bits());
}

#[test]
fn default_records_are_blank() {
    let header = AlvariumHeader::default();
    assert_eq!(header.alg, "");
    assert_eq!(header.typ, "");
    let payload = AlvariumAnnotationPayload::default();
    assert_eq!(payload.iss, "");
    assert_eq!(payload.avl, 0);
    assert_eq!(AlvariumSignature::default().0, "");
    let record = AlvariumAnnotation::default();
    assert_eq!(record.payload.ann, "");
    assert_eq!(record.signature.0, "");
}

#[test]
fn subscription_request_holds_link_and_key() {
    let request = SubscriptionRequest { msgid: text("abc"), pk: text("00ff") };
    assert_eq!(request.msgid, "abc");
    assert_eq!(request.pk, "00ff");
}
