use author_console::models::{
    AlvariumAnnotation, AlvariumAnnotationPayload, AlvariumHeader, AlvariumSignature, Annotation,
    Bytes, Reading, ReadingId, SensorId,
};
use author_console::store::{
    AnnotationStore, AnnotationStoreFilterId, GroupedLog, ReadingStore, ReadingStoreFilterId,
    StoreError,
};

fn reading(sensor: &str, id: &str, data: &str) -> Reading {
    Reading::new()
        .with_sensor_id(SensorId(sensor.to_string()))
        .with_reading_id(ReadingId(id.to_string()))
        .with_data(Bytes(data.to_string()))
}

fn annotation(reading: &str, jti: &str, avl: f64) -> Annotation {
    Annotation {
        reading_id: ReadingId(reading.to_string()),
        annotation: AlvariumAnnotation {
            header: AlvariumHeader { alg: "ES256".to_string(), typ: "JWT".to_string() },
            payload: AlvariumAnnotationPayload {
                iss: "issuer".to_string(),
                sub: "subject".to_string(),
                iat: "1".to_string(),
                jti: jti.to_string(),
                ann: "tpm".to_string(),
                avl: avl.to_bits(),
            },
            signature: AlvariumSignature("sig".to_string()),
        },
    }
}

fn insert_reading(store: &mut ReadingStore, item: Reading) {
    let key = item.get_sensor_id().clone();
    assert!(store.insert(&key, item).is_ok());
}

fn insert_annotation(store: &mut AnnotationStore, item: Annotation) {
    let key = item.get_reading_id().clone();
    assert!(store.insert(&key, item).is_ok());
}

fn reading_ids(store: &ReadingStore, sensor: &str) -> Vec<String> {
    store
        .get(&SensorId(sensor.to_string()))
        .unwrap()
        .iter()
        .map(|reading| reading.reading_id.0.clone())
        .collect()
}

#[test]
fn unknown_sensor_is_not_found_rather_than_empty() {
    let store = ReadingStore::new();
    assert_eq!(store.get(&SensorId("s1".to_string())).unwrap_err(), StoreError::KeyNotPresent);

    let mut store = ReadingStore::new();
    insert_reading(&mut store, reading("s1", "r1", "AB"));
    assert_eq!(store.get(&SensorId("s2".to_string())).unwrap_err(), StoreError::KeyNotPresent);
    assert_eq!(store.get(&SensorId("".to_string())).unwrap_err(), StoreError::KeyNotPresent);
    assert_eq!(store.get(&SensorId("S1".to_string())).unwrap_err(), StoreError::KeyNotPresent);
}

#[test]
fn readings_come_back_in_insertion_order() {
    let mut store = ReadingStore::new();
    insert_reading(&mut store, reading("s1", "r1", "AB"));
    insert_reading(&mut store, reading("s2", "r2", "CD"));
    insert_reading(&mut store, reading("s1", "r3", "EF"));
    insert_reading(&mut store, reading("s1", "r1", "AB"));
    insert_reading(&mut store, reading("s2", "r4", "GH"));

    assert_eq!(reading_ids(&store, "s1"), vec!["r1", "r3", "r1"]);
    assert_eq!(reading_ids(&store, "s2"), vec!["r2", "r4"]);
    let first = &store.get(&SensorId("s1".to_string())).unwrap()[0];
    assert_eq!(first.sensor_id.0, "s1");
    assert_eq!(first.data.0, "AB");
}

#[test]
fn every_stored_reading_is_filed_under_its_sensor() {
    let mut store = ReadingStore::new();
    for (sensor, id) in [("a", "1"), ("b", "2"), ("a", "3"), ("c", "4"), ("b", "5")] {
        insert_reading(&mut store, reading(sensor, id, ""));
    }
    for sensor in ["a", "b", "c"] {
        let found = store.get(&SensorId(sensor.to_string())).unwrap();
        assert!(!found.is_empty());
        assert!(found.iter().all(|reading| reading.sensor_id.0 == sensor));
    }
}

#[test]
fn the_order_of_inserts_loses_no_value() {
    let items = [("a", "1"), ("b", "2"), ("a", "3"), ("a", "4"), ("b", "5")];
    let mut forward = ReadingStore::new();
    for (sensor, id) in items {
        insert_reading(&mut forward, reading(sensor, id, ""));
    }
    let mut backward = ReadingStore::new();
    for (sensor, id) in items.iter().rev() {
        insert_reading(&mut backward, reading(sensor, id, ""));
    }
    for sensor in ["a", "b"] {
        let mut one = reading_ids(&forward, sensor);
        let mut other = reading_ids(&backward, sensor);
        assert_ne!(one, other);
        one.sort();
        other.sort();
        assert_eq!(one, other);
    }
    assert_eq!(reading_ids(&forward, "a"), vec!["1", "3", "4"]);
    assert_eq!(reading_ids(&backward, "a"), vec!["4", "3", "1"]);
}

#[test]
fn unknown_reading_is_not_found_rather_than_empty() {
    let mut store = AnnotationStore::new();
    assert_eq!(store.get(&ReadingId("r1".to_string())).unwrap_err(), StoreError::KeyNotPresent);
    insert_annotation(&mut store, annotation("r1", "a", 0.5));
    assert_eq!(store.get(&ReadingId("r2".to_string())).unwrap_err(), StoreError::KeyNotPresent);
    assert!(store.get(&ReadingId("r1".to_string())).is_ok());
}

#[test]
fn annotations_come_back_in_insertion_order() {
    let mut store = AnnotationStore::new();
    insert_annotation(&mut store, annotation("r1", "a", 0.5));
    insert_annotation(&mut store, annotation("r2", "b", 0.25));
    insert_annotation(&mut store, annotation("r1", "c", 1.0));
    let found: Vec<&str> = store
        .get(&ReadingId("r1".to_string()))
        .unwrap()
        .iter()
        .map(|annotation| annotation.annotation.payload.jti.as_str())
        .collect();
    assert_eq!(found, vec!["a", "c"]);
    let found: Vec<&str> = store
        .get(&ReadingId("r2".to_string()))
        .unwrap()
        .iter()
        .map(|annotation| annotation.annotation.payload.jti.as_str())
        .collect();
    assert_eq!(found, vec!["b"]);
}

#[test]
fn iter_lists_each_reading_once_with_its_annotations() {
    let mut store = AnnotationStore::new();
    assert!(store.iter().unwrap().is_empty());
    insert_annotation(&mut store, annotation("r2", "a", 0.5));
    insert_annotation(&mut store, annotation("r1", "b", 0.25));
    insert_annotation(&mut store, annotation("r2", "c", 1.0));
    insert_annotation(&mut store, annotation("r3", "d", 1.0));
    let groups = store.iter().unwrap();
    let listed: Vec<(String, Vec<String>)> = groups
        .iter()
        .map(|(key, annotations)| {
            (
                key.0.clone(),
                annotations.iter().map(|one| one.annotation.payload.jti.clone()).collect(),
            )
        })
        .collect();
    assert_eq!(
        listed,
        vec![
            ("r2".to_string(), vec!["a".to_string(), "c".to_string()]),
            ("r1".to_string(), vec!["b".to_string()]),
            ("r3".to_string(), vec!["d".to_string()]),
        ]
    );
}

#[test]
fn store_error_says_key_not_present() {
    assert_eq!(StoreError::KeyNotPresent.message(), "Key not present");
}

#[test]
fn request_keys_give_back_their_text() {
    assert_eq!(ReadingStoreFilterId::new("s1".to_string()).get_sensor_id(), "s1");
    assert_eq!(ReadingStoreFilterId::new(String::new()).get_sensor_id(), "");
    assert_eq!(AnnotationStoreFilterId::new("r1".to_string()).get_reading_id(), "r1");
}

#[test]
fn grouped_log_appends_under_keys() {
    let mut log: GroupedLog<u32> = GroupedLog::new();
    assert!(log.get("a").is_none());
    assert!(log.entries().is_empty());
    log.insert("a", 1);
    log.insert("b", 2);
    log.insert("a", 3);
    log.insert("", 4);
    assert_eq!(log.get("a"), Some(&vec![1, 3]));
    assert_eq!(log.get("b"), Some(&vec![2]));
    assert_eq!(log.get(""), Some(&vec![4]));
    assert!(log.get("c").is_none());
    let entries = log.entries();
    assert_eq!(entries, vec![("a", &vec![1, 3]), ("b", &vec![2]), ("", &vec![4])]);
}

#[test]
fn insert_all_files_each_reading_under_its_sensor_in_order() {
    let mut store = ReadingStore::new();
    insert_reading(&mut store, reading("s1", "r0", ""));
    let count = store.insert_all(vec![
        reading("s1", "r1", ""),
        reading("s2", "r2", ""),
        reading("s1", "r3", ""),
        reading("s1", "r1", ""),
    ]);
    assert_eq!(count, 4);
    assert_eq!(reading_ids(&store, "s1"), vec!["r0", "r1", "r3", "r1"]);
    assert_eq!(reading_ids(&store, "s2"), vec!["r2"]);
    assert_eq!(store.insert_all(Vec::new()), 0);
    assert_eq!(reading_ids(&store, "s1"), vec!["r0", "r1", "r3", "r1"]);
}

#[test]
fn inserts_of_two_callers_in_any_order_follow_what_was_held() {
    let first = ["a1", "a2", "a3"];
    let second = ["b1", "b2"];
    let orders: [[&str; 5]; 3] = [
        ["a1", "a2", "a3", "b1", "b2"],
        ["b1", "a1", "b2", "a2", "a3"],
        ["a1", "b1", "a2", "b2", "a3"],
    ];
    for order in orders {
        let mut store = ReadingStore::new();
        insert_reading(&mut store, reading("k", "old", ""));
        for id in order {
            insert_reading(&mut store, reading("k", id, ""));
        }
        let stored = reading_ids(&store, "k");
        assert_eq!(stored.len(), 1 + first.len() + second.len());
        assert_eq!(stored[0], "old");
        assert_eq!(stored[1..].to_vec(), order.to_vec());
        let own: Vec<&String> = stored.iter().filter(|id| id.starts_with('a')).collect();
        assert_eq!(own, first.to_vec());
        let own: Vec<&String> = stored.iter().filter(|id| id.starts_with('b')).collect();
        assert_eq!(own, second.to_vec());
    }
}

#[test]
fn insert_all_files_each_annotation_under_its_reading_in_order() {
    let mut store = AnnotationStore::new();
    insert_annotation(&mut store, annotation("r1", "old", 0.5));
    let count = store.insert_all(vec![
        annotation("r1", "a", 0.5),
        annotation("r2", "b", 0.5),
        annotation("r1", "c", 0.5),
    ]);
    assert_eq!(count, 3);
    let found: Vec<&str> = store
        .get(&ReadingId("r1".to_string()))
        .unwrap()
        .iter()
        .map(|annotation| annotation.annotation.payload.jti.as_str())
        .collect();
    assert_eq!(found, vec!["old", "a", "c"]);
    assert_eq!(store.get(&ReadingId("r2".to_string())).unwrap().len(), 1);
}
