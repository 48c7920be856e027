//! In-memory stores for what the channel delivered, and the keys by which
//! requests look things up.

use vstd::prelude::*;

pub mod annotation_store;
pub mod grouped;
pub mod reading_store;

pub use annotation_store::{AnnotationStore, AnnotationStoreFilter};
pub use grouped::GroupedLog;
pub use reading_store::ReadingStore;

verus! {

/// Why a store could not answer.
#[derive(Debug, Clone, Copy, PartialEq, Eq, Structural)]
pub enum StoreError {
    /// Nothing was ever inserted under the key.
    KeyNotPresent,
}

impl StoreError {
    /// The error in words.
    pub fn message(&self) -> (text: String)
        ensures
            text@ == "Key not present"@,
    {
        String::from_str("Key not present")
    }
}

/// The body of a request for the readings of one sensor.
#[derive(Debug)]
pub struct ReadingStoreFilterId {
    sensor_id: String,
}

impl View for ReadingStoreFilterId {
    type V = Seq<char>;

    closed spec fn view(&self) -> Seq<char> {
        self.sensor_id@
    }
}

impl ReadingStoreFilterId {
    /// The request for the readings of `sensor_id`.
    pub fn new(sensor_id: String) -> (request: Self)
        ensures
            request@ == sensor_id@,
    {
        ReadingStoreFilterId { sensor_id }
    }

    /// The sensor that the request names.
    pub fn get_sensor_id(&self) -> (sensor_id: String)
        ensures
            sensor_id@ == self@,
    {
        self.sensor_id.clone()
    }
}

/// The body of a request for what is known about one reading.
#[derive(Debug)]
pub struct AnnotationStoreFilterId {
    reading_id: String,
}

impl View for AnnotationStoreFilterId {
    type V = Seq<char>;

    closed spec fn view(&self) -> Seq<char> {
        self.reading_id@
    }
}

impl AnnotationStoreFilterId {
    /// The request for what is known about `reading_id`.
    pub fn new(reading_id: String) -> (request: Self)
        ensures
            request@ == reading_id@,
    {
        AnnotationStoreFilterId { reading_id }
    }

    /// The reading that the request names.
    pub fn get_reading_id(&self) -> (reading_id: String)
        ensures
            reading_id@ == self@,
    {
        self.reading_id.clone()
    }
}

} // verus!
