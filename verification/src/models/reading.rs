//! A raw sensor record.

use crate::models::{Bytes, ReadingId, SensorId};
use vstd::prelude::*;

verus! {

/// One record published by a sensor.
#[derive(Debug)]
pub struct Reading {
    pub sensor_id: SensorId,
    pub reading_id: ReadingId,
    pub data: Bytes,
}

impl Reading {
    /// A reading whose three fields are empty.
    pub fn new() -> (reading: Self)
        ensures
            reading.sensor_id@ == Seq::<char>::empty(),
            reading.reading_id@ == Seq::<char>::empty(),
            reading.data@ == Seq::<char>::empty(),
    {
        Reading {
            sensor_id: SensorId::default(),
            reading_id: ReadingId::default(),
            data: Bytes::default(),
        }
    }

    /// The same reading under another sensor.
    pub fn with_sensor_id(self, id: SensorId) -> (reading: Self)
        ensures
            reading == (Reading { sensor_id: id, ..self }),
    {
        Reading { sensor_id: id, reading_id: self.reading_id, data: self.data }
    }

    /// The same reading under another identifier.
    pub fn with_reading_id(self, id: ReadingId) -> (reading: Self)
        ensures
            reading == (Reading { reading_id: id, ..self }),
    {
        Reading { sensor_id: self.sensor_id, reading_id: id, data: self.data }
    }

    /// The same reading with another payload.
    pub fn with_data(self, data: Bytes) -> (reading: Self)
        ensures
            reading == (Reading { data: data, ..self }),
    {
        Reading { sensor_id: self.sensor_id, reading_id: self.reading_id, data }
    }

    /// The sensor that took the reading.
    pub fn get_sensor_id(&self) -> (id: &SensorId)
        ensures
            *id == self.sensor_id,
    {
        &self.sensor_id
    }

    /// The identifier of the reading.
    pub fn get_reading_id(&self) -> (id: &ReadingId)
        ensures
            *id == self.reading_id,
    {
        &self.reading_id
    }

    /// The payload of the reading.
    pub fn get_data(&self) -> (data: &Bytes)
        ensures
            *data == self.data,
    {
        &self.data
    }
}

} // verus!
