//! Readings, grouped by the sensor that took them.

use crate::models::{Reading, SensorId};
use crate::store::grouped::{
    appended, extended, extended_keys, has_key, held, keyed,
    lemma_extended_holds_appends_in_order, lemma_extended_keeps_every_value,
    lemma_extended_by_two_callers, lemma_filter_by_all, lemma_same_values_same_keyed,
    lemma_woven_holds_both, lists_keys, noted, woven, GroupedLog,
};
use crate::store::StoreError;
use vstd::prelude::*;

verus! {

/// The readings received so far.
///
/// The view maps the text of a sensor's identifier to the readings inserted
/// under it, oldest first. Every reading is filed under its own sensor.
pub struct ReadingStore {
    readings: GroupedLog<Reading>,
}

impl View for ReadingStore {
    type V = Map<Seq<char>, Seq<Reading>>;

    closed spec fn view(&self) -> Map<Seq<char>, Seq<Reading>> {
        self.readings@
    }
}

/// The key under which a reading is filed: the text of its sensor's identifier.
pub open spec fn sensor_of() -> spec_fn(Reading) -> Seq<char> {
    |reading: Reading| reading.sensor_id@
}

/// Whether every reading of `store` is found under its own sensor.
pub open spec fn filed_by_sensor(store: Map<Seq<char>, Seq<Reading>>) -> bool {
    forall|key: Seq<char>, at: int|
        store.contains_key(key) && 0 <= at < store[key].len() ==> (#[trigger] store[key][at]).sensor_id@
            == key
}

/// What a store holds that was new and has had each reading of `readings`
/// inserted under its sensor, in this order.
pub open spec fn inserted(readings: Seq<Reading>) -> Map<Seq<char>, Seq<Reading>> {
    extended(Map::empty(), readings, sensor_of())
}

/// A sensor of which no reading was inserted is not known to the store: a
/// lookup of it fails, and does not come back empty.
pub proof fn lemma_sensor_never_inserted_is_unknown(readings: Seq<Reading>, sensor: Seq<char>)
    requires
        forall|at: int| 0 <= at < readings.len() ==> (#[trigger] readings[at]).sensor_id@ != sensor,
    ensures
        !inserted(readings).contains_key(sensor),
{
    lemma_extended_holds_appends_in_order(Map::empty(), readings, sensor_of(), sensor);
}

/// A sensor of which a reading was inserted is known to the store, and the
/// store holds for it exactly the inserted readings of that sensor, in the
/// order in which they were inserted.
pub proof fn lemma_readings_kept_in_insertion_order(readings: Seq<Reading>, sensor: Seq<char>)
    requires
        exists|at: int| 0 <= at < readings.len() && (#[trigger] readings[at]).sensor_id@ == sensor,
    ensures
        inserted(readings).contains_key(sensor),
        inserted(readings)[sensor] == keyed(readings, sensor_of(), sensor),
{
    lemma_extended_holds_appends_in_order(Map::empty(), readings, sensor_of(), sensor);
    let at = choose|at: int|
        0 <= at < readings.len() && (#[trigger] readings[at]).sensor_id@ == sensor;
    assert(sensor_of()(readings[at]) == sensor);
    assert(Seq::<Reading>::empty() + keyed(readings, sensor_of(), sensor) =~= keyed(
        readings,
        sensor_of(),
        sensor,
    ));
}

/// Where all the readings inserted are of one sensor, the store holds for it
/// exactly those readings, in the order in which they were inserted.
pub proof fn lemma_readings_of_one_sensor_come_back(readings: Seq<Reading>, sensor: Seq<char>)
    requires
        readings.len() > 0,
        forall|at: int| 0 <= at < readings.len() ==> (#[trigger] readings[at]).sensor_id@ == sensor,
    ensures
        inserted(readings).contains_key(sensor),
        inserted(readings)[sensor] == readings,
{
    assert(readings[0].sensor_id@ == sensor);
    lemma_readings_kept_in_insertion_order(readings, sensor);
    lemma_filter_by_all(readings, has_key(sensor_of(), sensor));
}

/// Whatever a store holds, inserts into it, made one after the other, leave
/// under a sensor what was there followed by the inserted readings of that
/// sensor, in the order of the inserts: none is lost and none overwritten.
pub proof fn lemma_inserts_follow_what_was_held(
    store: Map<Seq<char>, Seq<Reading>>,
    readings: Seq<Reading>,
    sensor: Seq<char>,
)
    ensures
        held(extended(store, readings, sensor_of()), sensor) == held(store, sensor) + keyed(
            readings,
            sensor_of(),
            sensor,
        ),
        held(extended(store, readings, sensor_of()), sensor).len() == held(store, sensor).len()
            + keyed(readings, sensor_of(), sensor).len(),
{
    lemma_extended_holds_appends_in_order(store, readings, sensor_of(), sensor);
}

/// Whatever a store holds, inserts under one sensor, made one after the
/// other, leave under that sensor what was there followed by exactly the
/// inserted readings, in the order of the inserts.
pub proof fn lemma_inserts_under_one_sensor_are_all_kept(
    store: Map<Seq<char>, Seq<Reading>>,
    readings: Seq<Reading>,
    sensor: Seq<char>,
)
    requires
        forall|at: int| 0 <= at < readings.len() ==> (#[trigger] readings[at]).sensor_id@ == sensor,
    ensures
        held(extended(store, readings, sensor_of()), sensor) == held(store, sensor) + readings,
        held(extended(store, readings, sensor_of()), sensor).len() == held(store, sensor).len()
            + readings.len(),
{
    lemma_extended_holds_appends_in_order(store, readings, sensor_of(), sensor);
    lemma_filter_by_all(readings, has_key(sensor_of(), sensor));
}

/// Inserts of two callers, made one at a time in whatever order they come,
/// leave under a sensor what was there followed by the readings of that
/// sensor that the two inserted: all of them, those of each caller in the
/// order in which that caller inserted them.
pub proof fn lemma_inserts_of_two_callers_are_all_kept(
    store: Map<Seq<char>, Seq<Reading>>,
    whole: Seq<Reading>,
    one: Seq<Reading>,
    other: Seq<Reading>,
    sensor: Seq<char>,
)
    requires
        woven(whole, one, other),
    ensures
        held(extended(store, whole, sensor_of()), sensor) == held(store, sensor) + keyed(
            whole,
            sensor_of(),
            sensor,
        ),
        woven(
            keyed(whole, sensor_of(), sensor),
            keyed(one, sensor_of(), sensor),
            keyed(other, sensor_of(), sensor),
        ),
        held(extended(store, whole, sensor_of()), sensor).len() == held(store, sensor).len()
            + keyed(one, sensor_of(), sensor).len() + keyed(other, sensor_of(), sensor).len(),
{
    lemma_extended_by_two_callers(store, whole, one, other, sensor_of(), sensor);
}

/// Inserts of two callers under one sensor, made one at a time in whatever
/// order they come, leave under that sensor what was there followed by
/// exactly the inserted readings, as many as the two inserted, in the order
/// in which the inserts were made, which is for each caller the order in
/// which that caller made them.
pub proof fn lemma_inserts_of_two_callers_under_one_sensor(
    store: Map<Seq<char>, Seq<Reading>>,
    whole: Seq<Reading>,
    one: Seq<Reading>,
    other: Seq<Reading>,
    sensor: Seq<char>,
)
    requires
        woven(whole, one, other),
        forall|at: int| 0 <= at < whole.len() ==> (#[trigger] whole[at]).sensor_id@ == sensor,
    ensures
        held(extended(store, whole, sensor_of()), sensor) == held(store, sensor) + whole,
        held(extended(store, whole, sensor_of()), sensor).len() == held(store, sensor).len()
            + one.len() + other.len(),
        whole.to_multiset() == one.to_multiset().add(other.to_multiset()),
{
    lemma_inserts_under_one_sensor_are_all_kept(store, whole, sensor);
    lemma_woven_holds_both(whole, one, other);
}

/// In whatever order the inserts of several callers come to be made one
/// after the other, the store keeps every one of them. Two orders of the same
/// inserts leave the same sensors known, and under each sensor what was there
/// followed by the same inserted readings, each as often, in the order in
/// which that run made them.
pub proof fn lemma_no_insert_is_lost(
    store: Map<Seq<char>, Seq<Reading>>,
    one: Seq<Reading>,
    other: Seq<Reading>,
    sensor: Seq<char>,
)
    requires
        one.to_multiset() == other.to_multiset(),
    ensures
        extended(store, one, sensor_of()).contains_key(sensor) == extended(
            store,
            other,
            sensor_of(),
        ).contains_key(sensor),
        held(extended(store, one, sensor_of()), sensor) == held(store, sensor) + keyed(
            one,
            sensor_of(),
            sensor,
        ),
        held(extended(store, other, sensor_of()), sensor) == held(store, sensor) + keyed(
            other,
            sensor_of(),
            sensor,
        ),
        keyed(one, sensor_of(), sensor).to_multiset() == keyed(
            other,
            sensor_of(),
            sensor,
        ).to_multiset(),
        keyed(one, sensor_of(), sensor).len() == keyed(other, sensor_of(), sensor).len(),
{
    lemma_extended_keeps_every_value(store, one, other, sensor_of(), sensor);
    lemma_extended_holds_appends_in_order(store, one, sensor_of(), sensor);
    lemma_extended_holds_appends_in_order(store, other, sensor_of(), sensor);
    lemma_same_values_same_keyed(one, other, sensor_of(), sensor);
}

impl ReadingStore {
    #[verifier::type_invariant]
    spec fn filed(self) -> bool {
        filed_by_sensor(self.readings@)
    }

    /// The sensors that have a reading, in the order in which each first had one.
    pub closed spec fn keys(&self) -> Seq<Seq<char>> {
        self.readings.keys()
    }

    /// A store without readings.
    pub fn new() -> (store: Self)
        ensures
            store@ == Map::<Seq<char>, Seq<Reading>>::empty(),
            store.keys() == Seq::<Seq<char>>::empty(),
    {
        ReadingStore { readings: GroupedLog::new() }
    }

    /// Appends `reading` to the readings of its sensor. Always succeeds.
    pub fn insert(&mut self, sensor_id: &SensorId, reading: Reading) -> (done: Result<
        (),
        StoreError,
    >)
        requires
            reading.sensor_id@ == sensor_id@,
        ensures
            done is Ok,
            final(self)@ == appended(old(self)@, sensor_id@, reading),
            final(self).keys() == noted(old(self).keys(), sensor_id@),
    {
        proof {
            use_type_invariant(&*self);
        }
        let mut taken = ReadingStore { readings: GroupedLog::new() };
        std::mem::swap(self, &mut taken);
        let ReadingStore { mut readings } = taken;
        readings.insert(sensor_id.0.as_str(), reading);
        *self = ReadingStore { readings };
        Ok(())
    }

    /// Inserts each of `readings` under its own sensor, one after the other
    /// in their order, and says how many that were.
    pub fn insert_all(&mut self, readings: Vec<Reading>) -> (count: usize)
        ensures
            count == readings@.len(),
            final(self)@ == extended(old(self)@, readings@, sensor_of()),
            final(self).keys() == extended_keys(old(self).keys(), readings@, sensor_of()),
    {
        let count = readings.len();
        let ghost all = readings@;
        let ghost before = self@;
        let ghost keys_before = self.keys();
        for reading in given: readings
            invariant
                given.seq() == all,
                self@ == extended(before, all.take(given.index() as int), sensor_of()),
                self.keys() == extended_keys(
                    keys_before,
                    all.take(given.index() as int),
                    sensor_of(),
                ),
        {
            proof {
                assert(all.take(given.index() + 1).drop_last() =~= all.take(given.index() as int));
            }
            let sensor_id = reading.get_sensor_id().clone();
            let _ = self.insert(&sensor_id, reading);
        }
        assert(all.take(all.len() as int) =~= all);
        count
    }

    /// The readings of `sensor_id`, oldest first; an error where the sensor
    /// never had a reading.
    pub fn get(&self, sensor_id: &SensorId) -> (found: Result<&Vec<Reading>, StoreError>)
        ensures
            match found {
                Ok(readings) => self@.contains_key(sensor_id@) && readings@ == self@[sensor_id@],
                Err(error) => !self@.contains_key(sensor_id@) && error == StoreError::KeyNotPresent,
            },
            lists_keys(self.keys(), self@),
            filed_by_sensor(self@),
            self@.contains_key(sensor_id@) ==> self@[sensor_id@].len() > 0,
    {
        proof {
            use_type_invariant(self);
        }
        match self.readings.get(sensor_id.0.as_str()) {
            Some(readings) => Ok(readings),
            None => Err(StoreError::KeyNotPresent),
        }
    }
}

} // verus!
