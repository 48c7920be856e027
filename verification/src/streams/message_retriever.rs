//! The loop that drains the channel into the stores.
//!
//! One turn of the loop asks the author for what is new on the channel, lets
//! go of the author, files what came in its store, and rests. The turns, the
//! locks and the clock belong to the program around this library; what a turn
//! files, and where, is decided here.

use crate::models::{Annotation, Reading};
use crate::store::annotation_store::{reading_of, AnnotationStore};
use crate::store::grouped::{extended, extended_keys};
use crate::store::reading_store::{sensor_of, ReadingStore};
use crate::streams::author::{holds_one, AuthorError, Sorted};
use vstd::prelude::*;

verus! {

/// The readings among `messages`, in their order.
pub open spec fn readings_of(messages: Seq<Sorted>) -> Seq<Reading>
    decreases messages.len(),
{
    if messages.len() == 0 {
        Seq::empty()
    } else {
        match messages.last().0 {
            Some(reading) => readings_of(messages.drop_last()).push(reading),
            None => readings_of(messages.drop_last()),
        }
    }
}

/// The annotations among `messages`, in their order. A message that holds a
/// reading counts as a reading only.
pub open spec fn annotations_of(messages: Seq<Sorted>) -> Seq<Annotation>
    decreases messages.len(),
{
    if messages.len() == 0 {
        Seq::empty()
    } else {
        match messages.last() {
            (None, Some(annotation)) => annotations_of(messages.drop_last()).push(annotation),
            _ => annotations_of(messages.drop_last()),
        }
    }
}

/// What is known of the loop that drains the channel: how long it rests
/// between two turns.
#[derive(Debug)]
pub struct MessageRetriever {
    interval: u64,
}

impl MessageRetriever {
    /// The rest between two turns, in milliseconds.
    pub closed spec fn interval(&self) -> u64 {
        self.interval
    }

    /// A retriever that rests for a tenth of a second between two turns.
    pub fn new() -> (retriever: Self)
        ensures
            retriever.interval() == 100,
    {
        MessageRetriever { interval: 100 }
    }

    /// The rest between two turns, in milliseconds.
    pub fn interval_millis(&self) -> (millis: u64)
        ensures
            millis == self.interval(),
    {
        self.interval
    }

    /// Parts what one turn brought into its readings and its annotations,
    /// each in the order in which they came, so that they can be filed one
    /// store at a time. A message that holds a reading is a reading only, and
    /// one that holds nothing is in neither part.
    pub fn sort_out(&self, messages: Vec<Sorted>) -> (parts: (Vec<Reading>, Vec<Annotation>))
        ensures
            parts.0@ == readings_of(messages@),
            parts.1@ == annotations_of(messages@),
    {
        let mut readings: Vec<Reading> = Vec::new();
        let mut annotations: Vec<Annotation> = Vec::new();
        let ghost all = messages@;
        for message in given: messages
            invariant
                given.seq() == all,
                readings@ == readings_of(all.take(given.index() as int)),
                annotations@ == annotations_of(all.take(given.index() as int)),
        {
            proof {
                assert(all.take(given.index() + 1).drop_last() =~= all.take(given.index() as int));
            }
            let (reading, annotation) = message;
            match reading {
                Some(reading) => {
                    readings.push(reading);
                },
                None => match annotation {
                    Some(annotation) => {
                        annotations.push(annotation);
                    },
                    None => {},
                },
            }
        }
        assert(all.take(all.len() as int) =~= all);
        (readings, annotations)
    }

    /// Files what one turn brought: every reading under its sensor and every
    /// annotation under its reading, in the order in which they came. The
    /// result is how many were filed.
    ///
    /// Where the turn brought a failure instead, nothing is filed and the
    /// failure comes back for the log; the next turn is due all the same.
    pub fn handle_messages(
        &self,
        fetched: Result<Vec<Sorted>, AuthorError>,
        reading_store: &mut ReadingStore,
        annotation_store: &mut AnnotationStore,
    ) -> (filed: Result<usize, AuthorError>)
        requires
            fetched matches Ok(messages) ==> forall|at: int|
                0 <= at < messages@.len() ==> holds_one(#[trigger] messages@[at]),
        ensures
            match (fetched, filed) {
                (Ok(messages), Ok(count)) => {
                    &&& count == messages@.len()
                    &&& final(reading_store)@ == extended(
                        old(reading_store)@,
                        readings_of(messages@),
                        sensor_of(),
                    )
                    &&& final(reading_store).keys() == extended_keys(
                        old(reading_store).keys(),
                        readings_of(messages@),
                        sensor_of(),
                    )
                    &&& final(annotation_store)@ == extended(
                        old(annotation_store)@,
                        annotations_of(messages@),
                        reading_of(),
                    )
                    &&& final(annotation_store).keys() == extended_keys(
                        old(annotation_store).keys(),
                        annotations_of(messages@),
                        reading_of(),
                    )
                },
                (Err(error), Err(failure)) => {
                    &&& failure == error
                    &&& final(reading_store)@ == old(reading_store)@
                    &&& final(reading_store).keys() == old(reading_store).keys()
                    &&& final(annotation_store)@ == old(annotation_store)@
                    &&& final(annotation_store).keys() == old(annotation_store).keys()
                },
                _ => false,
            },
    {
        let messages = match fetched {
            Ok(messages) => messages,
            Err(error) => {
                return Err(error);
            },
        };
        let count = messages.len();
        let (readings, annotations) = self.sort_out(messages);
        let _ = reading_store.insert_all(readings);
        let _ = annotation_store.insert_all(annotations);
        Ok(count)
    }
}

} // verus!
