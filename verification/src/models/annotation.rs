//! A signed assertion about one reading.

use crate::models::{AlvariumAnnotation, ReadingId};
use vstd::prelude::*;

verus! {

/// An assertion about the reading named by `reading_id`.
#[derive(Debug)]
pub struct Annotation {
    pub reading_id: ReadingId,
    pub annotation: AlvariumAnnotation,
}

impl Annotation {
    /// An annotation of the reading with the empty identifier, carrying a blank record.
    pub fn new() -> (annotation: Self)
        ensures
            annotation.reading_id@ == Seq::<char>::empty(),
            annotation.annotation.is_blank(),
    {
        Annotation { reading_id: ReadingId::default(), annotation: AlvariumAnnotation::default() }
    }

    /// The same assertion about another reading.
    pub fn with_reading_id(self, id: ReadingId) -> (annotation: Self)
        ensures
            annotation == (Annotation { reading_id: id, ..self }),
    {
        Annotation { reading_id: id, annotation: self.annotation }
    }

    /// Another assertion about the same reading.
    pub fn with_annotation(self, annotation: AlvariumAnnotation) -> (result: Self)
        ensures
            result == (Annotation { annotation: annotation, ..self }),
    {
        Annotation { reading_id: self.reading_id, annotation }
    }

    /// The reading that the assertion is about.
    pub fn get_reading_id(&self) -> (id: &ReadingId)
        ensures
            *id == self.reading_id,
    {
        &self.reading_id
    }

    /// The assertion itself.
    pub fn get_annotation(&self) -> (annotation: &AlvariumAnnotation)
        ensures
            *annotation == self.annotation,
    {
        &self.annotation
    }

    /// The confidence that this annotation contributes, as the 64 bits of an
    /// IEEE 754 binary64 number.
    pub fn get_confidence_score(&self) -> (bits: u64)
        ensures
            bits == self.annotation.payload.avl,
    {
        self.annotation.payload.avl
    }
}

} // verus!
