//! Identifiers and records that travel through the channel.

use vstd::prelude::*;

pub mod alvarium;
pub mod annotation;
pub mod reading;
pub mod subscription;

pub use alvarium::{AlvariumAnnotation, AlvariumAnnotationPayload, AlvariumHeader, AlvariumSignature};
pub use annotation::Annotation;
pub use reading::Reading;
pub use subscription::SubscriptionRequest;

verus! {

/// Identifier of a sensor. Two identifiers are the same when their text is.
#[derive(Debug, Hash)]
pub struct SensorId(pub String);

/// Identifier of a reading. Two identifiers are the same when their text is.
#[derive(Debug, Hash)]
pub struct ReadingId(pub String);

/// Payload of a reading, kept in the encoding in which the transport delivered it.
#[derive(Debug, Hash)]
pub struct Bytes(pub String);

impl View for SensorId {
    type V = Seq<char>;

    open spec fn view(&self) -> Seq<char> {
        self.0@
    }
}

impl Clone for SensorId {
    fn clone(&self) -> (copy: Self)
        ensures
            copy == *self,
    {
        SensorId(self.0.clone())
    }
}

impl Default for SensorId {
    fn default() -> (id: Self)
        ensures
            id@ == Seq::<char>::empty(),
    {
        SensorId(String::new())
    }
}

impl PartialEq for SensorId {
    fn eq(&self, other: &Self) -> (same: bool) {
        self.0 == other.0
    }
}

impl Eq for SensorId {

}

impl vstd::std_specs::cmp::PartialEqSpecImpl for SensorId {
    open spec fn obeys_eq_spec() -> bool {
        true
    }

    open spec fn eq_spec(&self, other: &Self) -> bool {
        self@ == other@
    }
}

impl View for ReadingId {
    type V = Seq<char>;

    open spec fn view(&self) -> Seq<char> {
        self.0@
    }
}

impl Clone for ReadingId {
    fn clone(&self) -> (copy: Self)
        ensures
            copy == *self,
    {
        ReadingId(self.0.clone())
    }
}

impl Default for ReadingId {
    fn default() -> (id: Self)
        ensures
            id@ == Seq::<char>::empty(),
    {
        ReadingId(String::new())
    }
}

impl PartialEq for ReadingId {
    fn eq(&self, other: &Self) -> (same: bool) {
        self.0 == other.0
    }
}

impl Eq for ReadingId {

}

impl vstd::std_specs::cmp::PartialEqSpecImpl for ReadingId {
    open spec fn obeys_eq_spec() -> bool {
        true
    }

    open spec fn eq_spec(&self, other: &Self) -> bool {
        self@ == other@
    }
}

impl View for Bytes {
    type V = Seq<char>;

    open spec fn view(&self) -> Seq<char> {
        self.0@
    }
}

impl Clone for Bytes {
    fn clone(&self) -> (copy: Self)
        ensures
            copy == *self,
    {
        Bytes(self.0.clone())
    }
}

impl Default for Bytes {
    fn default() -> (bytes: Self)
        ensures
            bytes@ == Seq::<char>::empty(),
    {
        Bytes(String::new())
    }
}

impl PartialEq for Bytes {
    fn eq(&self, other: &Self) -> (same: bool) {
        self.0 == other.0
    }
}

impl Eq for Bytes {

}

impl vstd::std_specs::cmp::PartialEqSpecImpl for Bytes {
    open spec fn obeys_eq_spec() -> bool {
        true
    }

    open spec fn eq_spec(&self, other: &Self) -> bool {
        self@ == other@
    }
}

} // verus!
