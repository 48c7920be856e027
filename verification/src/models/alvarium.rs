//! The signed assertion that an annotation carries.

use vstd::prelude::*;

verus! {

/// How an annotation is signed.
#[derive(Debug)]
pub struct AlvariumHeader {
    pub alg: String,
    pub typ: String,
}

/// The claims of an annotation.
///
/// `avl` is the confidence that this annotation contributes, an IEEE 754
/// binary64 number held as its 64 bits. Contributions to one reading are summed,
/// never averaged.
#[derive(Debug)]
pub struct AlvariumAnnotationPayload {
    pub iss: String,
    pub sub: String,
    pub iat: String,
    pub jti: String,
    pub ann: String,
    pub avl: u64,
}

/// The signature over header and claims.
#[derive(Debug)]
pub struct AlvariumSignature(pub String);

/// A signed assertion: header, claims and signature.
#[derive(Debug)]
pub struct AlvariumAnnotation {
    pub header: AlvariumHeader,
    pub payload: AlvariumAnnotationPayload,
    pub signature: AlvariumSignature,
}

impl Default for AlvariumHeader {
    fn default() -> (header: Self)
        ensures
            header.alg@ == Seq::<char>::empty(),
            header.typ@ == Seq::<char>::empty(),
    {
        AlvariumHeader { alg: String::new(), typ: String::new() }
    }
}

impl Default for AlvariumAnnotationPayload {
    /// Every text empty and a confidence of zero.
    fn default() -> (payload: Self)
        ensures
            payload.iss@ == Seq::<char>::empty(),
            payload.sub@ == Seq::<char>::empty(),
            payload.iat@ == Seq::<char>::empty(),
            payload.jti@ == Seq::<char>::empty(),
            payload.ann@ == Seq::<char>::empty(),
            payload.avl == 0,
    {
        AlvariumAnnotationPayload {
            iss: String::new(),
            sub: String::new(),
            iat: String::new(),
            jti: String::new(),
            ann: String::new(),
            avl: 0,
        }
    }
}

impl Default for AlvariumSignature {
    fn default() -> (signature: Self)
        ensures
            signature.0@ == Seq::<char>::empty(),
    {
        AlvariumSignature(String::new())
    }
}

impl AlvariumAnnotation {
    /// Whether every text of the record is empty and its confidence zero.
    pub open spec fn is_blank(&self) -> bool {
        &&& self.header.alg@ == Seq::<char>::empty()
        &&& self.header.typ@ == Seq::<char>::empty()
        &&& self.payload.iss@ == Seq::<char>::empty()
        &&& self.payload.sub@ == Seq::<char>::empty()
        &&& self.payload.iat@ == Seq::<char>::empty()
        &&& self.payload.jti@ == Seq::<char>::empty()
        &&& self.payload.ann@ == Seq::<char>::empty()
        &&& self.payload.avl == 0
        &&& self.signature.0@ == Seq::<char>::empty()
    }
}

impl Default for AlvariumAnnotation {
    fn default() -> (record: Self)
        ensures
            record.is_blank(),
    {
        AlvariumAnnotation {
            header: AlvariumHeader::default(),
            payload: AlvariumAnnotationPayload::default(),
            signature: AlvariumSignature::default(),
        }
    }
}

} // verus!
