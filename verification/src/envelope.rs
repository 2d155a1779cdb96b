//! The type-erased envelope that carries one error detail, and what a kind
//! of detail owes in order to travel in it.

use vstd::prelude::*;
use crate::wire::DecodeError;

verus! {

/// A payload tagged with the URL of the message type it holds.
#[derive(Clone, Debug, PartialEq, Eq)]
pub struct Any {
    /// Names the message type of `value`.
    pub type_url: String,
    /// The message, in protobuf binary form.
    pub value: Vec<u8>,
}

/// A detail that can be packed into an envelope. Packing uses the detail up.
pub trait IntoAny: View + Sized {
    /// The type URL under which this kind of detail travels.
    spec fn type_url() -> Seq<char>;

    /// The payload that is written for a detail.
    spec fn payload(detail: Self::V) -> Seq<u8>;

    /// Packs the detail: the envelope carries the type URL of its kind and
    /// the payload written for it.
    fn into_any(self) -> (r: Any)
        ensures
            r.type_url@ == Self::type_url(),
            r.value@ == Self::payload(self@),
    ;
}

/// A detail that can be read out of a borrowed envelope.
pub trait FromAnyRef: View + Sized {
    /// What a payload holds when read as this kind of detail, or the fault
    /// that stops the reading.
    spec fn parse(payload: Seq<u8>) -> Result<Self::V, DecodeError>;

    /// Reads the payload of the envelope as this kind of detail. The type
    /// URL is not looked at: the payload alone decides.
    fn from_any_ref(any: &Any) -> (r: Result<Self, DecodeError>)
        ensures
            r matches Ok(detail) ==> Self::parse(any.value@) == Ok::<Self::V, DecodeError>(detail@),
            r matches Err(e) ==> Self::parse(any.value@) == Err::<Self::V, DecodeError>(e),
    ;
}

/// A detail that can be read out of an envelope it is given.
pub trait FromAny: FromAnyRef {
    /// Reads the payload of the envelope as this kind of detail.
    fn from_any(any: Any) -> (r: Result<Self, DecodeError>)
        ensures
            r matches Ok(detail) ==> Self::parse(any.value@) == Ok::<Self::V, DecodeError>(detail@),
            r matches Err(e) ==> Self::parse(any.value@) == Err::<Self::V, DecodeError>(e),
    ;
}

} // verus!
