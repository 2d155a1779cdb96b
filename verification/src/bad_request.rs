//! The `BadRequest` detail and the violations it lists.

use vstd::prelude::*;
use crate::decode::decode_bad_request;
use crate::encode::encode_bad_request;
use crate::envelope::{Any, FromAny, FromAnyRef, IntoAny};
use crate::laws::{law_round_trip, law_round_trip_plain};
use crate::wire::{bad_request_bytes, parse_bad_request, written_all, DecodeError};

verus! {

/// A message in a given locale, attached to a violation.
#[derive(Clone, Debug, PartialEq, Eq)]
pub struct LocalizedMessage {
    /// Locale of the message, such as "en-US".
    pub locale: String,
    /// The message text in that locale.
    pub message: String,
}

/// What a [`LocalizedMessage`] holds.
pub struct LocalizedMessageView {
    pub locale: Seq<char>,
    pub message: Seq<char>,
}

impl View for LocalizedMessage {
    type V = LocalizedMessageView;

    open spec fn view(&self) -> LocalizedMessageView {
        LocalizedMessageView { locale: self.locale@, message: self.message@ }
    }
}

impl Default for LocalizedMessage {
    /// The message with an empty locale and an empty text.
    fn default() -> (r: Self)
        ensures
            r@.locale.len() == 0,
            r@.message.len() == 0,
    {
        LocalizedMessage { locale: String::new(), message: String::new() }
    }
}

impl LocalizedMessage {
    /// Builds a message from its locale and its text.
    pub fn new(locale: &str, message: &str) -> (r: Self)
        ensures
            r@.locale == locale@,
            r@.message == message@,
    {
        LocalizedMessage { locale: locale.to_owned(), message: message.to_owned() }
    }
}

/// One field of a request that was found bad.
#[derive(Clone, Debug, PartialEq, Eq)]
pub struct FieldViolation {
    /// Dot-separated path to the field in the request body.
    pub field: String,
    /// Why the field is bad.
    pub description: String,
    /// Machine-readable reason, in SCREAMING_SNAKE_CASE; may be empty.
    pub reason: String,
    /// The error in the language of a given locale, if there is one.
    pub localized_message: Option<LocalizedMessage>,
}

/// What a [`FieldViolation`] holds.
pub struct FieldViolationView {
    pub field: Seq<char>,
    pub description: Seq<char>,
    pub reason: Seq<char>,
    pub localized_message: Option<LocalizedMessageView>,
}

impl FieldViolationView {
    /// The violation with every field empty or absent.
    pub open spec fn empty() -> FieldViolationView {
        FieldViolationView {
            field: Seq::empty(),
            description: Seq::empty(),
            reason: Seq::empty(),
            localized_message: None,
        }
    }

    /// The violation that names `field` and `description` and nothing else.
    pub open spec fn plain(field: Seq<char>, description: Seq<char>) -> FieldViolationView {
        FieldViolationView {
            field,
            description,
            reason: Seq::empty(),
            localized_message: None,
        }
    }

    /// True if neither a reason nor a localized message is set.
    pub open spec fn is_plain(self) -> bool {
        self.reason.len() == 0 && self.localized_message is None
    }
}

impl View for FieldViolation {
    type V = FieldViolationView;

    open spec fn view(&self) -> FieldViolationView {
        FieldViolationView {
            field: self.field@,
            description: self.description@,
            reason: self.reason@,
            localized_message: match self.localized_message {
                Some(m) => Some(m@),
                None => None,
            },
        }
    }
}

impl Default for FieldViolation {
    /// The violation with every field empty or absent.
    fn default() -> (r: Self)
        ensures
            r@ == FieldViolationView::empty(),
    {
        FieldViolation {
            field: String::new(),
            description: String::new(),
            reason: String::new(),
            localized_message: None,
        }
    }
}

impl FieldViolation {
    /// Builds a violation from a field path and a description; the reason is
    /// empty and no localized message is attached.
    pub fn new(field: &str, description: &str) -> (r: Self)
        ensures
            r@ == FieldViolationView::plain(field@, description@),
    {
        FieldViolation {
            field: field.to_owned(),
            description: description.to_owned(),
            reason: String::new(),
            localized_message: None,
        }
    }
}

/// Violations found in a client request, in the order they were reported.
#[derive(Clone, Debug, PartialEq, Eq)]
pub struct BadRequest {
    /// Every violation of the request. Order matters; duplicates may occur.
    pub field_violations: Vec<FieldViolation>,
}

/// What a list of violations holds, item by item.
pub open spec fn views(list: Seq<FieldViolation>) -> Seq<FieldViolationView> {
    list.map_values(|v: FieldViolation| v@)
}

impl View for BadRequest {
    type V = Seq<FieldViolationView>;

    open spec fn view(&self) -> Seq<FieldViolationView> {
        views(self.field_violations@)
    }
}

impl BadRequest {
    /// Type URL of the `BadRequest` message.
    pub const TYPE_URL: &'static str = "type.googleapis.com/google.rpc.BadRequest";

    /// Wraps a list of violations as it is.
    pub fn new(field_violations: Vec<FieldViolation>) -> (r: Self)
        ensures
            r.field_violations == field_violations,
            r@ == views(field_violations@),
    {
        BadRequest { field_violations }
    }

    /// Builds a detail that holds exactly one violation.
    pub fn with_violation(field: &str, description: &str) -> (r: Self)
        ensures
            r@ == seq![FieldViolationView::plain(field@, description@)],
    {
        let mut field_violations: Vec<FieldViolation> = Vec::new();
        field_violations.push(FieldViolation::new(field, description));
        let r = BadRequest { field_violations };
        assert(r@ =~= seq![FieldViolationView::plain(field@, description@)]);
        r
    }

    /// Appends one violation after those already present and hands the detail
    /// back, so that calls can be chained.
    pub fn add_violation(&mut self, field: &str, description: &str) -> (ret: &mut Self)
        ensures
            ret@ == old(self)@.push(FieldViolationView::plain(field@, description@)),
            *final(self) == *final(ret),
    {
        let ghost before = self@;
        self.field_violations.push(FieldViolation::new(field, description));
        assert(self@ =~= before.push(FieldViolationView::plain(field@, description@)));
        self
    }

    /// True if and only if no violation is listed.
    pub fn is_empty(&self) -> (r: bool)
        ensures
            r == (self@.len() == 0),
    {
        self.field_violations.is_empty()
    }
}

impl IntoAny for BadRequest {
    open spec fn type_url() -> Seq<char> {
        BadRequest::TYPE_URL@
    }

    open spec fn payload(detail: Seq<FieldViolationView>) -> Seq<u8> {
        bad_request_bytes(detail)
    }

    /// Turns the detail into an envelope: the type URL of `BadRequest` and the
    /// payload. Of each violation the field path and the description are
    /// written; a reason or a localized message is not. Reading the payload
    /// gives back exactly what was written, in order: the detail itself where
    /// no violation has a reason or a localized message.
    fn into_any(self) -> (r: Any)
        ensures
            r.type_url@ == BadRequest::TYPE_URL@,
            r.value@ == bad_request_bytes(self@),
            parse_bad_request(r.value@) == Ok::<Seq<FieldViolationView>, DecodeError>(
                written_all(self@),
            ),
            (forall|i: int| 0 <= i < self@.len() ==> (#[trigger] self@[i]).is_plain())
                ==> parse_bad_request(r.value@) == Ok::<Seq<FieldViolationView>, DecodeError>(
                self@,
            ),
    {
        let value = encode_bad_request(&self);
        proof {
            law_round_trip(self@);
            if forall|i: int| 0 <= i < self@.len() ==> (#[trigger] self@[i]).is_plain() {
                law_round_trip_plain(self@);
            }
        }
        Any { type_url: BadRequest::TYPE_URL.to_owned(), value }
    }
}

impl FromAnyRef for BadRequest {
    open spec fn parse(payload: Seq<u8>) -> Result<Seq<FieldViolationView>, DecodeError> {
        parse_bad_request(payload)
    }

    /// Reads the detail out of a borrowed envelope: the violations that the
    /// payload holds, in its order, or the first fault met in it.
    fn from_any_ref(any: &Any) -> (r: Result<BadRequest, DecodeError>)
        ensures
            r matches Ok(b) ==> parse_bad_request(any.value@) == Ok::<
                Seq<FieldViolationView>,
                DecodeError,
            >(b@),
            r matches Err(e) ==> parse_bad_request(any.value@) == Err::<
                Seq<FieldViolationView>,
                DecodeError,
            >(e),
    {
        decode_bad_request(any.value.as_slice())
    }
}

impl FromAny for BadRequest {
    /// Reads the detail out of an envelope, as `from_any_ref` does.
    fn from_any(any: Any) -> (r: Result<BadRequest, DecodeError>)
        ensures
            r matches Ok(b) ==> parse_bad_request(any.value@) == Ok::<
                Seq<FieldViolationView>,
                DecodeError,
            >(b@),
            r matches Err(e) ==> parse_bad_request(any.value@) == Err::<
                Seq<FieldViolationView>,
                DecodeError,
            >(e),
    {
        BadRequest::from_any_ref(&any)
    }
}

} // verus!
