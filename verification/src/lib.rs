//! Structured "bad request" error details and their tagged binary envelope.
//!
//! A [`BadRequest`] lists the fields of a client request that were rejected.
//! It travels as an [`Any`]: a type URL and a protobuf payload. This crate
//! builds the detail, writes the payload, reads it back, and proves that
//! reading undoes writing.

pub mod bad_request;
pub mod decode;
pub mod encode;
pub mod envelope;
pub mod laws;
pub mod wire;

pub use bad_request::{BadRequest, FieldViolation, LocalizedMessage};
pub use envelope::{Any, FromAny, FromAnyRef, IntoAny};
pub use wire::DecodeError;
