//! The binary layout of a `BadRequest` payload, as a mathematical model.
//!
//! The payload is a protobuf message. Field 1 repeats, once per violation, and
//! holds a nested message: field 1 the field path, field 2 the description,
//! field 3 the reason, field 4 a localized message (field 1 the locale,
//! field 2 the text). Every other field is skipped when reading.
//!
//! Writing is modelled by functions from values to bytes, reading by functions
//! from bytes and a position to a value and the position after it.

use vstd::prelude::*;
use vstd::utf8::{decode_utf8, encode_utf8, valid_utf8};
use crate::bad_request::{FieldViolationView, LocalizedMessageView};

verus! {

/// Why a payload could not be read as a `BadRequest`.
#[derive(Clone, Copy, Debug, PartialEq, Eq, Structural)]
pub enum DecodeError {
    /// A varint is cut short, runs past ten bytes, or overflows 64 bits.
    InvalidVarint,
    /// Unknown groups are nested too deeply.
    RecursionLimitReached,
    /// A key names a wire type above 5.
    InvalidWireType,
    /// A key does not fit in 32 bits.
    InvalidKey,
    /// A key names field number 0.
    InvalidTag,
    /// A known field does not have the wire type of its schema.
    UnexpectedWireType,
    /// A length or a fixed-size value runs past the end of the payload.
    BufferUnderflow,
    /// The fields of a nested message run past the length it announced.
    DelimitedLengthExceeded,
    /// A group is closed that was not opened, or closed under another number.
    UnexpectedEndGroupTag,
    /// A string field is not UTF-8.
    InvalidString,
}

/// Wire type of a varint.
pub const VARINT: u64 = 0;

/// Wire type of a fixed 64-bit value.
pub const SIXTY_FOUR_BIT: u64 = 1;

/// Wire type of a length followed by that many bytes.
pub const LENGTH_DELIMITED: u64 = 2;

/// Wire type that opens a group.
pub const START_GROUP: u64 = 3;

/// Wire type that closes a group.
pub const END_GROUP: u64 = 4;

/// Wire type of a fixed 32-bit value.
pub const THIRTY_TWO_BIT: u64 = 5;

/// The largest field number a key can carry.
pub const MAX_TAG: u32 = 0x1FFF_FFFF;

/// How many levels of messages and groups a reader enters before it gives up.
pub const RECURSION_LIMIT: u32 = 100;

// ---------------------------------------------------------------- writing

/// The base-128 varint of `v`: seven bits per byte, low bits first, the top
/// bit set on every byte but the last.
pub open spec fn varint_bytes(v: nat) -> Seq<u8>
    decreases v,
{
    if v < 128 {
        seq![v as u8]
    } else {
        seq![(v % 128 + 128) as u8] + varint_bytes(v / 128)
    }
}

/// The number a key carries for a field number and a wire type.
pub open spec fn key_value(tag: nat, wire: nat) -> nat {
    tag * 8 + wire
}

/// A string field: key, byte length, UTF-8 bytes.
pub open spec fn string_field_bytes(tag: nat, value: Seq<char>) -> Seq<u8> {
    varint_bytes(key_value(tag, LENGTH_DELIMITED as nat)) + varint_bytes(encode_utf8(value).len())
        + encode_utf8(value)
}

/// The body of one violation as it is written: the field path and the
/// description, each left out when empty. The reason and the localized
/// message are not written.
pub open spec fn violation_bytes(v: FieldViolationView) -> Seq<u8> {
    let field = if v.field.len() > 0 {
        string_field_bytes(1, v.field)
    } else {
        Seq::empty()
    };
    let description = if v.description.len() > 0 {
        string_field_bytes(2, v.description)
    } else {
        Seq::empty()
    };
    field + description
}

/// One violation as field 1 of the payload: key, body length, body.
pub open spec fn violation_frame(v: FieldViolationView) -> Seq<u8> {
    varint_bytes(key_value(1, LENGTH_DELIMITED as nat)) + varint_bytes(violation_bytes(v).len())
        + violation_bytes(v)
}

/// The payload of a list of violations: their frames, in order.
pub open spec fn bad_request_bytes(b: Seq<FieldViolationView>) -> Seq<u8>
    decreases b.len(),
{
    if b.len() == 0 {
        Seq::empty()
    } else {
        violation_frame(b.first()) + bad_request_bytes(b.drop_first())
    }
}

/// A length-delimited field as a writer that knows more fields would write
/// it: key, length, content.
pub open spec fn bytes_field(tag: nat, content: Seq<u8>) -> Seq<u8> {
    varint_bytes(key_value(tag, LENGTH_DELIMITED as nat)) + varint_bytes(content.len()) + content
}

/// What a violation keeps of itself when written: path and description.
pub open spec fn written(v: FieldViolationView) -> FieldViolationView {
    FieldViolationView::plain(v.field, v.description)
}

/// What a list of violations keeps when written.
pub open spec fn written_all(b: Seq<FieldViolationView>) -> Seq<FieldViolationView> {
    b.map_values(|v: FieldViolationView| written(v))
}

/// True if every length that is written for `v` fits in 64 bits, as it does
/// for every violation held in memory.
pub open spec fn fits(v: FieldViolationView) -> bool {
    &&& encode_utf8(v.field).len() <= u64::MAX
    &&& encode_utf8(v.description).len() <= u64::MAX
    &&& violation_bytes(v).len() <= u64::MAX
}

/// True if every violation of `b` fits.
pub open spec fn all_fit(b: Seq<FieldViolationView>) -> bool {
    forall|i: int| 0 <= i < b.len() ==> fits(#[trigger] b[i])
}

// ---------------------------------------------------------------- reading

/// The varint at `pos`, as its value and the position after it, where `count`
/// bytes of it were read before `pos`. None if the payload ends first, if the
/// tenth byte does not end the varint, or if the tenth byte is above 1.
pub open spec fn varint_at(s: Seq<u8>, pos: int, count: int) -> Option<(int, int)>
    decreases 10 - count,
{
    if pos < 0 || pos >= s.len() || count < 0 || count >= 10 {
        None
    } else if s[pos] < 128 {
        if count == 9 && s[pos] >= 2 {
            None
        } else {
            Some((s[pos] as int, pos + 1))
        }
    } else {
        match varint_at(s, pos + 1, count + 1) {
            None => None,
            Some((rest, next)) => Some((s[pos] - 128 + 128 * rest, next)),
        }
    }
}

/// One more than the largest value that a varint can still have when `count`
/// of its bytes were read before.
pub open spec fn varint_limit(count: int) -> int
    decreases 9 - count,
{
    if count >= 9 {
        2
    } else {
        128 * varint_limit(count + 1)
    }
}

/// A whole varint stays below 2^64.
pub proof fn lemma_varint_limit(count: int)
    requires
        0 <= count <= 9,
    ensures
        0 < varint_limit(count) <= 0x1_0000_0000_0000_0000,
        count == 0 ==> varint_limit(count) == 0x1_0000_0000_0000_0000,
        count < 9 ==> varint_limit(count) == 128 * varint_limit(count + 1),
        count < 9 ==> varint_limit(count) >= 128,
{
    reveal_with_fuel(varint_limit, 12);
}

/// The key at `pos`: field number, wire type, position after it.
pub open spec fn key_at(s: Seq<u8>, pos: int) -> Result<(int, int, int), DecodeError> {
    match varint_at(s, pos, 0) {
        None => Err(DecodeError::InvalidVarint),
        Some((key, next)) => {
            if key > u32::MAX {
                Err(DecodeError::InvalidKey)
            } else if key % 8 > 5 {
                Err(DecodeError::InvalidWireType)
            } else if key / 8 < 1 {
                Err(DecodeError::InvalidTag)
            } else {
                Ok((key / 8, key % 8, next))
            }
        },
    }
}

/// The position after an unknown field whose key ended at `pos`, with
/// `depth` levels of nesting still allowed.
pub open spec fn skip_at(s: Seq<u8>, pos: int, wire: int, tag: int, depth: nat) -> Result<
    int,
    DecodeError,
>
    decreases depth, s.len() - pos, 1nat,
{
    if depth == 0 {
        Err(DecodeError::RecursionLimitReached)
    } else if wire == VARINT {
        match varint_at(s, pos, 0) {
            None => Err(DecodeError::InvalidVarint),
            Some((_, next)) => Ok(next),
        }
    } else if wire == THIRTY_TWO_BIT {
        if 4 > s.len() - pos {
            Err(DecodeError::BufferUnderflow)
        } else {
            Ok(pos + 4)
        }
    } else if wire == SIXTY_FOUR_BIT {
        if 8 > s.len() - pos {
            Err(DecodeError::BufferUnderflow)
        } else {
            Ok(pos + 8)
        }
    } else if wire == LENGTH_DELIMITED {
        match varint_at(s, pos, 0) {
            None => Err(DecodeError::InvalidVarint),
            Some((len, next)) => if len > s.len() - next {
                Err(DecodeError::BufferUnderflow)
            } else {
                Ok(next + len)
            },
        }
    } else if wire == START_GROUP {
        skip_group(s, pos, tag, depth)
    } else {
        Err(DecodeError::UnexpectedEndGroupTag)
    }
}

/// The position after the end of the group numbered `tag`, whose fields start
/// at `pos`. The test on `after` only serves to show that the reading ends: a
/// field that is skipped always ends after its key and within the payload, so
/// the test never fails.
pub open spec fn skip_group(s: Seq<u8>, pos: int, tag: int, depth: nat) -> Result<int, DecodeError>
    decreases depth, s.len() - pos, 0nat,
{
    match key_at(s, pos) {
        Err(e) => Err(e),
        Ok((inner_tag, inner_wire, next)) => {
            if inner_wire == END_GROUP {
                if inner_tag != tag {
                    Err(DecodeError::UnexpectedEndGroupTag)
                } else {
                    Ok(next)
                }
            } else if depth == 0 {
                Err(DecodeError::RecursionLimitReached)
            } else {
                match skip_at(s, next, inner_wire, inner_tag, (depth - 1) as nat) {
                    Err(e) => Err(e),
                    Ok(after) => if pos < after <= s.len() {
                        skip_group(s, after, tag, depth)
                    } else {
                        Err(DecodeError::BufferUnderflow)
                    },
                }
            }
        },
    }
}

/// The bytes of a length-delimited field whose key ended at `pos`, as the
/// positions where they start and end.
pub open spec fn bytes_at(s: Seq<u8>, pos: int, wire: int) -> Result<(int, int), DecodeError> {
    if wire != LENGTH_DELIMITED {
        Err(DecodeError::UnexpectedWireType)
    } else {
        match varint_at(s, pos, 0) {
            None => Err(DecodeError::InvalidVarint),
            Some((len, start)) => if len > s.len() - start {
                Err(DecodeError::BufferUnderflow)
            } else {
                Ok((start, start + len))
            },
        }
    }
}

/// The string field whose key ended at `pos`: its text and the position
/// after it.
pub open spec fn string_at(s: Seq<u8>, pos: int, wire: int) -> Result<(Seq<char>, int), DecodeError> {
    match bytes_at(s, pos, wire) {
        Err(e) => Err(e),
        Ok((start, end)) => if valid_utf8(s.subrange(start, end)) {
            Ok((decode_utf8(s.subrange(start, end)), end))
        } else {
            Err(DecodeError::InvalidString)
        },
    }
}

/// One field of a localized message read into `acc`.
#[verifier::opaque]
pub open spec fn localized_field(s: Seq<u8>, pos: int, acc: LocalizedMessageView) -> Result<
    (LocalizedMessageView, int),
    DecodeError,
> {
    match key_at(s, pos) {
        Err(e) => Err(e),
        Ok((tag, wire, next)) => if tag == 1 {
            match string_at(s, next, wire) {
                Err(e) => Err(e),
                Ok((text, after)) => Ok(
                    (LocalizedMessageView { locale: text, message: acc.message }, after),
                ),
            }
        } else if tag == 2 {
            match string_at(s, next, wire) {
                Err(e) => Err(e),
                Ok((text, after)) => Ok(
                    (LocalizedMessageView { locale: acc.locale, message: text }, after),
                ),
            }
        } else {
            match skip_at(s, next, wire, tag, (RECURSION_LIMIT - 2) as nat) {
                Err(e) => Err(e),
                Ok(after) => Ok((acc, after)),
            }
        },
    }
}

/// The fields from `pos` up to `end` read into `acc`, a later value of a
/// field replacing an earlier one. The fields must end exactly at `end`.
pub open spec fn localized_fields(s: Seq<u8>, pos: int, end: int, acc: LocalizedMessageView) -> Result<
    LocalizedMessageView,
    DecodeError,
>
    decreases (if pos < end { end - pos } else { 0 }),
{
    if pos > end {
        Err(DecodeError::DelimitedLengthExceeded)
    } else if pos == end {
        Ok(acc)
    } else {
        match localized_field(s, pos, acc) {
            Err(e) => Err(e),
            Ok((next_acc, after)) => {
                proof {
                    crate::laws::lemma_localized_field_advances(s, pos, acc);
                }
                localized_fields(s, after, end, next_acc)
            },
        }
    }
}

/// The localized message that a violation holds before field 4 is read
/// into it.
pub open spec fn localized_or_empty(m: Option<LocalizedMessageView>) -> LocalizedMessageView {
    match m {
        Some(m) => m,
        None => LocalizedMessageView { locale: Seq::empty(), message: Seq::empty() },
    }
}

/// One field of a violation read into `acc`.
#[verifier::opaque]
pub open spec fn violation_field(s: Seq<u8>, pos: int, acc: FieldViolationView) -> Result<
    (FieldViolationView, int),
    DecodeError,
> {
    match key_at(s, pos) {
        Err(e) => Err(e),
        Ok((tag, wire, next)) => if 1 <= tag <= 3 {
            match string_at(s, next, wire) {
                Err(e) => Err(e),
                Ok((text, after)) => Ok(
                    (
                        FieldViolationView {
                            field: if tag == 1 { text } else { acc.field },
                            description: if tag == 2 { text } else { acc.description },
                            reason: if tag == 3 { text } else { acc.reason },
                            localized_message: acc.localized_message,
                        },
                        after,
                    ),
                ),
            }
        } else if tag == 4 {
            match bytes_at(s, next, wire) {
                Err(e) => Err(e),
                Ok((start, end)) => match localized_fields(
                    s,
                    start,
                    end,
                    localized_or_empty(acc.localized_message),
                ) {
                    Err(e) => Err(e),
                    Ok(m) => Ok(
                        (
                            FieldViolationView {
                                field: acc.field,
                                description: acc.description,
                                reason: acc.reason,
                                localized_message: Some(m),
                            },
                            end,
                        ),
                    ),
                },
            }
        } else {
            match skip_at(s, next, wire, tag, (RECURSION_LIMIT - 1) as nat) {
                Err(e) => Err(e),
                Ok(after) => Ok((acc, after)),
            }
        },
    }
}

/// The fields from `pos` up to `end` read into `acc`.
pub open spec fn violation_fields(s: Seq<u8>, pos: int, end: int, acc: FieldViolationView) -> Result<
    FieldViolationView,
    DecodeError,
>
    decreases (if pos < end { end - pos } else { 0 }),
{
    if pos > end {
        Err(DecodeError::DelimitedLengthExceeded)
    } else if pos == end {
        Ok(acc)
    } else {
        match violation_field(s, pos, acc) {
            Err(e) => Err(e),
            Ok((next_acc, after)) => {
                proof {
                    crate::laws::lemma_violation_field_advances(s, pos, acc);
                }
                violation_fields(s, after, end, next_acc)
            },
        }
    }
}

/// One field of the payload: a violation appended to `acc`, or an unknown
/// field skipped.
#[verifier::opaque]
pub open spec fn request_field(s: Seq<u8>, pos: int, acc: Seq<FieldViolationView>) -> Result<
    (Seq<FieldViolationView>, int),
    DecodeError,
> {
    match key_at(s, pos) {
        Err(e) => Err(e),
        Ok((tag, wire, next)) => if tag == 1 {
            match bytes_at(s, next, wire) {
                Err(e) => Err(e),
                Ok((start, end)) => match violation_fields(
                    s,
                    start,
                    end,
                    FieldViolationView::empty(),
                ) {
                    Err(e) => Err(e),
                    Ok(v) => Ok((acc.push(v), end)),
                },
            }
        } else {
            match skip_at(s, next, wire, tag, RECURSION_LIMIT as nat) {
                Err(e) => Err(e),
                Ok(after) => Ok((acc, after)),
            }
        },
    }
}

/// The fields from `pos` to the end of the payload read into `acc`.
pub open spec fn request_fields(s: Seq<u8>, pos: int, acc: Seq<FieldViolationView>) -> Result<
    Seq<FieldViolationView>,
    DecodeError,
>
    decreases (if pos < s.len() { s.len() - pos } else { 0 }),
{
    if pos >= s.len() {
        Ok(acc)
    } else {
        match request_field(s, pos, acc) {
            Err(e) => Err(e),
            Ok((next_acc, after)) => {
                proof {
                    crate::laws::lemma_request_field_advances(s, pos, acc);
                }
                request_fields(s, after, next_acc)
            },
        }
    }
}

/// What a payload holds: its violations in the order of the payload, or the
/// first fault met when reading it from the start.
pub open spec fn parse_bad_request(s: Seq<u8>) -> Result<Seq<FieldViolationView>, DecodeError> {
    request_fields(s, 0, Seq::empty())
}

} // verus!
