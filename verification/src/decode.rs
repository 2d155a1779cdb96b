//! Reading a `BadRequest` payload.
//!
//! Each function here reads what one function of the model describes and
//! returns exactly what the model gives, fault for fault.

use vstd::prelude::*;
use vstd::slice::{slice_subrange, slice_to_vec};
use vstd::utf8::{decode_utf8, valid_utf8};
use crate::bad_request::{
    views, BadRequest, FieldViolation, FieldViolationView, LocalizedMessage, LocalizedMessageView,
};
use crate::wire::{
    bytes_at, key_at, lemma_varint_limit, localized_field, localized_fields, parse_bad_request,
    request_field, request_fields, skip_at, skip_group, string_at, varint_at, varint_limit,
    violation_field, violation_fields, DecodeError, END_GROUP, LENGTH_DELIMITED, RECURSION_LIMIT,
    SIXTY_FOUR_BIT, START_GROUP, THIRTY_TWO_BIT, VARINT,
};

verus! {

/// Checks bytes to be UTF-8 and makes a string of them, by
/// `String::from_utf8`.
///
/// Trusted: that function succeeds exactly on well-formed UTF-8 and then
/// returns the text that the bytes encode.
#[verifier::external_body]
fn string_from_utf8(bytes: Vec<u8>) -> (r: Option<String>)
    ensures
        r is Some <==> valid_utf8(bytes@),
        r is Some ==> r->Some_0@ == decode_utf8(bytes@),
{
    match String::from_utf8(bytes) {
        Ok(text) => Some(text),
        Err(_) => None,
    }
}

/// Reads the rest of a varint of which `count` bytes were read before `pos`.
fn read_varint_from(buf: &[u8], pos: usize, count: u8) -> (r: Option<(u64, usize)>)
    requires
        pos <= buf.len(),
        count <= 10,
    ensures
        r is None <==> varint_at(buf@, pos as int, count as int) is None,
        r matches Some((v, next)) ==> varint_at(buf@, pos as int, count as int) == Some(
            (v as int, next as int),
        ) && v < varint_limit(count as int) && pos < next <= buf.len(),
    decreases 10 - count,
{
    if pos >= buf.len() || count >= 10 {
        return None;
    }
    proof {
        lemma_varint_limit(count as int);
    }
    let b: u8 = buf[pos];
    if b < 128 {
        if count == 9 && b >= 2 {
            None
        } else {
            Some((b as u64, pos + 1))
        }
    } else {
        match read_varint_from(buf, pos + 1, count + 1) {
            None => None,
            Some((rest, next)) => {
                Some(((b - 128) as u64 + 128 * rest, next))
            },
        }
    }
}

/// Reads the varint at `pos`: its value and the position after it.
fn read_varint(buf: &[u8], pos: usize) -> (r: Option<(u64, usize)>)
    requires
        pos <= buf.len(),
    ensures
        r is None <==> varint_at(buf@, pos as int, 0) is None,
        r matches Some((v, next)) ==> varint_at(buf@, pos as int, 0) == Some(
            (v as int, next as int),
        ) && pos < next <= buf.len(),
{
    read_varint_from(buf, pos, 0)
}

/// Reads the key at `pos`: field number, wire type, position after it.
fn read_key(buf: &[u8], pos: usize) -> (r: Result<(u32, u64, usize), DecodeError>)
    requires
        pos <= buf.len(),
    ensures
        r matches Err(e) ==> key_at(buf@, pos as int) == Err::<(int, int, int), DecodeError>(e),
        r matches Ok((tag, wire, next)) ==> key_at(buf@, pos as int) == Ok::<
            (int, int, int),
            DecodeError,
        >((tag as int, wire as int, next as int)) && pos < next <= buf.len() && wire <= 5 && tag
            >= 1,
{
    match read_varint(buf, pos) {
        None => Err(DecodeError::InvalidVarint),
        Some((key, next)) => {
            if key > 0xFFFF_FFFF {
                Err(DecodeError::InvalidKey)
            } else if key % 8 > 5 {
                Err(DecodeError::InvalidWireType)
            } else if key / 8 < 1 {
                Err(DecodeError::InvalidTag)
            } else {
                Ok(((key / 8) as u32, key % 8, next))
            }
        },
    }
}

/// Skips the unknown field whose key ended at `pos`.
fn skip_field(buf: &[u8], pos: usize, wire: u64, tag: u32, depth: u32) -> (r: Result<
    usize,
    DecodeError,
>)
    requires
        pos <= buf.len(),
    ensures
        r matches Err(e) ==> skip_at(buf@, pos as int, wire as int, tag as int, depth as nat)
            == Err::<int, DecodeError>(e),
        r matches Ok(after) ==> skip_at(buf@, pos as int, wire as int, tag as int, depth as nat)
            == Ok::<int, DecodeError>(after as int) && pos <= after <= buf.len(),
    decreases depth, buf.len() - pos, 1nat,
{
    if depth == 0 {
        Err(DecodeError::RecursionLimitReached)
    } else if wire == VARINT {
        match read_varint(buf, pos) {
            None => Err(DecodeError::InvalidVarint),
            Some((_, next)) => Ok(next),
        }
    } else if wire == THIRTY_TWO_BIT {
        if buf.len() - pos < 4 {
            Err(DecodeError::BufferUnderflow)
        } else {
            Ok(pos + 4)
        }
    } else if wire == SIXTY_FOUR_BIT {
        if buf.len() - pos < 8 {
            Err(DecodeError::BufferUnderflow)
        } else {
            Ok(pos + 8)
        }
    } else if wire == LENGTH_DELIMITED {
        match read_varint(buf, pos) {
            None => Err(DecodeError::InvalidVarint),
            Some((len, next)) => {
                if len > (buf.len() - next) as u64 {
                    Err(DecodeError::BufferUnderflow)
                } else {
                    Ok(next + len as usize)
                }
            },
        }
    } else if wire == START_GROUP {
        skip_to_group_end(buf, pos, tag, depth)
    } else {
        Err(DecodeError::UnexpectedEndGroupTag)
    }
}

/// Skips the fields of the group numbered `tag` and the key that closes it.
fn skip_to_group_end(buf: &[u8], start: usize, tag: u32, depth: u32) -> (r: Result<
    usize,
    DecodeError,
>)
    requires
        start <= buf.len(),
        depth > 0,
    ensures
        r matches Err(e) ==> skip_group(buf@, start as int, tag as int, depth as nat) == Err::<
            int,
            DecodeError,
        >(e),
        r matches Ok(after) ==> skip_group(buf@, start as int, tag as int, depth as nat) == Ok::<
            int,
            DecodeError,
        >(after as int) && start < after <= buf.len(),
    decreases depth, buf.len() - start, 0nat,
{
    let mut pos: usize = start;
    loop
        invariant
            start <= pos <= buf.len(),
            depth > 0,
            skip_group(buf@, pos as int, tag as int, depth as nat) == skip_group(
                buf@,
                start as int,
                tag as int,
                depth as nat,
            ),
        decreases buf.len() - pos,
    {
        match read_key(buf, pos) {
            Err(e) => {
                return Err(e);
            },
            Ok((inner_tag, inner_wire, next)) => {
                if inner_wire == END_GROUP {
                    if inner_tag != tag {
                        return Err(DecodeError::UnexpectedEndGroupTag);
                    } else {
                        return Ok(next);
                    }
                }
                match skip_field(buf, next, inner_wire, inner_tag, depth - 1) {
                    Err(e) => {
                        return Err(e);
                    },
                    Ok(after) => {
                        pos = after;
                    },
                }
            },
        }
    }
}

/// Reads the frame of a length-delimited field whose key ended at `pos`:
/// where its bytes start and where they end.
fn read_bytes(buf: &[u8], pos: usize, wire: u64) -> (r: Result<(usize, usize), DecodeError>)
    requires
        pos <= buf.len(),
    ensures
        r matches Err(e) ==> bytes_at(buf@, pos as int, wire as int) == Err::<
            (int, int),
            DecodeError,
        >(e),
        r matches Ok((start, end)) ==> bytes_at(buf@, pos as int, wire as int) == Ok::<
            (int, int),
            DecodeError,
        >((start as int, end as int)) && pos < start <= end <= buf.len(),
{
    if wire != LENGTH_DELIMITED {
        Err(DecodeError::UnexpectedWireType)
    } else {
        match read_varint(buf, pos) {
            None => Err(DecodeError::InvalidVarint),
            Some((len, start)) => {
                if len > (buf.len() - start) as u64 {
                    Err(DecodeError::BufferUnderflow)
                } else {
                    Ok((start, start + len as usize))
                }
            },
        }
    }
}

/// Reads the string field whose key ended at `pos`.
fn read_string(buf: &[u8], pos: usize, wire: u64) -> (r: Result<(String, usize), DecodeError>)
    requires
        pos <= buf.len(),
    ensures
        r matches Err(e) ==> string_at(buf@, pos as int, wire as int) == Err::<
            (Seq<char>, int),
            DecodeError,
        >(e),
        r matches Ok((text, after)) ==> string_at(buf@, pos as int, wire as int) == Ok::<
            (Seq<char>, int),
            DecodeError,
        >((text@, after as int)) && pos < after <= buf.len(),
{
    match read_bytes(buf, pos, wire) {
        Err(e) => Err(e),
        Ok((start, end)) => {
            let bytes = slice_to_vec(slice_subrange(buf, start, end));
            match string_from_utf8(bytes) {
                None => Err(DecodeError::InvalidString),
                Some(text) => Ok((text, end)),
            }
        },
    }
}

/// Reads one field of a localized message into `acc`.
fn read_localized_field(buf: &[u8], pos: usize, acc: LocalizedMessage) -> (r: Result<
    (LocalizedMessage, usize),
    DecodeError,
>)
    requires
        pos <= buf.len(),
    ensures
        r matches Err(e) ==> localized_field(buf@, pos as int, acc@) == Err::<
            (LocalizedMessageView, int),
            DecodeError,
        >(e),
        r matches Ok((m, after)) ==> localized_field(buf@, pos as int, acc@) == Ok::<
            (LocalizedMessageView, int),
            DecodeError,
        >((m@, after as int)) && pos < after <= buf.len(),
{
    reveal(localized_field);
    match read_key(buf, pos) {
        Err(e) => Err(e),
        Ok((tag, wire, next)) => {
            if tag == 1 {
                match read_string(buf, next, wire) {
                    Err(e) => Err(e),
                    Ok((text, after)) => Ok(
                        (LocalizedMessage { locale: text, message: acc.message }, after),
                    ),
                }
            } else if tag == 2 {
                match read_string(buf, next, wire) {
                    Err(e) => Err(e),
                    Ok((text, after)) => Ok(
                        (LocalizedMessage { locale: acc.locale, message: text }, after),
                    ),
                }
            } else {
                match skip_field(buf, next, wire, tag, RECURSION_LIMIT - 2) {
                    Err(e) => Err(e),
                    Ok(after) => Ok((acc, after)),
                }
            }
        },
    }
}

/// Reads the fields of a localized message that lie from `start` up to `end`
/// into `init`.
fn read_localized(buf: &[u8], start: usize, end: usize, init: LocalizedMessage) -> (r: Result<
    LocalizedMessage,
    DecodeError,
>)
    requires
        start <= end <= buf.len(),
    ensures
        r matches Err(e) ==> localized_fields(buf@, start as int, end as int, init@) == Err::<
            LocalizedMessageView,
            DecodeError,
        >(e),
        r matches Ok(m) ==> localized_fields(buf@, start as int, end as int, init@) == Ok::<
            LocalizedMessageView,
            DecodeError,
        >(m@),
{
    let ghost first = init@;
    let mut acc = init;
    let mut pos: usize = start;
    while pos < end
        invariant
            pos <= buf.len(),
            end <= buf.len(),
            first == init@,
            localized_fields(buf@, pos as int, end as int, acc@) == localized_fields(
                buf@,
                start as int,
                end as int,
                first,
            ),
        decreases buf.len() - pos,
    {
        match read_localized_field(buf, pos, acc) {
            Err(e) => {
                return Err(e);
            },
            Ok((next_acc, after)) => {
                acc = next_acc;
                pos = after;
            },
        }
    }
    if pos != end {
        Err(DecodeError::DelimitedLengthExceeded)
    } else {
        Ok(acc)
    }
}

/// Reads one field of a violation into `acc`.
fn read_violation_field(buf: &[u8], pos: usize, acc: FieldViolation) -> (r: Result<
    (FieldViolation, usize),
    DecodeError,
>)
    requires
        pos <= buf.len(),
    ensures
        r matches Err(e) ==> violation_field(buf@, pos as int, acc@) == Err::<
            (FieldViolationView, int),
            DecodeError,
        >(e),
        r matches Ok((v, after)) ==> violation_field(buf@, pos as int, acc@) == Ok::<
            (FieldViolationView, int),
            DecodeError,
        >((v@, after as int)) && pos < after <= buf.len(),
{
    reveal(violation_field);
    let FieldViolation { field, description, reason, localized_message } = acc;
    match read_key(buf, pos) {
        Err(e) => Err(e),
        Ok((tag, wire, next)) => {
            if tag == 1 {
                match read_string(buf, next, wire) {
                    Err(e) => Err(e),
                    Ok((text, after)) => Ok(
                        (FieldViolation { field: text, description, reason, localized_message }, after),
                    ),
                }
            } else if tag == 2 {
                match read_string(buf, next, wire) {
                    Err(e) => Err(e),
                    Ok((text, after)) => Ok(
                        (FieldViolation { field, description: text, reason, localized_message }, after),
                    ),
                }
            } else if tag == 3 {
                match read_string(buf, next, wire) {
                    Err(e) => Err(e),
                    Ok((text, after)) => Ok(
                        (FieldViolation { field, description, reason: text, localized_message }, after),
                    ),
                }
            } else if tag == 4 {
                match read_bytes(buf, next, wire) {
                    Err(e) => Err(e),
                    Ok((start, end)) => {
                        let init = match localized_message {
                            Some(m) => m,
                            None => LocalizedMessage {
                                locale: String::new(),
                                message: String::new(),
                            },
                        };
                        match read_localized(buf, start, end, init) {
                            Err(e) => Err(e),
                            Ok(m) => Ok(
                                (
                                    FieldViolation {
                                        field,
                                        description,
                                        reason,
                                        localized_message: Some(m),
                                    },
                                    end,
                                ),
                            ),
                        }
                    },
                }
            } else {
                match skip_field(buf, next, wire, tag, RECURSION_LIMIT - 1) {
                    Err(e) => Err(e),
                    Ok(after) => Ok(
                        (FieldViolation { field, description, reason, localized_message }, after),
                    ),
                }
            }
        },
    }
}

/// Reads the fields of a violation that lie from `start` up to `end`.
fn read_violation(buf: &[u8], start: usize, end: usize) -> (r: Result<
    FieldViolation,
    DecodeError,
>)
    requires
        start <= end <= buf.len(),
    ensures
        r matches Err(e) ==> violation_fields(
            buf@,
            start as int,
            end as int,
            FieldViolationView::empty(),
        ) == Err::<FieldViolationView, DecodeError>(e),
        r matches Ok(v) ==> violation_fields(
            buf@,
            start as int,
            end as int,
            FieldViolationView::empty(),
        ) == Ok::<FieldViolationView, DecodeError>(v@),
{
    let mut acc = FieldViolation {
        field: String::new(),
        description: String::new(),
        reason: String::new(),
        localized_message: None,
    };
    let mut pos: usize = start;
    while pos < end
        invariant
            pos <= buf.len(),
            end <= buf.len(),
            violation_fields(buf@, pos as int, end as int, acc@) == violation_fields(
                buf@,
                start as int,
                end as int,
                FieldViolationView::empty(),
            ),
        decreases buf.len() - pos,
    {
        match read_violation_field(buf, pos, acc) {
            Err(e) => {
                return Err(e);
            },
            Ok((next_acc, after)) => {
                acc = next_acc;
                pos = after;
            },
        }
    }
    if pos != end {
        Err(DecodeError::DelimitedLengthExceeded)
    } else {
        Ok(acc)
    }
}

/// Reads one field of the payload: appends a violation to `acc`, or skips an
/// unknown field.
fn read_request_field(buf: &[u8], pos: usize, acc: &mut Vec<FieldViolation>) -> (r: Result<
    usize,
    DecodeError,
>)
    requires
        pos <= buf.len(),
    ensures
        r matches Err(e) ==> request_field(buf@, pos as int, views(old(acc)@)) == Err::<
            (Seq<FieldViolationView>, int),
            DecodeError,
        >(e),
        r matches Ok(after) ==> request_field(buf@, pos as int, views(old(acc)@)) == Ok::<
            (Seq<FieldViolationView>, int),
            DecodeError,
        >((views(final(acc)@), after as int)) && pos < after <= buf.len(),
{
    reveal(request_field);
    match read_key(buf, pos) {
        Err(e) => Err(e),
        Ok((tag, wire, next)) => {
            if tag == 1 {
                match read_bytes(buf, next, wire) {
                    Err(e) => Err(e),
                    Ok((start, end)) => match read_violation(buf, start, end) {
                        Err(e) => Err(e),
                        Ok(v) => {
                            let ghost before = views(acc@);
                            let ghost added = v@;
                            acc.push(v);
                            assert(views(acc@) =~= before.push(added));
                            Ok(end)
                        },
                    },
                }
            } else {
                skip_field(buf, next, wire, tag, RECURSION_LIMIT)
            }
        },
    }
}

/// Reads a whole payload. Returns the violations it holds, in its order, or
/// the first fault met; a payload with no bytes holds no violation.
pub fn decode_bad_request(buf: &[u8]) -> (r: Result<BadRequest, DecodeError>)
    ensures
        r matches Err(e) ==> parse_bad_request(buf@) == Err::<Seq<FieldViolationView>, DecodeError>(
            e,
        ),
        r matches Ok(b) ==> parse_bad_request(buf@) == Ok::<Seq<FieldViolationView>, DecodeError>(
            b@,
        ),
{
    let mut acc: Vec<FieldViolation> = Vec::new();
    let mut pos: usize = 0;
    assert(views(acc@) =~= Seq::empty());
    while pos < buf.len()
        invariant
            pos <= buf.len(),
            request_fields(buf@, pos as int, views(acc@)) == parse_bad_request(buf@),
        decreases buf.len() - pos,
    {
        match read_request_field(buf, pos, &mut acc) {
            Err(e) => {
                return Err(e);
            },
            Ok(after) => {
                pos = after;
            },
        }
    }
    Ok(BadRequest { field_violations: acc })
}

} // verus!
