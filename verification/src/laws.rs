//! What holds between writing and reading.

use vstd::prelude::*;
use vstd::utf8::{encode_utf8, encode_utf8_decode_utf8, encode_utf8_valid_utf8};
use crate::bad_request::{FieldViolationView, LocalizedMessageView};
use crate::wire::{
    all_fit, bad_request_bytes, bytes_at, bytes_field, fits, key_at, lemma_varint_limit, localized_field,
    parse_bad_request, request_field, request_fields, skip_at, skip_group, string_at,
    string_field_bytes, varint_at, varint_bytes, varint_limit, violation_bytes, violation_field,
    violation_fields, violation_frame, written, written_all, DecodeError, END_GROUP, MAX_TAG,
    RECURSION_LIMIT, START_GROUP,
};

verus! {

// ------------------------------------------------------- reading advances

/// A varint that is read is not negative and ends after `pos`, within the
/// payload.
pub proof fn lemma_varint_advances(s: Seq<u8>, pos: int, count: int)
    ensures
        varint_at(s, pos, count) matches Some((v, next)) ==> 0 <= v && pos < next <= s.len(),
    decreases 10 - count,
{
    if 0 <= pos < s.len() && 0 <= count < 10 && s[pos] >= 128 {
        lemma_varint_advances(s, pos + 1, count + 1);
    }
}

/// A key that is read ends after `pos`, within the payload, and names a field
/// number from 1 and a wire type up to 5.
pub proof fn lemma_key_advances(s: Seq<u8>, pos: int)
    ensures
        key_at(s, pos) matches Ok((tag, wire, next)) ==> pos < next <= s.len() && 1 <= tag && 0
            <= wire <= 5,
{
    lemma_varint_advances(s, pos, 0);
}

/// An unknown field that is skipped ends at or after `pos`, within the payload.
pub proof fn lemma_skip_advances(s: Seq<u8>, pos: int, wire: int, tag: int, depth: nat)
    requires
        pos <= s.len(),
    ensures
        skip_at(s, pos, wire, tag, depth) matches Ok(after) ==> pos <= after <= s.len(),
    decreases depth, s.len() - pos, 1nat,
{
    lemma_varint_advances(s, pos, 0);
    if depth > 0 && wire == START_GROUP {
        lemma_group_advances(s, pos, tag, depth);
    }
}

/// A group that is skipped ends after `pos`, within the payload.
pub proof fn lemma_group_advances(s: Seq<u8>, pos: int, tag: int, depth: nat)
    requires
        pos <= s.len(),
    ensures
        skip_group(s, pos, tag, depth) matches Ok(after) ==> pos < after <= s.len(),
    decreases depth, s.len() - pos, 0nat,
{
    lemma_key_advances(s, pos);
    if let Ok((inner_tag, inner_wire, next)) = key_at(s, pos) {
        if inner_wire != END_GROUP && depth > 0 {
            lemma_skip_advances(s, next, inner_wire, inner_tag, (depth - 1) as nat);
            if let Ok(after) = skip_at(s, next, inner_wire, inner_tag, (depth - 1) as nat) {
                lemma_group_advances(s, after, tag, depth);
            }
        }
    }
}

/// Every field of a localized message ends after where it starts, so the
/// reading of its fields never stops for want of progress.
pub proof fn lemma_localized_field_advances(s: Seq<u8>, pos: int, acc: LocalizedMessageView)
    ensures
        localized_field(s, pos, acc) matches Ok((_, after)) ==> pos < after <= s.len(),
{
    reveal(localized_field);
    lemma_key_advances(s, pos);
    if let Ok((tag, wire, next)) = key_at(s, pos) {
        lemma_varint_advances(s, next, 0);
        lemma_skip_advances(s, next, wire, tag, (RECURSION_LIMIT - 2) as nat);
    }
}

/// Every field of a violation ends after where it starts.
pub proof fn lemma_violation_field_advances(s: Seq<u8>, pos: int, acc: FieldViolationView)
    ensures
        violation_field(s, pos, acc) matches Ok((_, after)) ==> pos < after <= s.len(),
{
    reveal(violation_field);
    lemma_key_advances(s, pos);
    if let Ok((tag, wire, next)) = key_at(s, pos) {
        lemma_varint_advances(s, next, 0);
        lemma_skip_advances(s, next, wire, tag, (RECURSION_LIMIT - 1) as nat);
    }
}

/// Every field of the payload ends after where it starts.
pub proof fn lemma_request_field_advances(s: Seq<u8>, pos: int, acc: Seq<FieldViolationView>)
    ensures
        request_field(s, pos, acc) matches Ok((_, after)) ==> pos < after <= s.len(),
{
    reveal(request_field);
    lemma_key_advances(s, pos);
    if let Ok((tag, wire, next)) = key_at(s, pos) {
        lemma_varint_advances(s, next, 0);
        lemma_skip_advances(s, next, wire, tag, RECURSION_LIMIT as nat);
    }
}

// ------------------------------------------------------------- round trip

/// Reading the varint of `v` gives `v` back, and ends where its bytes end.
pub proof fn lemma_varint_round_trip(s: Seq<u8>, pos: int, v: nat, count: int)
    requires
        0 <= pos,
        0 <= count <= 9,
        v < varint_limit(count),
        pos + varint_bytes(v).len() <= s.len(),
        s.subrange(pos, pos + varint_bytes(v).len()) == varint_bytes(v),
    ensures
        varint_at(s, pos, count) == Some((v as int, pos + varint_bytes(v).len())),
    decreases v,
{
    lemma_varint_limit(count);
    let bytes = varint_bytes(v);
    assert(s[pos] == s.subrange(pos, pos + bytes.len())[0]);
    if v >= 128 {
        let rest = varint_bytes(v / 128);
        assert(bytes =~= seq![(v % 128 + 128) as u8] + rest);
        assert(s.subrange(pos + 1, pos + 1 + rest.len()) =~= rest) by {
            assert forall|i: int| 0 <= i < rest.len() implies s[pos + 1 + i] == rest[i] by {
                assert(s[pos + 1 + i] == s.subrange(pos, pos + bytes.len())[i + 1]);
            }
        }
        lemma_varint_limit(count + 1);
        lemma_varint_round_trip(s, pos + 1, v / 128, count + 1);
    }
}

/// Reading a written string field gives its number and its text back.
pub proof fn lemma_string_field_round_trip(s: Seq<u8>, pos: int, tag: nat, text: Seq<char>)
    requires
        0 <= pos,
        1 <= tag <= 2,
        encode_utf8(text).len() <= u64::MAX,
        pos + string_field_bytes(tag, text).len() <= s.len(),
        s.subrange(pos, pos + string_field_bytes(tag, text).len()) == string_field_bytes(tag, text),
    ensures
        key_at(s, pos) == Ok::<(int, int, int), DecodeError>((tag as int, 2, pos + 1)),
        string_at(s, pos + 1, 2) == Ok::<(Seq<char>, int), DecodeError>(
            (text, pos + string_field_bytes(tag, text).len()),
        ),
{
    let all = string_field_bytes(tag, text);
    let key = varint_bytes(tag * 8 + 2);
    let payload = encode_utf8(text);
    let len = varint_bytes(payload.len());
    assert(key =~= seq![(tag * 8 + 2) as u8]);
    assert(all =~= key + len + payload);
    assert(s[pos] == s.subrange(pos, pos + all.len())[0]);
    assert(varint_at(s, pos, 0) == Some((tag as int * 8 + 2, pos + 1)));
    assert(s.subrange(pos + 1, pos + 1 + len.len()) =~= len) by {
        assert forall|i: int| 0 <= i < len.len() implies s[pos + 1 + i] == len[i] by {
            assert(s[pos + 1 + i] == s.subrange(pos, pos + all.len())[i + 1]);
        }
    }
    lemma_varint_limit(0);
    lemma_varint_round_trip(s, pos + 1, payload.len(), 0);
    let start = pos + 1 + len.len();
    assert(bytes_at(s, pos + 1, 2) == Ok::<(int, int), DecodeError>(
        (start, start + payload.len()),
    ));
    assert(s.subrange(start, start + payload.len()) =~= payload) by {
        assert forall|i: int| 0 <= i < payload.len() implies s[start + i] == payload[i] by {
            assert(s[start + i] == s.subrange(pos, pos + all.len())[i + 1 + len.len()]);
        }
    }
    encode_utf8_valid_utf8(text);
    encode_utf8_decode_utf8(text);
}

/// Reading the written body of a violation gives back what was written of
/// it: its field path and its description.
pub proof fn lemma_violation_round_trip(s: Seq<u8>, start: int, v: FieldViolationView)
    requires
        0 <= start,
        fits(v),
        start + violation_bytes(v).len() <= s.len(),
        s.subrange(start, start + violation_bytes(v).len()) == violation_bytes(v),
    ensures
        violation_fields(s, start, start + violation_bytes(v).len(), FieldViolationView::empty())
            == Ok::<FieldViolationView, DecodeError>(written(v)),
{
    reveal(violation_field);
    let all = violation_bytes(v);
    let end = start + all.len();
    let first = if v.field.len() > 0 {
        string_field_bytes(1, v.field)
    } else {
        Seq::empty()
    };
    let second = if v.description.len() > 0 {
        string_field_bytes(2, v.description)
    } else {
        Seq::empty()
    };
    assert(all =~= first + second);
    let mid = start + first.len();
    assert(s.subrange(start, mid) =~= first) by {
        assert forall|i: int| 0 <= i < first.len() implies s[start + i] == first[i] by {
            assert(s[start + i] == s.subrange(start, end)[i]);
        }
    }
    assert(s.subrange(mid, end) =~= second) by {
        assert forall|i: int| 0 <= i < second.len() implies s[mid + i] == second[i] by {
            assert(s[mid + i] == s.subrange(start, end)[i + first.len()]);
        }
    }
    let empty = FieldViolationView::empty();
    let half = FieldViolationView::plain(v.field, Seq::empty());
    assert(violation_fields(s, start, end, empty) == violation_fields(s, mid, end, half)) by {
        if v.field.len() > 0 {
            lemma_string_field_round_trip(s, start, 1, v.field);
            assert(violation_field(s, start, empty) == Ok::<(FieldViolationView, int), DecodeError>(
                (half, mid),
            ));
        } else {
            assert(v.field =~= Seq::empty());
        }
    }
    assert(violation_fields(s, mid, end, half) == violation_fields(s, end, end, written(v))) by {
        if v.description.len() > 0 {
            lemma_string_field_round_trip(s, mid, 2, v.description);
            assert(violation_field(s, mid, half) == Ok::<(FieldViolationView, int), DecodeError>(
                (written(v), end),
            ));
        } else {
            assert(v.description =~= Seq::empty());
        }
    }
}

/// Reading the frame of a violation appends what was written of it.
pub proof fn lemma_frame_round_trip(
    s: Seq<u8>,
    pos: int,
    v: FieldViolationView,
    acc: Seq<FieldViolationView>,
)
    requires
        0 <= pos,
        fits(v),
        pos + violation_frame(v).len() <= s.len(),
        s.subrange(pos, pos + violation_frame(v).len()) == violation_frame(v),
    ensures
        request_field(s, pos, acc) == Ok::<(Seq<FieldViolationView>, int), DecodeError>(
            (acc.push(written(v)), pos + violation_frame(v).len()),
        ),
{
    reveal(request_field);
    let all = violation_frame(v);
    let body = violation_bytes(v);
    let len = varint_bytes(body.len());
    let key = varint_bytes(10);
    assert(key =~= seq![10u8]);
    assert(all =~= key + len + body);
    assert(s[pos] == s.subrange(pos, pos + all.len())[0]);
    assert(varint_at(s, pos, 0) == Some((10int, pos + 1)));
    assert(s.subrange(pos + 1, pos + 1 + len.len()) =~= len) by {
        assert forall|i: int| 0 <= i < len.len() implies s[pos + 1 + i] == len[i] by {
            assert(s[pos + 1 + i] == s.subrange(pos, pos + all.len())[i + 1]);
        }
    }
    lemma_varint_limit(0);
    lemma_varint_round_trip(s, pos + 1, body.len(), 0);
    let start = pos + 1 + len.len();
    assert(bytes_at(s, pos + 1, 2) == Ok::<(int, int), DecodeError>((start, start + body.len())));
    assert(s.subrange(start, start + body.len()) =~= body) by {
        assert forall|i: int| 0 <= i < body.len() implies s[start + i] == body[i] by {
            assert(s[start + i] == s.subrange(pos, pos + all.len())[i + 1 + len.len()]);
        }
    }
    lemma_violation_round_trip(s, start, v);
}

/// Reading written frames appends, in order, what was written of each, and
/// goes on with what follows them.
pub proof fn lemma_frames_round_trip(
    s: Seq<u8>,
    pos: int,
    b: Seq<FieldViolationView>,
    acc: Seq<FieldViolationView>,
)
    requires
        0 <= pos,
        all_fit(b),
        pos + bad_request_bytes(b).len() <= s.len(),
        s.subrange(pos, pos + bad_request_bytes(b).len()) == bad_request_bytes(b),
    ensures
        request_fields(s, pos, acc) == request_fields(
            s,
            pos + bad_request_bytes(b).len(),
            acc + written_all(b),
        ),
    decreases b.len(),
{
    if b.len() == 0 {
        assert(acc + written_all(b) =~= acc);
    } else {
        let v = b.first();
        let rest = b.drop_first();
        let frame = violation_frame(v);
        let tail = bad_request_bytes(rest);
        let all = bad_request_bytes(b);
        assert(all =~= frame + tail);
        assert(fits(b[0]));
        assert(frame.len() >= 1) by {
            assert(varint_bytes(10).len() >= 1);
        }
        let after = pos + frame.len();
        assert(s.subrange(pos, after) =~= frame) by {
            assert forall|i: int| 0 <= i < frame.len() implies s[pos + i] == frame[i] by {
                assert(s[pos + i] == s.subrange(pos, pos + all.len())[i]);
            }
        }
        assert(s.subrange(after, after + tail.len()) =~= tail) by {
            assert forall|i: int| 0 <= i < tail.len() implies s[after + i] == tail[i] by {
                assert(s[after + i] == s.subrange(pos, pos + all.len())[i + frame.len()]);
            }
        }
        lemma_frame_round_trip(s, pos, v, acc);
        assert(request_fields(s, pos, acc) == request_fields(s, after, acc.push(written(v))));
        assert(all_fit(rest)) by {
            assert forall|i: int| 0 <= i < rest.len() implies fits(#[trigger] rest[i]) by {
                assert(rest[i] == b[i + 1]);
            }
        }
        lemma_frames_round_trip(s, after, rest, acc.push(written(v)));
        assert(acc.push(written(v)) + written_all(rest) =~= acc + written_all(b));
    }
}

/// Round trip: the payload written for a list of violations reads back as
/// that list, each violation reduced to its field path and its description,
/// in the same order and with nothing dropped or merged.
pub proof fn law_round_trip(b: Seq<FieldViolationView>)
    requires
        all_fit(b),
    ensures
        parse_bad_request(bad_request_bytes(b)) == Ok::<Seq<FieldViolationView>, DecodeError>(
            written_all(b),
        ),
{
    let s = bad_request_bytes(b);
    assert(s.subrange(0, s.len() as int) =~= s);
    lemma_frames_round_trip(s, 0, b, Seq::empty());
    assert(Seq::<FieldViolationView>::empty() + written_all(b) =~= written_all(b));
}

// ------------------------------------------------------------ cut payloads

/// A varint that breaks off before its last byte is not read.
pub proof fn lemma_cut_varint_is_rejected(s: Seq<u8>, pos: int, v: nat, count: int)
    requires
        0 <= pos <= s.len(),
        s.len() - pos < varint_bytes(v).len(),
        s.subrange(pos, s.len() as int) == varint_bytes(v).take(s.len() - pos),
    ensures
        varint_at(s, pos, count) is None,
    decreases v,
{
    let k = s.len() - pos;
    if pos < s.len() && 0 <= count < 10 {
        let bytes = varint_bytes(v);
        assert(s[pos] == s.subrange(pos, s.len() as int)[0]);
        assert(bytes.take(k)[0] == bytes[0]);
        let rest = varint_bytes(v / 128);
        if v >= 128 {
            assert(bytes =~= seq![(v % 128 + 128) as u8] + rest);
            assert(s.subrange(pos + 1, s.len() as int) =~= rest.take(k - 1)) by {
                assert forall|i: int| 0 <= i < k - 1 implies s[pos + 1 + i] == rest[i] by {
                    assert(s[pos + 1 + i] == s.subrange(pos, s.len() as int)[i + 1]);
                    assert(bytes.take(k)[i + 1] == bytes[i + 1]);
                }
            }
            lemma_cut_varint_is_rejected(s, pos + 1, v / 128, count + 1);
        }
    }
}

/// A frame that breaks off before its last byte is not read.
pub proof fn lemma_cut_frame_is_rejected(
    s: Seq<u8>,
    pos: int,
    v: FieldViolationView,
    acc: Seq<FieldViolationView>,
)
    requires
        0 <= pos < s.len(),
        fits(v),
        s.len() - pos < violation_frame(v).len(),
        s.subrange(pos, s.len() as int) == violation_frame(v).take(s.len() - pos),
    ensures
        request_fields(s, pos, acc) is Err,
{
    reveal(request_field);
    let k = s.len() - pos;
    let all = violation_frame(v);
    let body = violation_bytes(v);
    let len = varint_bytes(body.len());
    let key = varint_bytes(10);
    assert(key =~= seq![10u8]);
    assert(all =~= key + len + body);
    assert(s[pos] == s.subrange(pos, s.len() as int)[0]);
    assert(all.take(k)[0] == all[0]);
    assert(varint_at(s, pos, 0) == Some((10int, pos + 1)));
    if k - 1 < len.len() {
        assert(s.subrange(pos + 1, s.len() as int) =~= len.take(k - 1)) by {
            assert forall|i: int| 0 <= i < k - 1 implies s[pos + 1 + i] == len[i] by {
                assert(s[pos + 1 + i] == s.subrange(pos, s.len() as int)[i + 1]);
                assert(all.take(k)[i + 1] == all[i + 1]);
            }
        }
        lemma_cut_varint_is_rejected(s, pos + 1, body.len(), 0);
    } else {
        assert(s.subrange(pos + 1, pos + 1 + len.len()) =~= len) by {
            assert forall|i: int| 0 <= i < len.len() implies s[pos + 1 + i] == len[i] by {
                assert(s[pos + 1 + i] == s.subrange(pos, s.len() as int)[i + 1]);
                assert(all.take(k)[i + 1] == all[i + 1]);
            }
        }
        lemma_varint_limit(0);
        lemma_varint_round_trip(s, pos + 1, body.len(), 0);
    }
    assert(request_field(s, pos, acc) is Err);
}

/// Garbage is rejected: a payload that breaks off inside a frame, after any
/// number of whole frames, is a fault and never a shorter list.
pub proof fn law_cut_payload_is_rejected(b: Seq<FieldViolationView>, v: FieldViolationView, k: int)
    requires
        all_fit(b),
        fits(v),
        0 < k < violation_frame(v).len(),
    ensures
        parse_bad_request(bad_request_bytes(b) + violation_frame(v).take(k)) is Err,
{
    let whole = bad_request_bytes(b);
    let s = whole + violation_frame(v).take(k);
    assert(s.subrange(0, whole.len() as int) =~= whole);
    lemma_frames_round_trip(s, 0, b, Seq::empty());
    assert(s.subrange(whole.len() as int, s.len() as int) =~= violation_frame(v).take(k));
    lemma_cut_frame_is_rejected(s, whole.len() as int, v, Seq::empty() + written_all(b));
}

/// Round trip without loss: where no violation has a reason or a localized
/// message, the payload reads back as the very list it was written for.
pub proof fn law_round_trip_plain(b: Seq<FieldViolationView>)
    requires
        all_fit(b),
        forall|i: int| 0 <= i < b.len() ==> (#[trigger] b[i]).is_plain(),
    ensures
        parse_bad_request(bad_request_bytes(b)) == Ok::<Seq<FieldViolationView>, DecodeError>(b),
{
    law_round_trip(b);
    assert(written_all(b) =~= b) by {
        assert forall|i: int| 0 <= i < b.len() implies written_all(b)[i] == b[i] by {
            assert(b[i].is_plain());
            assert(b[i].reason =~= Seq::empty());
        }
    }
}

/// The empty list is written as no bytes, and no bytes read back as the
/// empty list: an empty detail is a value, not a fault.
pub proof fn law_empty_round_trip()
    ensures
        bad_request_bytes(Seq::empty()) == Seq::<u8>::empty(),
        parse_bad_request(Seq::empty()) == Ok::<Seq<FieldViolationView>, DecodeError>(
            Seq::empty(),
        ),
{
}

/// Order: a violation appended to a list is read back last, after what was
/// written of the others in their order.
pub proof fn law_append_keeps_order(
    b: Seq<FieldViolationView>,
    field: Seq<char>,
    description: Seq<char>,
)
    requires
        all_fit(b),
        fits(FieldViolationView::plain(field, description)),
    ensures
        parse_bad_request(bad_request_bytes(b.push(FieldViolationView::plain(field, description))))
            == Ok::<Seq<FieldViolationView>, DecodeError>(
            written_all(b).push(FieldViolationView::plain(field, description)),
        ),
{
    let v = FieldViolationView::plain(field, description);
    law_round_trip(b.push(v));
    assert(written_all(b.push(v)) =~= written_all(b).push(v));
}

// ---------------------------------------------------------- unknown fields

/// Forward compatibility: a length-delimited field with a number other than
/// 1, written after the violations, is passed over whatever it holds. The
/// payload reads as it would without that field.
pub proof fn law_unknown_field_is_ignored(b: Seq<FieldViolationView>, tag: nat, content: Seq<u8>)
    requires
        all_fit(b),
        2 <= tag <= MAX_TAG,
        content.len() <= u64::MAX,
    ensures
        parse_bad_request(bad_request_bytes(b) + bytes_field(tag, content)) == Ok::<
            Seq<FieldViolationView>,
            DecodeError,
        >(written_all(b)),
{
    reveal(request_field);
    let whole = bad_request_bytes(b);
    let extra = bytes_field(tag, content);
    let s = whole + extra;
    let acc = Seq::<FieldViolationView>::empty() + written_all(b);
    assert(acc =~= written_all(b));
    assert(s.subrange(0, whole.len() as int) =~= whole);
    lemma_frames_round_trip(s, 0, b, Seq::empty());

    let pos = whole.len() as int;
    let key = varint_bytes(tag * 8 + 2);
    let len = varint_bytes(content.len());
    assert(extra =~= key + len + content);
    assert(s.subrange(pos, pos + key.len()) =~= key);
    lemma_varint_limit(0);
    lemma_varint_round_trip(s, pos, tag * 8 + 2, 0);
    let next = pos + key.len();
    assert(key_at(s, pos) == Ok::<(int, int, int), DecodeError>((tag as int, 2, next)));
    assert(s.subrange(next, next + len.len()) =~= len);
    lemma_varint_round_trip(s, next, content.len(), 0);
    assert(skip_at(s, next, 2, tag as int, RECURSION_LIMIT as nat) == Ok::<int, DecodeError>(
        s.len() as int,
    ));
    assert(request_field(s, pos, acc) == Ok::<(Seq<FieldViolationView>, int), DecodeError>(
        (acc, s.len() as int),
    ));
    assert(key.len() >= 1);
    assert(request_fields(s, s.len() as int, acc) == Ok::<Seq<FieldViolationView>, DecodeError>(
        acc,
    ));
    assert(request_fields(s, pos, acc) == request_fields(s, s.len() as int, acc));
}

} // verus!
