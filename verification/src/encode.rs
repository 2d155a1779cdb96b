//! Writing a `BadRequest` payload.

use vstd::prelude::*;
use vstd::utf8::encode_utf8;
use crate::bad_request::{BadRequest, FieldViolation};
use crate::wire::{
    all_fit, bad_request_bytes, fits, key_value, string_field_bytes, varint_bytes,
    violation_bytes, violation_frame, LENGTH_DELIMITED, MAX_TAG,
};

verus! {

/// Appends the varint of `value` to `buf` by `prost::encoding::encode_varint`.
///
/// Trusted: that function writes seven bits per byte, low bits first, with the
/// top bit set on every byte but the last, and a `Vec<u8>` takes each byte at
/// its end.
#[verifier::external_body]
fn put_varint(value: u64, buf: &mut Vec<u8>)
    ensures
        final(buf)@ == old(buf)@ + varint_bytes(value as nat),
{
    prost::encoding::encode_varint(value, buf)
}

/// Appends a string field to `buf` by `prost::encoding::string::encode`.
///
/// Trusted: that function writes the key of `tag` with the length-delimited
/// wire type, then the string's length in bytes, both as varints, then the
/// string's UTF-8 bytes. It is meant for field numbers from 1 to `MAX_TAG`.
#[verifier::external_body]
fn put_string(tag: u32, value: &String, buf: &mut Vec<u8>)
    requires
        1 <= tag <= MAX_TAG,
    ensures
        final(buf)@ == old(buf)@ + string_field_bytes(tag as nat, value@),
{
    prost::encoding::string::encode(tag, value, buf)
}

/// Appends the body of one violation to `buf`: the field path and the
/// description, each only if it is not empty. Every length written fits in
/// 64 bits, since the bytes are held in memory.
pub fn encode_violation(v: &FieldViolation, buf: &mut Vec<u8>)
    ensures
        final(buf)@ == old(buf)@ + violation_bytes(v@),
        fits(v@),
{
    let ghost before = buf@;
    if !v.field.as_str().is_empty() {
        put_string(1, &v.field, buf);
    }
    if !v.description.as_str().is_empty() {
        put_string(2, &v.description, buf);
    }
    assert(buf@ =~= before + violation_bytes(v@));
    proof {
        assert(buf@.len() == buf.len() <= usize::MAX);
        assert(violation_bytes(v@).len() <= buf@.len());
        if v@.field.len() == 0 {
            assert(v@.field =~= Seq::empty());
        }
        if v@.description.len() == 0 {
            assert(v@.description =~= Seq::empty());
        }
        assert(encode_utf8(Seq::empty()).len() == 0);
    }
}

/// The payload of `b`: one frame per violation, in order.
pub fn encode_bad_request(b: &BadRequest) -> (r: Vec<u8>)
    ensures
        r@ == bad_request_bytes(b@),
        all_fit(b@),
{
    let mut buf: Vec<u8> = Vec::new();
    let n = b.field_violations.len();
    let mut i: usize = 0;
    assert(b@.skip(0) =~= b@);
    assert(buf@ + bad_request_bytes(b@) =~= bad_request_bytes(b@));
    while i < n
        invariant
            n == b.field_violations.len(),
            i <= n,
            buf@ + bad_request_bytes(b@.skip(i as int)) == bad_request_bytes(b@),
            forall|k: int| 0 <= k < i ==> fits(#[trigger] b@[k]),
        decreases n - i,
    {
        let ghost before = buf@;
        let ghost v = b@[i as int];
        let mut body: Vec<u8> = Vec::new();
        encode_violation(&b.field_violations[i], &mut body);
        assert(body@ =~= violation_bytes(v));
        put_varint(10, &mut buf);
        put_varint(body.len() as u64, &mut buf);
        buf.append(&mut body);
        proof {
            assert(key_value(1, LENGTH_DELIMITED as nat) == 10);
            assert(buf@ =~= before + violation_frame(v));
            assert(b@.skip(i as int).first() == v);
            assert(b@.skip(i as int).drop_first() =~= b@.skip(i as int + 1));
            assert(bad_request_bytes(b@.skip(i as int)) == violation_frame(v) + bad_request_bytes(
                b@.skip(i as int + 1),
            ));
            assert(buf@ + bad_request_bytes(b@.skip(i as int + 1)) =~= before + bad_request_bytes(
                b@.skip(i as int),
            ));
        }
        i = i + 1;
    }
    assert(b@.skip(n as int) =~= Seq::empty());
    assert(buf@ =~= buf@ + bad_request_bytes(b@.skip(n as int)));
    buf
}

} // verus!
