use richer_error::{
    Any, BadRequest, DecodeError, FieldViolation, FromAny, FromAnyRef, IntoAny, LocalizedMessage,
};

fn plain(field: &str, description: &str) -> FieldViolation {
    FieldViolation {
        field: field.to_string(),
        description: description.to_string(),
        reason: String::new(),
        localized_message: None,
    }
}

#[test]
fn gen_bad_request() {
    let mut br_details = BadRequest::new(Vec::new());
    let formatted = format!("{br_details:?}");

    let expected = "BadRequest { field_violations: [] }";

    assert!(
        formatted.eq(expected),
        "empty BadRequest differs from expected result"
    );

    assert!(
        br_details.is_empty(),
        "empty BadRequest returns 'false' from .is_empty()"
    );

    br_details
        .add_violation("field_a", "description_a")
        .add_violation("field_b", "description_b");

    let formatted = format!("{br_details:?}");

    let expected_filled = "BadRequest { field_violations: [FieldViolation { field: \"field_a\", description: \"description_a\", reason: \"\", localized_message: None }, FieldViolation { field: \"field_b\", description: \"description_b\", reason: \"\", localized_message: None }] }";

    assert!(
        formatted.eq(expected_filled),
        "filled BadRequest differs from expected result"
    );

    assert!(
        !br_details.is_empty(),
        "filled BadRequest returns 'true' from .is_empty()"
    );

    let gen_any = br_details.into_any();
    let formatted = format!("{gen_any:?}");

    let expected = "Any { type_url: \"type.googleapis.com/google.rpc.BadRequest\", value: [10, 24, 10, 7, 102, 105, 101, 108, 100, 95, 97, 18, 13, 100, 101, 115, 99, 114, 105, 112, 116, 105, 111, 110, 95, 97, 10, 24, 10, 7, 102, 105, 101, 108, 100, 95, 98, 18, 13, 100, 101, 115, 99, 114, 105, 112, 116, 105, 111, 110, 95, 98] }";

    assert!(
        formatted.eq(expected),
        "Any from filled BadRequest differs from expected result"
    );

    let br_details = match BadRequest::from_any(gen_any) {
        Err(error) => panic!("Error generating BadRequest from Any: {error:?}"),
        Ok(from_any) => from_any,
    };

    let formatted = format!("{br_details:?}");

    assert!(
        formatted.eq(expected_filled),
        "BadRequest from Any differs from expected result"
    );
}

#[test]
fn field_violation_new_sets_two_fields() {
    let v = FieldViolation::new("a.b", "must be set");
    assert_eq!(v, plain("a.b", "must be set"));
}

#[test]
fn field_violation_default_is_empty() {
    let v = FieldViolation::default();
    assert_eq!(v, plain("", ""));
    let m = LocalizedMessage::default();
    assert_eq!(m, LocalizedMessage::new("", ""));
}

#[test]
fn new_keeps_the_list_as_given() {
    let list = vec![plain("x", "1"), plain("x", "1"), plain("", "")];
    let b = BadRequest::new(list.clone());
    assert_eq!(b.field_violations, list);
    assert!(!b.is_empty());
}

#[test]
fn with_violation_holds_one() {
    let b = BadRequest::with_violation("field_a", "description_a");
    assert_eq!(b.field_violations, vec![plain("field_a", "description_a")]);
    assert!(!b.is_empty());
}

#[test]
fn add_violation_appends_without_chaining() {
    let mut b = BadRequest::with_violation("a", "1");
    b.add_violation("b", "2");
    b.add_violation("a", "1");
    assert_eq!(
        b.field_violations,
        vec![plain("a", "1"), plain("b", "2"), plain("a", "1")]
    );
}

#[test]
fn type_url_is_fixed() {
    assert_eq!(
        BadRequest::TYPE_URL,
        "type.googleapis.com/google.rpc.BadRequest"
    );
    let any = BadRequest::new(Vec::new()).into_any();
    assert_eq!(any.type_url, "type.googleapis.com/google.rpc.BadRequest");
    let any = BadRequest::with_violation("f", "d").into_any();
    assert_eq!(any.type_url, "type.googleapis.com/google.rpc.BadRequest");
}

#[test]
fn empty_round_trip() {
    let b = BadRequest::new(Vec::new());
    assert!(b.is_empty());
    let any = b.into_any();
    assert_eq!(any.value, Vec::<u8>::new());
    let back = BadRequest::from_any(any).unwrap();
    assert!(back.is_empty());
    assert_eq!(back.field_violations, Vec::<FieldViolation>::new());
}

#[test]
fn scenario_two_violations_round_trip() {
    let mut b = BadRequest::with_violation("field_a", "description_a");
    b.add_violation("field_b", "description_b");
    let back = BadRequest::from_any(b.into_any()).unwrap();
    assert_eq!(back.field_violations.len(), 2);
    assert_eq!(
        back.field_violations,
        vec![
            plain("field_a", "description_a"),
            plain("field_b", "description_b")
        ]
    );
    assert_eq!(back.field_violations[0].reason, "");
    assert_eq!(back.field_violations[0].localized_message, None);
    assert_eq!(back.field_violations[1].reason, "");
    assert_eq!(back.field_violations[1].localized_message, None);
}

#[test]
fn order_and_duplicates_survive() {
    let mut b = BadRequest::new(Vec::new());
    b.add_violation("c", "3")
        .add_violation("a", "1")
        .add_violation("c", "3")
        .add_violation("b", "2");
    let expected = b.clone();
    let back = BadRequest::from_any_ref(&b.into_any()).unwrap();
    assert_eq!(back, expected);
}

#[test]
fn round_trip_of_plain_values() {
    let long: String = "x".repeat(300);
    let b = BadRequest::new(vec![
        plain("", ""),
        plain("only.field", ""),
        plain("", "only description"),
        plain("naïve.ключ", "描述 ✓"),
        plain("long", &long),
    ]);
    let expected = b.clone();
    assert_eq!(BadRequest::from_any(b.into_any()).unwrap(), expected);
}

#[test]
fn encode_drops_reason_and_localized_message() {
    let v = FieldViolation {
        field: "f".to_string(),
        description: "d".to_string(),
        reason: "TOO_LONG".to_string(),
        localized_message: Some(LocalizedMessage::new("en-US", "too long")),
    };
    let any = BadRequest::new(vec![v]).into_any();
    assert_eq!(any.value, vec![10u8, 6, 10, 1, 102, 18, 1, 100]);
    let back = BadRequest::from_any(any).unwrap();
    assert_eq!(back.field_violations, vec![plain("f", "d")]);
}

#[test]
fn exact_bytes_of_small_payloads() {
    let any = BadRequest::with_violation("", "").into_any();
    assert_eq!(any.value, vec![10u8, 0]);
    let any = BadRequest::with_violation("a", "").into_any();
    assert_eq!(any.value, vec![10u8, 3, 10, 1, 97]);
    let any = BadRequest::with_violation("", "b").into_any();
    assert_eq!(any.value, vec![10u8, 3, 18, 1, 98]);
}

#[test]
fn lengths_above_127_take_two_bytes() {
    let text: String = "y".repeat(200);
    let any = BadRequest::with_violation("", &text).into_any();
    assert_eq!(any.value.len(), 206);
    assert_eq!(&any.value[..6], &[10u8, 203, 1, 18, 200, 1]);
    assert!(any.value[6..].iter().all(|b| *b == 121));
    let back = BadRequest::from_any(any).unwrap();
    assert_eq!(back.field_violations, vec![plain("", &text)]);
}

#[test]
fn decode_restores_reason_and_localized_message() {
    let payload: Vec<u8> = vec![
        10, 19, 10, 1, 102, 18, 1, 100, 26, 3, 66, 65, 68, 34, 6, 10, 2, 101, 110, 18, 0,
    ];
    let any = Any {
        type_url: BadRequest::TYPE_URL.to_string(),
        value: payload,
    };
    let back = BadRequest::from_any(any).unwrap();
    assert_eq!(
        back.field_violations,
        vec![FieldViolation {
            field: "f".to_string(),
            description: "d".to_string(),
            reason: "BAD".to_string(),
            localized_message: Some(LocalizedMessage::new("en", "")),
        }]
    );
}

#[test]
fn later_value_of_a_field_wins_and_messages_merge() {
    let payload: Vec<u8> = vec![
        10, 18, 10, 1, 97, 10, 1, 98, 34, 3, 10, 1, 120, 34, 3, 18, 1, 121, 34, 0,
    ];
    let back = decode(&payload).unwrap();
    assert_eq!(
        back.field_violations,
        vec![FieldViolation {
            field: "b".to_string(),
            description: String::new(),
            reason: String::new(),
            localized_message: Some(LocalizedMessage::new("x", "y")),
        }]
    );
}

fn decode(payload: &[u8]) -> Result<BadRequest, DecodeError> {
    BadRequest::from_any(Any {
        type_url: String::new(),
        value: payload.to_vec(),
    })
}

#[test]
fn decode_ignores_the_type_url() {
    let any = Any {
        type_url: "type.googleapis.com/google.rpc.QuotaFailure".to_string(),
        value: vec![10, 3, 10, 1, 97],
    };
    let back = BadRequest::from_any_ref(&any).unwrap();
    assert_eq!(back.field_violations, vec![plain("a", "")]);
}

#[test]
fn unknown_fields_are_skipped() {
    // field 2 varint, field 3 fixed64, field 4 bytes, field 5 fixed32, then a violation
    let payload: Vec<u8> = vec![
        16, 150, 1, 25, 1, 2, 3, 4, 5, 6, 7, 8, 34, 2, 255, 254, 45, 9, 9, 9, 9, 10, 3, 10, 1, 97,
    ];
    let back = decode(&payload).unwrap();
    assert_eq!(back.field_violations, vec![plain("a", "")]);
    // inside a violation: field 9 varint; inside a localized message: field 3 bytes
    let payload: Vec<u8> = vec![10, 11, 72, 1, 34, 5, 26, 1, 0, 10, 0, 10, 0];
    let back = decode(&payload).unwrap();
    assert_eq!(
        back.field_violations,
        vec![FieldViolation {
            field: String::new(),
            description: String::new(),
            reason: String::new(),
            localized_message: Some(LocalizedMessage::new("", "")),
        }]
    );
}

#[test]
fn unknown_groups_are_skipped() {
    // group 2 { field 1 varint 5; group 3 { } } then a violation
    let payload: Vec<u8> = vec![19, 8, 5, 27, 28, 20, 10, 0];
    let back = decode(&payload).unwrap();
    assert_eq!(back.field_violations, vec![plain("", "")]);
}

#[test]
fn error_invalid_varint() {
    assert_eq!(decode(&[128]), Err(DecodeError::InvalidVarint));
    assert_eq!(decode(&[10, 128]), Err(DecodeError::InvalidVarint));
    // eleven bytes
    assert_eq!(
        decode(&[255, 255, 255, 255, 255, 255, 255, 255, 255, 255, 1]),
        Err(DecodeError::InvalidVarint)
    );
    // tenth byte above 1, as a length
    assert_eq!(
        decode(&[10, 255, 255, 255, 255, 255, 255, 255, 255, 255, 2]),
        Err(DecodeError::InvalidVarint)
    );
    // unknown varint field cut short
    assert_eq!(decode(&[16, 255]), Err(DecodeError::InvalidVarint));
}

#[test]
fn error_invalid_key() {
    // 2^32 + 10 as a key
    assert_eq!(
        decode(&[138, 128, 128, 128, 16, 0]),
        Err(DecodeError::InvalidKey)
    );
}

#[test]
fn error_invalid_wire_type() {
    assert_eq!(decode(&[14]), Err(DecodeError::InvalidWireType));
    assert_eq!(decode(&[15]), Err(DecodeError::InvalidWireType));
}

#[test]
fn error_invalid_tag() {
    assert_eq!(decode(&[0]), Err(DecodeError::InvalidTag));
    assert_eq!(decode(&[2, 0]), Err(DecodeError::InvalidTag));
}

#[test]
fn error_unexpected_wire_type() {
    assert_eq!(decode(&[8, 1]), Err(DecodeError::UnexpectedWireType));
    assert_eq!(
        decode(&[10, 2, 8, 1]),
        Err(DecodeError::UnexpectedWireType)
    );
    assert_eq!(
        decode(&[10, 2, 32, 1]),
        Err(DecodeError::UnexpectedWireType)
    );
    assert_eq!(
        decode(&[10, 4, 34, 2, 21, 0]),
        Err(DecodeError::UnexpectedWireType)
    );
}

#[test]
fn error_buffer_underflow() {
    assert_eq!(decode(&[10, 5, 10, 1]), Err(DecodeError::BufferUnderflow));
    assert_eq!(decode(&[10, 1]), Err(DecodeError::BufferUnderflow));
    assert_eq!(decode(&[21, 1, 2, 3]), Err(DecodeError::BufferUnderflow));
    assert_eq!(
        decode(&[17, 1, 2, 3, 4, 5, 6, 7]),
        Err(DecodeError::BufferUnderflow)
    );
    assert_eq!(decode(&[18, 3, 1, 2]), Err(DecodeError::BufferUnderflow));
    assert_eq!(
        decode(&[10, 255, 255, 255, 255, 255, 255, 255, 255, 255, 1]),
        Err(DecodeError::BufferUnderflow)
    );
}

#[test]
fn error_delimited_length_exceeded() {
    // the violation announces 2 bytes, its first field takes 3
    assert_eq!(
        decode(&[10, 2, 10, 1, 97]),
        Err(DecodeError::DelimitedLengthExceeded)
    );
    assert_eq!(
        decode(&[10, 4, 34, 2, 10, 1, 97]),
        Err(DecodeError::DelimitedLengthExceeded)
    );
}

#[test]
fn error_unexpected_end_group_tag() {
    assert_eq!(decode(&[20]), Err(DecodeError::UnexpectedEndGroupTag));
    assert_eq!(
        decode(&[19, 28]),
        Err(DecodeError::UnexpectedEndGroupTag)
    );
}

#[test]
fn error_invalid_string() {
    assert_eq!(
        decode(&[10, 4, 10, 2, 255, 254]),
        Err(DecodeError::InvalidString)
    );
    assert_eq!(
        decode(&[10, 3, 18, 1, 128]),
        Err(DecodeError::InvalidString)
    );
    assert_eq!(
        decode(&[10, 5, 26, 3, 237, 160, 128]),
        Err(DecodeError::InvalidString)
    );
}

// Groups numbered 15, one inside the other.
fn nested_groups(depth: usize) -> Vec<u8> {
    let mut payload: Vec<u8> = Vec::new();
    for _ in 0..depth {
        payload.push(123);
    }
    for _ in 0..depth {
        payload.push(124);
    }
    payload
}

#[test]
fn error_recursion_limit_reached() {
    assert!(decode(&nested_groups(100)).is_ok());
    assert_eq!(
        decode(&nested_groups(101)),
        Err(DecodeError::RecursionLimitReached)
    );
    // one level less inside a violation; 198 and 200 are two-byte varints
    let mut inner: Vec<u8> = vec![10, 198, 1];
    inner.extend(nested_groups(99));
    assert!(decode(&inner).is_ok());
    let mut inner: Vec<u8> = vec![10, 200, 1];
    inner.extend(nested_groups(100));
    assert_eq!(decode(&inner), Err(DecodeError::RecursionLimitReached));
    // and one less again inside a localized message
    let mut inner: Vec<u8> = vec![10, 199, 1, 34, 196, 1];
    inner.extend(nested_groups(98));
    assert!(decode(&inner).is_ok());
    let mut inner: Vec<u8> = vec![10, 201, 1, 34, 198, 1];
    inner.extend(nested_groups(99));
    assert_eq!(decode(&inner), Err(DecodeError::RecursionLimitReached));
}

#[test]
fn garbage_is_rejected() {
    assert!(decode(&[255, 255, 255]).is_err());
    assert!(decode(b"not a protobuf message").is_err());
    assert!(decode(&[10]).is_err());
    assert!(decode(&[10, 24, 10, 7, 102]).is_err());
}

#[test]
fn cut_payload_is_rejected() {
    let mut b = BadRequest::with_violation("field_a", "description_a");
    b.add_violation("field_b", "description_b");
    let whole = b.into_any().value;
    assert_eq!(whole.len(), 52);
    for cut in 0..=whole.len() {
        let result = decode(&whole[..cut]);
        if cut == 0 {
            assert_eq!(result.unwrap().field_violations.len(), 0);
        } else if cut == 26 {
            assert_eq!(
                result.unwrap().field_violations,
                vec![plain("field_a", "description_a")]
            );
        } else if cut == 52 {
            assert_eq!(result.unwrap().field_violations.len(), 2);
        } else {
            assert!(result.is_err(), "cut at {cut}");
        }
    }
}

#[test]
fn unknown_field_after_the_violations_is_ignored() {
    let mut b = BadRequest::with_violation("field_a", "description_a");
    b.add_violation("field_b", "description_b");
    let expected = b.clone();
    let mut payload = b.into_any().value;
    // field 7, length-delimited, five bytes that are no message at all
    payload.extend_from_slice(&[58, 5, 255, 0, 128, 7, 200]);
    assert_eq!(decode(&payload).unwrap(), expected);
    // field 2^29 - 1, empty
    payload.extend_from_slice(&[250, 255, 255, 255, 15, 0]);
    assert_eq!(decode(&payload).unwrap(), expected);
}

#[test]
fn long_group_is_skipped() {
    // group 2 with 300000 varint fields, then one violation
    let mut payload: Vec<u8> = vec![19];
    for _ in 0..300_000 {
        payload.extend_from_slice(&[8, 1]);
    }
    payload.push(20);
    payload.extend_from_slice(&[10, 3, 10, 1, 97]);
    assert_eq!(
        decode(&payload).unwrap().field_violations,
        vec![plain("a", "")]
    );
}

#[test]
fn many_violations_round_trip() {
    let mut b = BadRequest::new(Vec::new());
    for i in 0..5_000 {
        b.add_violation(&format!("field_{i}"), &format!("description_{i}"));
    }
    let expected = b.clone();
    assert_eq!(BadRequest::from_any(b.into_any()).unwrap(), expected);
}
