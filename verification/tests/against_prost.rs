use prost::Message;
use prost_types::{FileDescriptorProto, FileDescriptorSet};
use richer_error::{Any, BadRequest, FieldViolation, FromAny, IntoAny};

// `FileDescriptorSet` has the layout of the payload as far as it is written:
// field 1 repeats a message whose fields 1 and 2 are strings.

fn descriptor(name: &str, package: &str) -> FileDescriptorProto {
    let mut file = FileDescriptorProto::default();
    if !name.is_empty() {
        file.name = Some(name.to_string());
    }
    if !package.is_empty() {
        file.package = Some(package.to_string());
    }
    file
}

fn decode(payload: &[u8]) -> Result<BadRequest, richer_error::DecodeError> {
    BadRequest::from_any(Any {
        type_url: BadRequest::TYPE_URL.to_string(),
        value: payload.to_vec(),
    })
}

#[test]
fn payload_equals_what_prost_writes() {
    let long: String = "z".repeat(20_000);
    let cases: Vec<Vec<(&str, &str)>> = vec![
        vec![],
        vec![("field_a", "description_a"), ("field_b", "description_b")],
        vec![("", ""), ("a", ""), ("", "b")],
        vec![("ünï.cødé", "文字"), ("long", &long)],
    ];
    for case in cases {
        let mut b = BadRequest::new(Vec::new());
        let mut set = FileDescriptorSet::default();
        for (field, description) in case {
            b.add_violation(field, description);
            set.file.push(descriptor(field, description));
        }
        assert_eq!(b.into_any().value, set.encode_to_vec());
    }
}

#[test]
fn reads_what_prost_writes() {
    let mut set = FileDescriptorSet::default();
    set.file.push(descriptor("field_a", "description_a"));
    set.file.push(descriptor("", "only description"));
    set.file.push(descriptor("", ""));
    let back = decode(&set.encode_to_vec()).unwrap();
    assert_eq!(
        back.field_violations,
        vec![
            FieldViolation::new("field_a", "description_a"),
            FieldViolation::new("", "only description"),
            FieldViolation::new("", ""),
        ]
    );
}

#[test]
fn prost_reads_what_is_written() {
    let mut b = BadRequest::with_violation("field_a", "description_a");
    b.add_violation("field_b", "description_b");
    let set = FileDescriptorSet::decode(b.into_any().value.as_slice()).unwrap();
    assert_eq!(set.file.len(), 2);
    assert_eq!(set.file[0].name.as_deref(), Some("field_a"));
    assert_eq!(set.file[0].package.as_deref(), Some("description_a"));
    assert_eq!(set.file[1].name.as_deref(), Some("field_b"));
    assert_eq!(set.file[1].package.as_deref(), Some("description_b"));
}

#[test]
fn varints_are_read_as_prost_reads_them() {
    let values: Vec<u64> = vec![
        0,
        1,
        127,
        128,
        300,
        16_383,
        16_384,
        u32::MAX as u64,
        1 << 56,
        u64::MAX - 1,
        u64::MAX,
    ];
    for value in values {
        // an unknown varint field, number 2, then one empty violation
        let mut payload: Vec<u8> = vec![16];
        prost::encoding::encode_varint(value, &mut payload);
        payload.extend_from_slice(&[10, 0]);
        assert_eq!(decode(&payload).unwrap().field_violations.len(), 1);
        assert!(FileDescriptorSet::decode(payload.as_slice()).is_ok());
    }
}

fn agrees_with_prost(payload: &[u8]) -> bool {
    let ours = decode(payload);
    let theirs = FileDescriptorSet::decode(payload);
    match (ours, theirs) {
        (Ok(b), Ok(set)) => b.field_violations.len() == set.file.len(),
        (Err(_), Err(_)) => true,
        _ => false,
    }
}

#[test]
fn accepts_and_rejects_as_prost_does_outside_the_schema() {
    // Only field 1 at the top and fields 1 and 2 below it are used, so that
    // both schemas say the same of every payload here.
    let payloads: Vec<Vec<u8>> = vec![
        vec![],
        vec![0],
        vec![128],
        vec![14],
        vec![20],
        vec![19, 20],
        vec![19, 28],
        vec![19, 16, 1, 20, 10, 0],
        vec![8, 1],
        vec![10, 1],
        vec![10, 2, 10, 1, 97],
        vec![10, 4, 10, 2, 255, 254],
        vec![10, 3, 10, 1, 97, 10, 0],
        vec![16, 128, 128, 128, 128, 128, 128, 128, 128, 128, 1],
        vec![16, 128, 128, 128, 128, 128, 128, 128, 128, 128, 2],
        vec![16, 128, 128, 128, 128, 128, 128, 128, 128, 128, 128, 1],
        vec![16, 128, 0, 10, 0],
        vec![138, 128, 128, 128, 16, 0],
        vec![21, 1, 2, 3],
        vec![21, 1, 2, 3, 4],
        vec![17, 1, 2, 3, 4, 5, 6, 7, 8, 10, 0],
        vec![18, 200, 1, 0],
        vec![10, 2, 16, 5, 10, 0],
        vec![10, 0, 58, 5, 255, 0, 128, 7, 200],
        vec![10, 0, 250, 255, 255, 255, 15, 0],
        vec![10, 0, 58, 5, 255, 0],
        vec![10, 2, 16],
    ];
    for payload in payloads {
        assert!(agrees_with_prost(&payload), "payload {payload:?}");
    }
}

// Groups numbered 15, which neither schema knows, one inside the other.
fn nested_groups(depth: usize) -> Vec<u8> {
    let mut payload: Vec<u8> = Vec::new();
    for _ in 0..depth {
        payload.push(123);
    }
    for _ in 0..depth {
        payload.push(124);
    }
    payload
}

#[test]
fn group_nesting_limit_is_that_of_prost() {
    for depth in [1usize, 50, 98, 99, 100, 101, 150] {
        let payload = nested_groups(depth);
        assert_eq!(
            decode(&payload).is_ok(),
            FileDescriptorSet::decode(payload.as_slice()).is_ok(),
            "depth {depth}"
        );
        assert_eq!(decode(&payload).is_ok(), depth <= 100);

        // the same groups inside the message of field 1
        let mut framed: Vec<u8> = vec![10];
        prost::encoding::encode_varint(2 * depth as u64, &mut framed);
        framed.extend(nested_groups(depth));
        assert_eq!(
            decode(&framed).is_ok(),
            FileDescriptorSet::decode(framed.as_slice()).is_ok(),
            "depth {depth} inside"
        );
        assert_eq!(decode(&framed).is_ok(), depth <= 99);
    }
}
