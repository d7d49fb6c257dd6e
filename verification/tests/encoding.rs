use protobuf_desc_demo::numeric::{i64_string, nan32, nan64, u64_string, widen32};
use protobuf_desc_demo::wire::{serialize_person, Person, PhoneNumber};

#[test]
fn serialize_person_golden_bytes() {
    let p = Person {
        name: Some("Someone".to_string()),
        phones: vec![PhoneNumber { number: Some("1234".to_string()), phone_type: Some(1) }],
    };
    let mut expected: Vec<u8> = Vec::new();
    expected.extend_from_slice(&[0x0a, 7]);
    expected.extend_from_slice(b"Someone");
    expected.extend_from_slice(&[0x22, 8, 0x0a, 4]);
    expected.extend_from_slice(b"1234");
    expected.extend_from_slice(&[0x10, 1]);
    assert_eq!(serialize_person(&p), expected);
}

#[test]
fn serialize_person_absent_fields_emit_nothing() {
    let p = Person { name: None, phones: vec![] };
    assert_eq!(serialize_person(&p), Vec::<u8>::new());
    let p2 = Person {
        name: None,
        phones: vec![PhoneNumber { number: None, phone_type: None }],
    };
    assert_eq!(serialize_person(&p2), vec![0x22, 0]);
}

#[test]
fn serialize_person_long_name_uses_two_byte_varint() {
    let name: String = std::iter::repeat('x').take(200).collect();
    let p = Person { name: Some(name.clone()), phones: vec![] };
    let got = serialize_person(&p);
    assert_eq!(&got[..3], &[0x0a, 0xc8, 0x01]);
    assert_eq!(&got[3..], name.as_bytes());
}

#[test]
fn serialize_person_negative_enum_number_sign_extends() {
    let p = Person {
        name: None,
        phones: vec![PhoneNumber { number: None, phone_type: Some(-1) }],
    };
    let got = serialize_person(&p);
    let record: Vec<u8> = vec![
        0x10, 0xff, 0xff, 0xff, 0xff, 0xff, 0xff, 0xff, 0xff, 0xff, 0x01,
    ];
    let mut expected: Vec<u8> = vec![0x22, record.len() as u8];
    expected.extend_from_slice(&record);
    assert_eq!(got, expected);
}

#[test]
fn decimal_rendering_exact() {
    assert_eq!(u64_string(0), "0".to_string());
    assert_eq!(u64_string(9), "9".to_string());
    assert_eq!(u64_string(10), "10".to_string());
    assert_eq!(u64_string(1234567890123), "1234567890123".to_string());
    assert_eq!(u64_string(u64::MAX), u64::MAX.to_string());
    assert_eq!(i64_string(-1), "-1".to_string());
    assert_eq!(i64_string(i64::MIN), i64::MIN.to_string());
    assert_eq!(i64_string(42), "42".to_string());
}

#[test]
fn widen32_matches_hardware_widening() {
    let samples = [
        0.0f32,
        -0.0,
        1.0,
        -1.5,
        3.1415927,
        1.0e-40,
        f32::MIN_POSITIVE,
        f32::MAX,
        f32::MIN,
        f32::INFINITY,
        f32::NEG_INFINITY,
        f32::from_bits(1),
        f32::from_bits(0x807f_ffff),
    ];
    for f in samples {
        assert_eq!(widen32(f.to_bits()), (f as f64).to_bits(), "widening {f:?}");
    }
}

#[test]
fn nan_bit_detection() {
    assert!(nan32(f32::NAN.to_bits()));
    assert!(!nan32(f32::INFINITY.to_bits()));
    assert!(!nan32(0.0f32.to_bits()));
    assert!(nan64(f64::NAN.to_bits()));
    assert!(!nan64(f64::NEG_INFINITY.to_bits()));
    assert!(nan64((0.0f64 / 0.0f64).to_bits()));
}
