use protobuf_desc_demo::kindful::to_vrl_with_kind;
use protobuf_desc_demo::model::{
    ConvError, DynValue, EnumDescriptor, EnumValue, Kind, MessageDescriptor, ReflectField,
    ReflectMessage, ReflectValue,
};
use protobuf_desc_demo::convert::{to_vrl, to_vrl_by_ref};
use protobuf_desc_demo::text::{to_vrl_via_json, TextValue};

fn phone_type_kind() -> Kind {
    Kind::Enum(EnumDescriptor {
        name: "PhoneType".to_string(),
        values: vec![
            EnumValue { number: 0, name: "UNSPECIFIED".to_string() },
            EnumValue { number: 1, name: "MOBILE".to_string() },
            EnumValue { number: 2, name: "HOME".to_string() },
        ],
    })
}

fn person_message() -> ReflectMessage {
    let phone = ReflectMessage {
        fields: vec![
            ReflectField {
                name: "number".to_string(),
                kind: Kind::Scalar,
                value: ReflectValue::Text("1234".to_string()),
            },
            ReflectField {
                name: "type".to_string(),
                kind: phone_type_kind(),
                value: ReflectValue::EnumNumber(1),
            },
        ],
    };
    ReflectMessage {
        fields: vec![
            ReflectField {
                name: "name".to_string(),
                kind: Kind::Scalar,
                value: ReflectValue::Text("Someone".to_string()),
            },
            ReflectField {
                name: "phones".to_string(),
                kind: Kind::Message(MessageDescriptor { map_value_kind: None }),
                value: ReflectValue::List(vec![ReflectValue::Message(phone)]),
            },
        ],
    }
}

fn expected_person(enum_as_name: bool) -> DynValue {
    let ty = if enum_as_name {
        DynValue::Text("MOBILE".to_string())
    } else {
        DynValue::Integer(1)
    };
    DynValue::Object(vec![
        ("name".to_string(), DynValue::Text("Someone".to_string())),
        (
            "phones".to_string(),
            DynValue::Array(vec![DynValue::Object(vec![
                ("number".to_string(), DynValue::Text("1234".to_string())),
                ("type".to_string(), ty),
            ])]),
        ),
    ])
}

#[test]
fn end_to_end_schema_aware() {
    let m = person_message();
    let kind = Kind::Message(MessageDescriptor { map_value_kind: None });
    let got = to_vrl_with_kind(ReflectValue::Message(m), &kind).unwrap();
    assert_eq!(got, expected_person(true));
}

#[test]
fn end_to_end_schema_less() {
    let got = to_vrl(ReflectValue::Message(person_message())).unwrap();
    assert_eq!(got, expected_person(false));
}

#[test]
fn cross_path_equivalence() {
    let by_move = to_vrl(ReflectValue::Message(person_message())).unwrap();
    let by_ref = to_vrl_by_ref(&ReflectValue::Message(person_message())).unwrap();
    let by_text = to_vrl_via_json(person_message()).unwrap();
    assert_eq!(by_move, by_ref);
    assert_eq!(by_move, by_text);
}

#[test]
fn scalar_fidelity_integers() {
    assert_eq!(to_vrl(ReflectValue::Bool(true)).unwrap(), DynValue::Bool(true));
    assert_eq!(to_vrl(ReflectValue::I32(-7)).unwrap(), DynValue::Integer(-7));
    assert_eq!(to_vrl(ReflectValue::I64(1 << 40)).unwrap(), DynValue::Integer(1 << 40));
    assert_eq!(to_vrl(ReflectValue::U32(u32::MAX)).unwrap(), DynValue::Integer(u32::MAX as i64));
    assert_eq!(to_vrl(ReflectValue::U64(17)).unwrap(), DynValue::Integer(17));
    // The single signed 64-bit integer domain reinterprets an unsigned
    // 64-bit value above i64::MAX, as the downstream model does.
    assert_eq!(to_vrl(ReflectValue::U64(u64::MAX)).unwrap(), DynValue::Integer(-1));
}

#[test]
fn scalar_fidelity_strings_and_bytes() {
    assert_eq!(
        to_vrl(ReflectValue::Text("hi".to_string())).unwrap(),
        DynValue::Text("hi".to_string())
    );
    assert_eq!(
        to_vrl(ReflectValue::Bytes(vec![0, 255, 3])).unwrap(),
        DynValue::Bytes(vec![0, 255, 3])
    );
}

#[test]
fn scalar_fidelity_floats() {
    for f in [0.0f32, -0.0, 1.5, -2.25e-3, f32::MIN_POSITIVE, f32::INFINITY, f32::NEG_INFINITY,
        f32::from_bits(1), f32::from_bits(0x0000_7fff), f32::MAX]
    {
        let got = to_vrl(ReflectValue::F32Bits(f.to_bits())).unwrap();
        assert_eq!(got, DynValue::Float((f as f64).to_bits()));
    }
    let d = -123.456e78f64;
    assert_eq!(to_vrl(ReflectValue::F64Bits(d.to_bits())).unwrap(), DynValue::Float(d.to_bits()));
}

#[test]
fn nan_rejected_everywhere() {
    assert_eq!(to_vrl(ReflectValue::F32Bits(f32::NAN.to_bits())), Err(ConvError::InvalidFloat));
    assert_eq!(to_vrl(ReflectValue::F64Bits(f64::NAN.to_bits())), Err(ConvError::InvalidFloat));
    assert_eq!(
        to_vrl_by_ref(&ReflectValue::F32Bits(f32::NAN.to_bits())),
        Err(ConvError::InvalidFloat)
    );
    let m = ReflectMessage {
        fields: vec![ReflectField {
            name: "x".to_string(),
            kind: Kind::Scalar,
            value: ReflectValue::F64Bits(f64::NAN.to_bits()),
        }],
    };
    assert_eq!(to_vrl_via_json(m), Err(ConvError::InvalidFloat));
}

#[test]
fn nan_in_message_field_aborts() {
    let m = ReflectMessage {
        fields: vec![
            ReflectField {
                name: "ok".to_string(),
                kind: Kind::Scalar,
                value: ReflectValue::Bool(true),
            },
            ReflectField {
                name: "bad".to_string(),
                kind: Kind::Scalar,
                value: ReflectValue::F32Bits(f32::NAN.to_bits()),
            },
        ],
    };
    assert_eq!(to_vrl(ReflectValue::Message(m)), Err(ConvError::InvalidFloat));
}

#[test]
fn enum_known_symbol_resolves() {
    let got = to_vrl_with_kind(ReflectValue::EnumNumber(2), &phone_type_kind()).unwrap();
    assert_eq!(got, DynValue::Text("HOME".to_string()));
}

#[test]
fn enum_unknown_number_fails_with_descriptive_error() {
    let got = to_vrl_with_kind(ReflectValue::EnumNumber(5), &phone_type_kind());
    assert_eq!(
        got,
        Err(ConvError::UnknownEnumValue { number: 5, enum_name: "PhoneType".to_string() })
    );
}

#[test]
fn enum_passes_through_as_number_without_schema() {
    assert_eq!(to_vrl(ReflectValue::EnumNumber(5)).unwrap(), DynValue::Integer(5));
}

#[test]
fn map_integer_key_stringified() {
    let m = ReflectValue::Mapping(vec![(ReflectValue::I64(123), ReflectValue::Bool(true))]);
    let value_kind = Kind::Message(MessageDescriptor {
        map_value_kind: Some(Box::new(Kind::Scalar)),
    });
    let got = to_vrl_with_kind(m, &value_kind).unwrap();
    assert_eq!(
        got,
        DynValue::Object(vec![("123".to_string(), DynValue::Bool(true))])
    );
}

#[test]
fn map_duplicate_stringified_key_overwrites() {
    let m = ReflectValue::Mapping(vec![
        (ReflectValue::I64(1), ReflectValue::I32(1)),
        (ReflectValue::U64(1), ReflectValue::I32(2)),
    ]);
    let got = to_vrl(m).unwrap();
    assert_eq!(got, DynValue::Object(vec![("1".to_string(), DynValue::Integer(2))]));
}

#[test]
fn map_varied_keys_stringified() {
    let m = ReflectValue::Mapping(vec![
        (ReflectValue::Bool(true), ReflectValue::I32(1)),
        (ReflectValue::I64(-5), ReflectValue::I32(2)),
        (ReflectValue::U32(7), ReflectValue::I32(3)),
        (ReflectValue::Text("k".to_string()), ReflectValue::I32(4)),
    ]);
    let got = to_vrl(m).unwrap();
    assert_eq!(
        got,
        DynValue::Object(vec![
            ("true".to_string(), DynValue::Integer(1)),
            ("-5".to_string(), DynValue::Integer(2)),
            ("7".to_string(), DynValue::Integer(3)),
            ("k".to_string(), DynValue::Integer(4)),
        ])
    );
}

#[test]
fn non_string_map_key_rejected() {
    let m = ReflectValue::Mapping(vec![(
        ReflectValue::Bytes(vec![1]),
        ReflectValue::Bool(true),
    )]);
    assert_eq!(to_vrl(m), Err(ConvError::NonStringMapKey));
    let m2 = ReflectValue::Mapping(vec![(
        ReflectValue::F64Bits(1.0f64.to_bits()),
        ReflectValue::Bool(true),
    )]);
    assert_eq!(to_vrl_by_ref(&m2), Err(ConvError::NonStringMapKey));
}

#[test]
fn field_coverage_counts_unset_fields() {
    let m = ReflectMessage {
        fields: vec![
            ReflectField {
                name: "a".to_string(),
                kind: Kind::Scalar,
                value: ReflectValue::Text("set".to_string()),
            },
            ReflectField {
                name: "b".to_string(),
                kind: Kind::Scalar,
                value: ReflectValue::I32(0),
            },
            ReflectField {
                name: "c".to_string(),
                kind: Kind::Scalar,
                value: ReflectValue::Bool(false),
            },
        ],
    };
    match to_vrl(ReflectValue::Message(m)).unwrap() {
        DynValue::Object(obj) => {
            assert_eq!(obj.len(), 3);
            let names: Vec<String> = obj.iter().map(|p| p.0.clone()).collect();
            assert_eq!(names, vec!["a".to_string(), "b".to_string(), "c".to_string()]);
        }
        other => panic!("expected an object, got {:?}", other),
    }
}

#[test]
fn take_field_leaves_benign_default() {
    let mut m = person_message();
    let taken = m.take_field(0);
    assert_eq!(taken, ReflectValue::Text("Someone".to_string()));
    assert_eq!(m.fields[0].name, "name".to_string());
    assert_eq!(m.fields[0].value, ReflectValue::Bool(false));
    assert_eq!(m.fields.len(), 2);
}

#[test]
fn text_bridge_keeps_enum_numbers() {
    let t = protobuf_desc_demo::text::message_to_text(&person_message()).unwrap();
    match t {
        TextValue::Object(fields) => {
            assert_eq!(fields[0].0, "name".to_string());
            assert_eq!(fields[0].1, TextValue::Text("Someone".to_string()));
        }
        other => panic!("expected an object, got {:?}", other),
    }
}

#[test]
fn text_to_dyn_is_total_on_null() {
    let got = protobuf_desc_demo::text::text_to_dyn(TextValue::Null);
    assert_eq!(got, DynValue::Null);
}

#[test]
fn nested_list_order_preserved() {
    let m = ReflectValue::List(vec![
        ReflectValue::I32(3),
        ReflectValue::I32(1),
        ReflectValue::I32(2),
    ]);
    assert_eq!(
        to_vrl(m).unwrap(),
        DynValue::Array(vec![
            DynValue::Integer(3),
            DynValue::Integer(1),
            DynValue::Integer(2),
        ])
    );
}

#[test]
fn empty_message_converts_to_empty_object() {
    let m = ReflectMessage { fields: vec![] };
    assert_eq!(to_vrl(ReflectValue::Message(m)).unwrap(), DynValue::Object(vec![]));
}

#[test]
fn nested_message_inside_map_value() {
    let inner = ReflectMessage {
        fields: vec![ReflectField {
            name: "n".to_string(),
            kind: Kind::Scalar,
            value: ReflectValue::U32(9),
        }],
    };
    let m = ReflectValue::Mapping(vec![(
        ReflectValue::Text("k".to_string()),
        ReflectValue::Message(inner),
    )]);
    assert_eq!(
        to_vrl(m).unwrap(),
        DynValue::Object(vec![(
            "k".to_string(),
            DynValue::Object(vec![("n".to_string(), DynValue::Integer(9))]),
        )])
    );
}

#[test]
fn first_violation_wins_in_declaration_order() {
    let m = ReflectMessage {
        fields: vec![
            ReflectField {
                name: "bad_map".to_string(),
                kind: Kind::Scalar,
                value: ReflectValue::Mapping(vec![(
                    ReflectValue::Bytes(vec![0]),
                    ReflectValue::Bool(true),
                )]),
            },
            ReflectField {
                name: "bad_float".to_string(),
                kind: Kind::Scalar,
                value: ReflectValue::F64Bits(f64::NAN.to_bits()),
            },
        ],
    };
    assert_eq!(to_vrl(ReflectValue::Message(m)), Err(ConvError::NonStringMapKey));
}

#[test]
fn schema_aware_list_of_enums_resolves_each_element() {
    let got = to_vrl_with_kind(
        ReflectValue::List(vec![ReflectValue::EnumNumber(1), ReflectValue::EnumNumber(2)]),
        &phone_type_kind(),
    )
    .unwrap();
    assert_eq!(
        got,
        DynValue::Array(vec![
            DynValue::Text("MOBILE".to_string()),
            DynValue::Text("HOME".to_string()),
        ])
    );
}
