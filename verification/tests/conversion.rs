use fieldmap::engine::{decode, encode, ConversionError, ConvertCause};
use fieldmap::numeric::{int_to_decimal, parse_i64};
use fieldmap::schema::{
    get_id, DecodeConverter, EncodeConverter, FieldSpec, FieldType, FieldValue, RecordSchema,
};
use fieldmap::value::{StructuredValue, ValueKind};

fn field(
    name: &str,
    reads: &[&str],
    write: &str,
    t: FieldType,
    default: Option<FieldValue>,
    dc: Option<DecodeConverter>,
    ec: Option<EncodeConverter>,
) -> FieldSpec {
    FieldSpec {
        field_name: name.to_string(),
        read_names: reads.iter().map(|s| s.to_string()).collect(),
        write_name: write.to_string(),
        field_type: t,
        optional: false,
        default_value: default,
        decode_converter: dc,
        encode_converter: ec,
    }
}

fn text(s: &str) -> StructuredValue {
    StructuredValue::Text(s.to_string())
}

fn mapping(entries: Vec<(&str, StructuredValue)>) -> StructuredValue {
    StructuredValue::Mapping(
        entries.into_iter().map(|(k, v)| (k.to_string(), v)).collect(),
    )
}

fn animal_schema() -> RecordSchema {
    RecordSchema {
        fields: vec![
            field("age", &["age"], "age", FieldType::Int, None, None, None),
            field("name", &["name"], "name", FieldType::Text, None, None, None),
        ],
    }
}

fn personal_schema() -> RecordSchema {
    RecordSchema {
        fields: vec![
            field(
                "age",
                &["age"],
                "age",
                FieldType::Int,
                Some(FieldValue::Int(0)),
                None,
                None,
            ),
            field(
                "id",
                &["id"],
                "id",
                FieldType::Int,
                Some(FieldValue::Int(get_id() as i64)),
                None,
                None,
            ),
            field(
                "personal_name",
                &["name"],
                "name",
                FieldType::Text,
                None,
                None,
                None,
            ),
            field(
                "hobby",
                &["hobby"],
                "s_hobby",
                FieldType::Text,
                None,
                None,
                None,
            ),
            field(
                "address",
                &["d_address"],
                "address",
                FieldType::Text,
                Some(FieldValue::Text(String::new())),
                None,
                None,
            ),
            field(
                "gender",
                &["gender", "d_gender", "dd_gender"],
                "gender",
                FieldType::Text,
                None,
                None,
                None,
            ),
            field(
                "height",
                &["height"],
                "height",
                FieldType::Int,
                None,
                Some(DecodeConverter::IntFromText),
                None,
            ),
            field(
                "weight",
                &["weight"],
                "weight",
                FieldType::Int,
                None,
                None,
                Some(EncodeConverter::IntToText),
            ),
        ],
    }
}

fn cat_schema() -> RecordSchema {
    RecordSchema {
        fields: vec![
            field("age", &["age"], "age", FieldType::Int, None, None, None),
            field("name", &["name"], "name", FieldType::Text, None, None, None),
        ],
    }
}

#[test]
fn test_general() {
    let schema = animal_schema();
    assert!(schema.validate());
    let input = mapping(vec![
        ("age", StructuredValue::Number(3)),
        ("name", text("dog")),
    ]);
    let dog = decode(&schema, &input).unwrap();
    assert_eq!(dog, vec![FieldValue::Int(3), FieldValue::Text("dog".to_string())]);
    let out = encode(&schema, &dog);
    assert_eq!(
        out,
        mapping(vec![
            ("age", StructuredValue::Number(3)),
            ("name", text("dog")),
        ])
    );
}

#[test]
fn test_made() {
    let schema = personal_schema();
    assert!(schema.validate());
    let input = mapping(vec![
        ("name", text("nick")),
        ("hobby", text("baseball")),
        ("address", text("beijing")),
        ("d_gender", text("d_man")),
        ("height", text("177")),
        ("weight", StructuredValue::Number(130)),
    ]);
    let nick = decode(&schema, &input).unwrap();
    assert_eq!(
        nick,
        vec![
            FieldValue::Int(0),
            FieldValue::Int(100),
            FieldValue::Text("nick".to_string()),
            FieldValue::Text("baseball".to_string()),
            FieldValue::Text(String::new()),
            FieldValue::Text("d_man".to_string()),
            FieldValue::Int(177),
            FieldValue::Int(130),
        ]
    );
    let out = encode(&schema, &nick);
    assert_eq!(
        out,
        mapping(vec![
            ("age", StructuredValue::Number(0)),
            ("id", StructuredValue::Number(100)),
            ("name", text("nick")),
            ("s_hobby", text("baseball")),
            ("address", text("")),
            ("gender", text("d_man")),
            ("height", StructuredValue::Number(177)),
            ("weight", text("130")),
        ])
    );
}

#[test]
fn test_custom() {
    let schema = cat_schema();
    let input = mapping(vec![
        ("age", StructuredValue::Number(100)),
        ("name", text("Dog")),
    ]);
    let cc = decode(&schema, &input).unwrap();
    assert_eq!(cc, vec![FieldValue::Int(100), FieldValue::Text("Dog".to_string())]);
    let out = encode(&schema, &cc);
    assert_eq!(
        out,
        mapping(vec![
            ("age", StructuredValue::Number(100)),
            ("name", text("Dog")),
        ])
    );
}

#[test]
fn test_round_trip_plain() {
    let schema = animal_schema();
    let record = vec![FieldValue::Int(-7), FieldValue::Text("rex".to_string())];
    let back = decode(&schema, &encode(&schema, &record)).unwrap();
    assert_eq!(back, record);
}

#[test]
fn test_round_trip_with_converters() {
    let schema = RecordSchema {
        fields: vec![field(
            "height",
            &["height"],
            "height",
            FieldType::Int,
            None,
            Some(DecodeConverter::IntFromText),
            Some(EncodeConverter::IntToText),
        )],
    };
    let record = vec![FieldValue::Int(-177)];
    let out = encode(&schema, &record);
    assert_eq!(out, mapping(vec![("height", text("-177"))]));
    let back = decode(&schema, &out).unwrap();
    assert_eq!(back, record);
}

#[test]
fn test_default_substitution() {
    let schema = personal_schema();
    let input = mapping(vec![
        ("name", text("nick")),
        ("hobby", text("x")),
        ("gender", text("g")),
        ("height", StructuredValue::Number(1)),
        ("weight", StructuredValue::Number(2)),
    ]);
    let r = decode(&schema, &input).unwrap();
    // age, id and address are missing and get their configured defaults.
    assert_eq!(r[0], FieldValue::Int(0));
    assert_eq!(r[1], FieldValue::Int(100));
    assert_eq!(r[4], FieldValue::Text(String::new()));
}

#[test]
fn test_missing_field_error() {
    let schema = animal_schema();
    let input = mapping(vec![("age", StructuredValue::Number(3))]);
    let err = decode(&schema, &input).unwrap_err();
    assert_eq!(err, ConversionError::MissingField { field: "name".to_string() });
}

#[test]
fn test_optional_field_empty_value() {
    let mut f = field("note", &["note"], "note", FieldType::Text, None, None, None);
    f.optional = true;
    let schema = RecordSchema { fields: vec![f] };
    let r = decode(&schema, &mapping(vec![])).unwrap();
    assert_eq!(r, vec![FieldValue::Text(String::new())]);
}

#[test]
fn test_alias_each_name_decodes_identically() {
    let schema = personal_schema();
    for alias in ["gender", "d_gender", "dd_gender"] {
        let input = mapping(vec![
            ("name", text("nick")),
            ("hobby", text("x")),
            (alias, text("d_man")),
            ("height", StructuredValue::Number(1)),
            ("weight", StructuredValue::Number(2)),
        ]);
        let r = decode(&schema, &input).unwrap();
        assert_eq!(r[5], FieldValue::Text("d_man".to_string()));
    }
}

#[test]
fn test_alias_first_listed_wins() {
    let schema = personal_schema();
    let input = mapping(vec![
        ("name", text("nick")),
        ("hobby", text("x")),
        ("dd_gender", text("second")),
        ("d_gender", text("first")),
        ("height", StructuredValue::Number(1)),
        ("weight", StructuredValue::Number(2)),
    ]);
    // `d_gender` is listed before `dd_gender` among the read names, so it
    // wins although `dd_gender` comes first in the input.
    let r = decode(&schema, &input).unwrap();
    assert_eq!(r[5], FieldValue::Text("first".to_string()));
}

#[test]
fn test_rename_asymmetry() {
    // `hobby` decodes from the read name `hobby` but encodes under
    // `s_hobby`; `address` decodes only from `d_address`.
    let schema = personal_schema();
    let input = mapping(vec![
        ("name", text("n")),
        ("hobby", text("baseball")),
        ("d_address", text("beijing")),
        ("gender", text("g")),
        ("height", StructuredValue::Number(1)),
        ("weight", StructuredValue::Number(2)),
    ]);
    let r = decode(&schema, &input).unwrap();
    assert_eq!(r[3], FieldValue::Text("baseball".to_string()));
    assert_eq!(r[4], FieldValue::Text("beijing".to_string()));
    let out = encode(&schema, &r);
    if let StructuredValue::Mapping(entries) = &out {
        assert!(entries.iter().any(|(k, _)| k == "s_hobby"));
        assert!(!entries.iter().any(|(k, _)| k == "hobby"));
        assert!(entries.iter().any(|(k, _)| k == "address"));
        assert!(!entries.iter().any(|(k, _)| k == "d_address"));
    } else {
        panic!("encode must produce a mapping");
    }
}

#[test]
fn test_numeric_coercion_from_text() {
    let schema = personal_schema();
    let base = |height: StructuredValue| {
        mapping(vec![
            ("name", text("n")),
            ("hobby", text("h")),
            ("gender", text("g")),
            ("height", height),
            ("weight", StructuredValue::Number(130)),
        ])
    };
    let r = decode(&schema, &base(text("177"))).unwrap();
    assert_eq!(r[6], FieldValue::Int(177));
    let r = decode(&schema, &base(StructuredValue::Number(177))).unwrap();
    assert_eq!(r[6], FieldValue::Int(177));
    // A boolean is rejected with an explicit error, never a silent zero.
    let err = decode(&schema, &base(StructuredValue::Bool(true))).unwrap_err();
    assert_eq!(
        err,
        ConversionError::FieldConversion {
            field: "height".to_string(),
            cause: ConvertCause::ShapeUnsupported,
        }
    );
}

#[test]
fn test_numeric_coercion_parse_failure() {
    let schema = personal_schema();
    let input = mapping(vec![
        ("name", text("n")),
        ("hobby", text("h")),
        ("gender", text("g")),
        ("height", text("not a number")),
        ("weight", StructuredValue::Number(130)),
    ]);
    let err = decode(&schema, &input).unwrap_err();
    assert_eq!(
        err,
        ConversionError::FieldConversion {
            field: "height".to_string(),
            cause: ConvertCause::ParseFailed,
        }
    );
}

#[test]
fn test_not_an_object() {
    let schema = animal_schema();
    let err = decode(&schema, &StructuredValue::Number(5)).unwrap_err();
    assert_eq!(err, ConversionError::NotAnObject);
    let err = decode(&schema, &StructuredValue::Sequence(vec![])).unwrap_err();
    assert_eq!(err, ConversionError::NotAnObject);
}

#[test]
fn test_type_mismatch() {
    let schema = animal_schema();
    let input = mapping(vec![
        ("age", StructuredValue::Number(3)),
        ("name", StructuredValue::Number(9)),
    ]);
    let err = decode(&schema, &input).unwrap_err();
    assert_eq!(
        err,
        ConversionError::TypeMismatch {
            field: "name".to_string(),
            expected: FieldType::Text,
            found: ValueKind::NumberKind,
        }
    );
}

#[test]
fn test_validate_rejects_duplicate_write_names() {
    let schema = RecordSchema {
        fields: vec![
            field("a", &["a"], "same", FieldType::Int, None, None, None),
            field("b", &["b"], "same", FieldType::Int, None, None, None),
        ],
    };
    assert!(!schema.validate());
    assert!(personal_schema().validate());
}

#[test]
fn test_record_matches_schema() {
    let schema = animal_schema();
    let good = vec![FieldValue::Int(1), FieldValue::Text("x".to_string())];
    let bad = vec![FieldValue::Text("x".to_string()), FieldValue::Int(1)];
    let short = vec![FieldValue::Int(1)];
    assert!(schema.record_matches_schema(&good));
    assert!(!schema.record_matches_schema(&bad));
    assert!(!schema.record_matches_schema(&short));
}

#[test]
fn test_get_id() {
    assert_eq!(get_id(), 100);
}

#[test]
fn test_parse_i64() {
    assert_eq!(parse_i64("177"), Some(177));
    assert_eq!(parse_i64("+5"), Some(5));
    assert_eq!(parse_i64("-0"), Some(0));
    assert_eq!(parse_i64("0"), Some(0));
    assert_eq!(parse_i64("9223372036854775807"), Some(i64::MAX));
    assert_eq!(parse_i64("-9223372036854775808"), Some(i64::MIN));
    assert_eq!(parse_i64("9223372036854775808"), None);
    assert_eq!(parse_i64("-9223372036854775809"), None);
    assert_eq!(parse_i64("99999999999999999999999999"), None);
    assert_eq!(parse_i64(""), None);
    assert_eq!(parse_i64("+"), None);
    assert_eq!(parse_i64("-"), None);
    assert_eq!(parse_i64("12a"), None);
    assert_eq!(parse_i64(" 12"), None);
    assert_eq!(parse_i64("1.5"), None);
}

#[test]
fn test_int_to_decimal() {
    assert_eq!(int_to_decimal(0), "0");
    assert_eq!(int_to_decimal(130), "130");
    assert_eq!(int_to_decimal(-5), "-5");
    assert_eq!(int_to_decimal(i64::MAX), "9223372036854775807");
    assert_eq!(int_to_decimal(i64::MIN), "-9223372036854775808");
}

#[test]
fn test_decimal_round_trip_values() {
    for v in [0i64, 1, -1, 177, -177, i64::MAX, i64::MIN] {
        assert_eq!(parse_i64(&int_to_decimal(v)), Some(v));
    }
}
