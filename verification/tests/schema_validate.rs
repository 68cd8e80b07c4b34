use greentic_flow::schema_validate::{
    cbor_equal, validate_value_against_schema, AdditionalProperties, CborValue, FloatRepr, SchemaDiagnostic, SchemaIr,
    Severity,
};

/// A float as the validator takes it: an order-preserving key and its text.
fn float(f: f64) -> FloatRepr {
    let key = if f.is_nan() {
        None
    } else {
        let f = if f == 0.0 { 0.0 } else { f };
        let bits = f.to_bits();
        let magnitude = (bits & 0x7fff_ffff_ffff_ffff) as i64;
        Some(if bits >> 63 == 1 { -magnitude } else { magnitude })
    };
    FloatRepr { key, text: f.to_string() }
}

fn integer(i: i128) -> CborValue {
    CborValue::Integer(i, float(i as f64))
}

fn text(s: &str) -> CborValue {
    CborValue::Text(s.to_string())
}

fn string_schema() -> SchemaIr {
    SchemaIr::String { min_len: None, max_len: None, regex: None, format: None }
}

fn codes(diags: &[SchemaDiagnostic]) -> Vec<&str> {
    diags.iter().map(|d| d.code.as_str()).collect()
}

#[test]
fn schema_validate_reports_required_missing() {
    let schema = SchemaIr::Object {
        properties: vec![("name".to_string(), string_schema())],
        required: vec!["name".to_string()],
        additional: AdditionalProperties::Allow,
    };
    let value = CborValue::Mapping(Vec::new());
    let diags = validate_value_against_schema(&schema, &value);
    assert!(diags.iter().any(|d| d.code == "SCHEMA_REQUIRED_MISSING"));
}

#[test]
fn schema_validate_reports_type_mismatch() {
    let schema = string_schema();
    let value = CborValue::Bool(true);
    let diags = validate_value_against_schema(&schema, &value);
    assert!(diags.iter().any(|d| d.code == "SCHEMA_TYPE_MISMATCH"));
}

#[test]
fn schema_validate_forbids_additional_properties() {
    let schema = SchemaIr::Object {
        properties: Vec::new(),
        required: Vec::new(),
        additional: AdditionalProperties::Forbid,
    };
    let value = CborValue::Mapping(vec![(text("extra"), CborValue::Bool(true))]);
    let diags = validate_value_against_schema(&schema, &value);
    assert!(diags.iter().any(|d| d.code == "SCHEMA_ADDITIONAL_FORBIDDEN"));
}

#[test]
fn schema_validate_warns_on_regex() {
    let schema = SchemaIr::String { min_len: None, max_len: None, regex: Some("^foo$".to_string()), format: None };
    let value = text("foo");
    let diags = validate_value_against_schema(&schema, &value);
    assert!(diags.iter().any(|d| d.code == "SCHEMA_REGEX_UNSUPPORTED" && d.severity == Severity::Warning));
}

#[test]
fn diagnostics_carry_messages_and_paths() {
    let schema = SchemaIr::Object {
        properties: vec![
            ("name".to_string(), string_schema()),
            (
                "tags".to_string(),
                SchemaIr::Array { items: Box::new(SchemaIr::Int { min: Some(0), max: Some(9) }), min_items: Some(3), max_items: None },
            ),
        ],
        required: vec!["name".to_string(), "size".to_string()],
        additional: AdditionalProperties::Forbid,
    };
    let value = CborValue::Mapping(vec![
        (text("zeta"), CborValue::Null),
        (text("tags"), CborValue::Array(vec![integer(4), integer(-12)])),
        (integer(1), CborValue::Null),
        (text("name"), text("n")),
    ]);
    let diags = validate_value_against_schema(&schema, &value);
    let seen: Vec<(&str, &str, &str)> =
        diags.iter().map(|d| (d.code.as_str(), d.message.as_str(), d.path.as_str())).collect();
    assert_eq!(
        seen,
        vec![
            ("SCHEMA_INVALID_KEY", "non-string object key at $", "$"),
            ("SCHEMA_REQUIRED_MISSING", "missing required field 'size' at $", "$.size"),
            ("SCHEMA_ARRAY_MIN_ITEMS", "array length 2 < min_items 3 at $.tags", "$.tags"),
            ("SCHEMA_INT_MIN", "integer -12 < min 0 at $.tags[1]", "$.tags[1]"),
            ("SCHEMA_ADDITIONAL_FORBIDDEN", "additional property 'zeta' not allowed at $", "$.zeta"),
        ]
    );
}

#[test]
fn later_duplicate_key_wins() {
    let schema = SchemaIr::Object {
        properties: vec![("n".to_string(), SchemaIr::Int { min: None, max: Some(5) })],
        required: Vec::new(),
        additional: AdditionalProperties::Allow,
    };
    let value = CborValue::Mapping(vec![(text("n"), integer(1)), (text("n"), integer(7))]);
    let diags = validate_value_against_schema(&schema, &value);
    assert_eq!(codes(&diags), vec!["SCHEMA_INT_MAX"]);
    assert_eq!(diags[0].message, "integer 7 > max 5 at $.n");
}

#[test]
fn string_lengths_count_characters() {
    let schema = SchemaIr::String { min_len: Some(2), max_len: Some(3), regex: None, format: Some("uri".to_string()) };
    let diags = validate_value_against_schema(&schema, &text("ééé"));
    assert_eq!(codes(&diags), vec!["SCHEMA_FORMAT_UNSUPPORTED"]);
    let diags = validate_value_against_schema(&schema, &text("ééééé"));
    assert_eq!(codes(&diags), vec!["SCHEMA_STRING_MAX_LEN", "SCHEMA_FORMAT_UNSUPPORTED"]);
    assert_eq!(diags[0].message, "string length 5 > max_len 3 at $");
}

#[test]
fn float_bounds_compare_numbers_and_skip_nan() {
    let schema = SchemaIr::Float { min: Some(float(-1.5)), max: Some(float(2.25)) };
    assert!(validate_value_against_schema(&schema, &CborValue::Float(float(0.0))).is_empty());
    assert!(validate_value_against_schema(&schema, &CborValue::Float(float(-0.0))).is_empty());
    let low = validate_value_against_schema(&schema, &CborValue::Float(float(-2.0)));
    assert_eq!(low[0].message, "number -2 < min -1.5 at $");
    let high = validate_value_against_schema(&schema, &integer(3));
    assert_eq!(high[0].code, "SCHEMA_FLOAT_MAX");
    assert_eq!(high[0].message, "number 3 > max 2.25 at $");
    assert!(validate_value_against_schema(&schema, &CborValue::Float(float(f64::NAN))).is_empty());
    assert_eq!(codes(&validate_value_against_schema(&schema, &text("1"))), vec!["SCHEMA_TYPE_MISMATCH"]);
}

#[test]
fn enum_and_one_of() {
    let schema = SchemaIr::Enum { values: vec![text("a"), CborValue::Float(float(1.0))] };
    assert!(validate_value_against_schema(&schema, &CborValue::Float(float(1.0))).is_empty());
    assert_eq!(codes(&validate_value_against_schema(&schema, &integer(1))), vec!["SCHEMA_ENUM"]);
    let nan_enum = SchemaIr::Enum { values: vec![CborValue::Float(float(f64::NAN))] };
    assert_eq!(codes(&validate_value_against_schema(&nan_enum, &CborValue::Float(float(f64::NAN)))), vec!["SCHEMA_ENUM"]);

    let union = SchemaIr::OneOf {
        variants: vec![
            SchemaIr::Int { min: Some(10), max: None },
            SchemaIr::String { min_len: None, max_len: None, regex: Some("x".to_string()), format: None },
        ],
    };
    // A variant that only warns still accepts the value.
    assert!(validate_value_against_schema(&union, &text("s")).is_empty());
    let diags = validate_value_against_schema(&union, &integer(3));
    assert_eq!(codes(&diags), vec!["SCHEMA_ONE_OF"]);
    assert_eq!(diags[0].message, "value does not match any oneOf variant at $");
}

#[test]
fn kinds_refs_and_additional_schemas() {
    assert_eq!(codes(&validate_value_against_schema(&SchemaIr::Bytes, &CborValue::Bytes(vec![1]))), Vec::<&str>::new());
    assert_eq!(codes(&validate_value_against_schema(&SchemaIr::Null, &CborValue::Bool(false))), vec!["SCHEMA_TYPE_MISMATCH"]);
    let r = validate_value_against_schema(&SchemaIr::Ref { id: "x".to_string() }, &CborValue::Null);
    assert_eq!(r[0].message, "schema ref 'x' is not supported");
    let schema = SchemaIr::Object {
        properties: Vec::new(),
        required: Vec::new(),
        additional: AdditionalProperties::Schema(Box::new(SchemaIr::Bool)),
    };
    let value = CborValue::Mapping(vec![(text("b"), integer(1)), (text("a"), CborValue::Bool(true))]);
    let diags = validate_value_against_schema(&schema, &value);
    assert_eq!(diags.len(), 1);
    assert_eq!(diags[0].message, "expected boolean at $.b");
    assert_eq!(diags[0].path, "$.b");
}

#[test]
fn cbor_equality_is_structural() {
    let a = CborValue::Tag(1, Box::new(CborValue::Array(vec![integer(1), text("x")])));
    let b = CborValue::Tag(1, Box::new(CborValue::Array(vec![integer(1), text("x")])));
    let c = CborValue::Tag(2, Box::new(CborValue::Array(vec![integer(1), text("x")])));
    assert!(cbor_equal(&a, &b));
    assert!(!cbor_equal(&a, &c));
    let m1 = CborValue::Mapping(vec![(text("k"), integer(1))]);
    let m2 = CborValue::Mapping(vec![(text("k"), integer(2))]);
    assert!(!cbor_equal(&m1, &m2));
}
