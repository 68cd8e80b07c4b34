use greentic_flow::error::FlowError;
use greentic_flow::i18n::{I18nCatalog, I18nText};
use greentic_flow::json::{json_equal, JsonNumber, JsonValue};
use greentic_flow::json_text::json_text;
use greentic_flow::loader::load_with_schema;
use greentic_flow::questions::QuestionKind;
use greentic_flow::schema_validate::{CborValue, FloatRepr};
use greentic_flow::wizard_ops::{
    cbor_value_to_json, merge_default_answers, qa_spec_to_questions, unknown_answer_keys, QaKind, QaQuestion, QaSpec,
};

fn to_json_value(v: &serde_json::Value) -> JsonValue {
    match v {
        serde_json::Value::Null => JsonValue::Null,
        serde_json::Value::Bool(b) => JsonValue::Bool(*b),
        serde_json::Value::Number(n) => {
            if let Some(u) = n.as_u64() {
                JsonValue::Number(JsonNumber::PosInt(u))
            } else if let Some(i) = n.as_i64() {
                JsonValue::Number(JsonNumber::NegInt(i))
            } else {
                JsonValue::Number(JsonNumber::Float(n.to_string()))
            }
        }
        serde_json::Value::String(s) => JsonValue::String(s.clone()),
        serde_json::Value::Array(items) => JsonValue::Array(items.iter().map(to_json_value).collect()),
        serde_json::Value::Object(map) => {
            JsonValue::Object(map.iter().map(|(k, v)| (k.clone(), to_json_value(v))).collect())
        }
    }
}

fn json(text: &str) -> JsonValue {
    let v: serde_json::Value = serde_json::from_str(text).expect("json");
    to_json_value(&v)
}

fn float(f: f64) -> FloatRepr {
    let key = if f.is_nan() {
        None
    } else {
        let f = if f == 0.0 { 0.0 } else { f };
        let bits = f.to_bits();
        let magnitude = (bits & 0x7fff_ffff_ffff_ffff) as i64;
        Some(if bits >> 63 == 1 { -magnitude } else { magnitude })
    };
    FloatRepr { key, text: f.to_string() }
}

fn integer(i: i128) -> CborValue {
    CborValue::Integer(i, float(i as f64))
}

#[test]
fn json_text_writes_compact_json_with_escapes() {
    let v = JsonValue::Object(vec![
        ("a".to_string(), JsonValue::Array(vec![JsonValue::Null, JsonValue::Bool(true)])),
        ("b\"q".to_string(), JsonValue::String("line\nnext\\".to_string())),
        ("n".to_string(), JsonValue::Number(JsonNumber::NegInt(-12))),
        ("f".to_string(), JsonValue::Number(JsonNumber::Float("1.5".to_string()))),
        ("e".to_string(), JsonValue::Object(Vec::new())),
    ]);
    assert_eq!(json_text(&v), "{\"a\":[null,true],\"b\\\"q\":\"line\\u000anext\\\\\",\"n\":-12,\"f\":1.5,\"e\":{}}");
    let back: serde_json::Value = serde_json::from_str(&json_text(&v)).expect("valid json");
    assert!(json_equal(&to_json_value(&back), &v));
}

const FLOW: &str = r#"{"id":"main","type":"messaging","nodes":{"in":{"qa.process":{},"routing":[{"out":true}]}}}"#;

#[test]
fn load_with_schema_accepts_a_document_the_schema_accepts() {
    let schema = json(r#"{"type":"object","required":["id"]}"#);
    let doc = load_with_schema(&json(FLOW), &schema, "schema.json", "flow.ygtc").expect("loads");
    assert_eq!(doc.id, "main");
}

#[test]
fn load_with_schema_refuses_what_the_schema_refuses() {
    let schema = json(r#"{"type":"object","required":["title"]}"#);
    let err = load_with_schema(&json(FLOW), &schema, "schema.json", "flow.ygtc").err().expect("refused");
    match err {
        FlowError::Schema { message, details, .. } => {
            assert_eq!(details.len(), 1);
            assert!(message.starts_with("flow.ygtc"), "{message}");
            assert!(message.contains("title"), "{message}");
        }
        other => panic!("unexpected {other:?}"),
    }
}

#[test]
fn load_with_schema_reports_a_schema_that_does_not_compile() {
    let schema = json(r#"{"type":12}"#);
    let err = load_with_schema(&json(FLOW), &schema, "schema.json", "flow.ygtc").err().expect("refused");
    match err {
        FlowError::Internal { message, .. } => assert!(message.starts_with("schema compile for schema.json: "), "{message}"),
        other => panic!("unexpected {other:?}"),
    }
}

#[test]
fn cbor_value_to_json_converts_nested_values() {
    let v = CborValue::Mapping(vec![
        (CborValue::Text("n".to_string()), integer(-3)),
        (CborValue::Text("big".to_string()), integer(1i128 << 70)),
        (CborValue::Text("bytes".to_string()), CborValue::Bytes(vec![1, 2])),
        (CborValue::Text("tagged".to_string()), CborValue::Tag(1, Box::new(CborValue::Text("x".to_string())))),
        (CborValue::Text("list".to_string()), CborValue::Array(vec![CborValue::Bool(false), CborValue::Null])),
        (CborValue::Text("f".to_string()), CborValue::Float(float(2.5))),
    ]);
    let j = cbor_value_to_json(&v).expect("json");
    let expected = json(r#"{"n":-3,"big":"1180591620717411303424","bytes":[1,2],"tagged":"x","list":[false,null],"f":2.5}"#);
    assert!(json_equal(&j, &expected), "{j:?}");
}

#[test]
fn cbor_value_to_json_refuses_non_text_keys_and_infinite_floats() {
    let v = CborValue::Mapping(vec![(integer(1), CborValue::Null)]);
    assert_eq!(cbor_value_to_json(&v).err().as_deref(), Some("non-string map key in cbor"));
    let f = CborValue::Array(vec![CborValue::Float(float(f64::INFINITY))]);
    assert_eq!(cbor_value_to_json(&f).err().as_deref(), Some("float out of range for json"));
    let nan = CborValue::Float(float(f64::NAN));
    assert_eq!(cbor_value_to_json(&nan).err().as_deref(), Some("float out of range for json"));
}

#[test]
fn qa_spec_to_questions_resolves_labels_and_defaults() {
    let mut catalog = I18nCatalog::new();
    catalog.insert("q.name", "en", "Your name".to_string());
    let spec = QaSpec {
        questions: vec![
            QaQuestion {
                id: "name".to_string(),
                label: I18nText::new("q.name", None),
                kind: QaKind::Text,
                required: true,
                default: Some(CborValue::Text("anon".to_string())),
            },
            QaQuestion {
                id: "tier".to_string(),
                label: I18nText::new("q.tier", Some("Tier".to_string())),
                kind: QaKind::Choice(vec!["gold".to_string(), "silver".to_string()]),
                required: false,
                default: Some(CborValue::Float(float(f64::NAN))),
            },
        ],
        defaults: Vec::new(),
    };
    let qs = qa_spec_to_questions(&spec, &catalog, "en-US");
    assert_eq!(qs.len(), 2);
    assert_eq!(qs[0].prompt, "Your name");
    assert_eq!(qs[0].kind, QuestionKind::String);
    assert!(json_equal(qs[0].default.as_ref().unwrap(), &JsonValue::String("anon".to_string())));
    assert_eq!(qs[1].prompt, "Tier");
    assert_eq!(qs[1].kind, QuestionKind::Choice);
    assert!(qs[1].default.is_none());
    assert!(json_equal(&JsonValue::Array(qs[1].choices.iter().map(|c| match c {
        JsonValue::String(s) => JsonValue::String(s.clone()),
        _ => JsonValue::Null,
    }).collect()), &json(r#"["gold","silver"]"#)));
}

fn question(id: &str) -> QaQuestion {
    QaQuestion { id: id.to_string(), label: I18nText::new(id, None), kind: QaKind::Text, required: false, default: None }
}

#[test]
fn merge_default_answers_fills_only_missing_answers() {
    let spec = QaSpec {
        questions: vec![question("a"), question("b")],
        defaults: vec![
            ("a".to_string(), CborValue::Text("from-default".to_string())),
            ("b".to_string(), integer(7)),
            ("c".to_string(), CborValue::Float(float(f64::NAN))),
        ],
    };
    let mut seed = vec![("a".to_string(), JsonValue::String("given".to_string()))];
    merge_default_answers(&spec, &mut seed);
    assert!(json_equal(&JsonValue::Object(seed), &json(r#"{"a":"given","b":7}"#)));
}

#[test]
fn unknown_answer_keys_lists_keys_no_question_asks() {
    let spec = QaSpec { questions: vec![question("a"), question("b")], defaults: Vec::new() };
    let answers = vec![
        ("z".to_string(), JsonValue::Null),
        ("a".to_string(), JsonValue::Null),
        ("y".to_string(), JsonValue::Null),
    ];
    assert_eq!(unknown_answer_keys(&answers, &spec), vec!["z".to_string(), "y".to_string()]);
}
