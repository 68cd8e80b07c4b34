use greentic_flow::json::{json_equal, JsonNumber, JsonValue};
use greentic_flow::questions::{Question, QuestionKind};
use greentic_flow::questions_schema::{example_for_questions, schema_for_questions};

fn to_json_value(v: &serde_json::Value) -> JsonValue {
    match v {
        serde_json::Value::Null => JsonValue::Null,
        serde_json::Value::Bool(b) => JsonValue::Bool(*b),
        serde_json::Value::Number(n) => {
            if let Some(u) = n.as_u64() {
                JsonValue::Number(JsonNumber::PosInt(u))
            } else if let Some(i) = n.as_i64() {
                JsonValue::Number(JsonNumber::NegInt(i))
            } else {
                JsonValue::Number(JsonNumber::Float(n.to_string()))
            }
        }
        serde_json::Value::String(s) => JsonValue::String(s.clone()),
        serde_json::Value::Array(items) => JsonValue::Array(items.iter().map(to_json_value).collect()),
        serde_json::Value::Object(map) => {
            JsonValue::Object(map.iter().map(|(k, v)| (k.clone(), to_json_value(v))).collect())
        }
    }
}

fn to_serde(v: &JsonValue) -> serde_json::Value {
    match v {
        JsonValue::Null => serde_json::Value::Null,
        JsonValue::Bool(b) => serde_json::Value::Bool(*b),
        JsonValue::Number(JsonNumber::PosInt(u)) => serde_json::Value::from(*u),
        JsonValue::Number(JsonNumber::NegInt(i)) => serde_json::Value::from(*i),
        JsonValue::Number(JsonNumber::Float(t)) => serde_json::Value::from(t.parse::<f64>().expect("float")),
        JsonValue::String(s) => serde_json::Value::String(s.clone()),
        JsonValue::Array(items) => serde_json::Value::Array(items.iter().map(to_serde).collect()),
        JsonValue::Object(entries) => {
            let mut map = serde_json::Map::new();
            for (k, v) in entries {
                map.insert(k.clone(), to_serde(v));
            }
            serde_json::Value::Object(map)
        }
    }
}

fn json(text: &str) -> JsonValue {
    let v: serde_json::Value = serde_json::from_str(text).expect("json");
    to_json_value(&v)
}

fn validate(schema: &JsonValue, instance: &JsonValue) -> bool {
    let compiled = jsonschema::options()
        .with_draft(jsonschema::Draft::Draft202012)
        .build(&to_serde(schema))
        .expect("compile schema");
    compiled.validate(&to_serde(instance)).is_ok()
}

fn question(id: &str, kind: QuestionKind, required: bool, default: Option<JsonValue>) -> Question {
    Question {
        id: id.to_string(),
        prompt: String::new(),
        kind,
        required,
        default,
        choices: Vec::new(),
        show_if: None,
        writes_to: None,
    }
}

#[test]
fn example_validates_and_is_deterministic() {
    let questions = vec![
        Question {
            id: "mode".to_string(),
            prompt: "Mode".to_string(),
            kind: QuestionKind::Choice,
            required: true,
            default: Some(json("\"asset\"")),
            choices: vec![json("\"asset\""), json("\"url\"")],
            show_if: None,
            writes_to: None,
        },
        Question {
            id: "asset_path".to_string(),
            prompt: "Asset".to_string(),
            kind: QuestionKind::String,
            required: true,
            default: None,
            choices: Vec::new(),
            show_if: Some(json(r#"{ "id": "mode", "equals": "asset" }"#)),
            writes_to: None,
        },
        Question {
            id: "enabled".to_string(),
            prompt: "Enabled".to_string(),
            kind: QuestionKind::Bool,
            required: false,
            default: Some(json("true")),
            choices: Vec::new(),
            show_if: None,
            writes_to: None,
        },
    ];

    let schema = schema_for_questions(&questions);
    let example = example_for_questions(&questions);
    let example_again = example_for_questions(&questions);

    assert!(json_equal(&example, &example_again));
    assert_eq!(to_serde(&example), to_serde(&example_again));
    assert!(validate(&schema, &example));
}

#[test]
fn schema_marks_unconditional_required_fields() {
    let questions = vec![Question {
        id: "name".to_string(),
        prompt: "Name".to_string(),
        kind: QuestionKind::String,
        required: true,
        default: None,
        choices: Vec::new(),
        show_if: Some(json("true")),
        writes_to: None,
    }];

    let schema = schema_for_questions(&questions);
    assert!(matches!(schema.get("additionalProperties"), Some(JsonValue::Bool(false))));
    assert!(matches!(schema.get("type"), Some(JsonValue::String(t)) if t == "object"));
    assert_eq!(to_serde(schema.get("required").expect("required")), serde_json::Value::from(vec!["name"]));
}

#[test]
fn example_answers_dependent_questions_in_later_passes() {
    // `b` depends on `c`, which only gets its answer in the first pass after
    // `b` was skipped; a second pass answers `b`.
    let mut b = question("b", QuestionKind::Int, true, None);
    b.show_if = Some(json(r#"{ "id": "c", "equals": "" }"#));
    let c = question("c", QuestionKind::String, true, None);
    let mut d = question("d", QuestionKind::Float, false, None);
    d.show_if = Some(json("false"));
    let example = example_for_questions(&[b, c, d]);
    match &example {
        JsonValue::Object(entries) => {
            let keys: Vec<&str> = entries.iter().map(|(k, _)| k.as_str()).collect();
            assert_eq!(keys, vec!["c", "b"]);
        }
        other => panic!("expected an object, got {other:?}"),
    }
    assert!(matches!(example.get("c"), Some(JsonValue::String(s)) if s.is_empty()));
    assert!(matches!(example.get("b"), Some(JsonValue::Number(JsonNumber::PosInt(0)))));
}

#[test]
fn example_uses_first_choice_and_float_zero() {
    let mut choice = question("pick", QuestionKind::Choice, true, None);
    choice.choices = vec![json("\"x\""), json("\"y\"")];
    let ratio = question("ratio", QuestionKind::Float, false, None);
    let example = example_for_questions(&[choice, ratio]);
    assert!(matches!(example.get("pick"), Some(JsonValue::String(s)) if s == "x"));
    assert!(matches!(example.get("ratio"), Some(JsonValue::Number(JsonNumber::Float(t))) if t == "0.0"));
}

#[test]
fn schema_turns_conditional_requirements_into_rules() {
    let mut mode = question("mode", QuestionKind::Choice, true, Some(json("\"asset\"")));
    mode.choices = vec![json("\"asset\""), json("\"url\"")];
    mode.prompt = "Mode".to_string();
    let mut path = question("asset_path", QuestionKind::String, true, None);
    path.show_if = Some(json(r#"{ "id": "mode", "equals": "asset" }"#));
    let count = question("count", QuestionKind::String, false, Some(json("3")));
    let schema = schema_for_questions(&[mode, path, count]);
    let expected: serde_json::Value = serde_json::from_str(
        r#"{
            "$schema": "https://json-schema.org/draft/2020-12/schema",
            "type": "object",
            "additionalProperties": false,
            "properties": {
                "mode": { "enum": ["asset", "url"], "default": "asset", "description": "Mode" },
                "asset_path": { "type": "string" },
                "count": { "type": "integer", "default": 3 }
            },
            "required": ["mode"],
            "allOf": [
                {
                    "if": { "properties": { "mode": { "const": "asset" } }, "required": ["mode"] },
                    "then": { "required": ["asset_path"] }
                }
            ]
        }"#,
    )
    .expect("expected schema");
    assert_eq!(to_serde(&schema), expected);
    let with_url = json(r#"{ "mode": "url", "count": 1 }"#);
    assert!(validate(&schema, &with_url));
    let asset_without_path = json(r#"{ "mode": "asset" }"#);
    assert!(!validate(&schema, &asset_without_path));
}

#[test]
fn json_equality_ignores_object_order_but_not_array_order() {
    assert!(json_equal(&json(r#"{"a": 1, "b": [1, 2]}"#), &json(r#"{"b": [1, 2], "a": 1}"#)));
    assert!(!json_equal(&json("[1, 2]"), &json("[2, 1]")));
    assert!(!json_equal(&json("1"), &json("1.0")));
    assert!(!json_equal(&json(r#"{"a": 1}"#), &json(r#"{"a": 1, "b": 2}"#)));
}
