use greentic_flow::contracts::{
    check_node_contract, describe_hash, drift_findings, extract_config_value, find_operation, hex_to_bytes, local_digest,
    node_payload_looks_like_component, schema_findings_for_node, sort_contract_diagnostics, stored_schema_failure,
    ContractDiagnostic, ContractSeverity, ContractStep,
};
use greentic_flow::flow_meta::{check_contract_drift, existing_describe_hash};
use greentic_flow::json::{JsonNumber, JsonValue};
use greentic_flow::schema_validate::{SchemaDiagnostic, Severity};

fn to_json_value(v: &serde_json::Value) -> JsonValue {
    match v {
        serde_json::Value::Null => JsonValue::Null,
        serde_json::Value::Bool(b) => JsonValue::Bool(*b),
        serde_json::Value::Number(n) => {
            if let Some(u) = n.as_u64() {
                JsonValue::Number(JsonNumber::PosInt(u))
            } else if let Some(i) = n.as_i64() {
                JsonValue::Number(JsonNumber::NegInt(i))
            } else {
                JsonValue::Number(JsonNumber::Float(n.to_string()))
            }
        }
        serde_json::Value::String(s) => JsonValue::String(s.clone()),
        serde_json::Value::Array(items) => JsonValue::Array(items.iter().map(to_json_value).collect()),
        serde_json::Value::Object(map) => {
            JsonValue::Object(map.iter().map(|(k, v)| (k.clone(), to_json_value(v))).collect())
        }
    }
}

fn json(text: &str) -> JsonValue {
    let v: serde_json::Value = serde_json::from_str(text).expect("json");
    to_json_value(&v)
}

fn meta_with(entry: &str) -> Option<JsonValue> {
    Some(json(&format!(r#"{{ "greentic": {{ "components": {{ "n1": {entry} }} }} }}"#)))
}

fn codes(ds: &[ContractDiagnostic]) -> Vec<&str> {
    ds.iter().map(|d| d.code.as_str()).collect()
}

#[test]
fn hashes_are_hex_sha256() {
    assert_eq!(describe_hash(&Vec::new()), "e3b0c44298fc1c149afbf4c8996fb92427ae41e4649b934ca495991b7852b855");
    assert_eq!(
        local_digest(&b"abc".to_vec()),
        "sha256:ba7816bf8f01cfea414140de5dae2223b00361a396177a9cb410ff61f20015ad"
    );
}

#[test]
fn operations_are_found_by_id() {
    let ops = vec!["setup".to_string(), "run".to_string()];
    assert_eq!(find_operation(&ops, "run"), Ok(1));
    assert_eq!(find_operation(&ops, "stop"), Err("operation 'stop' not found in describe() payload".to_string()));
}

#[test]
fn hex_decoding() {
    assert_eq!(hex_to_bytes(" 0aFF10 "), Ok(vec![0x0a, 0xff, 0x10]));
    assert_eq!(hex_to_bytes(""), Ok(Vec::new()));
    assert_eq!(hex_to_bytes("abc"), Err("hex payload has odd length".to_string()));
    assert_eq!(hex_to_bytes("+f"), Ok(vec![0x0f]));
    assert_eq!(hex_to_bytes("0g"), Err("decode hex: invalid digit found in string".to_string()));
    // Two characters, three bytes of UTF-8.
    assert_eq!(hex_to_bytes("éa"), Err("hex payload has odd length".to_string()));
}

#[test]
fn component_payloads_and_configs() {
    assert!(node_payload_looks_like_component(&json(r#"{ "component": "x" }"#)));
    assert!(node_payload_looks_like_component(&json(r#"{ "component.exec": {} }"#)));
    assert!(!node_payload_looks_like_component(&json(r#"{ "component.exec": "x" }"#)));
    assert!(!node_payload_looks_like_component(&json("[1]")));
    let config = extract_config_value(&json(r#"{ "config": { "a": 1 }, "b": 2 }"#));
    assert!(matches!(config.get("a"), Some(JsonValue::Number(JsonNumber::PosInt(1)))));
    let whole = extract_config_value(&json(r#"{ "b": 2 }"#));
    assert!(whole.get("b").is_some());
}

#[test]
fn node_contract_checks() {
    let payload = json(r#"{ "component": "x", "config": {} }"#);
    let (ds, step) = check_node_contract(&None, "n1", &payload, false);
    assert_eq!(codes(&ds), vec!["FLOW_MISSING_METADATA"]);
    assert_eq!(ds[0].message, "missing component contract metadata");
    assert!(matches!(step, ContractStep::Done));

    let meta = meta_with(r#"{ "describe_hash": "d", "operation_id": 3 }"#);
    let (ds, step) = check_node_contract(&meta, "n1", &payload, false);
    assert_eq!(codes(&ds), vec!["FLOW_MISSING_METADATA", "FLOW_MISSING_METADATA", "FLOW_SCHEMA_MISSING"]);
    assert_eq!(ds[0].message, "missing required metadata field 'schema_hash'");
    assert_eq!(ds[1].message, "missing required metadata field 'operation_id'");
    assert_eq!(ds[2].severity, ContractSeverity::Warning);
    assert!(matches!(step, ContractStep::Done));

    let meta = meta_with(r#"{ "describe_hash": "d", "schema_hash": "s", "operation_id": "run", "config_schema_cbor": "a0" }"#);
    let (ds, step) = check_node_contract(&meta, "n1", &payload, false);
    assert!(ds.is_empty());
    assert!(matches!(step, ContractStep::CheckStoredSchema(ref h) if h == "a0"));
    let (_, step) = check_node_contract(&meta, "n1", &payload, true);
    assert!(matches!(step, ContractStep::Online(ref op) if op == "run"));

    let (ds, step) = check_node_contract(&meta, "n1", &json(r#"{ "other": 1 }"#), false);
    assert!(ds.is_empty());
    assert!(matches!(step, ContractStep::Done));
}

#[test]
fn findings_are_mapped_and_sorted() {
    let found = vec![
        SchemaDiagnostic {
            code: "SCHEMA_REGEX_UNSUPPORTED".to_string(),
            severity: Severity::Warning,
            message: "regex constraint not enforced at $".to_string(),
            path: "$".to_string(),
        },
        SchemaDiagnostic {
            code: "SCHEMA_TYPE_MISMATCH".to_string(),
            severity: Severity::Error,
            message: "expected string at $".to_string(),
            path: "$".to_string(),
        },
    ];
    let mut ds = schema_findings_for_node(found, "b");
    assert_eq!(ds[0].severity, ContractSeverity::Warning);
    assert_eq!(ds[1].node_id, "b");
    ds.push(stored_schema_failure("a", true, "bad cbor"));
    ds.push(stored_schema_failure("b", false, "odd"));
    assert_eq!(ds[2].message, "failed to parse stored config schema: bad cbor");
    let sorted = sort_contract_diagnostics(ds);
    let order: Vec<(&str, &str)> = sorted.iter().map(|d| (d.node_id.as_str(), d.code.as_str())).collect();
    assert_eq!(
        order,
        vec![
            ("a", "FLOW_SCHEMA_DECODE"),
            ("b", "FLOW_SCHEMA_DECODE"),
            ("b", "SCHEMA_TYPE_MISMATCH"),
            ("b", "SCHEMA_REGEX_UNSUPPORTED"),
        ]
    );
}

#[test]
fn drift_is_reported_against_stored_hashes() {
    let entry = match json(r#"{ "describe_hash": "d1", "schema_hash": "s1" }"#) {
        JsonValue::Object(e) => e,
        _ => unreachable!(),
    };
    assert!(drift_findings(&entry, "d1", "s1", "n").is_empty());
    let ds = drift_findings(&entry, "d2", "s2", "n");
    assert_eq!(codes(&ds), vec!["FLOW_CONTRACT_DRIFT", "FLOW_SCHEMA_HASH_MISMATCH"]);

    let meta = meta_with(r#"{ "describe_hash": "abc" }"#);
    assert_eq!(existing_describe_hash(&meta, "n1"), Some("abc".to_string()));
    assert_eq!(existing_describe_hash(&meta, "n2"), None);
    assert!(check_contract_drift(&meta, "n1", "abc", false).is_ok());
    assert!(check_contract_drift(&meta, "n1", "def", true).is_ok());
    assert_eq!(
        check_contract_drift(&meta, "n1", "def", false),
        Err("describe_hash drift for node 'n1': stored abc != new def (use --allow-contract-change to override)".to_string())
    );
}
