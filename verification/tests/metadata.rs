use greentic_flow::bundle::{FlowBundle, FlowBundleVersion};
use greentic_flow::config_flow::extract_config_output;
use greentic_flow::contracts::hex_to_bytes;
use greentic_flow::error::FlowError;
use greentic_flow::flow_meta::{
    clear_component_entry, ensure_greentic_meta, ensure_hints_empty, existing_describe_hash, find_node_for_component,
    set_component_entry_at, ComponentContractMeta,
};
use greentic_flow::json::{json_equal, JsonNumber, JsonValue};
use greentic_flow::loader::load_from_value;
use greentic_flow::text::bytes_to_hex;
use greentic_flow::wizard_ops::{
    apply_wizard_answers, fetch_wizard_spec, run_wizard_ops, WizardAbi, WizardMode, WizardSpecOutput,
};

fn to_json_value(v: &serde_json::Value) -> JsonValue {
    match v {
        serde_json::Value::Null => JsonValue::Null,
        serde_json::Value::Bool(b) => JsonValue::Bool(*b),
        serde_json::Value::Number(n) => {
            if let Some(u) = n.as_u64() {
                JsonValue::Number(JsonNumber::PosInt(u))
            } else if let Some(i) = n.as_i64() {
                JsonValue::Number(JsonNumber::NegInt(i))
            } else {
                JsonValue::Number(JsonNumber::Float(n.to_string()))
            }
        }
        serde_json::Value::String(s) => JsonValue::String(s.clone()),
        serde_json::Value::Array(items) => JsonValue::Array(items.iter().map(to_json_value).collect()),
        serde_json::Value::Object(map) => {
            JsonValue::Object(map.iter().map(|(k, v)| (k.clone(), to_json_value(v))).collect())
        }
    }
}

fn json(text: &str) -> JsonValue {
    let v: serde_json::Value = serde_json::from_str(text).expect("json");
    to_json_value(&v)
}

fn contract() -> ComponentContractMeta {
    ComponentContractMeta {
        describe_hash: "dh".to_string(),
        operation_id: "run".to_string(),
        schema_hash: "sh".to_string(),
        component_version: None,
        world: Some("w".to_string()),
        config_schema_cbor: None,
    }
}

#[test]
fn hex_written_reads_back() {
    let bytes = vec![0u8, 1, 0x7f, 0x80, 0xab, 0xff];
    let hex = bytes_to_hex(&bytes);
    assert_eq!(hex, "00017f80abff");
    assert_eq!(hex_to_bytes(&hex), Ok(bytes));
}

#[test]
fn component_entries_are_recorded_and_cleared() {
    let mut meta: Option<JsonValue> = None;
    ensure_greentic_meta(&mut meta);
    assert!(json_equal(meta.as_ref().expect("meta"), &json(r#"{ "greentic": {} }"#)));

    set_component_entry_at(&mut meta, "n1", "ai.echo", "0.6.0", Some("sha256:1"), &vec!["run".to_string()], Some(&contract()), 10, 20);
    let expected = json(
        r#"{ "greentic": { "components": { "n1": {
            "component_id": "ai.echo", "abi_version": "0.6.0",
            "describe_hash": "dh", "operation_id": "run", "schema_hash": "sh", "world": "w",
            "resolved_digest": "sha256:1", "exported_ops_seen": ["run"], "added_at": 10, "updated_at": 20 } } } }"#,
    );
    assert!(json_equal(meta.as_ref().expect("meta"), &expected));
    assert_eq!(existing_describe_hash(&meta, "n1"), Some("dh".to_string()));
    assert_eq!(find_node_for_component(&meta, "ai.echo"), Ok("n1".to_string()));

    // A later update keeps the time the entry was first added.
    set_component_entry_at(&mut meta, "n1", "ai.echo", "0.6.0", None, &Vec::new(), None, 30, 40);
    let entry = meta.as_ref().and_then(|m| m.get("greentic")).and_then(|g| g.get("components")).and_then(|c| c.get("n1"));
    let entry = entry.expect("entry");
    assert!(matches!(entry.get("added_at"), Some(JsonValue::Number(JsonNumber::PosInt(10)))));
    assert!(matches!(entry.get("updated_at"), Some(JsonValue::Number(JsonNumber::PosInt(40)))));
    assert!(entry.get("describe_hash").is_none());

    ensure_hints_empty(&mut meta, "n1");
    let g = meta.as_ref().and_then(|m| m.get("greentic")).expect("greentic");
    assert!(json_equal(g.get("secrets_hints").expect("secrets"), &json(r#"{ "n1": [] }"#)));
    assert!(json_equal(g.get("bindings_hints").expect("bindings"), &json(r#"{ "n1": [] }"#)));

    clear_component_entry(&mut meta, "n1");
    assert_eq!(existing_describe_hash(&meta, "n1"), None);
    assert_eq!(
        find_node_for_component(&meta, "ai.echo"),
        Err("no node found for component id 'ai.echo'; provide --step".to_string())
    );
    let g = meta.as_ref().and_then(|m| m.get("greentic")).expect("greentic");
    assert!(json_equal(g.get("secrets_hints").expect("secrets"), &json("{}")));
    assert_eq!(find_node_for_component(&None, "x"), Err("flow metadata missing; provide --step".to_string()));
}

#[test]
fn duplicate_components_need_a_step() {
    let meta = Some(json(
        r#"{ "greentic": { "components": { "a": { "component_id": "c" }, "b": { "component_id": "c" } } } }"#,
    ));
    assert_eq!(
        find_node_for_component(&meta, "c"),
        Err("multiple nodes found for component id 'c'; provide --step".to_string())
    );
}

fn spec(abi: WizardAbi) -> WizardSpecOutput {
    WizardSpecOutput { abi, describe_cbor: vec![1], qa_spec_cbor: vec![2] }
}

#[test]
fn wizard_runs_fall_back_and_report() {
    let got = fetch_wizard_spec(|| Err("no v6".to_string()), || Ok(spec(WizardAbi::Legacy))).expect("legacy");
    assert_eq!(got.abi, WizardAbi::Legacy);
    let got = fetch_wizard_spec(|| Ok(spec(WizardAbi::V6)), || Err("unused".to_string())).expect("v6");
    assert_eq!(got.abi, WizardAbi::V6);

    let legacy = apply_wizard_answers(
        WizardAbi::Legacy,
        WizardMode::Update,
        |_| Err("wrong interface".to_string()),
        |mode| Ok(mode.as_bytes().to_vec()),
    );
    assert_eq!(legacy, Ok(b"upgrade".to_vec()));
    let current = apply_wizard_answers(
        WizardAbi::V6,
        WizardMode::Setup,
        |mode| Ok(mode.as_str().as_bytes().to_vec()),
        |_| Err("wrong interface".to_string()),
    );
    assert_eq!(current, Ok(b"setup".to_vec()));

    let answers = vec![0xa1, 0x61, 0x6b, 0xf5];
    let out = run_wizard_ops(|| Ok(spec(WizardAbi::V6)), |_| Ok(vec![9]), &answers).expect("run");
    assert_eq!((out.abi, out.describe_cbor, out.qa_spec_cbor), (WizardAbi::V6, vec![1], vec![2]));
    assert_eq!((out.answers_cbor, out.config_cbor), (answers.clone(), vec![9]));
    assert!(run_wizard_ops(|| Ok(spec(WizardAbi::V6)), |_| Err("apply".to_string()), &answers).is_err());
}

#[test]
fn config_flow_output_needs_id_and_node() {
    match extract_config_output(&json(r#"{ "node": {} }"#)) {
        Err(FlowError::Internal { message, .. }) => assert_eq!(message, "config flow output missing node_id"),
        other => panic!("unexpected {other:?}"),
    }
    match extract_config_output(&json(r#"{ "node_id": "n" }"#)) {
        Err(FlowError::Internal { message, .. }) => assert_eq!(message, "config flow output missing node"),
        other => panic!("unexpected {other:?}"),
    }
    let out = extract_config_output(&json(r#"{ "node_id": "n", "node": { "qa.process": {} } }"#)).expect("output");
    assert_eq!(out.node_id, "n");
}

#[test]
fn bundles_carry_their_flow() {
    let v: serde_json::Value = serde_yaml_bw::from_str("id: main\ntype: messaging\nnodes: {}\n").expect("yaml");
    let doc = load_from_value(&to_json_value(&v), &Vec::new(), "<inline>").expect("load");
    let bundle = FlowBundle::new(doc);
    assert_eq!(bundle.version, FlowBundleVersion::V1);
    assert_eq!(bundle.flow().id, "main");
    assert_eq!(bundle.into_flow().flow_type, "messaging");
}
