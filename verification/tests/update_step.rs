use greentic_flow::contracts::{sort_contract_diagnostics, ContractDiagnostic, ContractSeverity, extract_config_value, contract_report, flow_contract_checks, stored_schema_bytes, stored_schema_findings, ContractStep};
use greentic_flow::flow_ir::{FlowIr, NodeKind};
use greentic_flow::schema_validate::{AdditionalProperties, CborValue, SchemaIr};
use greentic_flow::json::{deep_clone, json_equal, JsonNumber, JsonValue};
use greentic_flow::loader::load_from_value;
use greentic_flow::route::Route;
use greentic_flow::add_step::{wizard_add_step, WizardAddFailure};
use greentic_flow::add_step::modes::{default_mode_node, DefaultModeFailure};
use greentic_flow::component_catalog::{ComponentMetadata, MemoryCatalog};
use greentic_flow::step_edit::{delete_step, merge_answers, update_metadata, update_step};
use greentic_flow::component_config::{component_config_findings, NodeConfigCheck, PayloadCheck, SchemaLookup};
use greentic_flow::schema_mode::SchemaMode;

fn to_json_value(v: &serde_json::Value) -> JsonValue {
    match v {
        serde_json::Value::Null => JsonValue::Null,
        serde_json::Value::Bool(b) => JsonValue::Bool(*b),
        serde_json::Value::Number(n) => {
            if let Some(u) = n.as_u64() {
                JsonValue::Number(JsonNumber::PosInt(u))
            } else if let Some(i) = n.as_i64() {
                JsonValue::Number(JsonNumber::NegInt(i))
            } else {
                JsonValue::Number(JsonNumber::Float(n.to_string()))
            }
        }
        serde_json::Value::String(s) => JsonValue::String(s.clone()),
        serde_json::Value::Array(items) => JsonValue::Array(items.iter().map(to_json_value).collect()),
        serde_json::Value::Object(map) => {
            JsonValue::Object(map.iter().map(|(k, v)| (k.clone(), to_json_value(v))).collect())
        }
    }
}

fn json(text: &str) -> JsonValue {
    let v: serde_json::Value = serde_json::from_str(text).expect("json");
    to_json_value(&v)
}

const FLOW: &str = r#"
id: main
type: messaging
meta:
  greentic:
    components:
      hello:
        describe_hash: "aaa"
nodes:
  hello:
    qa.process:
      greeting: hi
      name: old
    routing:
      - to: bye
  bye:
    template: "bye"
    routing:
      - out: true
"#;

fn ir() -> FlowIr {
    let v: serde_json::Value = serde_yaml_bw::from_str(FLOW).expect("yaml");
    let doc = load_from_value(&to_json_value(&v), &Vec::new(), "<inline>").expect("load");
    FlowIr::from_doc(doc).expect("ir")
}

fn payload_of(flow: &FlowIr, id: &str) -> JsonValue {
    let node = &flow.nodes.iter().find(|(k, _)| k == id).expect("node").1;
    match &node.kind {
        NodeKind::Component(c) => deep_clone(&c.payload),
        NodeKind::Other { payload, .. } => deep_clone(payload),
        _ => panic!("no payload"),
    }
}

#[test]
fn update_step_merges_defaults_then_answers_and_keeps_routing() {
    let answers = vec![("name".to_string(), JsonValue::String("new".to_string()))];
    let defaults = json(r#"{"greeting":"hello","extra":1}"#);
    let out = update_step(ir(), "hello", Some(defaults), &answers, Some("run".to_string()), None, None, false)
        .expect("updated");
    assert!(json_equal(&payload_of(&out, "hello"), &json(r#"{"greeting":"hello","name":"new","extra":1}"#)));
    let node = &out.nodes.iter().find(|(k, _)| k == "hello").unwrap().1;
    match &node.kind {
        NodeKind::Component(c) => assert_eq!(c.operation.as_deref(), Some("run")),
        _ => panic!("component expected"),
    }
    assert_eq!(node.routing.len(), 1);
    assert_eq!(node.routing[0].to.as_deref(), Some("bye"));
    assert_eq!(out.nodes.len(), 2);
}

#[test]
fn update_step_replaces_routing_when_given() {
    let routing = vec![Route { to: None, out: true, status: None, reply: false }];
    let out = update_step(ir(), "hello", None, &Vec::new(), None, Some(routing), None, false).expect("updated");
    let node = &out.nodes.iter().find(|(k, _)| k == "hello").unwrap().1;
    assert_eq!(node.routing.len(), 1);
    assert!(node.routing[0].out);
    assert!(json_equal(&payload_of(&out, "hello"), &json(r#"{"greeting":"hi","name":"old"}"#)));
}

#[test]
fn update_step_refuses_unknown_steps_and_contract_drift() {
    let err = update_step(ir(), "nope", None, &Vec::new(), None, None, None, false).err().expect("refused");
    assert_eq!(err, "step 'nope' not found");
    let err = update_step(ir(), "hello", None, &Vec::new(), None, None, Some("bbb"), false).err().expect("refused");
    assert_eq!(err, "describe_hash drift for node 'hello': stored aaa != new bbb (use --allow-contract-change to override)");
    assert!(update_step(ir(), "hello", None, &Vec::new(), None, None, Some("bbb"), true).is_ok());
    assert!(update_step(ir(), "hello", None, &Vec::new(), None, None, Some("aaa"), false).is_ok());
}

#[test]
fn update_step_refuses_nodes_without_payload() {
    let err = update_step(ir(), "bye", None, &Vec::new(), None, None, None, false).err().expect("refused");
    assert_eq!(err, "step 'bye' has no payload to update");
}

const CONTRACT_FLOW: &str = r#"
id: main
type: messaging
meta:
  greentic:
    components:
      b:
        describe_hash: "d"
        schema_hash: "s"
        operation_id: "run"
        config_schema_cbor: "zz"
nodes:
  a:
    component.exec:
      component: ai.echo
      config: {}
    routing:
      - to: b
  b:
    component.exec:
      component: ai.echo
      config: {}
    routing:
      - to: c
  c:
    template: "done"
    routing:
      - out: true
"#;

#[test]
fn flow_contract_checks_visit_payload_nodes_and_report_sorted() {
    let v: serde_json::Value = serde_yaml_bw::from_str(CONTRACT_FLOW).expect("yaml");
    let doc = load_from_value(&to_json_value(&v), &Vec::new(), "<inline>").expect("load");
    let ir = FlowIr::from_doc(doc).expect("ir");
    let mut checks = flow_contract_checks(&ir, false);
    assert_eq!(checks.iter().map(|c| c.node_id.as_str()).collect::<Vec<_>>(), vec!["a", "b"]);
    assert_eq!(checks[0].diagnostics.len(), 1);
    assert_eq!(checks[0].diagnostics[0].code, "FLOW_MISSING_METADATA");
    let hex = match &checks[1].step {
        ContractStep::CheckStoredSchema(h) => h.clone(),
        _ => panic!("stored schema expected"),
    };
    let d = stored_schema_bytes("b", &hex).err().expect("not hex");
    assert_eq!(d.code, "FLOW_SCHEMA_DECODE");
    assert!(d.message.starts_with("failed to decode stored config schema: "));
    checks[1].diagnostics.push(d);
    let report = contract_report(checks);
    assert_eq!(report.len(), 2);
    assert_eq!(report.iter().filter(|d| d.node_id == "a").count(), 1);
    assert_eq!(report.iter().filter(|d| d.node_id == "b").count(), 1);
}

#[test]
fn stored_schema_findings_report_parse_failures_and_schema_findings() {
    let ds = stored_schema_findings("n", Err("bad cbor".to_string()));
    assert_eq!(ds.len(), 1);
    assert_eq!(ds[0].message, "failed to parse stored config schema: bad cbor");
    let schema = SchemaIr::Object {
        properties: vec![("name".to_string(), SchemaIr::String { min_len: None, max_len: None, regex: None, format: None })],
        required: vec!["name".to_string()],
        additional: AdditionalProperties::Allow,
    };
    let ds = stored_schema_findings("n", Ok((schema, CborValue::Mapping(Vec::new()))));
    assert_eq!(ds.len(), 1);
    assert_eq!(ds[0].node_id, "n");
}

fn exec_catalog() -> MemoryCatalog {
    let mut c = MemoryCatalog::new();
    c.insert(ComponentMetadata { id: "component.exec".to_string(), required_fields: Vec::new() });
    c.insert(ComponentMetadata { id: "qa.process".to_string(), required_fields: Vec::new() });
    c
}

#[test]
fn wizard_add_step_inserts_a_component_exec_node_after_the_anchor() {
    let out = wizard_add_step(
        &ir(),
        "ai.echo",
        json(r#"{"k":1}"#),
        None,
        None,
        Some("echo".to_string()),
        Some("hello".to_string()),
        false,
        "d1",
        false,
        &exec_catalog(),
    )
    .expect("added");
    assert_eq!(out.nodes.len(), 3);
    let (id, node) = out.nodes.iter().find(|(k, _)| k == "echo").expect("new node");
    assert_eq!(id, "echo");
    match &node.kind {
        NodeKind::Component(c) => {
            assert_eq!(c.operation.as_deref(), Some("run"));
        }
        other => panic!("unexpected kind {other:?}"),
    }
    let hello = &out.nodes.iter().find(|(k, _)| k == "hello").unwrap().1;
    assert_eq!(hello.routing[0].to.as_deref(), Some("echo"));
}

#[test]
fn wizard_add_step_refuses_bad_anchors_and_describe_drift() {
    let r = wizard_add_step(&ir(), "ai.echo", json("{}"), None, None, None, Some("nope".to_string()), false, "d", false, &exec_catalog());
    match r {
        Err(WizardAddFailure::Planning(d)) => assert_eq!(d[0].code, "ADD_STEP_ANCHOR_MISSING"),
        other => panic!("unexpected {other:?}"),
    }
    let mut dangling = ir();
    dangling.entrypoints = vec![("default".to_string(), "ghost".to_string())];
    let r = wizard_add_step(&dangling, "ai.echo", json("{}"), None, None, None, None, false, "d", false, &exec_catalog());
    assert!(matches!(r, Err(WizardAddFailure::DanglingEntrypoint)));
    let mut flow = ir();
    flow.meta = Some(json(r#"{"greentic":{"components":{"echo":{"describe_hash":"old"}}}}"#));
    let r = wizard_add_step(&flow, "ai.echo", json("{}"), None, None, Some("echo".to_string()), Some("hello".to_string()), false, "new", false, &exec_catalog());
    match r {
        Err(WizardAddFailure::Drift(m)) => assert_eq!(
            m,
            "describe_hash drift for node 'echo': stored old != new new (use --allow-contract-change to override)"
        ),
        other => panic!("unexpected {other:?}"),
    }
    let r = wizard_add_step(&flow, "ai.echo", json("{}"), None, None, Some("echo".to_string()), Some("hello".to_string()), false, "new", true, &exec_catalog());
    assert!(r.is_ok());
}

#[test]
fn default_mode_node_merges_answers_and_needs_an_operation() {
    let answers = vec![("b".to_string(), JsonValue::Number(JsonNumber::PosInt(2)))];
    let (_, node) = default_mode_node(Some("qa.process"), json(r#"{"a":1}"#), &answers, None).expect("node");
    assert!(json_equal(
        &node,
        &json(r#"{"qa.process":{"a":1,"b":2},"routing":[{"to":"NEXT_NODE_PLACEHOLDER"}]}"#)
    ));
    let r = default_mode_node(None, json("{}"), &Vec::new(), None);
    assert!(matches!(r, Err(DefaultModeFailure::MissingOperation)));
}

const SELF_LOOP: &str = r#"
id: main
type: messaging
nodes:
  a:
    qa.process: {}
    routing:
      - to: t
  t:
    qa.process: {}
    routing:
      - to: t
"#;

fn ir_of(yaml: &str) -> FlowIr {
    let v: serde_json::Value = serde_yaml_bw::from_str(yaml).expect("yaml");
    let doc = load_from_value(&to_json_value(&v), &Vec::new(), "<inline>").expect("load");
    FlowIr::from_doc(doc).expect("ir")
}

#[test]
fn delete_step_refuses_a_result_that_still_routes_to_the_step() {
    let err = delete_step(ir_of(SELF_LOOP), "t", true, true).err().expect("refused");
    assert!(err.contains("t"), "{err}");
    let err = delete_step(ir_of(SELF_LOOP), "t", true, false).err().expect("refused");
    assert!(err.contains("t"), "{err}");
}

#[test]
fn wizard_add_step_adds_the_first_step_of_an_empty_flow() {
    let empty = FlowIr { id: "main".to_string(), kind: "messaging".to_string(), entrypoints: Vec::new(), nodes: Vec::new(), meta: None };
    let out = wizard_add_step(
        &empty,
        "oci://acme/widget:1",
        json(r#"{"foo":"bar"}"#),
        None,
        Some(JsonValue::String("out".to_string())),
        Some("widget".to_string()),
        None,
        false,
        "d",
        false,
        &exec_catalog(),
    )
    .expect("added");
    assert_eq!(out.nodes.len(), 1);
    assert_eq!(out.nodes[0].0, "widget");
    match &out.nodes[0].1.kind {
        NodeKind::Component(c) => {
            assert_eq!(c.operation.as_deref(), Some("run"));
            let config = extract_config_value(&c.payload);
            assert!(json_equal(config.get("foo").expect("foo"), &JsonValue::String("bar".to_string())));
        }
        other => panic!("unexpected {other:?}"),
    }
    assert!(out.nodes[0].1.routing[0].out);
}

#[test]
fn component_config_findings_words_each_outcome() {
    let nodes = vec![
        NodeConfigCheck {
            node_id: "q".to_string(),
            component_id: "questions".to_string(),
            lookup: SchemaLookup::Failed { manifest: "m".to_string(), error: "e".to_string() },
            check: PayloadCheck::Checked(Vec::new()),
        },
        NodeConfigCheck {
            node_id: "a".to_string(),
            component_id: "acme.widget".to_string(),
            lookup: SchemaLookup::Failed { manifest: "widget/component.json".to_string(), error: "no such file".to_string() },
            check: PayloadCheck::Checked(Vec::new()),
        },
        NodeConfigCheck {
            node_id: "b".to_string(),
            component_id: "acme.widget".to_string(),
            lookup: SchemaLookup::Found {
                component_id: "acme.widget".to_string(),
                operation: "run".to_string(),
                manifest: "widget/component.json".to_string(),
                present: true,
            },
            check: PayloadCheck::Checked(vec![
                (String::new(), "\"x\" is a required property".to_string()),
                ("/n".to_string(), "bad".to_string()),
            ]),
        },
        NodeConfigCheck {
            node_id: "c".to_string(),
            component_id: "acme.widget".to_string(),
            lookup: SchemaLookup::Found {
                component_id: "acme.widget".to_string(),
                operation: "run".to_string(),
                manifest: "widget/component.json".to_string(),
                present: false,
            },
            check: PayloadCheck::Checked(Vec::new()),
        },
    ];
    let strict = component_config_findings("messaging", SchemaMode::Strict, "Add a schema.", &nodes);
    assert_eq!(
        strict.errors,
        vec![
            "component_config: node 'a' failed to read widget/component.json: no such file".to_string(),
            "component_config: node 'b' payload invalid for component 'acme.widget' at /: \"x\" is a required property".to_string(),
            "component_config: node 'b' payload invalid for component 'acme.widget' at /n: bad".to_string(),
            "E_SCHEMA_EMPTY: component 'acme.widget', operation 'run', schema missing or empty at widget/component.json (source: operations[].input_schema). Add a schema.".to_string(),
        ]
    );
    assert!(strict.warnings.is_empty());
    let permissive = component_config_findings("messaging", SchemaMode::Permissive, "Add a schema.", &nodes);
    assert_eq!(permissive.errors.len(), 3);
    assert_eq!(
        permissive.warnings,
        vec!["W_SCHEMA_EMPTY: component 'acme.widget', operation 'run', schema missing or empty at widget/component.json (source: operations[].input_schema). Add a schema. Validation disabled (permissive).".to_string()]
    );
    let none = component_config_findings("component-config", SchemaMode::Strict, "", &nodes);
    assert!(none.errors.is_empty() && none.warnings.is_empty());
}

#[test]
fn update_metadata_changes_fields_and_type_only_when_empty() {
    let doc = load_from_value(&json(r#"{"id":"main","type":"messaging","nodes":{}}"#), &Vec::new(), "<inline>").expect("load");
    let out = update_metadata(
        doc,
        Some("renamed".to_string()),
        Some("Title".to_string()),
        None,
        Some(" a, ,b "),
        Some("events".to_string()),
    )
    .expect("updated");
    assert_eq!(out.id, "renamed");
    assert_eq!(out.title.as_deref(), Some("Title"));
    assert_eq!(out.tags, vec!["a".to_string(), "b".to_string()]);
    assert_eq!(out.flow_type, "events");

    let v: serde_json::Value = serde_yaml_bw::from_str(FLOW).expect("yaml");
    let full = load_from_value(&to_json_value(&v), &Vec::new(), "<inline>").expect("load");
    let err = update_metadata(full, None, None, None, None, Some("events".to_string())).err().expect("refused");
    assert_eq!(err, "refusing to change type on a non-empty flow; create a new flow or migrate explicitly");
}

#[test]
fn merge_answers_lets_inline_answers_win() {
    let file = vec![
        ("a".to_string(), JsonValue::Number(JsonNumber::PosInt(1))),
        ("b".to_string(), JsonValue::Number(JsonNumber::PosInt(2))),
    ];
    let inline = vec![
        ("b".to_string(), JsonValue::Number(JsonNumber::PosInt(3))),
        ("c".to_string(), JsonValue::Null),
    ];
    let out = merge_answers(file, &inline);
    assert!(json_equal(&JsonValue::Object(out), &json(r#"{"a":1,"b":3,"c":null}"#)));
}

#[test]
fn contract_report_keeps_the_order_of_equal_findings() {
    let d = |code: &str, msg: &str| ContractDiagnostic {
        code: code.to_string(),
        severity: ContractSeverity::Error,
        message: msg.to_string(),
        node_id: "n".to_string(),
    };
    let sorted = sort_contract_diagnostics(vec![d("B", "first"), d("A", "x"), d("B", "second")]);
    let msgs: Vec<&str> = sorted.iter().map(|x| x.message.as_str()).collect();
    assert_eq!(msgs, vec!["x", "first", "second"]);
}
