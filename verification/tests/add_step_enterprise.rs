use greentic_flow::add_step::{AddStepSpec, apply_and_validate, plan_add_step};
use greentic_flow::component_catalog::{ComponentMetadata, MemoryCatalog};
use greentic_flow::error::FlowError;
use greentic_flow::flow_ir::FlowIr;
use greentic_flow::json::{JsonNumber, JsonValue};
use greentic_flow::loader::load_from_value;

fn to_json_value(v: &serde_json::Value) -> JsonValue {
    match v {
        serde_json::Value::Null => JsonValue::Null,
        serde_json::Value::Bool(b) => JsonValue::Bool(*b),
        serde_json::Value::Number(n) => {
            if let Some(u) = n.as_u64() {
                JsonValue::Number(JsonNumber::PosInt(u))
            } else if let Some(i) = n.as_i64() {
                JsonValue::Number(JsonNumber::NegInt(i))
            } else {
                JsonValue::Number(JsonNumber::Float(n.to_string()))
            }
        }
        serde_json::Value::String(s) => JsonValue::String(s.clone()),
        serde_json::Value::Array(items) => JsonValue::Array(items.iter().map(to_json_value).collect()),
        serde_json::Value::Object(map) => {
            JsonValue::Object(map.iter().map(|(k, v)| (k.clone(), to_json_value(v))).collect())
        }
    }
}

fn json(text: &str) -> JsonValue {
    let v: serde_json::Value = serde_json::from_str(text).expect("json");
    to_json_value(&v)
}

fn parse_flow_to_ir(yaml: &str) -> Result<FlowIr, FlowError> {
    let v: serde_json::Value = serde_yaml_bw::from_str(yaml).expect("yaml");
    let doc = load_from_value(&to_json_value(&v), &Vec::new(), "<inline>")?;
    FlowIr::from_doc(doc)
}

fn catalog_with(id: &str, required: Vec<&str>) -> MemoryCatalog {
    let mut catalog = MemoryCatalog::new();
    catalog.insert(ComponentMetadata { id: "qa.process".to_string(), required_fields: Vec::new() });
    catalog.insert(ComponentMetadata {
        id: id.to_string(),
        required_fields: required.into_iter().map(|s| s.to_string()).collect(),
    });
    catalog
}

fn node<'a>(ir: &'a FlowIr, id: &str) -> &'a greentic_flow::flow_ir::NodeIr {
    &ir.nodes.iter().find(|(k, _)| k == id).expect("node").1
}

#[test]
fn tool_wrapper_normalized_and_schema_valid() {
    let flow = r#"id: main
type: messaging
start: start
nodes:
  start:
    qa.process: {}
    routing:
      - to: end
  end:
    qa.process: {}
    routing:
      - out: true
"#;
    let ir = parse_flow_to_ir(flow).expect("parse");
    let catalog = catalog_with("ai.greentic.hello", vec![]);

    let spec = AddStepSpec {
        after: Some("start".to_string()),
        node_id_hint: Some("mid".to_string()),
        node: json(
            r#"{ "tool": { "component": "ai.greentic.hello", "message": "hi" },
                 "routing": [ { "to": "NEXT_NODE_PLACEHOLDER" } ] }"#,
        ),
        allow_cycles: false,
    };

    let plan = plan_add_step(&ir, spec, &catalog).expect("plan");
    let updated = apply_and_validate(&ir, plan, &catalog, false).expect("apply+validate");
    let doc = updated.to_doc().expect("to_doc");
    let inserted = &doc.nodes.iter().find(|(k, _)| k == "mid").expect("mid node").1;
    assert!(inserted.raw.iter().any(|(k, _)| k == "ai.greentic.hello"));
    assert!(!inserted.raw.iter().any(|(k, _)| k == "tool"));
}

#[test]
fn routing_semantics_preserved_on_insertion() {
    let flow = r#"id: main
type: messaging
start: start
nodes:
  start:
    qa.process: {}
    routing:
      - status: ok
        to: good
      - reply: true
  good:
    qa.process: {}
    routing:
      - out: true
"#;
    let ir = parse_flow_to_ir(flow).expect("parse");
    let catalog = catalog_with("ai.greentic.echo", vec![]);

    let spec = AddStepSpec {
        after: Some("start".to_string()),
        node_id_hint: Some("echo_step".to_string()),
        node: json(
            r#"{ "ai.greentic.echo": { "message": "hi" },
                 "routing": [ { "to": "NEXT_NODE_PLACEHOLDER" } ] }"#,
        ),
        allow_cycles: false,
    };

    let plan = plan_add_step(&ir, spec, &catalog).expect("plan");
    let updated = apply_and_validate(&ir, plan, &catalog, false).expect("apply");

    let start = node(&updated, "start");
    assert_eq!(start.routing.len(), 1);
    assert_eq!(start.routing[0].to.as_deref(), Some("echo_step"));

    let echo = node(&updated, "echo_step");
    assert_eq!(echo.routing.len(), 2);
    assert_eq!(echo.routing[0].status.as_deref(), Some("ok"));
    assert_eq!(echo.routing[0].to.as_deref(), Some("good"));
    assert!(echo.routing[1].reply);
}

#[test]
fn deterministic_id_generated_when_hint_placeholder() {
    let flow = r#"id: main
type: messaging
start: start
nodes:
  start:
    qa.process: {}
    routing:
      - out: true
"#;
    let ir = parse_flow_to_ir(flow).expect("parse");
    let catalog = catalog_with("ai.greentic.echo", vec![]);

    let spec = AddStepSpec {
        after: Some("start".to_string()),
        node_id_hint: Some("COMPONENT_STEP".to_string()),
        node: json(
            r#"{ "ai.greentic.echo": { "message": "hi" },
                 "routing": [ { "to": "NEXT_NODE_PLACEHOLDER" } ] }"#,
        ),
        allow_cycles: false,
    };

    let plan = plan_add_step(&ir, spec, &catalog).expect("plan");
    assert_eq!(plan.new_node.id, "ai_greentic_echo__after__start");
}

#[test]
fn invalid_routing_rejected() {
    let flow = r#"id: main
type: messaging
start: start
nodes:
  start:
    qa.process: {}
    routing:
      - out: true
"#;
    let ir = parse_flow_to_ir(flow).expect("parse");
    let catalog = catalog_with("ai.greentic.echo", vec![]);

    let spec = AddStepSpec {
        after: None,
        node_id_hint: None,
        node: json(r#"{ "ai.greentic.echo": {}, "routing": [ { "to": "start", "bad": true } ] }"#),
        allow_cycles: false,
    };

    let plan = plan_add_step(&ir, spec, &catalog);
    assert!(plan.is_err());
}

#[test]
fn default_anchor_used_when_missing() {
    let flow = r#"id: main
type: messaging
nodes:
  entry:
    qa.process: {}
    routing:
      - out: true
"#;
    let ir = parse_flow_to_ir(flow).expect("parse");
    let catalog = catalog_with("ai.greentic.echo", vec![]);

    let spec = AddStepSpec {
        after: None,
        node_id_hint: Some("echo".to_string()),
        node: json(r#"{ "ai.greentic.echo": {}, "routing": [ { "to": "NEXT_NODE_PLACEHOLDER" } ] }"#),
        allow_cycles: false,
    };

    let plan = plan_add_step(&ir, spec, &catalog).expect("plan");
    assert_eq!(plan.anchor, "entry");
}

#[test]
fn placeholder_expands_multi_route() {
    let flow = r#"id: main
type: messaging
start: start
nodes:
  start:
    qa.process: {}
    routing:
      - status: ok
        to: a
      - status: fail
        to: b
  a:
    qa.process: {}
    routing:
      - out: true
  b:
    qa.process: {}
    routing:
      - out: true
"#;
    let ir = parse_flow_to_ir(flow).expect("parse");
    let catalog = catalog_with("ai.greentic.echo", vec![]);

    let spec = AddStepSpec {
        after: Some("start".to_string()),
        node_id_hint: Some("echo".to_string()),
        node: json(r#"{ "ai.greentic.echo": {}, "routing": [ { "to": "NEXT_NODE_PLACEHOLDER" } ] }"#),
        allow_cycles: false,
    };

    let plan = plan_add_step(&ir, spec, &catalog).expect("plan");
    let new_routes = &plan.new_node.routing;
    assert_eq!(new_routes.len(), 2);
    assert_eq!(new_routes[0].to.as_deref(), Some("a"));
    assert_eq!(new_routes[1].to.as_deref(), Some("b"));
}
