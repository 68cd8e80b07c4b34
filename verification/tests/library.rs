use greentic_flow::add_step::id::generate_node_id;
use greentic_flow::add_step::modes::materialize_node;
use greentic_flow::add_step::{AddStepSpec, apply_plan, diagnostics_to_error, plan_add_step, validate_flow};
use greentic_flow::component_catalog::{ComponentMetadata, MemoryCatalog};
use greentic_flow::error::{FlowError, FlowErrorLocation};
use greentic_flow::flow_ir::FlowIr;
use greentic_flow::json::{JsonNumber, JsonValue};
use greentic_flow::loader::{doc_to_json, load_from_value, schema_error};
use greentic_flow::step_edit::delete_step;

fn to_json_value(v: &serde_json::Value) -> JsonValue {
    match v {
        serde_json::Value::Null => JsonValue::Null,
        serde_json::Value::Bool(b) => JsonValue::Bool(*b),
        serde_json::Value::Number(n) => {
            if let Some(u) = n.as_u64() {
                JsonValue::Number(JsonNumber::PosInt(u))
            } else if let Some(i) = n.as_i64() {
                JsonValue::Number(JsonNumber::NegInt(i))
            } else {
                JsonValue::Number(JsonNumber::Float(n.to_string()))
            }
        }
        serde_json::Value::String(s) => JsonValue::String(s.clone()),
        serde_json::Value::Array(items) => JsonValue::Array(items.iter().map(to_json_value).collect()),
        serde_json::Value::Object(map) => {
            JsonValue::Object(map.iter().map(|(k, v)| (k.clone(), to_json_value(v))).collect())
        }
    }
}

fn json(text: &str) -> JsonValue {
    let v: serde_json::Value = serde_json::from_str(text).expect("json");
    to_json_value(&v)
}

fn parse_flow_to_ir(yaml: &str) -> Result<FlowIr, FlowError> {
    let v: serde_json::Value = serde_yaml_bw::from_str(yaml).expect("yaml");
    let doc = load_from_value(&to_json_value(&v), &Vec::new(), "<inline>")?;
    FlowIr::from_doc(doc)
}


fn catalog(entries: &[(&str, &[&str])]) -> MemoryCatalog {
    let mut c = MemoryCatalog::new();
    for (id, req) in entries {
        c.insert(ComponentMetadata { id: id.to_string(), required_fields: req.iter().map(|s| s.to_string()).collect() });
    }
    c
}

fn node<'a>(ir: &'a FlowIr, id: &str) -> Option<&'a greentic_flow::flow_ir::NodeIr> {
    ir.nodes.iter().find(|(k, _)| k == id).map(|(_, n)| n)
}

fn load_err(yaml: &str) -> FlowError {
    let v: serde_json::Value = serde_yaml_bw::from_str(yaml).expect("yaml");
    load_from_value(&to_json_value(&v), &Vec::new(), "flow.ygtc").err().expect("refused")
}

const CHAIN: &str = r#"id: main
type: messaging
start: start
nodes:
  start:
    qa.process: {}
    routing:
      - to: mid
  mid:
    qa.process: {}
    routing:
      - to: end
  end:
    qa.process: {}
    routing:
      - out: true
"#;

#[test]
fn insertion_keeps_other_nodes_and_threads_routes() {
    let ir = parse_flow_to_ir(CHAIN).unwrap();
    let cat = catalog(&[("qa.process", &[]), ("ai.greentic.echo", &[])]);
    let spec = AddStepSpec {
        after: Some("mid".to_string()),
        node_id_hint: Some("echo".to_string()),
        node: json(r#"{ "ai.greentic.echo": { "message": "hi" }, "routing": [ { "to": "NEXT_NODE_PLACEHOLDER" } ] }"#),
        allow_cycles: false,
    };
    let plan = plan_add_step(&ir, spec, &cat).unwrap();
    let updated = apply_plan(&ir, plan, false).unwrap();
    assert_eq!(updated.nodes.len(), 4);
    assert_eq!(updated.nodes.last().unwrap().0, "echo");
    let mid = node(&updated, "mid").unwrap();
    assert_eq!(mid.routing.len(), 1);
    assert_eq!(mid.routing[0].to.as_deref(), Some("echo"));
    let echo = node(&updated, "echo").unwrap();
    assert_eq!(echo.routing[0].to.as_deref(), Some("end"));
    assert_eq!(node(&updated, "start").unwrap().routing[0].to.as_deref(), Some("mid"));
    assert!(validate_flow(&updated, &cat).is_empty());
}

#[test]
fn insertion_refuses_taken_id_and_cycles() {
    let ir = parse_flow_to_ir(CHAIN).unwrap();
    let cat = catalog(&[("qa.process", &[]), ("ai.greentic.echo", &[])]);
    let spec = AddStepSpec {
        after: Some("mid".to_string()),
        node_id_hint: None,
        node: json(r#"{ "ai.greentic.echo": {}, "routing": [ { "to": "mid" } ] }"#),
        allow_cycles: false,
    };
    let diags = plan_add_step(&ir, spec, &cat).err().expect("cycle refused");
    assert_eq!(diags[0].code, "ADD_STEP_ROUTING_INVALID");
    assert_eq!(diags[0].message, "routing would introduce a cycle back to anchor");
}

#[test]
fn planning_reports_missing_anchor_unknown_component_and_required_fields() {
    let ir = parse_flow_to_ir(CHAIN).unwrap();
    let cat = catalog(&[("qa.process", &[]), ("ai.greentic.echo", &["message", "tone"])]);
    let missing_anchor = AddStepSpec {
        after: Some("nope".to_string()),
        node_id_hint: None,
        node: json(r#"{ "ai.greentic.echo": {} }"#),
        allow_cycles: false,
    };
    let d = plan_add_step(&ir, missing_anchor, &cat).err().unwrap();
    assert_eq!(d[0].code, "ADD_STEP_ANCHOR_MISSING");
    assert_eq!(d[0].message, "anchor node 'nope' not found");

    let unknown = AddStepSpec {
        after: Some("mid".to_string()),
        node_id_hint: None,
        node: json(r#"{ "ai.greentic.other": {} }"#),
        allow_cycles: false,
    };
    let d = plan_add_step(&ir, unknown, &cat).err().unwrap();
    assert_eq!(d[0].code, "ADD_STEP_COMPONENT_UNKNOWN");
    assert_eq!(d[0].message, "component 'ai.greentic.other' not found in catalog");

    let missing_fields = AddStepSpec {
        after: Some("mid".to_string()),
        node_id_hint: None,
        node: json(r#"{ "ai.greentic.echo": { "tone": "warm" } }"#),
        allow_cycles: false,
    };
    let d = plan_add_step(&ir, missing_fields, &cat).err().unwrap();
    assert_eq!(d.len(), 1);
    assert_eq!(d[0].code, "COMPONENT_CONFIG_REQUIRED");
    assert_eq!(d[0].location.as_deref(), Some("nodes.ai.greentic.echo.message"));
}

#[test]
fn diagnostics_join_into_one_error() {
    assert!(diagnostics_to_error(Vec::new()).is_ok());
    let ir = parse_flow_to_ir(CHAIN).unwrap();
    let cat = catalog(&[("ai.greentic.echo", &[])]);
    let diags = validate_flow(&ir, &cat);
    assert_eq!(diags.len(), 3);
    assert!(diags.iter().all(|d| d.code == "COMPONENT_NOT_FOUND"));
    let err = diagnostics_to_error(diags).err().unwrap();
    assert_eq!(
        err.message(),
        "Internal error at add_step: COMPONENT_NOT_FOUND: component 'qa.process' not found in catalog; \
COMPONENT_NOT_FOUND: component 'qa.process' not found in catalog; \
COMPONENT_NOT_FOUND: component 'qa.process' not found in catalog"
    );
}

#[test]
fn validation_reports_each_kind_of_finding() {
    let yaml = r#"id: v
type: messaging
start: a
nodes:
  a:
    ai.greentic.echo: null
  q:
    questions: {}
  t:
    template: ""
"#;
    let mut ir = parse_flow_to_ir(yaml).unwrap();
    ir.nodes[0].1.routing.push(greentic_flow::route::Route::to_node("ghost".to_string()));
    let cat = catalog(&[("ai.greentic.echo", &["message"])]);
    let codes: Vec<String> = validate_flow(&ir, &cat).into_iter().map(|d| d.code).collect();
    assert_eq!(
        codes,
        vec![
            "ROUTE_TARGET_MISSING".to_string(),
            "COMPONENT_PAYLOAD_REQUIRED".to_string(),
            "COMPONENT_CONFIG_REQUIRED".to_string(),
            "QUESTIONS_FIELDS_REQUIRED".to_string(),
            "TEMPLATE_EMPTY".to_string(),
        ]
    );
}

#[test]
fn delete_step_splices_the_only_predecessor() {
    let ir = parse_flow_to_ir(CHAIN).unwrap();
    let out = delete_step(ir, "mid", true, true).unwrap();
    assert!(node(&out, "mid").is_none());
    assert_eq!(node(&out, "start").unwrap().routing[0].to.as_deref(), Some("end"));
    assert_eq!(out.nodes.len(), 2);
}

#[test]
fn delete_step_refuses_several_predecessors() {
    let yaml = r#"id: main
type: messaging
start: a
nodes:
  a:
    qa.process: {}
    routing:
      - to: c
  b:
    qa.process: {}
    routing:
      - to: c
  c:
    qa.process: {}
    routing:
      - out: true
"#;
    let ir = parse_flow_to_ir(yaml).unwrap();
    let err = delete_step(ir, "c", true, true).err().unwrap();
    assert_eq!(err, "multiple predecessors for 'c': a, b (use --if-multiple-predecessors splice-all)");
    let ir = parse_flow_to_ir(yaml).unwrap();
    let out = delete_step(ir, "c", false, true).unwrap();
    assert!(node(&out, "a").unwrap().routing.is_empty());
    assert!(node(&out, "b").unwrap().routing.is_empty());
    let ir = parse_flow_to_ir(yaml).unwrap();
    assert_eq!(delete_step(ir, "zz", false, true).err().unwrap(), "step 'zz' not found");
}

#[test]
fn delete_step_moves_entry_point_to_first_node() {
    let ir = parse_flow_to_ir(CHAIN).unwrap();
    let out = delete_step(ir, "start", false, false).unwrap();
    assert_eq!(out.entrypoints[0].1, out.nodes[0].0);
}

#[test]
fn loader_refuses_bad_documents() {
    let two = load_err("id: x\ntype: messaging\nnodes:\n  a:\n    qa.one: {}\n    qa.two: {}\n");
    assert!(two.message().contains("must contain exactly one component key"));
    assert_eq!(two.message(), "Node 'a' must contain exactly one component key like 'qa.process' plus optional 'routing' at flow.ygtc::nodes.a");

    let bad_key = load_err("id: x\ntype: messaging\nnodes:\n  a:\n    nodots: {}\n");
    assert!(matches!(bad_key, FlowError::BadComponentKey { .. }));

    let missing = load_err("id: x\ntype: messaging\nnodes:\n  a:\n    qa.one: {}\n    routing:\n      - to: b\n");
    assert_eq!(missing.message(), "Missing node 'b' referenced in routing from 'a' at flow.ygtc::nodes.a.routing");

    let bad_routes = load_err("id: x\ntype: messaging\nnodes:\n  a:\n    qa.one: {}\n    routing: 3\n");
    assert!(matches!(bad_routes, FlowError::Routing { .. }));

    let no_id = load_err("type: messaging\nnodes: {}\n");
    assert_eq!(no_id.message(), "YAML parse error at flow.ygtc: missing field `id`");
}

#[test]
fn loader_defaults_start_to_in_and_accepts_out_routes() {
    let yaml = "id: x\ntype: messaging\nnodes:\n  in:\n    qa.one: {}\n    routing:\n      - to: out\n";
    let v: serde_json::Value = serde_yaml_bw::from_str(yaml).unwrap();
    let doc = load_from_value(&to_json_value(&v), &Vec::new(), "<inline>").unwrap();
    assert_eq!(doc.start.as_deref(), Some("in"));
    assert_eq!(doc.nodes[0].1.component, "qa.one");
}

#[test]
fn schema_findings_become_one_error() {
    assert!(schema_error(&Vec::new(), "f.ygtc").is_none());
    let findings = vec![("".to_string(), "bad root".to_string()), ("/nodes".to_string(), "bad nodes".to_string())];
    let e = schema_error(&findings, "f.ygtc").unwrap();
    assert_eq!(e.message(), "Schema validation failed at f.ygtc:\nf.ygtc/: bad root\nf.ygtc/nodes: bad nodes");
}

#[test]
fn document_round_trip_keeps_structure() {
    let ir = parse_flow_to_ir(CHAIN).unwrap();
    let doc = ir.to_doc().unwrap();
    let json_form = doc_to_json(&doc);
    let back = load_from_value(&json_form, &Vec::new(), "<inline>").unwrap();
    let ir2 = FlowIr::from_doc(back).unwrap();
    assert_eq!(ir2.id, ir.id);
    assert_eq!(ir2.kind, ir.kind);
    let keys: Vec<&String> = ir2.nodes.iter().map(|(k, _)| k).collect();
    assert_eq!(keys, vec!["end", "mid", "start"]);
    assert_eq!(ir2.entrypoints, ir.entrypoints);
    assert_eq!(node(&ir2, "mid").unwrap().routing[0].to.as_deref(), Some("end"));
}

#[test]
fn node_ids_are_fresh_and_numbered() {
    let existing = vec!["mid".to_string(), "mid__2".to_string()];
    assert_eq!(generate_node_id(Some("mid"), "ai.greentic.echo", None, None, "start", &existing), "mid__3");
    assert_eq!(generate_node_id(Some("fresh"), "ai.greentic.echo", None, None, "start", &existing), "fresh");
    assert_eq!(generate_node_id(None, "ai.greentic.echo", None, None, "start", &existing), "ai_greentic_echo__after__start");
}

#[test]
fn materialized_node_carries_placeholder_routing() {
    let (op, node) = materialize_node("ai.greentic.echo", json(r#"{ "message": "hi" }"#), None).unwrap();
    assert_eq!(op, None);
    let routing = node.get("routing").and_then(|r| r.as_array()).unwrap();
    assert_eq!(routing[0].get("to").and_then(|t| t.as_str()).map(|s| s.as_str()), Some("NEXT_NODE_PLACEHOLDER"));
    assert!(materialize_node("nodots", JsonValue::Null, None).is_err());
}

#[test]
fn error_locations_describe_and_display() {
    let l = FlowErrorLocation::at_path_with_position("f.ygtc".to_string(), Some(3), Some(7));
    assert_eq!(l.describe().as_deref(), Some("f.ygtc:3:7"));
    assert_eq!(l.display(), " at f.ygtc:3:7");
    assert!(FlowErrorLocation::new(None, None, None).describe().is_none());
    assert_eq!(FlowErrorLocation::new(None, Some(2), None).describe().as_deref(), Some("2"));
    let e = FlowError::internal("boom".to_string(), "nodes.a".to_string());
    assert_eq!(e.message(), "Internal error at nodes.a: boom");
}
