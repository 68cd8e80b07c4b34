use greentic_flow::add_step::anchor_candidates;
use greentic_flow::config_flow::{normalize_config_flow_value, render_config_output, run_config_flow};
use greentic_flow::error::FlowError;
use greentic_flow::flow_ir::FlowIr;
use greentic_flow::i18n::{I18nCatalog, I18nText, locale_fallback_chain, resolve_locale_with, resolve_text};
use greentic_flow::ir::to_ir;
use greentic_flow::json::{JsonNumber, JsonValue};
use greentic_flow::lint::lint_builtin_rules;
use greentic_flow::loader::load_from_value;
use greentic_flow::splice::splice_node_after;

fn to_json_value(v: &serde_json::Value) -> JsonValue {
    match v {
        serde_json::Value::Null => JsonValue::Null,
        serde_json::Value::Bool(b) => JsonValue::Bool(*b),
        serde_json::Value::Number(n) => {
            if let Some(u) = n.as_u64() {
                JsonValue::Number(JsonNumber::PosInt(u))
            } else if let Some(i) = n.as_i64() {
                JsonValue::Number(JsonNumber::NegInt(i))
            } else {
                JsonValue::Number(JsonNumber::Float(n.to_string()))
            }
        }
        serde_json::Value::String(s) => JsonValue::String(s.clone()),
        serde_json::Value::Array(items) => JsonValue::Array(items.iter().map(to_json_value).collect()),
        serde_json::Value::Object(map) => {
            JsonValue::Object(map.iter().map(|(k, v)| (k.clone(), to_json_value(v))).collect())
        }
    }
}

fn json(text: &str) -> JsonValue {
    let v: serde_json::Value = serde_json::from_str(text).expect("json");
    to_json_value(&v)
}

fn parse_flow_to_ir(yaml: &str) -> Result<FlowIr, FlowError> {
    let v: serde_json::Value = serde_yaml_bw::from_str(yaml).expect("yaml");
    let doc = load_from_value(&to_json_value(&v), &Vec::new(), "<inline>")?;
    FlowIr::from_doc(doc)
}


fn load_doc(yaml: &str) -> greentic_flow::model::FlowDoc {
    let v: serde_json::Value = serde_yaml_bw::from_str(yaml).expect("yaml");
    load_from_value(&to_json_value(&v), &Vec::new(), "<inline>").expect("load")
}

fn get<'a>(v: &'a JsonValue, key: &str) -> Option<&'a JsonValue> {
    v.get(key)
}

#[test]
fn anchor_candidates_orders_entrypoint_first() {
    let flow = r#"id: main
type: messaging
start: b
nodes:
  b:
    templating.handlebars:
      text: B
    routing:
      - to: a
  a:
    templating.handlebars:
      text: A
    routing:
      - out: true
"#;
    let ir = parse_flow_to_ir(flow).expect("parse");
    let anchors = anchor_candidates(&ir);
    assert_eq!(anchors, vec!["b".to_string(), "a".to_string()]);
}

#[test]
fn lint_flags_missing_start_node() {
    let yaml = r#"
id: demo
type: messaging
start: missing
nodes:
  entry:
    qa.process: {}
"#;
    let doc = load_doc(yaml);
    let flow = to_ir(doc).unwrap();
    let errors = lint_builtin_rules(&flow);
    assert!(
        errors.iter().any(|e| e.contains("start node 'missing'")),
        "expected missing start node lint, got {errors:?}"
    );
}

#[test]
fn lint_passes_when_start_node_exists() {
    let yaml = r#"
id: demo
type: messaging
start: entry
nodes:
  entry:
    qa.process: {}
"#;
    let doc = load_doc(yaml);
    let flow = to_ir(doc).unwrap();
    let errors = lint_builtin_rules(&flow);
    assert!(errors.is_empty(), "unexpected lint errors: {errors:?}");
}

#[test]
fn splice_after_rewires_routing() {
    let flow = r#"id: main
title: Welcome
description: Minimal starter flow
type: messaging
start: start

nodes:
  start:
    templating.handlebars:
      text: "Hello from greentic-pack starter!"
    routing:
      - out: true
"#;
    let flow_value: serde_json::Value = serde_yaml_bw::from_str(flow).unwrap();
    let new_node: serde_json::Value = serde_yaml_bw::from_str(
        r#"tool:
  component: ai.greentic.hello-world
routing:
  - to: NEXT_NODE_PLACEHOLDER
"#,
    )
    .unwrap();

    let doc = splice_node_after(to_json_value(&flow_value), "hello", to_json_value(&new_node), "start").unwrap();
    assert_eq!(get(&doc, "id").and_then(|v| v.as_str()).map(|s| s.as_str()), Some("main"));

    let nodes = get(&doc, "nodes").expect("nodes mapping");
    let start = get(nodes, "start").expect("start node");
    let start_routes = get(start, "routing").and_then(|v| v.as_array()).expect("start routing");
    assert_eq!(start_routes.len(), 1);
    assert_eq!(get(&start_routes[0], "to").and_then(|v| v.as_str()).map(|s| s.as_str()), Some("hello"));

    let hello = get(nodes, "hello").expect("hello node");
    let hello_routes = get(hello, "routing").and_then(|v| v.as_array()).expect("hello routing");
    assert_eq!(hello_routes.len(), 1);
    assert_eq!(get(&hello_routes[0], "out").and_then(|v| v.as_bool()), Some(true));
}

#[test]
fn locale_chain_falls_back_to_language_and_en() {
    let chain = locale_fallback_chain("nl-NL");
    assert_eq!(chain, vec!["nl-NL", "nl", "en"]);
}

#[test]
fn resolve_locale_prefers_explicit_then_env_then_en() {
    let unset = vec![String::new(), String::new(), String::new(), String::new()];
    assert_eq!(resolve_locale_with(Some("pt-BR"), &unset, None), "pt-BR");
    let greentic = vec!["fr".to_string(), String::new(), String::new(), String::new()];
    assert_eq!(resolve_locale_with(None, &greentic, None), "fr");
    assert_eq!(resolve_locale_with(None, &unset, None), "en");
}

#[test]
fn resolve_text_prefers_catalog_then_fallback_then_key() {
    let mut catalog = I18nCatalog::new();
    catalog.insert("greeting", "nl", "Hallo".to_string());
    catalog.insert("greeting", "en", "Hello".to_string());

    let text = I18nText::new("greeting", Some("Hi".to_string()));
    assert_eq!(resolve_text(&text, &catalog, "nl-NL"), "Hallo");

    let text = I18nText::new("missing", Some("Fallback".to_string()));
    assert_eq!(resolve_text(&text, &catalog, "nl-NL"), "Fallback");

    let text = I18nText::new("missing2", None);
    assert_eq!(resolve_text(&text, &catalog, "nl-NL"), "missing2");
}

#[test]
fn config_flow_normalizes_tool_nodes() {
    let yaml = r#"id: tool-node
type: component-config
nodes:
  emit_config:
    template: |
      {
        "node_id": "COMPONENT_STEP",
        "node": {
          "tool": {
            "component": "ai.greentic.hello",
            "pack_alias": "my-pack",
            "operation": "process",
            "message": "{{state.message}}",
            "flag": true
          },
          "routing": [
            { "to": "NEXT_NODE_PLACEHOLDER" }
          ]
        }
      }
"#;

    let raw: serde_json::Value = serde_yaml_bw::from_str(yaml).unwrap();
    let normalized = normalize_config_flow_value(to_json_value(&raw));
    let doc = load_from_value(&normalized, &Vec::new(), "<inline>").unwrap();
    let answers = vec![("message".to_string(), JsonValue::String("hi".to_string()))];
    let run = run_config_flow(&doc, &answers).unwrap();
    let parsed: Result<JsonValue, String> =
        serde_json::from_str::<serde_json::Value>(&run.template).map(|v| to_json_value(&v)).map_err(|e| e.to_string());
    let output = render_config_output(parsed, &run.state).unwrap();

    assert_eq!(output.node_id, "COMPONENT_STEP");
    let node = output.node.as_object().expect("node map");
    assert!(!node.iter().any(|(k, _)| k == "tool"));

    let payload = get(&output.node, "ai.greentic.hello").expect("component payload");
    assert!(payload.as_object().is_some());
    assert_eq!(get(payload, "message").and_then(|v| v.as_str()).map(|s| s.as_str()), Some("hi"));
    assert_eq!(get(payload, "flag").and_then(|v| v.as_bool()), Some(true));

    assert_eq!(get(&output.node, "pack_alias").and_then(|v| v.as_str()).map(|s| s.as_str()), Some("my-pack"));
    assert_eq!(get(&output.node, "operation").and_then(|v| v.as_str()).map(|s| s.as_str()), Some("process"));
}
