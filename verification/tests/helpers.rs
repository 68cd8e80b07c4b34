use greentic_flow::answers::{answers_paths, path_join};
use greentic_flow::error::FlowError;
use greentic_flow::i18n::{normalize_locale, resolve_cli_template, resolve_cli_text, resolve_keys, I18nCatalog};
use greentic_flow::ir::to_ir;
use greentic_flow::json::{json_equal, JsonNumber, JsonValue};
use greentic_flow::lint::lint_with_registry;
use greentic_flow::loader::load_from_value;
use greentic_flow::refs::{
    fixture_key, grouped_capabilities, infer_node_id_hint, normalize_capability_group, strip_reference_scheme,
    validate_component_ref, validate_oci_reference, wizard_header,
};
use greentic_flow::registry::AdapterCatalog;
use greentic_flow::resolve::resolve_parameters;
use greentic_flow::schema_mode::SchemaMode;
use greentic_flow::step_edit::{
    answers_to_value, build_routing_value, build_update_routing, component_identity, merge_payload, multi_to_targets,
    parse_routing_shorthand, resolve_step_id, wizard_node_value, RoutingOptions,
};
use greentic_flow::template::{
    finish_render, manifest_label, preprocess_template, state_token_value, substitute_state_tokens, TemplateFailure,
};
use greentic_flow::wizard_ops::{
    abi_version_from_abi, capability_hint_from_error, describe_exports_for_meta, empty_cbor_map, ensure_answers_object,
    wizard_op_from_error, wrap_wizard_error, WizardAbi, WizardMode,
};

fn to_json_value(v: &serde_json::Value) -> JsonValue {
    match v {
        serde_json::Value::Null => JsonValue::Null,
        serde_json::Value::Bool(b) => JsonValue::Bool(*b),
        serde_json::Value::Number(n) => {
            if let Some(u) = n.as_u64() {
                JsonValue::Number(JsonNumber::PosInt(u))
            } else if let Some(i) = n.as_i64() {
                JsonValue::Number(JsonNumber::NegInt(i))
            } else {
                JsonValue::Number(JsonNumber::Float(n.to_string()))
            }
        }
        serde_json::Value::String(s) => JsonValue::String(s.clone()),
        serde_json::Value::Array(items) => JsonValue::Array(items.iter().map(to_json_value).collect()),
        serde_json::Value::Object(map) => {
            JsonValue::Object(map.iter().map(|(k, v)| (k.clone(), to_json_value(v))).collect())
        }
    }
}

fn json(text: &str) -> JsonValue {
    let v: serde_json::Value = serde_json::from_str(text).expect("json");
    to_json_value(&v)
}

fn same(a: &JsonValue, b: &str) -> bool {
    json_equal(a, &json(b))
}

fn no_routing() -> RoutingOptions {
    RoutingOptions { out: false, reply: false, next: None, multi_to: None }
}

#[test]
fn schema_mode_from_flag_and_environment() {
    assert_eq!(SchemaMode::resolve(true, Some("x")), Ok(SchemaMode::Permissive));
    assert_eq!(SchemaMode::resolve(false, None), Ok(SchemaMode::Strict));
    assert_eq!(SchemaMode::resolve(false, Some("0")), Ok(SchemaMode::Permissive));
    assert_eq!(SchemaMode::resolve(false, Some("1")), Ok(SchemaMode::Strict));
    assert_eq!(
        SchemaMode::resolve(false, Some("yes")),
        Err("GREENTIC_FLOW_STRICT must be '0' or '1', got 'yes'".to_string())
    );
    assert!(SchemaMode::Permissive.is_permissive());
    assert!(!SchemaMode::Strict.is_permissive());
}

#[test]
fn answers_live_under_flow_and_node() {
    assert_eq!(path_join("a", "b"), "a/b");
    assert_eq!(path_join("a/", "b"), "a/b");
    assert_eq!(path_join("", "b"), "b");
    assert_eq!(path_join("a", "/b"), "/b");
    let p = answers_paths("answers", "main", "n1", "default");
    assert_eq!(p.json, "answers/main/n1/default.answers.json");
    assert_eq!(p.cbor, "answers/main/n1/default.answers.cbor");
}

#[test]
fn references_and_hints() {
    assert_eq!(fixture_key("oci://ghcr.io/org/comp:1.0@sha"), "ghcr.io_org_comp_1.0_sha");
    assert_eq!(strip_reference_scheme("repo://x/y"), "x/y");
    assert_eq!(strip_reference_scheme("plain"), "plain");
    assert!(validate_oci_reference("oci://ghcr.io/org/comp").is_ok());
    assert_eq!(
        validate_oci_reference("oci://localhost:5000/comp"),
        Err("oci:// references must use a public registry host".to_string())
    );
    assert_eq!(
        validate_oci_reference("oci://registry/comp"),
        Err("oci:// references must include a public registry host".to_string())
    );
    assert_eq!(
        validate_oci_reference("oci://ghcr.io"),
        Err("oci:// references must be in the form oci://<host>/<repo>".to_string())
    );
    assert!(validate_component_ref("store://x").is_ok());
    assert_eq!(
        validate_component_ref("repo://"),
        Err("--component must include a reference after the scheme".to_string())
    );
    assert_eq!(
        validate_component_ref("http://x"),
        Err("--component must start with oci://, repo://, or store://".to_string())
    );
    assert_eq!(infer_node_id_hint(Some("explicit"), Some("oci://a/b"), None), Some("explicit".to_string()));
    assert_eq!(infer_node_id_hint(None, Some("oci://ghcr.io/org/my_comp:1.2"), None), Some("my-comp".to_string()));
    assert_eq!(infer_node_id_hint(None, Some("oci://ghcr.io/org/"), Some("local_file")), Some("local-file".to_string()));
    assert_eq!(infer_node_id_hint(None, None, Some("")), None);
    assert_eq!(wizard_header("comp", "setup"), "== comp (setup) ==");
}

#[test]
fn capability_groups() {
    assert_eq!(normalize_capability_group(" WASI.Http.Outgoing "), "wasi:http");
    assert_eq!(normalize_capability_group("host.secrets/read"), "host:secrets");
    assert_eq!(normalize_capability_group("net:tcp"), "net:tcp");
    assert_eq!(normalize_capability_group("kv.store.get"), "kv:store");
    assert_eq!(normalize_capability_group("plain"), "plain");
    let groups = grouped_capabilities(&vec![
        "wasi.http.outgoing".to_string(),
        "kv.store".to_string(),
        "wasi.http.incoming".to_string(),
    ]);
    assert_eq!(groups, vec!["kv:store".to_string(), "wasi:http".to_string()]);
}

#[test]
fn cli_texts_and_locales() {
    let mut catalog = I18nCatalog::new();
    catalog.insert("greet", "en", "Hello {}, {}".to_string());
    assert_eq!(resolve_cli_text(&catalog, "en-US", "greet", "Hi"), "Hello {}, {}");
    assert_eq!(resolve_cli_text(&catalog, "en", "missing", "Fallback"), "Fallback");
    assert_eq!(resolve_cli_template(&catalog, "en", "greet", "", &vec!["Ann", "Bo"]), "Hello Ann, Bo");
    assert_eq!(resolve_cli_template(&catalog, "en", "greet", "", &vec!["Ann"]), "Hello Ann, {}");
    let keys = resolve_keys(&vec!["greet".to_string()], &catalog, "en").expect("resolved");
    assert_eq!(keys, vec![("greet".to_string(), "Hello {}, {}".to_string())]);
    let keys = resolve_keys(&vec!["nope".to_string()], &catalog, "en").expect("key as text");
    assert_eq!(keys, vec![("nope".to_string(), "nope".to_string())]);
    catalog.insert("blank", "en", String::new());
    match resolve_keys(&vec!["greet".to_string(), "blank".to_string()], &catalog, "en") {
        Err(FlowError::Internal { message, .. }) => assert_eq!(message, "missing translation for key 'blank'"),
        other => panic!("unexpected {other:?}"),
    }
    assert_eq!(normalize_locale(" de_DE.UTF-8@euro "), Some("de-DE".to_string()));
    assert_eq!(normalize_locale("EN_us"), Some("en-US".to_string()));
    assert_eq!(normalize_locale("not a locale!"), None);
    assert_eq!(normalize_locale("C"), None);
    assert_eq!(normalize_locale("posix"), None);
    assert_eq!(normalize_locale(""), None);
}

#[test]
fn parameters_resolve_through_paths() {
    let params = json(r#"{ "db": { "host": "h", "port": 5432 } }"#);
    let value = json(r#"{ "a": "parameters.db.host", "b": ["parameters.db.port", "literal"], "c": "state.x" }"#);
    let out = resolve_parameters(&value, &params, "nodes.n").expect("resolved");
    assert!(same(&out, r#"{ "a": "h", "b": [5432, "literal"], "c": "state.x" }"#));
    match resolve_parameters(&json(r#"["parameters.db.user"]"#), &params, "nodes.n") {
        Err(FlowError::Internal { message, .. }) => assert_eq!(message, "Unknown parameters.db.user at nodes.n[0]"),
        other => panic!("unexpected {other:?}"),
    }
    match resolve_parameters(&json(r#""parameters.db.host.x""#), &params, "p") {
        Err(FlowError::Internal { message, .. }) => assert_eq!(message, "parameters.db.host.x at p not an object"),
        other => panic!("unexpected {other:?}"),
    }
}

#[test]
fn wizard_decisions() {
    assert_eq!(WizardMode::Update.as_str(), "update");
    assert_eq!(WizardMode::Update.as_legacy_str(), "upgrade");
    assert_eq!(WizardMode::Setup.as_legacy_str(), "setup");
    assert_eq!(empty_cbor_map(), vec![0xa0]);
    assert_eq!(describe_exports_for_meta(WizardAbi::V6), vec!["describe", "qa-spec", "apply-answers"]);
    assert_eq!(abi_version_from_abi(WizardAbi::V6), "0.6.0");
    assert_eq!(abi_version_from_abi(WizardAbi::Legacy), "0.5.0");
    assert!(ensure_answers_object(&json("{}")).is_ok());
    assert!(ensure_answers_object(&json("[]")).is_err());
}

#[test]
fn registry_backed_lint() {
    let yaml = r#"
id: demo
type: messaging
start: a
nodes:
  a:
    messaging.telegram.send: {}
  b:
    email.google.beamMeUp: {}
  c:
    qa.process: {}
"#;
    let v: serde_json::Value = serde_yaml_bw::from_str(yaml).expect("yaml");
    let doc = load_from_value(&to_json_value(&v), &Vec::new(), "<inline>").expect("load");
    let flow = to_ir(doc).expect("ir");
    let mut catalog = AdapterCatalog::new();
    catalog.insert("messaging.telegram", "send");
    assert!(catalog.contains("messaging", "telegram", "send"));
    assert!(!catalog.contains("messaging", "telegram", "delete"));
    let errors = lint_with_registry(&flow, &catalog);
    assert_eq!(errors.len(), 1);
    assert!(errors[0].contains("email.google.beamMeUp"));
    assert!(errors[0].starts_with("adapter_resolvable: node #1 ('b')"));
}

#[test]
fn lint_reports_invalid_start_ids() {
    let yaml = "id: demo\ntype: messaging\nstart: \"bad id\"\nnodes:\n  a:\n    qa.process: {}\n";
    let v: serde_json::Value = serde_yaml_bw::from_str(yaml).expect("yaml");
    let doc = load_from_value(&to_json_value(&v), &Vec::new(), "<inline>").expect("load");
    let flow = to_ir(doc).expect("ir");
    let errors = greentic_flow::lint::lint_builtin_rules(&flow);
    assert_eq!(
        errors,
        vec![
            "start_node_exists: invalid start node 'bad id' (InvalidInput: NodeId must contain only ASCII letters, digits, '.', '-', or '_')"
                .to_string()
        ]
    );
}

#[test]
fn step_editing_helpers() {
    let meta = Some(json(
        r#"{ "greentic": { "components": { "n1": { "component_id": "c.x" }, "n2": { "component_id": "c.y" } } } }"#,
    ));
    assert_eq!(resolve_step_id(Some("s".to_string()), None, &meta), Ok("s".to_string()));
    assert_eq!(resolve_step_id(None, Some("c.y"), &meta), Ok("n2".to_string()));
    assert!(resolve_step_id(None, Some("c.z"), &meta).is_err());
    let merged = merge_payload(json(r#"{ "a": 1, "b": 2 }"#), Some(json(r#"{ "b": 3, "c": 4 }"#)));
    assert!(same(&merged, r#"{ "a": 1, "b": 3, "c": 4 }"#));
    assert_eq!(multi_to_targets(" a, ,b "), Ok(vec!["a".to_string(), "b".to_string()]));
    assert_eq!(multi_to_targets(" , "), Err("--routing-multi-to requires at least one target".to_string()));
    assert!(build_update_routing(&no_routing()).expect("ok").is_none());
    let reply = RoutingOptions { reply: true, ..no_routing() };
    let routes = build_update_routing(&reply).expect("ok").expect("routes");
    assert!(routes.len() == 1 && routes[0].reply && !routes[0].out);
    assert!(parse_routing_shorthand("out").expect("out")[0].out);
    assert!(parse_routing_shorthand("next").is_none());
}

#[test]
fn add_step_routing_values() {
    let (value, thread) = build_routing_value(&no_routing(), None).expect("ok");
    assert!(thread);
    assert!(same(&value.expect("value"), r#"[{ "to": "NEXT_NODE_PLACEHOLDER" }]"#));
    let (value, thread) = build_routing_value(&RoutingOptions { out: true, ..no_routing() }, None).expect("ok");
    assert!(!thread);
    assert!(same(&value.expect("value"), r#""out""#));
    let multi = RoutingOptions { multi_to: Some("x,y".to_string()), ..no_routing() };
    let (value, _) = build_routing_value(&multi, None).expect("ok");
    assert!(same(&value.expect("value"), r#"[{ "to": "x" }, { "to": "y" }]"#));
    let (value, thread) = build_routing_value(&multi, Some(json(r#"[{ "to": "z" }]"#))).expect("ok");
    assert!(!thread);
    assert!(same(&value.expect("value"), r#"[{ "to": "z" }]"#));
    let empty = RoutingOptions { multi_to: Some(",".to_string()), ..no_routing() };
    assert!(build_routing_value(&empty, None).is_err());
}

#[test]
fn wizard_nodes_and_answers() {
    let node = wizard_node_value("ai.echo", json(r#"{ "m": 1 }"#), "run", None);
    assert!(same(
        &node,
        r#"{ "component.exec": { "component": "ai.echo", "config": { "m": 1 } }, "operation": "run", "routing": [] }"#
    ));
    assert!(answers_to_value(&Vec::new()).is_none());
    let value = answers_to_value(&vec![("k".to_string(), json("true"))]).expect("value");
    assert!(same(&value, r#"{ "k": true }"#));
    assert_eq!(component_identity(None, Some("oci://x".to_string()), Some("stem".to_string())), "oci://x");
    assert_eq!(component_identity(None, None, None), "component");
}

#[test]
fn template_tokens_round_trip() {
    assert_eq!(state_token_value("temp"), "__STATE_TOKEN__temp__");
    assert_eq!(manifest_label(Some("m.x")), " in manifest 'm.x'");
    assert_eq!(manifest_label(None), "");
    assert_eq!(
        preprocess_template(r#"{ "t": "{{ state.temperature }}", "u": "{{state.1bad}}" }"#),
        r#"{ "t": "__STATE_TOKEN__temperature__", "u": "{{state.1bad}}" }"#
    );
    let state = match json(r#"{ "temperature": 0.4, "flag": true }"#) {
        JsonValue::Object(e) => e,
        _ => unreachable!(),
    };
    let rendered = json(r#"{ "t": "__STATE_TOKEN__temperature__", "list": ["__STATE_TOKEN__flag__", "x"] }"#);
    let out = substitute_state_tokens(&rendered, &state).expect("substituted");
    assert!(same(&out, r#"{ "t": 0.4, "list": [true, "x"] }"#));
    assert_eq!(
        substitute_state_tokens(&json(r#""__STATE_TOKEN__nope__""#), &state).unwrap_err(),
        "state value for 'nope' not found"
    );
    let ok = finish_render(Ok(rendered), &state, "emit", Some("m.x")).expect("rendered");
    assert!(same(&ok, r#"{ "t": 0.4, "list": [true, "x"] }"#));
    match finish_render(Err(TemplateFailure::Parse("eof".to_string())), &state, "emit", Some("m.x")) {
        Err(FlowError::Internal { message, location }) => {
            assert_eq!(message, "template JSON parse error in node 'emit' in manifest 'm.x': eof");
            assert_eq!(location.path.as_deref(), Some("nodes.emit.template"));
        }
        other => panic!("unexpected {other:?}"),
    }
    match finish_render(Ok(json(r#""__STATE_TOKEN__nope__""#)), &state, "emit", None) {
        Err(FlowError::Internal { message, .. }) => {
            assert_eq!(message, "state value for 'nope' not found (node 'emit')")
        }
        other => panic!("unexpected {other:?}"),
    }
}

#[test]
fn wizard_failures_name_operation_and_capability() {
    assert_eq!(wizard_op_from_error("failed to CALL QA-SPEC: trap", "describe"), "qa-spec");
    assert_eq!(wizard_op_from_error("boom", "apply-answers"), "apply-answers");
    assert_eq!(capability_hint_from_error("denied: Secret store", None), Some("host:secrets".to_string()));
    assert_eq!(capability_hint_from_error("HTTP denied", None), Some("host:http".to_string()));
    let caps = vec!["wasi.keyvalue.get".to_string(), "host.state.read".to_string()];
    assert_eq!(capability_hint_from_error("denied", Some(&caps)), Some("host:state".to_string()));
    assert_eq!(capability_hint_from_error("denied", Some(&Vec::new())), None);
    assert_eq!(
        wrap_wizard_error("call describe: state access denied", "ai.echo", "apply-answers", None),
        "component 'ai.echo' operation 'describe' failed due to denied host ref; requested capability 'host:state'. hint: grant capability host:state to this component"
    );
    assert_eq!(wrap_wizard_error("trap", "ai.echo", "apply-answers", None), "component 'ai.echo' operation 'apply-answers' failed");
}
