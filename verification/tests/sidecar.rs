use greentic_flow::sidecar::{require_sidecar_entry, sidecar_errors, validate_sidecar, SidecarEntry};

fn ids(v: &[&str]) -> Vec<String> {
    v.iter().map(|s| s.to_string()).collect()
}

#[test]
fn sidecar_without_file_misses_every_node() {
    let v = validate_sidecar(&ids(&["a", "b"]), None);
    assert_eq!(v.missing, ids(&["a", "b"]));
    assert!(v.extra.is_empty() && v.invalid.is_empty());
    assert_eq!(sidecar_errors(&v), vec!["missing sidecar entries for nodes: a, b".to_string()]);
}

#[test]
fn sidecar_reports_missing_unused_and_invalid_entries() {
    let entries = vec![
        SidecarEntry { node_id: "a".to_string(), source_error: None },
        SidecarEntry { node_id: "old".to_string(), source_error: Some("local wasm not found".to_string()) },
    ];
    let v = validate_sidecar(&ids(&["a", "b", "c"]), Some(&entries));
    assert_eq!(v.missing, ids(&["b", "c"]));
    assert_eq!(v.extra, ids(&["old"]));
    assert_eq!(v.invalid, ids(&["old: local wasm not found"]));
    assert_eq!(
        sidecar_errors(&v),
        vec![
            "missing sidecar entries for nodes: b, c".to_string(),
            "unused sidecar entries: old".to_string(),
            "invalid sidecar entries: old: local wasm not found".to_string(),
        ]
    );
    let clean = validate_sidecar(&ids(&["a"]), Some(&vec![SidecarEntry { node_id: "a".to_string(), source_error: None }]));
    assert!(sidecar_errors(&clean).is_empty());
}

#[test]
fn updating_without_the_wizard_needs_a_sidecar_entry() {
    let entries = vec![SidecarEntry { node_id: "a".to_string(), source_error: None }];
    assert!(require_sidecar_entry(&entries, "a").is_ok());
    assert_eq!(
        require_sidecar_entry(&entries, "b").err().as_deref(),
        Some("no sidecar mapping for node 'b'; run greentic-flow bind-component or re-add the step with --component/--local-wasm")
    );
}
