use greentic_flow::fixtures::{
    abi_from_text, fixture_candidates, fixture_root, fixture_wizard, AbiSource, FixtureEntry, FixtureIndex,
};
use greentic_flow::wizard_ops::{WizardAbi, WizardMode};

fn present(paths: &[&str]) -> Vec<String> {
    paths.iter().map(|p| p.to_string()).collect()
}

#[test]
fn fixture_root_reads_the_resolver() {
    assert_eq!(fixture_root(Some("fixture://fx")), Some("fx".to_string()));
    assert_eq!(fixture_root(Some("https://x")), None);
    assert_eq!(fixture_root(None), None);
}

#[test]
fn flat_fixture_files_by_key() {
    let files = present(&["fx/ghcr.io_acme_echo_1.qa-default.cbor", "fx/ghcr.io_acme_echo_1.apply-answers.cbor"]);
    let w = fixture_wizard(&files, "fx", None, "oci://ghcr.io/acme/echo:1", WizardMode::Default)
        .expect("ok")
        .expect("fixture");
    assert_eq!(w.qa_spec, "fx/ghcr.io_acme_echo_1.qa-default.cbor");
    assert_eq!(w.apply_answers, "fx/ghcr.io_acme_echo_1.apply-answers.cbor");
    assert!(w.describe.is_none());
    assert!(matches!(w.abi, AbiSource::Fixed(WizardAbi::V6)));
}

#[test]
fn flat_fixture_absent_or_incomplete() {
    assert!(fixture_wizard(&Vec::new(), "fx", None, "echo", WizardMode::Default).expect("ok").is_none());
    let files = present(&["fx/echo.describe.cbor"]);
    let err = fixture_wizard(&files, "fx", None, "echo", WizardMode::Default).err().expect("refused");
    assert_eq!(
        err,
        "fixture wizard missing qa-spec/apply-answers for echo (expected fx/echo.qa-spec.cbor and fx/echo.apply-answers.cbor)"
    );
}

#[test]
fn flat_fixture_update_falls_back_to_upgrade_files() {
    let files = present(&["fx/echo.qa-upgrade.cbor", "fx/echo.apply-upgrade-config.cbor", "fx/echo.abi"]);
    let w = fixture_wizard(&files, "fx", None, "echo", WizardMode::Update).expect("ok").expect("fixture");
    assert_eq!(w.qa_spec, "fx/echo.qa-upgrade.cbor");
    assert_eq!(w.apply_answers, "fx/echo.apply-upgrade-config.cbor");
    assert!(matches!(w.abi, AbiSource::FromFile(ref p) if p == "fx/echo.abi"));
    assert_eq!(abi_from_text(" 0.5.0\n"), WizardAbi::Legacy);
    assert_eq!(abi_from_text("0.6.0"), WizardAbi::V6);
}

#[test]
fn indexed_fixture_uses_the_entry_directory() {
    let index = FixtureIndex {
        components: vec![(
            "ghcr.io/acme/echo:1".to_string(),
            FixtureEntry { path: Some("echo".to_string()), abi_version: Some("0.5.0".to_string()) },
        )],
    };
    let cands = fixture_candidates("fx", Some(&index), "oci://ghcr.io/acme/echo:1", WizardMode::Setup);
    assert_eq!(cands, vec!["fx/echo/describe.cbor", "fx/echo/qa_setup.cbor", "fx/echo/apply_setup_config.cbor"]);
    let w = fixture_wizard(&cands, "fx", Some(&index), "oci://ghcr.io/acme/echo:1", WizardMode::Setup)
        .expect("ok")
        .expect("fixture");
    assert_eq!(w.describe.as_deref(), Some("fx/echo/describe.cbor"));
    assert!(matches!(w.abi, AbiSource::Fixed(WizardAbi::Legacy)));
    let err = fixture_wizard(&present(&["fx/echo/qa_setup.cbor", "fx/echo/apply_setup_config.cbor"]), "fx", Some(&index), "oci://ghcr.io/acme/echo:1", WizardMode::Setup)
        .err()
        .expect("refused");
    assert_eq!(err, "fixture wizard missing describe for oci://ghcr.io/acme/echo:1 (expected fx/echo/describe.cbor)");
}
