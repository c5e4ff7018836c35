use cxdb::client::types::provenance::{
    new_provenance, new_provenance_at, normalize_arch, process_provenance, with_correlation_id,
    with_env_vars_from, with_on_behalf_of, with_parent_context, with_service, Provenance, ProvenanceOption,
};

#[test]
fn with_parent_context_sets_root() {
    let p = new_provenance(None, vec![with_parent_context(100, 50)]);
    assert_eq!(p.parent_context_id, Some(100));
    assert_eq!(p.root_context_id, Some(50));

    let p2 = new_provenance(None, vec![with_parent_context(200, 0)]);
    assert_eq!(p2.root_context_id, Some(200));
}

#[test]
fn new_provenance_inherits_and_overrides() {
    let base = process_provenance("test-service", "1.0.0", "inst-1", 42, "me", "host", "x86_64", 1000, &vec![]);
    let derived = new_provenance(
        Some(&base),
        vec![with_on_behalf_of("user123", "slack", "user@example.com"), with_correlation_id("req-abc")],
    );
    assert_eq!(derived.service_name, "test-service");
    assert_eq!(derived.service_instance_id, base.service_instance_id);
    assert_eq!(derived.on_behalf_of, "user123");
    assert_eq!(derived.on_behalf_of_source, "slack");
    assert_eq!(derived.on_behalf_of_email, "user@example.com");
    assert_eq!(derived.correlation_id, "req-abc");
    assert!(derived.captured_at >= base.captured_at);
    assert_eq!(base.host_arch, "amd64");
}

#[test]
fn env_vars_respect_allowlist() {
    let env = vec![
        ("TEST_PROV_VAR".to_string(), "test-value".to_string()),
        ("EMPTY_VAR".to_string(), "".to_string()),
    ];
    let opt = with_env_vars_from(
        Some(vec!["TEST_PROV_VAR".to_string(), "NONEXISTENT_VAR".to_string(), "EMPTY_VAR".to_string()]),
        &env,
    );
    let p = new_provenance_at(None, &vec![opt], 7);
    let vars = p.env_vars.expect("env vars");
    assert_eq!(vars, vec![("TEST_PROV_VAR".to_string(), "test-value".to_string())]);
    assert_eq!(p.captured_at, 7);
    let none = new_provenance_at(None, &vec![with_env_vars_from(Some(vec!["X".to_string()]), &env)], 1);
    assert!(none.env_vars.is_none());
}

#[test]
fn service_keeps_instance_when_empty() {
    let mut p = Provenance::default();
    p.service_instance_id = "old".to_string();
    with_service("svc", "2", "").apply(&mut p);
    assert_eq!(p.service_name, "svc");
    assert_eq!(p.service_instance_id, "old");
    with_service("svc", "2", "new").apply(&mut p);
    assert_eq!(p.service_instance_id, "new");
    ProvenanceOption::SpawnReason("x".into()).apply(&mut p);
    assert_eq!(p.spawn_reason, "x");
}

#[test]
fn later_option_wins() {
    let p = new_provenance_at(None, &vec![with_correlation_id("a"), with_correlation_id("b")], 0);
    assert_eq!(p.correlation_id, "b");
}

#[test]
fn arch_names() {
    assert_eq!(normalize_arch("x86_64"), "amd64");
    assert_eq!(normalize_arch("aarch64"), "arm64");
    assert_eq!(normalize_arch("riscv64"), "riscv64");
}
