use forge::digest::content_sha256;
use forge::provenance::resolve_sidecar_path;
use forge::sidecar::{adr_state, parse_adoption, SidecarRecord};

fn copy_record(sha: &str) -> SidecarRecord {
    SidecarRecord {
        build_type: "https://github.com/N4M3Z/forge-cli/copy/v1".to_string(),
        source: "https://example.com/upstream".to_string(),
        upstream_url: String::new(),
        upstream_commit: String::new(),
        transforms_applied: Vec::new(),
        dependencies: Vec::new(),
        subject_shas: vec![sha.to_string()],
        upstream_author: String::new(),
        upstream_license: String::new(),
        adopted_by: String::new(),
    }
}

#[test]
fn adr_state_classifies_authored_copied_modified() {
    assert_eq!(adr_state(None, "anything").0, "authored");
    let content = "decision body\n";
    let sha = content_sha256(content);
    let sidecar = copy_record(&sha);
    assert_eq!(adr_state(Some(Some(&sidecar)), content).0, "copied");
    assert_eq!(adr_state(Some(Some(&sidecar)), "edited body\n").0, "modified");
}

#[test]
fn adr_state_unreadable_sidecar_counts_as_copied() {
    let (state, label) = adr_state(Some(None), "anything");
    assert_eq!(state, "copied");
    assert_eq!(label, "");
}

#[test]
fn parse_adoption_prefers_upstream_url_and_skips_upstream_dependency() {
    let mut record = copy_record("abc");
    record.build_type = "https://example.com/adopt/v1".to_string();
    record.upstream_url = "https://github.com/owner/repo".to_string();
    record.dependencies = vec![
        ("upstream".to_string(), "git+https://github.com/owner/repo".to_string(), "d1".to_string()),
        ("helper".to_string(), "file:helper.md".to_string(), "d2".to_string()),
        (String::new(), "file:anon.md".to_string(), "d3".to_string()),
    ];
    let adoption = parse_adoption(&record);
    assert_eq!(adoption.kind, "adopt");
    assert_eq!(adoption.source, "https://github.com/owner/repo");
    assert_eq!(adoption.source_sha, "d1");
    assert_eq!(adoption.dependencies.len(), 1);
    assert_eq!(adoption.dependencies[0].name, "helper");
}

#[test]
fn resolve_sidecar_path_appends_provenance_directory() {
    let result = resolve_sidecar_path("/home/.alpha/rules/UseRTK.md", false, false);
    assert!(result.contains(".provenance"));
}

#[test]
fn resolve_sidecar_path_uses_stem_when_neither_exists() {
    let result = resolve_sidecar_path("/home/.alpha/agents/Dev.md", false, false);
    let filename = result.rsplit('/').next().unwrap();
    assert!(!filename.contains(".md."));
    assert!(filename.starts_with("Dev."));
}

#[test]
fn resolve_sidecar_path_preserves_parent_directory() {
    let result = resolve_sidecar_path("/project/.alpha/rules/UseRTK.md", false, false);
    assert!(std::path::Path::new(&result).starts_with("/project/.alpha/rules"));
}

#[test]
fn is_stale_compares_the_recorded_source_digest() {
    let recorded = content_sha256("source v1");
    assert!(!forge::sidecar::is_stale(Some(&recorded), Some("source v1")));
    assert!(forge::sidecar::is_stale(Some(&recorded), Some("source v2")));
    assert!(!forge::sidecar::is_stale(None, Some("source v2")));
    assert!(!forge::sidecar::is_stale(Some(&recorded), None));
}
