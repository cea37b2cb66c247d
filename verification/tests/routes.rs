use forge::digest::FileStatus;
use forge::view::{ArtifactView, Companion, DashboardView, ModuleView, ProvenanceArtifact, ProvenanceView, StatusSummary};
use forge::web::{companion_artifact, deployments_of, find_companion, find_source_location, group_deployments, sort_results, host_name, locate_artifact, providers_from_records};

fn make_artifact(kind: &str, name: &str, module: &str) -> ArtifactView {
    ArtifactView {
        name: name.to_string(),
        kind: kind.to_string(),
        module: module.to_string(),
        relative_path: format!("{kind}/{name}.md"),
        ..Default::default()
    }
}

fn make_module(name: &str, artifacts: Vec<ArtifactView>) -> ModuleView {
    ModuleView {
        name: name.to_string(),
        version: String::new(),
        description: String::new(),
        source_uri: format!("https://example.com/{name}"),
        is_target: false,
        local_path: None,
        vcs: None,
        git_log: Vec::new(),
        artifacts,
    }
}

fn sample_view() -> DashboardView {
    DashboardView {
        modules: vec![
            make_module(
                "forge-core",
                vec![make_artifact("skills", "LearnFrom", "forge-core")],
            ),
            make_module(
                "proton-agents",
                vec![make_artifact("skills", "LearnFrom", "proton-agents")],
            ),
        ],
        summary: StatusSummary::default(),
        provenance: Vec::new(),
        adrs: Vec::new(),
    }
}

#[test]
fn locate_artifact_qualified_returns_named_module() {
    let view = sample_view();
    let (located_module, located_artifact) =
        locate_artifact(&view, Some("proton-agents"), "skills", "LearnFrom").unwrap();
    assert_eq!(located_module.name, "proton-agents");
    assert_eq!(located_artifact.module, "proton-agents");
}

#[test]
fn locate_artifact_unqualified_returns_first_match() {
    let view = sample_view();
    let (located_module, _) = locate_artifact(&view, None, "skills", "LearnFrom").unwrap();
    assert_eq!(located_module.name, "forge-core");
}

#[test]
fn locate_artifact_none_for_unknown() {
    let view = sample_view();
    assert!(locate_artifact(&view, None, "skills", "Missing").is_none());
}

#[test]
fn host_name_strips_port_and_brackets() {
    assert_eq!(host_name("127.0.0.1:40000"), "127.0.0.1");
    assert_eq!(host_name("forge.localhost"), "forge.localhost");
    assert_eq!(host_name("[::1]:40000"), "::1");
}

fn companion(name: &str) -> Companion {
    Companion {
        name: name.to_string(),
        relative_path: format!("skills/LearnFrom/{name}.md"),
        description: "extra notes".to_string(),
        content_body: "body".to_string(),
        raw_source: "raw".to_string(),
    }
}

#[test]
fn find_companion_searches_modules_in_order() {
    let mut view = sample_view();
    view.modules[1].artifacts[0].companions.push(companion("guide"));
    let (source, found) = find_companion(&view, "LearnFrom", "guide").unwrap();
    assert_eq!(source, "https://example.com/proton-agents");
    assert_eq!(found.name, "guide");
    assert!(find_companion(&view, "LearnFrom", "missing").is_none());
    assert!(find_companion(&view, "Other", "guide").is_none());
}

fn record(harness: &str, verified: bool, sha: &str) -> ProvenanceArtifact {
    ProvenanceArtifact {
        deployed_path: "skills/LearnFrom/guide.md".to_string(),
        source_path: "skills/LearnFrom/guide.md".to_string(),
        harness: harness.to_string(),
        target: "~".to_string(),
        verified,
        deployed_sha: sha.to_string(),
        expected_sha: sha.to_string(),
        input_sha: String::new(),
    }
}

#[test]
fn providers_from_records_keep_the_last_record_per_harness() {
    let a = record("beta", true, "s1");
    let b = record("alpha", false, "s2");
    let c = record("beta", false, "s3");
    let providers = providers_from_records(&[&a, &b, &c]);
    assert_eq!(providers.len(), 2);
    assert_eq!(providers[0].0, "alpha");
    assert_eq!(providers[0].1.status, FileStatus::Modified);
    assert_eq!(providers[1].0, "beta");
    assert_eq!(providers[1].1.status, FileStatus::Modified);
    assert_eq!(providers[1].1.fingerprint.as_deref(), Some("s3"));
}

#[test]
fn companion_artifact_presents_the_companion_as_a_skill() {
    let c = companion("guide");
    let artifact = companion_artifact(&c, Vec::new(), Vec::new(), None);
    assert_eq!(artifact.kind, "skills");
    assert_eq!(artifact.name, "guide");
    assert_eq!(artifact.content_body, "body");
    assert!(artifact.module.is_empty());
}

#[test]
fn group_deployments_orders_harnesses_stably() {
    let rec = |harness: &str, path: &str, target: &str| ProvenanceArtifact {
        deployed_path: path.to_string(),
        source_path: "rules/A.md".to_string(),
        harness: harness.to_string(),
        target: target.to_string(),
        verified: true,
        deployed_sha: String::new(),
        expected_sha: String::new(),
        input_sha: String::new(),
    };
    let entries = vec![
        rec("gamma", "/t/g/A.md", "~"),
        rec("alpha", "/t/a2/A.md", "~"),
        rec("beta", "/p/b/A.md", "proj"),
        rec("alpha", "/t/a1/A.md", "~"),
    ];
    let refs: Vec<&ProvenanceArtifact> = entries.iter().collect();
    let groups = group_deployments(&refs);
    assert_eq!(groups.len(), 2);
    let rows: Vec<(&str, &str)> =
        groups[0].harnesses.iter().map(|h| (h.harness.as_str(), h.deployed_path.as_str())).collect();
    assert_eq!(rows, vec![("alpha", "/t/a2/A.md"), ("alpha", "/t/a1/A.md"), ("gamma", "/t/g/A.md")]);
    assert_eq!(groups[0].harnesses[0].deployed_dir, "/t/a2");
    assert_eq!(groups[1].target, "proj");
}

#[test]
fn sort_results_keeps_equal_keys_in_order() {
    let named = |name: &str, kind: &str| ArtifactView { name: name.to_string(), kind: kind.to_string(), ..Default::default() };
    let a = named("b", "rules");
    let b = named("a", "skills");
    let c = named("b", "agents");
    let m1 = "one".to_string();
    let m2 = "two".to_string();
    let mut matched = vec![(&a, &m2), (&b, &m1), (&c, &m1)];
    sort_results(&mut matched, "name");
    let order: Vec<(&str, &str)> = matched.iter().map(|(x, m)| (x.kind.as_str(), m.as_str())).collect();
    assert_eq!(order, vec![("skills", "one"), ("rules", "two"), ("agents", "one")]);
}

#[test]
fn find_source_location_falls_back_to_the_first_companion() {
    let mut view = sample_view();
    let mut second = companion("guide");
    second.relative_path = "skills/LearnFrom/second.md".to_string();
    view.modules[1].artifacts[0].companions.push(companion("guide"));
    view.modules[1].artifacts[0].companions.push(second);
    assert_eq!(
        find_source_location(&view, "skills", "LearnFrom"),
        Some(("https://example.com/forge-core".to_string(), "skills/LearnFrom.md".to_string()))
    );
    assert_eq!(
        find_source_location(&view, "skills", "guide"),
        Some(("https://example.com/proton-agents".to_string(), "skills/LearnFrom/guide.md".to_string()))
    );
    assert_eq!(find_source_location(&view, "skills", "missing"), None);
}

#[test]
fn deployments_of_collects_each_record_once_in_order() {
    let rec = |harness: &str, path: &str| ProvenanceArtifact {
        deployed_path: path.to_string(),
        source_path: "rules/A.md".to_string(),
        harness: harness.to_string(),
        target: "~".to_string(),
        verified: true,
        deployed_sha: String::new(),
        expected_sha: String::new(),
        input_sha: String::new(),
    };
    let group = |artifacts: Vec<ProvenanceArtifact>| ProvenanceView {
        source_uri: "u".to_string(),
        verified: 0,
        total: 0,
        orphans: Vec::new(),
        artifacts,
    };
    let mut view = sample_view();
    view.provenance = vec![
        group(vec![rec("beta", "rules/A.toml"), rec("alpha", "rules/B.md")]),
        group(vec![rec("alpha", "rules/A.md")]),
    ];
    let found = deployments_of(&view, "rules/A.md");
    let harnesses: Vec<&str> = found.iter().map(|e| e.harness.as_str()).collect();
    assert_eq!(harnesses, vec!["beta", "alpha"]);
}
