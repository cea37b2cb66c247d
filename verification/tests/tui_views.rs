use forge::lines::StyledLine;
use forge::tui::{adr_artifact_view, companion_artifact_view, provenance_entries, provenance_lines};
use forge::view::{
    Adoption, Adr, ArtifactView, Companion, DashboardView, Dependency, ModuleView, ProvenanceArtifact,
    ProvenanceView, StatusSummary,
};

fn record(source_path: &str, harness: &str) -> ProvenanceArtifact {
    ProvenanceArtifact {
        deployed_path: format!("/t/.{harness}/{source_path}"),
        source_path: source_path.to_string(),
        harness: harness.to_string(),
        target: "~".to_string(),
        verified: true,
        deployed_sha: "d".to_string(),
        expected_sha: "d".to_string(),
        input_sha: String::new(),
    }
}

fn group(source_uri: &str, artifacts: Vec<ProvenanceArtifact>) -> ProvenanceView {
    ProvenanceView {
        source_uri: source_uri.to_string(),
        verified: 0,
        total: 0,
        orphans: Vec::new(),
        artifacts,
    }
}

fn module(source_uri: &str) -> ModuleView {
    ModuleView {
        name: "core".to_string(),
        version: String::new(),
        description: String::new(),
        source_uri: source_uri.to_string(),
        is_target: false,
        local_path: None,
        vcs: None,
        git_log: Vec::new(),
        artifacts: Vec::new(),
    }
}

#[test]
fn provenance_entries_match_source_without_git_suffix() {
    let view = DashboardView {
        modules: Vec::new(),
        summary: StatusSummary::default(),
        provenance: vec![
            group(
                "https://example.com/core.git",
                vec![record("rules/A.md", "alpha"), record("rules/B.md", "alpha")],
            ),
            group("https://example.com/other", vec![record("rules/A.md", "beta")]),
            group("https://example.com/core", vec![record("mod/rules/A.md", "gamma")]),
        ],
        adrs: Vec::new(),
    };
    let artifact = ArtifactView { relative_path: "rules/A.md".to_string(), ..Default::default() };
    let entries = provenance_entries(&view, &module("https://example.com/core"), &artifact);
    let harnesses: Vec<&str> = entries.iter().map(|e| e.harness.as_str()).collect();
    assert_eq!(harnesses, vec!["alpha", "gamma"]);
}

#[test]
fn adr_artifact_view_reads_frontmatter_and_body() {
    let adr = Adr {
        id: "ADR-0001".to_string(),
        title: "Use YAML".to_string(),
        status: "accepted".to_string(),
        repo: "core".to_string(),
        source_uri: "https://example.com/core".to_string(),
        relative_path: "docs/decisions/0001.md".to_string(),
        state: "authored".to_string(),
        source: String::new(),
        summary: String::new(),
    };
    let raw = "---\nstatus: accepted\n---\nWe use YAML.\n".to_string();
    let view = adr_artifact_view(&adr, raw, Vec::new(), None);
    assert_eq!(view.name, "ADR-0001 Use YAML");
    assert_eq!(view.description, "authored · accepted");
    assert_eq!(view.kind, "adr");
    assert_eq!(view.metadata, vec![("status".to_string(), "accepted".to_string())]);
    assert_eq!(view.content_body, "We use YAML.\n");
}

#[test]
fn companion_artifact_view_is_named_under_its_parent() {
    let companion = Companion {
        name: "guide".to_string(),
        relative_path: "skills/S/guide.md".to_string(),
        description: "how to".to_string(),
        content_body: "text".to_string(),
        raw_source: "text".to_string(),
    };
    let view = companion_artifact_view("core", "S", &companion, Vec::new(), None);
    assert_eq!(view.name, "S/guide");
    assert_eq!(view.kind, "companion");
    assert_eq!(view.module, "core");
    assert_eq!(view.source_path, "skills/S/guide.md");
}

fn line_text(line: &StyledLine) -> String {
    line.spans.iter().map(|span| span.text.as_str()).collect()
}

#[test]
fn provenance_lines_show_upstream_dependencies_and_deployments() {
    let mut helper = module("https://example.com/helpers");
    helper.name = "helpers".to_string();
    helper.artifacts =
        vec![ArtifactView { name: "lint".to_string(), kind: "skills".to_string(), ..Default::default() }];
    let view = DashboardView {
        modules: vec![helper],
        summary: StatusSummary::default(),
        provenance: vec![group("https://example.com/core", vec![record("rules/A.md", "alpha")])],
        adrs: Vec::new(),
    };
    let artifact = ArtifactView {
        relative_path: "rules/A.md".to_string(),
        adoption: Some(Adoption {
            kind: "adopted".to_string(),
            source: String::new(),
            source_repo: String::new(),
            source_label: "upstream/repo".to_string(),
            source_sha: "0123456789abcdef".to_string(),
            commit: String::new(),
            transforms: vec!["kebab".to_string(), "strip".to_string()],
            author: "  ".to_string(),
            license: "MIT".to_string(),
            adopted_by: String::new(),
            dependencies: vec![
                Dependency { name: "lint".to_string(), uri: "u1".to_string(), sha: String::new() },
                Dependency { name: "fmt".to_string(), uri: "u2".to_string(), sha: String::new() },
            ],
        }),
        ..Default::default()
    };
    let lines = provenance_lines(&view, &module("https://example.com/core"), &artifact, "fresh");
    let texts: Vec<String> = lines.iter().map(line_text).collect();
    assert_eq!(
        texts,
        vec![
            "Provenance".to_string(),
            format!("status        {} · fresh", artifact.overall_status()),
            "upstream      upstream/repo @ 0123456789ab".to_string(),
            "adopted       adopted".to_string(),
            "depends on    lint (helpers), fmt".to_string(),
            "transforms    kebab, strip".to_string(),
            "license       MIT".to_string(),
            "source        core".to_string(),
            String::new(),
            "Deployments".to_string(),
            "✓ ~  1/1 verified".to_string(),
            "    alpha       ✓       /t/.alpha/rules/A.md".to_string(),
        ]
    );
}

#[test]
fn provenance_lines_of_authored_artifact() {
    let view = DashboardView {
        modules: Vec::new(),
        summary: StatusSummary::default(),
        provenance: Vec::new(),
        adrs: Vec::new(),
    };
    let artifact = ArtifactView {
        relative_path: "rules/B.md".to_string(),
        sidecar_warning: "misnamed sidecar".to_string(),
        ..Default::default()
    };
    let lines = provenance_lines(&view, &module("https://example.com/core"), &artifact, "new");
    let texts: Vec<String> = lines.iter().map(line_text).collect();
    assert_eq!(texts[2], "upstream      authored here");
    assert_eq!(texts[5], "Deployments");
    assert_eq!(texts[6], "not deployed anywhere");
    assert_eq!(texts[7], "sidecar       misnamed sidecar");
    assert_eq!(texts.len(), 8);
}
