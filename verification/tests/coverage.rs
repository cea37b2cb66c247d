use forge::dashboard::build_variant_coverage;
use forge::view::{ArtifactView, DashboardView, ModuleView, StatusSummary, Variant};

fn variant(qualifier: &str, provider: &str, model: &str, mode: &str) -> Variant {
    Variant {
        qualifier: qualifier.to_string(),
        provider: provider.to_string(),
        model: model.to_string(),
        relative_path: format!("rules/{provider}/{model}/Rule.md"),
        mode: mode.to_string(),
    }
}

fn rule_with_variants(name: &str, variants: Vec<Variant>) -> ArtifactView {
    ArtifactView {
        name: name.to_string(),
        kind: "rules".to_string(),
        relative_path: format!("rules/{name}.md"),
        variants,
        ..Default::default()
    }
}

fn module(name: &str, artifacts: Vec<ArtifactView>) -> ModuleView {
    ModuleView {
        name: name.to_string(),
        version: String::new(),
        description: String::new(),
        source_uri: format!("https://example.com/{name}"),
        is_target: false,
        local_path: None,
        vcs: None,
        git_log: Vec::new(),
        artifacts,
    }
}

fn view(modules: Vec<ModuleView>) -> DashboardView {
    DashboardView {
        modules,
        summary: StatusSummary::default(),
        provenance: Vec::new(),
        adrs: Vec::new(),
    }
}

#[test]
fn coverage_excludes_artifacts_without_variants() {
    let covered = rule_with_variants(
        "DeadVariables",
        vec![variant("alpha", "alpha", "", "replace")],
    );
    let bare = rule_with_variants("PlainRule", Vec::new());
    let coverage = build_variant_coverage(&view(vec![module("forge-core", vec![bare, covered])]));
    assert_eq!(coverage.rows.len(), 1);
    assert_eq!(coverage.rows[0].name, "DeadVariables");
}

#[test]
fn coverage_columns_sorted_and_split_into_provider_and_model() {
    let artifact = rule_with_variants(
        "DeadVariables",
        vec![
            variant(
                "alpha/alpha-large-4-8",
                "alpha",
                "alpha-large-4-8",
                "append",
            ),
            variant("alpha", "alpha", "", "replace"),
        ],
    );
    let coverage = build_variant_coverage(&view(vec![module("forge-core", vec![artifact])]));

    let labels: Vec<&str> = coverage.cols.iter().map(|col| col.label.as_str()).collect();
    assert_eq!(labels, vec!["alpha", "alpha-large-4-8"]);
    assert_eq!(coverage.cols[1].provider, "alpha");
    assert_eq!(coverage.cols[1].qualifier, "alpha/alpha-large-4-8");
}

#[test]
fn coverage_cells_carry_mode_link_and_totals() {
    let artifact = rule_with_variants(
        "DeadVariables",
        vec![
            variant("alpha", "alpha", "", "replace"),
            variant(
                "alpha/alpha-large-4-8",
                "alpha",
                "alpha-large-4-8",
                "append",
            ),
        ],
    );
    let coverage = build_variant_coverage(&view(vec![module("forge-core", vec![artifact])]));
    let row = &coverage.rows[0];

    assert_eq!(row.cells[0].mode, "replace");
    assert_eq!(
        row.cells[0].link,
        "/effective/forge-core/rules/DeadVariables?qualifier=alpha"
    );
    assert_eq!(row.cells[1].mode, "append");
    assert_eq!(
        row.cells[1].link,
        "/effective/forge-core/rules/DeadVariables?qualifier=alpha/alpha-large-4-8"
    );
    assert_eq!(coverage.col_totals, vec![1, 1]);
}

#[test]
fn coverage_empty_cell_when_target_missing() {
    let with_model = rule_with_variants(
        "HasModel",
        vec![variant(
            "alpha/alpha-large-4-8",
            "alpha",
            "alpha-large-4-8",
            "replace",
        )],
    );
    let provider_only = rule_with_variants(
        "ProviderOnly",
        vec![variant("alpha", "alpha", "", "replace")],
    );
    let coverage = build_variant_coverage(&view(vec![module(
        "forge-core",
        vec![with_model, provider_only],
    )]));

    let has_model = coverage
        .rows
        .iter()
        .find(|row| row.name == "HasModel")
        .unwrap();
    assert!(has_model.cells[0].mode.is_empty());
    assert!(has_model.cells[0].link.is_empty());
    assert_eq!(has_model.cells[1].mode, "replace");
}
