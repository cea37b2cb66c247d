use forge::assemble::{apply_kebab_case_to_path, SourceFile};
use forge::deploy::{plan_provider, record_plans, stale_keys, validate_target_boundary, BuildFile};
use forge::digest::{content_sha256, FileStatus, ManifestEntry};
use forge::dotforge::{check_source, check_manifest, resolve_sources, ArtifactList, DotForge, Source};
use forge::drift::{compare_file_content, DriftStatus};
use forge::provenance::{summarize, DeployedRecord};
use forge::provider::{
    choose_models,
    load_models, load_providers, load_tool_mappings, map_tool, provider_targets,
    validate_qualifier, AssemblyRule, ProviderConfig,
};
use forge::result::{ActionResult, SkipReason};
use forge::transform::markdown_to_toml;
use forge::web::page_bounds;

fn list(rules: &[&str]) -> ArtifactList {
    ArtifactList {
        skills: Vec::new(),
        agents: Vec::new(),
        rules: rules.iter().map(|rule| rule.to_string()).collect(),
    }
}

#[test]
fn check_manifest_rejects_other_schema_versions() {
    let manifest = DotForge { version: 2, sources: Vec::new(), artifacts: Vec::new() };
    assert_eq!(
        check_manifest(manifest).unwrap_err(),
        ".forge: schema version 2 is not supported (this build only understands version 1)"
    );
}

#[test]
fn check_manifest_rejects_lists_without_a_source() {
    let manifest = DotForge {
        version: 1,
        sources: vec![("core".to_string(), Source::Local { path: "../core".to_string() })],
        artifacts: vec![("core".to_string(), list(&["A"])), ("extra".to_string(), list(&["B"]))],
    };
    assert_eq!(
        check_manifest(manifest).unwrap_err(),
        ".forge: artifacts entry 'extra' has no matching `sources` entry"
    );
}

#[test]
fn check_manifest_accepts_declared_sources() {
    let manifest = DotForge {
        version: 1,
        sources: vec![("core".to_string(), Source::Local { path: "../core".to_string() })],
        artifacts: vec![("core".to_string(), list(&["A"]))],
    };
    let checked = check_manifest(manifest).unwrap();
    assert_eq!(checked.artifacts[0].1.rules, vec!["A".to_string()]);
}

fn source(path: &str) -> SourceFile {
    SourceFile {
        relative_path: path.to_string(),
        full_path: format!("/m/{path}"),
        content: String::new(),
        kind: "rules".to_string(),
        passthrough: false,
    }
}

#[test]
fn resolve_sources_rejects_an_artifact_from_two_sources() {
    let error = resolve_sources(vec![source("rules/A.md"), source("rules/B.md"), source("rules/A.md")])
        .unwrap_err();
    assert_eq!(error, ".forge: artifact rules/A.md requested from more than one source");
    assert_eq!(resolve_sources(vec![source("rules/A.md")]).unwrap().len(), 1);
}

#[test]
fn content_sha256_is_the_hex_sha256() {
    assert_eq!(
        content_sha256(""),
        "e3b0c44298fc1c149afbf4c8996fb92427ae41e4649b934ca495991b7852b855"
    );
    assert_eq!(
        content_sha256("abc"),
        "ba7816bf8f01cfea414140de5dae2223b00361a396177a9cb410ff61f20015ad"
    );
}

fn build(relative: &str, content: &str, target: Option<&str>) -> BuildFile {
    BuildFile {
        kind: "rules".to_string(),
        relative: relative.to_string(),
        build_path: format!("/b/alpha/rules/{relative}"),
        content: content.to_string(),
        target_content: target.map(str::to_string),
    }
}

#[test]
fn plan_provider_classifies_each_file_and_updates_the_manifest() {
    let mut manifest = vec![
        ("rules/Edited.md".to_string(), ManifestEntry { sha256: content_sha256("old") }),
        ("rules/Moved.md".to_string(), ManifestEntry { sha256: content_sha256("old") }),
    ];
    let files = vec![
        build("New.md", "n", None),
        build("Same.md", "s", Some("s")),
        build("Edited.md", "new", Some("user edit")),
        build("Moved.md", "new", Some("old")),
        build("New.yaml", "sidecar", None),
    ];
    let plans = plan_provider(&files, &mut manifest, "/t/.alpha", false);
    let statuses: Vec<FileStatus> = plans.iter().map(|plan| plan.status).collect();
    assert_eq!(
        statuses,
        vec![FileStatus::New, FileStatus::Unchanged, FileStatus::Modified, FileStatus::Stale]
    );
    let copies: Vec<bool> = plans.iter().map(|plan| plan.copy).collect();
    assert_eq!(copies, vec![true, false, false, true]);
    assert_eq!(plans[0].target_path, "/t/.alpha/rules/New.md");
    let edited = manifest.iter().find(|(key, _)| key == "rules/Edited.md").unwrap();
    assert_eq!(edited.1.sha256, content_sha256("old"));
    let moved = manifest.iter().find(|(key, _)| key == "rules/Moved.md").unwrap();
    assert_eq!(moved.1.sha256, content_sha256("new"));

    let mut result = ActionResult::new();
    record_plans(&plans, "alpha", &mut result);
    assert_eq!(result.installed.len(), 2);
    assert_eq!(result.skipped.len(), 2);
    assert_eq!(result.skipped[0].reason, SkipReason::Unchanged);
    assert_eq!(result.skipped[1].reason, SkipReason::UserModified);

    let forced = plan_provider(&files[2..3], &mut Vec::new(), "/t/.alpha", true);
    assert!(forced[0].copy);
}

#[test]
fn redeploying_the_same_build_copies_nothing() {
    let mut manifest = vec![("rules/Moved.md".to_string(), ManifestEntry { sha256: content_sha256("old") })];
    let files = vec![build("New.md", "n", None), build("Moved.md", "new", Some("old"))];
    let first = plan_provider(&files, &mut manifest, "/t/.alpha", false);
    assert!(first.iter().all(|plan| plan.copy));
    let deployed: Vec<BuildFile> = files
        .iter()
        .map(|f| BuildFile { target_content: Some(f.content.clone()), ..f.clone() })
        .collect();
    let again = plan_provider(&deployed, &mut manifest, "/t/.alpha", false);
    assert!(again.iter().all(|plan| plan.status == FileStatus::Unchanged && !plan.copy));
}

#[test]
fn stale_keys_are_recorded_content_keys_not_deployed() {
    let manifest = vec![
        ("rules/Gone.md".to_string(), ManifestEntry { sha256: "x".to_string() }),
        ("rules/Kept.md".to_string(), ManifestEntry { sha256: "y".to_string() }),
        ("settings.json".to_string(), ManifestEntry { sha256: "z".to_string() }),
    ];
    assert_eq!(
        stale_keys(&manifest, &["rules/Kept.md".to_string()]),
        vec!["rules/Gone.md".to_string()]
    );
}

#[test]
fn validate_target_boundary_reports_an_escape() {
    assert!(validate_target_boundary("/h/x", "/h/x", "/h").is_ok());
    assert_eq!(
        validate_target_boundary("/h/../etc", "/etc", "/h").unwrap_err(),
        "target path escapes base directory: /h/../etc resolves outside /h"
    );
}

#[test]
fn provider_tables_load_from_yaml() {
    let models = load_models("alpha:\n  - alpha-large\n  - alpha-medium\nbeta:\n  - b4-mini\n").unwrap();
    assert_eq!(models.len(), 2);
    assert_eq!(models[0].0, "alpha");
    assert_eq!(models[0].1, vec!["alpha-large".to_string(), "alpha-medium".to_string()]);
    assert!(load_models("not: [valid").is_err());
    let mappings = load_tool_mappings("beta:\n  Read: read_file\n", "beta").unwrap();
    assert_eq!(map_tool("Read", &mappings), "read_file");
    assert_eq!(map_tool("Write", &mappings), "Write");
    assert!(load_tool_mappings("beta:\n  Read: read_file\n", "alpha").unwrap().is_empty());
}

#[test]
fn qualifier_and_rule_errors_name_the_input() {
    let models = vec![("alpha".to_string(), vec!["alpha-large".to_string()])];
    assert!(validate_qualifier("alpha-large", &models).is_ok());
    assert!(validate_qualifier("alpha", &models).is_ok());
    assert!(validate_qualifier("user", &models).is_ok());
    assert_eq!(
        validate_qualifier("large", &models).unwrap_err(),
        "unknown qualifier 'large': not a provider or model"
    );
    assert_eq!(AssemblyRule::from_name("kebab-case").unwrap(), AssemblyRule::KebabCase);
    assert_eq!(
        AssemblyRule::from_name("shout").unwrap_err(),
        "unknown assembly rule: 'shout'"
    );
}

fn config(target: &str) -> ProviderConfig {
    ProviderConfig { target: target.to_string(), assembly: None, deploy: None }
}

#[test]
fn providers_fall_back_and_sort_by_name() {
    let embedded = vec![("beta".to_string(), config(".beta"))];
    let chosen = load_providers(Err("no providers".to_string()), Ok(embedded)).unwrap();
    assert_eq!(chosen[0].0, "beta");
    assert!(load_providers(Err("a".to_string()), Err("b".to_string())).is_err());
    let targets = provider_targets(&[
        ("gamma".to_string(), config(".gamma")),
        ("alpha".to_string(), config(".alpha")),
    ]);
    assert_eq!(targets[0], ("alpha".to_string(), ".alpha".to_string()));
    assert_eq!(targets[1], ("gamma".to_string(), ".gamma".to_string()));
}

#[test]
fn markdown_to_toml_writes_description_and_body() {
    let toml = markdown_to_toml("agents/Dev.md", "---\ndescription: A \"quoted\" word\n---\nBody text\n")
        .unwrap();
    assert_eq!(
        toml,
        "# source: agents/Dev.md\ndescription = \"A \\\"quoted\\\" word\"\ninstructions = \"\"\"\nBody text\n\"\"\"\n"
    );
}

#[test]
fn markdown_to_toml_matches_the_documented_layout() {
    let md = "---\ndescription: A helper agent\n---\n\nDo helpful things.";
    assert_eq!(
        markdown_to_toml("Helper.md", md).unwrap(),
        "# source: Helper.md\ndescription = \"A helper agent\"\ninstructions = \"\"\"\nDo helpful things.\n\"\"\"\n"
    );
}

#[test]
fn summarize_counts_by_source_and_reports_orphans() {
    let record = |path: &str, source: Option<&str>, verified: bool| DeployedRecord {
        relative_path: path.to_string(),
        source: source.map(str::to_string),
        verified,
    };
    let records = vec![
        record("rules/A.md", Some("https://example.com/core"), true),
        record("rules/B.md", Some("https://example.com/core"), false),
        record("rules/C.md", None, false),
        record("agents/D.md", Some("https://example.com/agents"), true),
    ];
    let summary = summarize(&records, None, true);
    assert_eq!(
        summary.by_source,
        vec![
            ("https://example.com/agents".to_string(), 1, 1),
            ("https://example.com/core".to_string(), 1, 2),
        ]
    );
    assert_eq!(summary.orphans, vec!["rules/C.md".to_string()]);
    assert_eq!(summary.exit_code, 1);
    assert_eq!(summarize(&records, Some("agents"), false).by_source.len(), 1);
    assert_eq!(summarize(&records, None, false).exit_code, 0);
}

#[test]
fn page_bounds_clamp_the_requested_page() {
    let (page, pages, start, end) = page_bounds(45, 9);
    assert_eq!((page, pages), (pages, pages));
    assert!(start <= end && end == 45);
    assert_eq!(page_bounds(0, 3).0, 1);
}

#[test]
fn laws_hold_on_examples() {
    let once = apply_kebab_case_to_path("SceneReview/GameMaster.md");
    assert_eq!(once, "scene-review/game-master.md");
    assert_eq!(apply_kebab_case_to_path(&once), once);
    let same = compare_file_content("R.md", "---\na: 1\n---\nx", "---\na: 1\n---\nx", "rules", &[]);
    assert_eq!(same.status, DriftStatus::Identical);
}

#[test]
fn check_source_reports_missing_paths_and_modules() {
    assert_eq!(
        check_source("core", "/r/core", Err("No such file".to_string()), false),
        Err(".forge: source 'core' path /r/core does not exist: No such file".to_string())
    );
    assert_eq!(
        check_source("core", "/r/core", Ok("/abs/core".to_string()), false),
        Err(".forge: source 'core' at /abs/core has no module.yaml".to_string())
    );
    assert_eq!(check_source("core", "/r/core", Ok("/abs/core".to_string()), true), Ok("/abs/core".to_string()));
}

#[test]
fn stale_keys_lists_a_repeated_key_once() {
    let manifest = vec![
        ("rules/Gone.md".to_string(), ManifestEntry { sha256: "x".to_string() }),
        ("rules/Gone.md".to_string(), ManifestEntry { sha256: "y".to_string() }),
    ];
    assert_eq!(stale_keys(&manifest, &[]), vec!["rules/Gone.md".to_string()]);
}

#[test]
fn choose_models_falls_back_to_the_builtin_table() {
    let module = "alpha: [alpha-large]\n";
    let builtin = "beta: [beta-small]\n";
    assert_eq!(
        choose_models(Some(module), Some(builtin)),
        vec![("alpha".to_string(), vec!["alpha-large".to_string()])]
    );
    assert_eq!(
        choose_models(Some("- not a map"), Some(builtin)),
        vec![("beta".to_string(), vec!["beta-small".to_string()])]
    );
    assert_eq!(choose_models(None, Some(builtin)).len(), 1);
    assert!(choose_models(Some("- not a map"), None).is_empty());
}
