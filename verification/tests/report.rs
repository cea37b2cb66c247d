use forge::report::{
    extract_content_kind, extract_relative_path, group_by_provider, provider_has_errors,
    skip_reason_label, summary_parts,
};
use forge::result::{ActionResult, DeployedFile, SkipReason, SkippedFile};

fn deployed(provider: &str, target: &str) -> DeployedFile {
    DeployedFile {
        source: "src".to_string(),
        target: target.to_string(),
        provider: provider.to_string(),
    }
}

fn skipped(provider: &str, target: &str, reason: SkipReason) -> SkippedFile {
    SkippedFile { target: target.to_string(), provider: provider.to_string(), reason }
}

#[test]
fn extract_content_kind_prefers_agents_skills_rules() {
    assert_eq!(extract_content_kind("/h/.alpha/agents/Dev.md"), "agents");
    assert_eq!(extract_content_kind("/h/.alpha/skills/S/SKILL.md"), "skills");
    assert_eq!(extract_content_kind("/h/.alpha/rules/R.md"), "rules");
    assert_eq!(extract_content_kind("/h/.alpha/other/x.md"), "files");
}

#[test]
fn extract_relative_path_keeps_three_segments() {
    assert_eq!(extract_relative_path("/home/u/.alpha/rules/R.md"), ".alpha/rules/R.md");
    assert_eq!(extract_relative_path("rules/R.md"), "rules/R.md");
    assert_eq!(extract_relative_path("a/b/c"), "a/b/c");
}

#[test]
fn group_by_provider_counts_kinds_and_collects_skips() {
    let result = ActionResult {
        installed: vec![
            deployed("beta", "/t/.beta/rules/A.md"),
            deployed("alpha", "/t/.alpha/skills/S/SKILL.md"),
            deployed("alpha", "/t/.alpha/rules/B.md"),
            deployed("alpha", "/t/.alpha/rules/C.md"),
        ],
        skipped: vec![
            skipped("gamma", "/t/.gamma/rules/D.md", SkipReason::Unchanged),
            skipped("alpha", "/t/.alpha/rules/E.md", SkipReason::UserModified),
        ],
        errors: Vec::new(),
    };
    let groups = group_by_provider(&result);
    let names: Vec<&str> = groups.iter().map(|g| g.provider.as_str()).collect();
    assert_eq!(names, vec!["alpha", "beta", "gamma"]);
    assert_eq!(groups[0].kinds, vec![("rules".to_string(), 2), ("skills".to_string(), 1)]);
    assert_eq!(groups[0].skips.len(), 1);
    assert_eq!(groups[0].skips[0].reason, SkipReason::UserModified);
    assert_eq!(groups[1].kinds, vec![("rules".to_string(), 1)]);
    assert!(groups[2].kinds.is_empty());
    assert_eq!(groups[2].skips.len(), 1);
}

#[test]
fn provider_errors_are_found_by_tag() {
    let errors = vec!["failed to write x (alpha)".to_string()];
    assert!(provider_has_errors(&errors, "alpha"));
    assert!(!provider_has_errors(&errors, "beta"));
}

#[test]
fn summary_parts_count_each_outcome() {
    let mut result = ActionResult::new();
    assert!(summary_parts(&result, "deployed").is_empty());
    result.installed.push(deployed("alpha", "/t/a.md"));
    result.installed.push(deployed("alpha", "/t/b.md"));
    result.errors.push("boom".to_string());
    assert_eq!(summary_parts(&result, "deployed"), vec!["● 2 deployed", "✗ 1 error"]);
    result.skipped.push(skipped("alpha", "/t/c.md", SkipReason::TargetMismatch));
    result.errors.push("again".to_string());
    assert_eq!(
        summary_parts(&result, "copied"),
        vec!["● 2 copied", "○ 1 skipped", "✗ 2 errors"]
    );
    assert_eq!(skip_reason_label(SkipReason::TargetMismatch), "target mismatch");
}
