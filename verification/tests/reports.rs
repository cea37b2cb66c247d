use forge::drift::{DriftEntry, DriftResult, DriftStatus};
use forge::lines::{action_report_lines, drift_report_lines, provenance_report_lines, StyledLine, Tone};
use forge::provenance::ProvenanceSummary;
use forge::report::group_by_provider;
use forge::result::{ActionResult, DeployedFile, SkipReason, SkippedFile};

fn text(line: &StyledLine) -> String {
    line.spans.iter().map(|span| span.text.as_str()).collect()
}

fn texts(lines: &[StyledLine]) -> Vec<String> {
    lines.iter().map(text).collect()
}

fn entry(name: &str, status: DriftStatus, category: &str, keys: &[&str]) -> DriftEntry {
    DriftEntry {
        name: name.to_string(),
        status,
        category: category.to_string(),
        changed_keys: keys.iter().map(|k| k.to_string()).collect(),
    }
}

#[test]
fn drift_report_groups_by_category_and_summarises() {
    let result = DriftResult {
        entries: vec![
            entry("a.md", DriftStatus::Identical, "rules", &[]),
            entry("b.md", DriftStatus::FrontmatterOnly, "agents", &["model", "tools"]),
            entry("c.md", DriftStatus::LocalOnly, "rules", &[]),
        ],
        errors: vec!["bad file".to_string()],
    };
    let lines = drift_report_lines(&result);
    assert_eq!(
        texts(&lines),
        vec![
            String::new(),
            " rules".to_string(),
            "   ✓ a.md".to_string(),
            "   ● c.md — local only".to_string(),
            " agents".to_string(),
            "   ┌ b.md".to_string(),
            "   │  frontmatter  ⚡ model, tools".to_string(),
            "   │  body         ✓".to_string(),
            "   └".to_string(),
            "   ✗ bad file".to_string(),
            String::new(),
            " ✓ 1 identical  ⚡ 1 drifted  ● 1 local".to_string(),
            String::new(),
        ]
    );
    assert_eq!(lines[1].spans[1].tone, Tone::Bold);
    assert_eq!(lines[9].spans[1].tone, Tone::Red);
}

#[test]
fn drift_report_of_nothing_has_no_summary() {
    let lines = drift_report_lines(&DriftResult { entries: Vec::new(), errors: Vec::new() });
    assert_eq!(texts(&lines), vec![String::new(), String::new(), String::new()]);
}

#[test]
fn provenance_report_lists_sources_and_orphans() {
    let summary = ProvenanceSummary {
        by_source: vec![("alpha".to_string(), 2, 2), ("beta".to_string(), 1, 3)],
        orphans: vec!["x.md".to_string()],
        exit_code: 1,
    };
    let shown = provenance_report_lines(&summary, "/d", true);
    assert_eq!(
        texts(&shown),
        vec![
            String::new(),
            " alpha → ✓ 2 verified".to_string(),
            " beta → ✗ 1/3 verified".to_string(),
            String::new(),
            " orphans (1 files without provenance)".to_string(),
            "   • x.md".to_string(),
            String::new(),
        ]
    );
    assert_eq!(shown[1].spans[5].tone, Tone::Green);
    assert_eq!(shown[2].spans[5].tone, Tone::Red);
    let hidden = provenance_report_lines(&summary, "/d", false);
    assert_eq!(hidden.len(), 4);
}

#[test]
fn provenance_report_of_empty_directory_says_so() {
    let summary = ProvenanceSummary { by_source: Vec::new(), orphans: Vec::new(), exit_code: 0 };
    let lines = provenance_report_lines(&summary, "/empty", true);
    assert_eq!(
        texts(&lines),
        vec![String::new(), " No provenance found in /empty".to_string(), String::new()]
    );
}

#[test]
fn action_report_shows_providers_errors_and_summary() {
    let result = ActionResult {
        installed: vec![
            DeployedFile {
                source: "s".to_string(),
                target: "/t/.alpha/rules/A.md".to_string(),
                provider: "alpha".to_string(),
            },
            DeployedFile {
                source: "s".to_string(),
                target: "/t/.alpha/agents/B.md".to_string(),
                provider: "alpha".to_string(),
            },
        ],
        skipped: vec![SkippedFile {
            target: "/home/u/.beta/rules/C.md".to_string(),
            provider: "beta".to_string(),
            reason: SkipReason::UserModified,
        }],
        errors: vec!["cannot write C.md (beta)".to_string()],
    };
    let groups = group_by_provider(&result);
    let lines = action_report_lines(&result, &groups, "deployed");
    assert_eq!(
        texts(&lines),
        vec![
            String::new(),
            " ✓ alpha".to_string(),
            "   agents 1  rules 1".to_string(),
            " ✗ beta".to_string(),
            "   ○ .beta/rules/C.md — user modified".to_string(),
            "   ✗ cannot write C.md (beta)".to_string(),
            String::new(),
            " ● 2 deployed  ○ 1 skipped  ✗ 1 error".to_string(),
            String::new(),
        ]
    );
    assert_eq!(lines[3].spans[1].tone, Tone::Red);
}

#[test]
fn action_report_of_nothing_is_blank() {
    let result = ActionResult { installed: Vec::new(), skipped: Vec::new(), errors: Vec::new() };
    let lines = action_report_lines(&result, &group_by_provider(&result), "copied");
    assert_eq!(texts(&lines), vec![String::new(), String::new()]);
}
