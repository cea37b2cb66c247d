use forge::lines::detail_title;
use forge::nav::{config_rows, hook_rows, schema_rows, settings_rows, ListRow, ListTarget};
use forge::tui::{
    detail_cache_plan, detail_pane, overview_detail_lines, detail_position, find_artifact_indices, CachePlan, DetailPane, DetailTab,
    FileSections,
};
use forge::view::{Adr, ArtifactView, DashboardView, ModuleView, StatusSummary};
use forge::web::{ConfigFile, HarnessFiles, HarnessHooks, HookEntry, SchemaGroup};

fn module(name: &str, artifacts: Vec<ArtifactView>) -> ModuleView {
    ModuleView {
        name: name.to_string(),
        version: String::new(),
        description: String::new(),
        source_uri: String::new(),
        is_target: false,
        local_path: None,
        vcs: None,
        git_log: Vec::new(),
        artifacts,
    }
}

fn artifact(kind: &str, name: &str) -> ArtifactView {
    ArtifactView { kind: kind.to_string(), name: name.to_string(), ..Default::default() }
}

fn adr(repo: &str, id: &str) -> Adr {
    Adr {
        id: id.to_string(),
        title: String::new(),
        status: String::new(),
        repo: repo.to_string(),
        source_uri: String::new(),
        relative_path: String::new(),
        state: String::new(),
        source: String::new(),
        summary: String::new(),
    }
}

fn file(content: &str) -> ConfigFile {
    ConfigFile {
        label: String::new(),
        path: String::new(),
        language: String::new(),
        content: content.to_string(),
    }
}

fn view() -> DashboardView {
    DashboardView {
        modules: vec![
            module("core", vec![artifact("rules", "A"), artifact("skills", "S")]),
            module("extra", vec![artifact("rules", "B")]),
            module("core", vec![artifact("rules", "C")]),
        ],
        summary: StatusSummary::default(),
        provenance: Vec::new(),
        adrs: vec![adr("core", "0001"), adr("extra", "0001")],
    }
}

fn sections() -> FileSections {
    FileSections {
        settings: vec![HarnessFiles { harness: "alpha".to_string(), files: vec![file("settings body")] }],
        hooks: vec![HarnessHooks {
            harness: "alpha".to_string(),
            hooks: vec![HookEntry {
                event: "PreToolUse".to_string(),
                matcher: "Bash".to_string(),
                command: "check".to_string(),
                source: "settings.json".to_string(),
            }],
        }],
        config: vec![file("config body")],
        schemas: vec![SchemaGroup { source: "core".to_string(), files: vec![file("schema body")] }],
    }
}

#[test]
fn find_artifact_indices_uses_the_first_module_of_that_name() {
    let v = view();
    assert_eq!(find_artifact_indices(&v, "core", "skills", "S"), Some((0, 1)));
    assert_eq!(find_artifact_indices(&v, "extra", "rules", "B"), Some((1, 0)));
    assert_eq!(find_artifact_indices(&v, "core", "rules", "C"), None);
    assert_eq!(find_artifact_indices(&v, "missing", "rules", "A"), None);
}

#[test]
fn detail_pane_looks_up_the_selected_target() {
    let v = view();
    let f = sections();
    let target = ListTarget::ProvenanceArtifact {
        module: "core".to_string(),
        kind: "rules".to_string(),
        name: "A".to_string(),
    };
    assert!(matches!(
        detail_pane(&v, &f, Some(target)),
        DetailPane::Artifact { module_index: 0, artifact_index: 0 }
    ));
    let adr_target = ListTarget::Adr { repo: "extra".to_string(), id: "0001".to_string() };
    assert!(matches!(detail_pane(&v, &f, Some(adr_target)), DetailPane::Adr(1)));
    assert!(matches!(
        detail_pane(&v, &f, Some(ListTarget::Module("extra".to_string()))),
        DetailPane::Module(1)
    ));
    match detail_pane(&v, &f, Some(ListTarget::SchemaFile { group: 0, index: 0 })) {
        DetailPane::File(content) => assert_eq!(content, "schema body"),
        _ => panic!("expected the schema file"),
    }
    match detail_pane(&v, &f, Some(ListTarget::Hook { group: 0, index: 0 })) {
        DetailPane::Hook(hook) => assert_eq!(hook.command, "check"),
        _ => panic!("expected the hook"),
    }
    assert!(matches!(detail_pane(&v, &f, None), DetailPane::Overview));
    assert!(matches!(detail_pane(&v, &f, Some(ListTarget::OverviewMode)), DetailPane::Overview));
}

#[test]
fn detail_pane_reports_what_is_missing() {
    let v = view();
    let f = sections();
    let gone = ListTarget::Artifact { module: "core".to_string(), kind: "rules".to_string(), name: "C".to_string() };
    assert!(matches!(detail_pane(&v, &f, Some(gone)), DetailPane::NotFound("artifact not found")));
    let adr_gone = ListTarget::Adr { repo: "core".to_string(), id: "0002".to_string() };
    assert!(matches!(detail_pane(&v, &f, Some(adr_gone)), DetailPane::NotFound("ADR not found")));
    assert!(matches!(
        detail_pane(&v, &f, Some(ListTarget::Module("none".to_string()))),
        DetailPane::NotFound("repository not found")
    ));
    assert!(matches!(
        detail_pane(&v, &f, Some(ListTarget::SettingsFile { group: 0, index: 1 })),
        DetailPane::NotFound("settings file not found")
    ));
    assert!(matches!(
        detail_pane(&v, &f, Some(ListTarget::Hook { group: 1, index: 0 })),
        DetailPane::NotFound("hook not found")
    ));
    assert!(matches!(
        detail_pane(&v, &f, Some(ListTarget::ConfigFile(3))),
        DetailPane::NotFound("config file not found")
    ));
    assert!(matches!(
        detail_pane(&v, &f, Some(ListTarget::SchemaFile { group: 2, index: 0 })),
        DetailPane::NotFound("schema file not found")
    ));
}

#[test]
fn detail_position_follows_the_tab() {
    assert_eq!(detail_position(DetailTab::Code, 4, Some(20), 9, Some(50)), Some((5, 20)));
    assert_eq!(detail_position(DetailTab::Preview, 4, Some(20), 9, Some(50)), Some((10, 50)));
    assert_eq!(detail_position(DetailTab::Code, 0, None, 0, Some(50)), None);
    assert_eq!(detail_title(detail_position(DetailTab::History, 0, None, 2, Some(3))), " Detail · 3/3 ");
}

fn labels(rows: &[ListRow]) -> Vec<(String, String, bool)> {
    rows.iter().map(|r| (r.label.clone(), r.detail.clone(), r.header)).collect()
}

#[test]
fn file_section_rows_list_each_group_and_file() {
    let mut f = sections();
    f.hooks[0].hooks.push(HookEntry {
        event: "Stop".to_string(),
        matcher: String::new(),
        command: "bash -c 'notify done'".to_string(),
        source: "settings.json".to_string(),
    });
    let settings = settings_rows(&f);
    assert_eq!(
        labels(&settings),
        vec![
            ("alpha".to_string(), String::new(), true),
            ("alpha · ".to_string(), String::new(), false),
        ]
    );
    assert!(matches!(settings[1].target, ListTarget::SettingsFile { group: 0, index: 0 }));
    let hooks = hook_rows(&f);
    assert_eq!(
        labels(&hooks),
        vec![
            ("alpha".to_string(), String::new(), true),
            ("PreToolUse · Bash".to_string(), "check".to_string(), false),
            ("Stop · any".to_string(), "notify done".to_string(), false),
        ]
    );
    assert!(matches!(hooks[2].target, ListTarget::Hook { group: 0, index: 1 }));
    let schemas = schema_rows(&f);
    assert_eq!(labels(&schemas)[1].0, " · core");
    assert!(matches!(schemas[1].target, ListTarget::SchemaFile { group: 0, index: 0 }));
    let config = config_rows(&f);
    assert_eq!(config.len(), 1);
    assert!(matches!(config[0].target, ListTarget::ConfigFile(0)));
    assert_eq!(config[0].status, "source");
}

#[test]
fn detail_cache_plan_rebuilds_code_only_for_another_artifact() {
    match detail_cache_plan(DetailTab::Code, "core", "rules/A.md", 80, None, None, false) {
        CachePlan::BuildCode { key } => assert_eq!(key, "core:rules/A.md"),
        other => panic!("unexpected {other:?}"),
    }
    assert!(matches!(
        detail_cache_plan(DetailTab::Code, "core", "rules/A.md", 80, Some("core:rules/A.md"), None, true),
        CachePlan::Keep
    ));
}

#[test]
fn detail_cache_plan_follows_key_width_and_pending_input() {
    let key = "Preview:core:rules/A.md";
    assert!(matches!(
        detail_cache_plan(DetailTab::Preview, "core", "rules/A.md", 80, None, Some((key, 80)), true),
        CachePlan::Keep
    ));
    match detail_cache_plan(DetailTab::Preview, "core", "rules/A.md", 0, None, None, true) {
        CachePlan::Build { key: k, width, reset_scroll } => {
            assert_eq!(k, key);
            assert_eq!(width, 1);
            assert!(!reset_scroll);
        }
        other => panic!("unexpected {other:?}"),
    }
    assert!(matches!(
        detail_cache_plan(DetailTab::Diff, "core", "rules/A.md", 80, None, Some(("Diff:core:rules/B.md", 80)), true),
        CachePlan::Defer
    ));
    match detail_cache_plan(DetailTab::History, "core", "rules/A.md", 80, None, Some(("History:core:rules/B.md", 80)), true) {
        CachePlan::Build { reset_scroll, .. } => assert!(reset_scroll),
        other => panic!("unexpected {other:?}"),
    }
    match detail_cache_plan(DetailTab::Preview, "core", "rules/A.md", 60, None, Some((key, 80)), false) {
        CachePlan::Build { width, reset_scroll, .. } => {
            assert_eq!(width, 60);
            assert!(!reset_scroll);
        }
        other => panic!("unexpected {other:?}"),
    }
}

fn overview_view() -> DashboardView {
    DashboardView {
        modules: vec![
            module("core", vec![artifact("rules", "A"), artifact("rules", "B"), artifact("skills", "S")]),
            module("extra", vec![artifact("rules", "C")]),
        ],
        summary: StatusSummary { unchanged: 3, stale: 1, modified: 0, new: 2 },
        provenance: Vec::new(),
        adrs: Vec::new(),
    }
}

fn plain_texts(lines: &[forge::lines::StyledLine]) -> Vec<String> {
    lines.iter().map(|l| l.spans.iter().map(|s| s.text.as_str()).collect()).collect()
}

#[test]
fn overview_detail_shows_the_matrix() {
    let lines = overview_detail_lines(&overview_view(), true);
    assert_eq!(
        plain_texts(&lines),
        vec![
            "Status summary".to_string(),
            "unchanged 3 · stale 1 · modified 0 · new 2".to_string(),
            String::new(),
            "Matrix".to_string(),
            "columns: skills, agents, rules".to_string(),
            "core  skills:1·  agents:0·  rules:2·".to_string(),
            "extra  skills:0·  agents:0·  rules:1·".to_string(),
        ]
    );
}

#[test]
fn overview_detail_groups_by_kind() {
    let lines = overview_detail_lines(&overview_view(), false);
    assert_eq!(
        plain_texts(&lines)[3..].to_vec(),
        vec![
            "Nested".to_string(),
            "skills (1)".to_string(),
            "  core (1)".to_string(),
            "rules (3)".to_string(),
            "  core (2)".to_string(),
            "  extra (1)".to_string(),
        ]
    );
}
