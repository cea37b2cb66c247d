use forge::lines::{
    detail_title, file_body_lines, help_column_lines, keybindings, hook_detail_lines, companion_lines, deployment_lines, diff_line_colored, diff_lines, history_lines, hint_row,
    hunk_offsets, module_detail_lines, module_vcs_line, vcs_line, wrap_plain, DiffSource,
    StyledLine, Tone,
};
use forge::tui::ColumnFocus;
use forge::vcs::{VcsState, WorktreeState};
use forge::web::HookEntry;
use forge::view::{ArtifactView, Companion, DeployGroup, DeployHarness, GitCommit, ModuleView};

fn text(line: &StyledLine) -> String {
    line.spans.iter().map(|span| span.text.as_str()).collect()
}

fn texts(lines: &[StyledLine]) -> Vec<String> {
    lines.iter().map(text).collect()
}

fn commit(sha: &str, message: &str) -> GitCommit {
    GitCommit {
        sha: sha.to_string(),
        message: message.to_string(),
        date: "2024-05-01 10:00:00 +0000".to_string(),
        author: "Ada".to_string(),
        jj_change: String::new(),
        checkpoint: String::new(),
        prompt: String::new(),
        session_count: 0,
    }
}

#[test]
fn diff_line_colored_follows_pager_colours() {
    assert_eq!(diff_line_colored("+++ b/x").spans[0].tone, Tone::DarkGrayBold);
    assert_eq!(diff_line_colored("+added").spans[0].tone, Tone::Green);
    assert_eq!(diff_line_colored("-gone").spans[0].tone, Tone::Red);
    assert_eq!(diff_line_colored("@@ -1 +1 @@").spans[0].tone, Tone::Cyan);
    assert_eq!(diff_line_colored("index 123").spans[0].tone, Tone::DarkGray);
    assert_eq!(diff_line_colored(" context").spans[0].tone, Tone::Plain);
}

#[test]
fn diff_lines_puts_a_rule_before_each_hunk() {
    let source = DiffSource::Output {
        diff: "diff --git a/x b/x\n@@ -1 +1 @@\n-old\n+new\n".to_string(),
    };
    let lines = diff_lines(&source, 10);
    assert_eq!(
        texts(&lines),
        vec![
            "Diff · uncommitted source changes".to_string(),
            String::new(),
            "diff --git a/x b/x".to_string(),
            "────────".to_string(),
            "@@ -1 +1 @@".to_string(),
            "-old".to_string(),
            "+new".to_string(),
        ]
    );
    assert_eq!(hunk_offsets(&lines), vec![4]);
}

#[test]
fn diff_lines_reports_clean_and_untracked_sources() {
    let clean = diff_lines(&DiffSource::Output { diff: "  \n".to_string() }, 40);
    assert_eq!(text(&clean[1]), "✓ source file matches HEAD — no uncommitted changes");
    let untracked = diff_lines(
        &DiffSource::Untracked { path: "a.md".to_string(), body: Ok("one\ntwo".to_string()) },
        40,
    );
    assert_eq!(text(&untracked[3]), "+one");
    assert_eq!(text(&untracked[4]), "+two");
    let unreadable = diff_lines(
        &DiffSource::Untracked { path: "a.md".to_string(), body: Err("denied".to_string()) },
        40,
    );
    assert_eq!(text(&unreadable[3]), "could not read a.md: denied");
    let failed = diff_lines(&DiffSource::Failed { stderr: " fatal: bad \n".to_string() }, 40);
    assert_eq!(text(&failed[1]), "git diff failed: fatal: bad");
    assert_eq!(text(&diff_lines(&DiffSource::NoRepo, 40)[1]), "no local repo for this module");
}

#[test]
fn wrap_plain_wraps_greedily_and_keeps_long_words() {
    assert_eq!(
        texts(&wrap_plain("the quick brown fox", 10)),
        vec!["the quick".to_string(), "brown fox".to_string()]
    );
    assert_eq!(
        texts(&wrap_plain("a extraordinarily b", 5)),
        vec!["a".to_string(), "extraordinarily".to_string(), "b".to_string()]
    );
    assert_eq!(texts(&wrap_plain("one\ntwo three", 4)), vec!["one", "two", "three"]);
    assert_eq!(texts(&wrap_plain("kept as is", 0)), vec!["kept as is"]);
}

#[test]
fn history_lines_show_checkpoints_and_intent() {
    assert_eq!(texts(&history_lines(&[])), vec!["no git history"]);
    let mut c = commit("abc123", "Fix rule");
    c.jj_change = "kxyz".to_string();
    c.checkpoint = "cp1".to_string();
    c.session_count = 2;
    c.prompt = "tidy up".to_string();
    assert_eq!(
        texts(&history_lines(&[c])),
        vec![
            "Fix rule",
            "2024-05-01 10:00:00 +0000 · Ada · abc123",
            "jj: kxyz",
            "checkpoint cp1 · 2 sessions",
            "intent: tidy up",
            "",
        ]
    );
}

#[test]
fn deployment_lines_badge_each_group_and_harness() {
    assert_eq!(texts(&deployment_lines(&[])), vec!["Deployments", "not deployed anywhere"]);
    let group = DeployGroup {
        target: "~".to_string(),
        verified: 1,
        total: 2,
        harnesses: vec![
            DeployHarness {
                harness: "alpha".to_string(),
                deployed_path: "/h/.alpha/rules/R.md".to_string(),
                deployed_dir: "/h/.alpha/rules".to_string(),
                verified: true,
            },
            DeployHarness {
                harness: "beta".to_string(),
                deployed_path: "/h/.beta/rules/R.md".to_string(),
                deployed_dir: "/h/.beta/rules".to_string(),
                verified: false,
            },
        ],
    };
    let lines = deployment_lines(&[group]);
    assert_eq!(text(&lines[1]), "✗ ~  1/2 verified");
    assert_eq!(text(&lines[2]), "    alpha       ✓       /h/.alpha/rules/R.md");
    assert_eq!(text(&lines[3]), "    beta        ✗ DRIFT /h/.beta/rules/R.md");
}

#[test]
fn vcs_lines_show_branch_counts_and_state() {
    let vcs = VcsState {
        branch: "main".to_string(),
        worktree: WorktreeState::Modified,
        ahead: 2,
        behind: 1,
        jj_colocated: true,
    };
    assert_eq!(text(&module_vcs_line(&vcs)), "main ↑2 ↓1 · jj · ⚠ uncommitted changes");
    let mut artifact = ArtifactView::default();
    assert!(vcs_line(&artifact).is_none());
    artifact.vcs = Some(vcs);
    artifact.git_log = vec![commit("0123456789", "msg")];
    assert_eq!(
        text(&vcs_line(&artifact).unwrap()),
        "main ↑2 ↓1 · ⚠ uncommitted changes · 0123456 2024-05-01"
    );
}

#[test]
fn companion_lines_list_each_companion_body() {
    let mut artifact = ArtifactView::default();
    assert_eq!(texts(&companion_lines(&artifact)), vec!["no companions"]);
    artifact.companions = vec![Companion {
        name: "guide".to_string(),
        relative_path: "skills/S/guide.md".to_string(),
        description: String::new(),
        content_body: "line one\nline two".to_string(),
        raw_source: String::new(),
    }];
    assert_eq!(
        texts(&companion_lines(&artifact)),
        vec!["guide", "path: skills/S/guide.md", "", "line one", "line two", ""]
    );
}

#[test]
fn module_detail_lines_count_artifacts_and_list_commits() {
    let module = ModuleView {
        name: "core".to_string(),
        version: "1.0.0".to_string(),
        description: String::new(),
        source_uri: "https://example.com/core".to_string(),
        is_target: false,
        local_path: Some("/src/core".to_string()),
        vcs: None,
        git_log: vec![commit("abcdef0123", "Init")],
        artifacts: vec![ArtifactView::default(), ArtifactView::default()],
    };
    assert_eq!(
        texts(&module_detail_lines(&module)),
        vec![
            "core",
            "version: 1.0.0",
            "source: https://example.com/core",
            "role: source",
            "local: /src/core",
            "",
            "artifacts: 2",
            "",
            "Recent commits",
            "abcdef0 2024-05-01 Init",
            "",
            "o open gitui · O open jjui",
        ]
    );
}

#[test]
fn hint_row_depends_on_focus() {
    assert!(hint_row(ColumnFocus::Detail).starts_with("Tab/p c d v f i n tabs  ·  1-9 sections"));
    let list = hint_row(ColumnFocus::List);
    assert!(list.starts_with("h/j/k/l move, drill, and go back  ·  arrows"));
    assert!(list.ends_with("PgUp/PgDn scroll detail"));
}

#[test]
fn detail_title_shows_the_position() {
    assert_eq!(detail_title(Some((3, 10))), " Detail · 3/10 ");
    assert_eq!(detail_title(Some((12, 10))), " Detail · 10/10 ");
    assert_eq!(detail_title(Some((1, 0))), " Detail ");
    assert_eq!(detail_title(None), " Detail ");
}

#[test]
fn file_and_hook_details() {
    assert_eq!(texts(&file_body_lines("")), vec![""]);
    assert_eq!(texts(&file_body_lines("a\nb")), vec!["a", "b"]);
    let hook = HookEntry {
        event: "PreToolUse".to_string(),
        matcher: String::new(),
        command: "bash -c 'echo hi'".to_string(),
        source: "settings.json".to_string(),
    };
    assert_eq!(
        texts(&hook_detail_lines(&hook)),
        vec!["event: PreToolUse", "matcher: any", "source: settings.json", "", "echo hi"]
    );
}

#[test]
fn help_columns_alternate_the_binding_groups() {
    assert_eq!(keybindings().len(), 4);
    let left = texts(&help_column_lines(0));
    let right = texts(&help_column_lines(1));
    assert_eq!(left.len(), 21);
    assert_eq!(right.len(), 20);
    assert_eq!(left[0], "Navigation");
    assert_eq!(left[1], "h/j/k/l     move, drill, and go back");
    assert_eq!(left[9], "");
    assert_eq!(left[10], "Actions");
    assert_eq!(left[16], "p c d v f i ndetail tabs");
    assert_eq!(right[0], "Sections");
    assert_eq!(right[15], "Global");
    assert_eq!(right[18], "q           quit");
    assert_eq!(help_column_lines(0)[0].spans[0].tone, Tone::MagentaBold);
}
