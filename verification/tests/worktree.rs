use forge::vcs::{parse_counts, parse_status, RepoVcs, WorktreeState};

fn has(paths: &[String], wanted: &str) -> bool {
    paths.iter().any(|path| path == wanted)
}

#[test]
fn parse_status_separates_dirty_and_untracked() {
    let (dirty, untracked) =
        parse_status(" M agents/Analyst.md\n?? skills/NewSkill/\nR  old.md -> rules/new.md\n");
    assert!(has(&dirty, "agents/Analyst.md"));
    assert!(has(&dirty, "rules/new.md"));
    assert!(has(&untracked, "skills/NewSkill/"));
    assert!(!has(&dirty, "old.md"));
}

#[test]
fn untracked_directory_covers_children() {
    let (dirty, untracked) = parse_status("?? skills/NewSkill/\n");
    let repo = RepoVcs {
        branch: "main".to_string(),
        ahead: 0,
        behind: 0,
        jj_colocated: false,
        prefix: String::new(),
        dirty,
        untracked,
    };
    let state = repo.state_for("skills/NewSkill/SKILL.md");
    assert_eq!(state.worktree, WorktreeState::Untracked);
    let clean = repo.state_for("skills/OldSkill/SKILL.md");
    assert_eq!(clean.worktree, WorktreeState::Clean);
}

#[test]
fn parse_counts_reads_behind_then_ahead() {
    assert_eq!(parse_counts("1\t3\n"), Some((1, 3)));
    assert_eq!(parse_counts("garbage"), None);
}

#[test]
fn parse_status_lists_each_path_once() {
    let (dirty, untracked) = parse_status(" M a.md\nM  a.md\n?? new/\n?? new/\n M b.md\n");
    assert_eq!(dirty, vec!["a.md".to_string(), "b.md".to_string()]);
    assert_eq!(untracked, vec!["new/".to_string()]);
}
