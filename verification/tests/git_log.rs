use forge::scan::{parse_git_log, truncate_prompt};

#[test]
fn parse_git_log_captures_checkpoint_trailer() {
    let raw = "abc123\u{0}feat: add thing\u{0}2026-06-12 10:21:46 +0200\u{0}Alice Example\u{0}933ba0519d0a\n\
               def456\u{0}fix: tidy up\u{0}2026-06-03 01:47:07 +0200\u{0}Alice Example\u{0}\n";
    let commits = parse_git_log(raw);
    assert_eq!(commits.len(), 2);
    assert_eq!(commits[0].sha, "abc123");
    assert_eq!(commits[0].message, "feat: add thing");
    assert_eq!(commits[0].author, "Alice Example");
    assert_eq!(commits[0].checkpoint, "933ba0519d0a");
    assert!(commits[1].checkpoint.is_empty());
}

#[test]
fn parse_git_log_skips_blank_and_empty_sha_lines() {
    let raw = "\nabc123\u{0}subject\u{0}date\u{0}author\u{0}\n\u{0}orphan\u{0}\u{0}\u{0}\n";
    let commits = parse_git_log(raw);
    assert_eq!(commits.len(), 1);
    assert_eq!(commits[0].sha, "abc123");
}

#[test]
fn truncate_prompt_caps_long_lines_with_ellipsis() {
    let short = "tighten the sign gutter";
    assert_eq!(truncate_prompt(short), short);
    let long = "x".repeat(200);
    let capped = truncate_prompt(&long);
    assert!(capped.ends_with('\u{2026}'));
    assert!(capped.chars().count() <= 111);
}
