use forge::assemble::{qualifier_of, source_entry};

fn models() -> Vec<(String, Vec<String>)> {
    vec![("alpha".to_string(), vec!["alpha-large".to_string(), "alpha-small".to_string()])]
}

#[test]
fn source_entry_takes_markdown_of_the_content_directories() {
    let m = models();
    assert_eq!(source_entry("rules/MyRule.md", false, &m), Some(("rules".to_string(), false)));
    assert_eq!(source_entry("agents/Dev.md", false, &m), Some(("agents".to_string(), false)));
    assert_eq!(source_entry("skills/Explain/SKILL.md", false, &m), Some(("skills".to_string(), true)));
    assert_eq!(source_entry("skills/Explain/examples.md", false, &m), Some(("skills".to_string(), true)));
    assert_eq!(source_entry("rules/alpha-large/Review.md", false, &m), Some(("rules".to_string(), false)));
    assert_eq!(source_entry("agents/user/Dev.md", false, &m), Some(("agents".to_string(), false)));
}

#[test]
fn source_entry_skips_everything_else() {
    let m = models();
    assert_eq!(source_entry("rules/MyRule.txt", false, &m), None);
    assert_eq!(source_entry("rules/Sub", true, &m), None);
    assert_eq!(source_entry("rules/misc/Note.md", false, &m), None);
    assert_eq!(source_entry("skills/Explain/deep/Inner.md", false, &m), None);
    assert_eq!(source_entry("docs/Readme.md", false, &m), None);
    assert_eq!(source_entry("README.md", false, &m), None);
    assert_eq!(source_entry("rules/.md", false, &m), None);
}

#[test]
fn qualifier_of_names_valid_qualifier_directories() {
    let m = models();
    assert_eq!(qualifier_of("rules/alpha/Review.md", "rules", &m), Some("alpha".to_string()));
    assert_eq!(qualifier_of("agents/alpha-small/Dev.md", "agents", &m), Some("alpha-small".to_string()));
    assert_eq!(qualifier_of("rules/misc/Review.md", "rules", &m), None);
    assert_eq!(qualifier_of("rules/Review.md", "rules", &m), None);
    assert_eq!(qualifier_of("skills/alpha/SKILL.md", "skills", &m), None);
}
