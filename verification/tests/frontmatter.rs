use forge::frontmatter::map_field;

#[test]
fn map_field_replaces_first_matching_key_case_insensitively() {
    let content = "---\nName:  old\n# note\nname: second\n---\nBody\n";
    let mapped = map_field(content, "name", |value| value.to_uppercase());
    assert_eq!(mapped, "---\nName:  OLD\n# note\nname: second\n---\nBody\n");
}

#[test]
fn map_field_adds_a_space_when_there_was_none() {
    let mapped = map_field("---\nmodel:x\n---\n", "model", |_| "y".to_string());
    assert_eq!(mapped, "---\nmodel: y\n---\n");
}

#[test]
fn map_field_leaves_documents_without_the_field_unchanged() {
    let content = "---\ntitle: t\n---\nBody";
    assert_eq!(map_field(content, "name", |_| "z".to_string()), content);
    assert_eq!(map_field("no frontmatter", "name", |_| "z".to_string()), "no frontmatter");
}
