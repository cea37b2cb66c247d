use forge::refs::{
    broken_references, hex_value, link_targets, normalize_reference, percent_decode,
    reference_candidates, strip_code, strip_inline_code,
};

#[test]
fn strip_code_drops_fences_and_inline_spans() {
    let text = "See [a](docs/a.md) and `[b](b.md)`.\n```\n[c](c.md)\n```\nend";
    assert_eq!(strip_code(text), "See [a](docs/a.md) and .\nend\n");
}

#[test]
fn strip_inline_code_keeps_even_pieces() {
    let line: Vec<char> = "a`b`c`d".chars().collect();
    let kept: String = strip_inline_code(&line).into_iter().collect();
    assert_eq!(kept, "ac");
}

#[test]
fn hex_value_reads_both_cases() {
    assert_eq!(hex_value(b'7'), Some(7));
    assert_eq!(hex_value(b'b'), Some(11));
    assert_eq!(hex_value(b'F'), Some(15));
    assert_eq!(hex_value(b'g'), None);
}

#[test]
fn percent_decode_decodes_escapes_and_keeps_malformed_ones() {
    assert_eq!(percent_decode("my%20file.md"), "my file.md");
    assert_eq!(percent_decode("100%zz"), "100%zz");
    assert_eq!(percent_decode("%4"), "%4");
    assert_eq!(percent_decode("caf%C3%A9"), "café");
}

#[test]
fn link_targets_finds_inline_then_definitions() {
    let text = "x [a](one.md) y\n[ref]: two/three.md\n";
    assert_eq!(link_targets(text), vec!["one.md".to_string(), "two/three.md".to_string()]);
}

#[test]
fn normalize_reference_keeps_local_paths_only() {
    assert_eq!(normalize_reference("docs/guide.md#part"), Some("docs/guide.md".to_string()));
    assert_eq!(normalize_reference("#anchor"), None);
    assert_eq!(normalize_reference("https://example.com/a.md"), None);
    assert_eq!(normalize_reference("mailto:someone"), None);
    assert_eq!(normalize_reference("prose"), None);
    assert_eq!(normalize_reference("notes.txt"), Some("notes.txt".to_string()));
    assert_eq!(normalize_reference("my%20dir/x"), Some("my dir/x".to_string()));
}

#[test]
fn reference_candidates_are_unique_and_ordered() {
    let source = "[a](b/c.md) [d](b/c.md) [e](https://x.io) `[f](g.md)`\n[h]: z.md\n";
    assert_eq!(
        reference_candidates(source),
        vec!["b/c.md".to_string(), "z.md".to_string()]
    );
}

#[test]
fn broken_references_keeps_unresolved_candidates() {
    let candidates = vec!["a.md".to_string(), "b.md".to_string(), "c.md".to_string()];
    let resolves = vec![true, false, false];
    assert_eq!(
        broken_references(&candidates, &resolves),
        vec!["b.md".to_string(), "c.md".to_string()]
    );
}

#[test]
fn normalize_reference_decodes_escaped_paths() {
    assert_eq!(normalize_reference("https://example.com/x.md"), None);
    assert_eq!(normalize_reference("#section"), None);
    assert_eq!(normalize_reference("prose"), None);
    assert_eq!(normalize_reference("docs/My%20File.md#intro"), Some("docs/My File.md".to_string()));
    assert_eq!(normalize_reference("README.md"), Some("README.md".to_string()));
}
