use forge::assemble::apply_kebab_case_to_path;

#[test]
fn kebab_case_path_converts_simple_filename() {
    assert_eq!(apply_kebab_case_to_path("GameMaster.md"), "game-master.md");
}

#[test]
fn kebab_case_path_converts_directory_and_filename() {
    assert_eq!(
        apply_kebab_case_to_path("SceneReview/SKILL.md"),
        "scene-review/skill.md"
    );
}

#[test]
fn kebab_case_path_preserves_already_lowercase() {
    assert_eq!(apply_kebab_case_to_path("readme.md"), "readme.md");
}
