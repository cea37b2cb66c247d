use forge::catalog::{attach_companions, finish_modules, PendingCompanion};
use forge::view::{ArtifactView, Companion, ModuleView};

fn module(name: &str, source_uri: &str, artifacts: Vec<ArtifactView>) -> ModuleView {
    ModuleView {
        name: name.to_string(),
        version: "1.0".to_string(),
        description: String::new(),
        source_uri: source_uri.to_string(),
        is_target: false,
        local_path: None,
        vcs: None,
        git_log: Vec::new(),
        artifacts,
    }
}

fn artifact(kind: &str, name: &str) -> ArtifactView {
    ArtifactView { kind: kind.to_string(), name: name.to_string(), ..Default::default() }
}

fn companion(name: &str, body: &str) -> Companion {
    Companion {
        name: name.to_string(),
        relative_path: format!("skills/S/{name}"),
        description: String::new(),
        content_body: body.to_string(),
        raw_source: String::new(),
    }
}

fn pending(source_uri: &str, parent: &str, c: Companion) -> PendingCompanion {
    PendingCompanion { source_uri: source_uri.to_string(), parent: parent.to_string(), companion: c }
}

#[test]
fn finish_modules_adds_a_placeholder_when_empty() {
    let modules = finish_modules(Vec::new());
    assert_eq!(modules.len(), 1);
    assert_eq!(modules[0].name, "(no manifest)");
    assert_eq!(modules[0].description, "No .manifest files found at scanned targets");
    assert!(modules[0].artifacts.is_empty());
}

#[test]
fn finish_modules_sorts_stably_and_stamps_module_and_tint() {
    let mut input = Vec::new();
    for i in 0..9 {
        input.push(module(&format!("m{i}"), "", Vec::new()));
    }
    input[1].artifacts = vec![
        artifact("skills", "zeta"),
        artifact("rules", "alpha"),
        artifact("agents", "beta"),
        artifact("skills", "alpha"),
    ];
    let modules = finish_modules(input);
    assert_eq!(modules.len(), 9);
    let order: Vec<(&str, &str)> =
        modules[1].artifacts.iter().map(|a| (a.name.as_str(), a.kind.as_str())).collect();
    assert_eq!(order, vec![("alpha", "rules"), ("alpha", "skills"), ("beta", "agents"), ("zeta", "skills")]);
    assert!(modules[1].artifacts.iter().all(|a| a.module == "m1" && a.module_tint == 1));
    assert_eq!(modules[1].version, "1.0");
    assert_eq!(modules[8].name, "m8");
}

#[test]
fn finish_modules_wraps_the_tint() {
    let mut input = Vec::new();
    for i in 0..10 {
        input.push(module(&format!("m{i}"), "", vec![artifact("rules", "r")]));
    }
    let modules = finish_modules(input);
    assert_eq!(modules[9].artifacts[0].module_tint, 1);
    assert_eq!(modules[7].artifacts[0].module_tint, 7);
}

#[test]
fn attach_companions_goes_under_the_first_matching_skill() {
    let mut modules = vec![
        module("core", "https://x/core", vec![artifact("rules", "S"), artifact("skills", "S")]),
        module("other", "https://x/other", vec![artifact("skills", "S")]),
    ];
    attach_companions(
        &mut modules,
        vec![
            pending("https://x/core", "S", companion("zz.md", "first")),
            pending("https://x/core", "S", companion("aa.md", "second")),
            pending("https://x/core", "S", companion("zz.md", "duplicate")),
            pending("https://x/core", "Missing", companion("lost.md", "")),
            pending("https://x/none", "S", companion("lost.md", "")),
        ],
    );
    assert!(modules[0].artifacts[0].companions.is_empty());
    let names: Vec<&str> = modules[0].artifacts[1].companions.iter().map(|c| c.name.as_str()).collect();
    assert_eq!(names, vec!["aa.md", "zz.md"]);
    assert_eq!(modules[0].artifacts[1].companions[1].content_body, "first");
    assert!(modules[1].artifacts[0].companions.is_empty());
}

#[test]
fn attach_companions_sorts_existing_companions() {
    let mut skill = artifact("skills", "S");
    skill.companions = vec![companion("b.md", ""), companion("a.md", "")];
    let mut modules = vec![module("core", "u", vec![skill])];
    attach_companions(&mut modules, Vec::new());
    let names: Vec<&str> = modules[0].artifacts[0].companions.iter().map(|c| c.name.as_str()).collect();
    assert_eq!(names, vec!["a.md", "b.md"]);
}
