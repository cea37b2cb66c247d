use forge::provider::qualifier_matches_provider;

fn make_models() -> Vec<(String, Vec<String>)> {
    vec![
        (
            "alpha".to_string(),
            vec![
                "alpha-large-4-6".to_string(),
                "alpha-medium-4-6".to_string(),
            ],
        ),
        ("beta".to_string(), vec!["b4-mini".to_string()]),
        (
            "gamma".to_string(),
            vec!["alpha-medium-4-6".to_string()],
        ),
    ]
}

#[test]
fn mod_direct_provider_name_matches() {
    let models = make_models();
    assert!(qualifier_matches_provider("alpha", "alpha", &models));
    assert!(qualifier_matches_provider("beta", "beta", &models));
}

#[test]
fn mod_model_tier_matches_provider_with_that_model() {
    let models = make_models();
    assert!(qualifier_matches_provider("medium", "alpha", &models));
    assert!(qualifier_matches_provider("large", "alpha", &models));
}

#[test]
fn mod_model_tier_matches_across_providers() {
    let models = make_models();
    assert!(qualifier_matches_provider("medium", "gamma", &models));
}

#[test]
fn mod_model_tier_does_not_match_unrelated_provider() {
    let models = make_models();
    assert!(!qualifier_matches_provider("medium", "beta", &models));
    assert!(!qualifier_matches_provider("large", "beta", &models));
}

#[test]
fn mod_unknown_qualifier_does_not_match() {
    let models = make_models();
    assert!(!qualifier_matches_provider("delta5", "alpha", &models));
}

#[test]
fn mod_provider_not_in_models_only_matches_by_name() {
    let models = make_models();
    assert!(qualifier_matches_provider("epsilon", "epsilon", &models));
    assert!(!qualifier_matches_provider("medium", "epsilon", &models));
}

#[test]
fn tests_direct_provider_name_matches() {
    let models = make_models();
    assert!(qualifier_matches_provider("alpha", "alpha", &models));
    assert!(qualifier_matches_provider("beta", "beta", &models));
}

#[test]
fn tests_model_tier_matches_provider_with_that_model() {
    let models = make_models();
    assert!(qualifier_matches_provider("medium", "alpha", &models));
    assert!(qualifier_matches_provider("large", "alpha", &models));
}

#[test]
fn tests_model_tier_matches_across_providers() {
    let models = make_models();
    assert!(qualifier_matches_provider("medium", "gamma", &models));
}

#[test]
fn tests_model_tier_does_not_match_unrelated_provider() {
    let models = make_models();
    assert!(!qualifier_matches_provider("medium", "beta", &models));
    assert!(!qualifier_matches_provider("large", "beta", &models));
}

#[test]
fn tests_unknown_qualifier_does_not_match() {
    let models = make_models();
    assert!(!qualifier_matches_provider("delta5", "alpha", &models));
}

#[test]
fn tests_provider_not_in_models_only_matches_by_name() {
    let models = make_models();
    assert!(qualifier_matches_provider("epsilon", "epsilon", &models));
    assert!(!qualifier_matches_provider("medium", "epsilon", &models));
}
