use codex_grok::catalog::static_model_catalog;
use codex_grok::catalog::xai_model;
use codex_grok::catalog::ModelVisibility;

#[test]
fn catalog_matches_hermes_xai_oauth_curated_order() {
    let catalog = static_model_catalog();
    assert_eq!(
        catalog.models.iter().map(|model| model.slug.as_str()).collect::<Vec<_>>(),
        vec![
            "grok-build-0.1",
            "grok-composer-2.5-fast",
            "grok-4.3",
            "grok-4.20-0309-reasoning",
            "grok-4.20-0309-non-reasoning",
            "grok-4.20-multi-agent-0309",
        ]
    );
}

#[test]
fn catalog_models_are_picker_visible_with_display_names() {
    let catalog = static_model_catalog();
    assert_eq!(catalog.models[0].display_name, "Grok Build 0.1");
    assert_eq!(catalog.models[1].display_name, "Grok Composer 2.5 Fast");
    assert!(catalog.models.iter().all(|model| model.visibility == ModelVisibility::List));
}

#[test]
fn catalog_priorities_follow_the_curated_order_with_context_windows() {
    let catalog = static_model_catalog();
    for (i, model) in catalog.models.iter().enumerate() {
        assert_eq!(model.priority, i as i32);
        assert_eq!(model.context_window, model.max_context_window);
        assert!(model.supported_in_api);
        assert!(!model.used_fallback_model_metadata);
    }
    assert_eq!(catalog.models[2].context_window, Some(1_000_000));
    assert_eq!(
        catalog.models[3].description.as_deref(),
        Some("Reasoning-focused Grok 4.20 variant.")
    );
}

#[test]
fn xai_model_overrides_fallback_metadata() {
    let model = xai_model("grok-x", "Grok X", "An example.", 7, 1234);
    assert_eq!(model.slug, "grok-x");
    assert_eq!(model.display_name, "Grok X");
    assert_eq!(model.priority, 7);
    assert_eq!(model.context_window, Some(1234));
    assert!(model.service_tiers.is_empty() && model.additional_speed_tiers.is_empty());
    assert!(model.default_service_tier.is_none());
}
