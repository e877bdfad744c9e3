//! The xAI chat models offered through SuperGrok / X Premium+ OAuth.
//!
//! The curated list pins `grok-build-0.1` first, includes OAuth-only extras such as
//! `grok-composer-2.5-fast`, and leaves out models retired in May 2026.

use vstd::prelude::*;

verus! {

/// Whether the model picker lists a model.
#[derive(Clone, Copy, Debug, PartialEq, Eq, Structural)]
pub enum ModelVisibility {
    List,
    Hide,
}

/// What the client knows of a model.
#[derive(Debug, PartialEq)]
pub struct ModelInfo {
    pub slug: String,
    pub display_name: String,
    pub description: Option<String>,
    pub visibility: ModelVisibility,
    pub supported_in_api: bool,
    pub priority: i32,
    pub context_window: Option<i64>,
    pub max_context_window: Option<i64>,
    pub used_fallback_model_metadata: bool,
    pub additional_speed_tiers: Vec<String>,
    pub service_tiers: Vec<String>,
    pub default_service_tier: Option<String>,
}

/// A list of models.
#[derive(Debug, PartialEq)]
pub struct ModelsResponse {
    pub models: Vec<ModelInfo>,
}

/// The curated models: slug, display name, description, context window, in picker order.
pub open spec fn xai_chat_models() -> Seq<(Seq<char>, Seq<char>, Seq<char>, i64)> {
    seq![
        ("grok-build-0.1"@, "Grok Build 0.1"@, "Default Grok coding model for SuperGrok OAuth."@, 256_000i64),
        (
            "grok-composer-2.5-fast"@,
            "Grok Composer 2.5 Fast"@,
            "Fast Grok Composer model available via OAuth."@,
            200_000i64,
        ),
        ("grok-4.3"@, "Grok 4.3"@, "Previous default Grok model with a 1M-token context window."@, 1_000_000i64),
        ("grok-4.20-0309-reasoning"@, "Grok 4.20 Reasoning"@, "Reasoning-focused Grok 4.20 variant."@, 2_000_000i64),
        ("grok-4.20-0309-non-reasoning"@, "Grok 4.20"@, "Standard Grok 4.20 variant."@, 2_000_000i64),
        (
            "grok-4.20-multi-agent-0309"@,
            "Grok 4.20 Multi-Agent"@,
            "Multi-agent Grok 4.20 variant."@,
            2_000_000i64,
        ),
    ]
}

/// The metadata a slug has before any catalog entry refines it: its slug as display name,
/// hidden, not served by the API, lowest priority, no context window, marked as fallback.
pub fn model_info_from_slug(slug: &str) -> (r: ModelInfo)
    ensures
        r.slug@ == slug@,
        r.display_name@ == slug@,
        r.description is None,
        r.visibility == ModelVisibility::Hide,
        !r.supported_in_api,
        r.priority == i32::MAX,
        r.context_window is None,
        r.max_context_window is None,
        r.used_fallback_model_metadata,
        r.additional_speed_tiers@.len() == 0,
        r.service_tiers@.len() == 0,
        r.default_service_tier is None,
{
    ModelInfo {
        slug: String::from_str(slug),
        display_name: String::from_str(slug),
        description: None,
        visibility: ModelVisibility::Hide,
        supported_in_api: false,
        priority: i32::MAX,
        context_window: None,
        max_context_window: None,
        used_fallback_model_metadata: true,
        additional_speed_tiers: Vec::new(),
        service_tiers: Vec::new(),
        default_service_tier: None,
    }
}

/// The picker entry for one curated xAI model.
pub open spec fn is_xai_model(
    m: ModelInfo,
    slug: Seq<char>,
    display_name: Seq<char>,
    description: Seq<char>,
    priority: i32,
    context_window: i64,
) -> bool {
    &&& m.slug@ == slug
    &&& m.display_name@ == display_name
    &&& m.description matches Some(d) && d@ == description
    &&& m.visibility == ModelVisibility::List
    &&& m.supported_in_api
    &&& m.priority == priority
    &&& m.context_window == Some(context_window)
    &&& m.max_context_window == Some(context_window)
    &&& !m.used_fallback_model_metadata
    &&& m.additional_speed_tiers@.len() == 0
    &&& m.service_tiers@.len() == 0
    &&& m.default_service_tier is None
}

/// A curated xAI model: listed, served by the API, with its name, description, priority and
/// context window, and no service tiers.
pub fn xai_model(
    slug: &str,
    display_name: &str,
    description: &str,
    priority: i32,
    context_window: i64,
) -> (r: ModelInfo)
    ensures
        is_xai_model(r, slug@, display_name@, description@, priority, context_window),
{
    let mut model = model_info_from_slug(slug);
    model.display_name = String::from_str(display_name);
    model.description = Some(String::from_str(description));
    model.visibility = ModelVisibility::List;
    model.supported_in_api = true;
    model.priority = priority;
    model.context_window = Some(context_window);
    model.max_context_window = Some(context_window);
    model.used_fallback_model_metadata = false;
    model.additional_speed_tiers.clear();
    model.service_tiers.clear();
    model.default_service_tier = None;
    model
}

/// The curated catalog, in order; each model's priority is its position.
pub fn static_model_catalog() -> (r: ModelsResponse)
    ensures
        r.models@.len() == xai_chat_models().len(),
        forall|i: int|
            0 <= i < r.models@.len() ==> {
                let (slug, name, description, window) = #[trigger] xai_chat_models()[i];
                is_xai_model(r.models@[i], slug, name, description, i as i32, window)
            },
{
    let table: [(&str, &str, &str, i64); 6] = [
        ("grok-build-0.1", "Grok Build 0.1", "Default Grok coding model for SuperGrok OAuth.", 256_000),
        ("grok-composer-2.5-fast", "Grok Composer 2.5 Fast", "Fast Grok Composer model available via OAuth.", 200_000),
        ("grok-4.3", "Grok 4.3", "Previous default Grok model with a 1M-token context window.", 1_000_000),
        ("grok-4.20-0309-reasoning", "Grok 4.20 Reasoning", "Reasoning-focused Grok 4.20 variant.", 2_000_000),
        ("grok-4.20-0309-non-reasoning", "Grok 4.20", "Standard Grok 4.20 variant.", 2_000_000),
        ("grok-4.20-multi-agent-0309", "Grok 4.20 Multi-Agent", "Multi-agent Grok 4.20 variant.", 2_000_000),
    ];
    let ghost spec_table = table@.map_values(|e: (&str, &str, &str, i64)| (e.0@, e.1@, e.2@, e.3));
    assert(spec_table =~= xai_chat_models());
    let mut models: Vec<ModelInfo> = Vec::new();
    let mut i: usize = 0;
    while i < 6
        invariant
            i <= 6,
            table@.len() == 6,
            spec_table == table@.map_values(|e: (&str, &str, &str, i64)| (e.0@, e.1@, e.2@, e.3)),
            spec_table == xai_chat_models(),
            models@.len() == i,
            forall|j: int|
                0 <= j < i ==> {
                    let (slug, name, description, window) = #[trigger] xai_chat_models()[j];
                    is_xai_model(models@[j], slug, name, description, j as i32, window)
                },
        decreases 6 - i,
    {
        let (slug, name, description, window) = table[i];
        let m = xai_model(slug, name, description, i as i32, window);
        assert(spec_table[i as int] == (slug@, name@, description@, window));
        models.push(m);
        i = i + 1;
    }
    ModelsResponse { models }
}

} // verus!
