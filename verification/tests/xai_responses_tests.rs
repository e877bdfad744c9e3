use codex_grok::json::get;
use codex_grok::json::Json;
use codex_grok::xai_items::sanitize_input_for_xai;
use codex_grok::xai_items::response_item_to_xai_wire_value;
use codex_grok::xai_items::ContentItem;
use codex_grok::xai_items::MessagePhase;
use codex_grok::xai_items::ResponseItem;
use codex_grok::xai_responses::adapt_responses_request;
use codex_grok::xai_responses::build_xai_reasoning;
use codex_grok::xai_responses::encode_responses_request_for_xai;
use codex_grok::xai_responses::grok_supports_reasoning_effort;
use codex_grok::xai_responses::name_supports_reasoning_effort;
use codex_grok::xai_responses::xai_reasoning_include;
use codex_grok::xai_responses::ReasoningEffort;
use codex_grok::xai_responses::ResponsesApiRequest;
use codex_grok::xai_tools::sanitize_tools_for_xai;

fn s(text: &str) -> Json {
    Json::Str(text.to_string())
}

fn obj(members: Vec<(&str, Json)>) -> Json {
    Json::Object(members.into_iter().map(|(k, v)| (k.to_string(), v)).collect())
}

fn arr(items: Vec<Json>) -> Json {
    Json::Array(items)
}

fn at<'a>(j: &'a Json, key: &str) -> Option<&'a Json> {
    get(j, &key.to_string())
}

fn text_message(role: &str, text: &str) -> ResponseItem {
    ResponseItem::Message {
        id: None,
        role: role.to_string(),
        content: vec![ContentItem::InputText { text: text.to_string() }],
        phase: None,
        internal_chat_message_metadata_passthrough: None,
    }
}

fn empty_object_schema() -> Json {
    obj(vec![("type", s("object")), ("properties", obj(vec![]))])
}

#[test]
fn developer_messages_are_rewritten_as_user_messages() {
    let input = vec![text_message("developer", "context")];
    let sanitized = sanitize_input_for_xai(input);
    assert_eq!(sanitized, vec![text_message("user", "context")]);
}

#[test]
fn user_messages_use_role_only_wire_format() {
    let wire = response_item_to_xai_wire_value(&text_message("user", "hi")).expect("user message");
    assert_eq!(
        wire,
        obj(vec![
            ("role", s("user")),
            ("content", arr(vec![obj(vec![("type", s("input_text")), ("text", s("hi"))])])),
        ])
    );
    assert!(at(&wire, "type").is_none());
}

#[test]
fn assistant_messages_with_phase_use_typed_message_wire_format() {
    let wire = response_item_to_xai_wire_value(&ResponseItem::Message {
        id: Some("msg_1".to_string()),
        role: "assistant".to_string(),
        content: vec![ContentItem::OutputText { text: "hello".to_string() }],
        phase: Some(MessagePhase::FinalAnswer),
        internal_chat_message_metadata_passthrough: None,
    })
    .expect("assistant message");
    assert_eq!(at(&wire, "type"), Some(&s("message")));
    assert_eq!(at(&wire, "role"), Some(&s("assistant")));
    assert_eq!(at(&wire, "status"), Some(&s("completed")));
    assert_eq!(at(&wire, "phase"), Some(&s("final_answer")));
    assert_eq!(at(&wire, "id"), Some(&s("msg_1")));
}

#[test]
fn unsupported_input_items_are_dropped() {
    let input = vec![
        ResponseItem::Compaction {
            id: None,
            encrypted_content: "secret".to_string(),
            internal_chat_message_metadata_passthrough: None,
        },
        ResponseItem::WebSearchCall {
            id: Some("ws_1".to_string()),
            status: Some("completed".to_string()),
            action: None,
            internal_chat_message_metadata_passthrough: None,
        },
    ];
    assert_eq!(sanitize_input_for_xai(input), Vec::<ResponseItem>::new());
}

#[test]
fn custom_tool_calls_are_converted_to_function_calls() {
    let input = vec![ResponseItem::CustomToolCall {
        id: None,
        status: None,
        call_id: "call_1".to_string(),
        name: "apply_patch".to_string(),
        namespace: Some("codex".to_string()),
        input: r#"{"path":"a.txt"}"#.to_string(),
        internal_chat_message_metadata_passthrough: None,
    }];
    assert_eq!(
        sanitize_input_for_xai(input),
        vec![ResponseItem::FunctionCall {
            id: None,
            name: "apply_patch".to_string(),
            namespace: None,
            arguments: r#"{"path":"a.txt"}"#.to_string(),
            call_id: "call_1".to_string(),
            internal_chat_message_metadata_passthrough: None,
        }]
    );
}

fn exec_command_tool() -> Json {
    obj(vec![
        ("type", s("function")),
        ("name", s("exec_command")),
        ("description", s("Run a command")),
        ("strict", Json::Bool(false)),
        ("parameters", empty_object_schema()),
    ])
}

#[test]
fn namespace_tools_are_flattened_to_functions() {
    let tools = vec![obj(vec![
        ("type", s("namespace")),
        ("name", s("codex")),
        ("description", s("Codex tools")),
        ("tools", arr(vec![exec_command_tool()])),
    ])];
    assert_eq!(sanitize_tools_for_xai(&tools), vec![exec_command_tool()]);
}

#[test]
fn client_web_search_function_is_swapped_for_native_tool() {
    let tools = vec![obj(vec![
        ("type", s("function")),
        ("name", s("web_search")),
        ("description", s("Search the web")),
        ("strict", Json::Bool(false)),
        ("parameters", empty_object_schema()),
    ])];
    assert_eq!(sanitize_tools_for_xai(&tools), vec![obj(vec![("type", s("web_search"))])]);
}

#[test]
fn slash_enums_and_pattern_keys_are_stripped_from_tool_schemas() {
    let tools = vec![obj(vec![
        ("type", s("function")),
        ("name", s("pick_model")),
        ("description", s("Pick a model")),
        ("strict", Json::Bool(false)),
        (
            "parameters",
            obj(vec![
                ("type", s("object")),
                (
                    "properties",
                    obj(vec![(
                        "model",
                        obj(vec![
                            ("type", s("string")),
                            ("enum", arr(vec![s("Qwen/Qwen3.5-0.8B")])),
                            ("pattern", s("^[a-z]+$")),
                        ]),
                    )]),
                ),
            ]),
        ),
    ])];
    let sanitized = sanitize_tools_for_xai(&tools);
    let model_schema = at(&sanitized[0], "parameters")
        .and_then(|p| at(p, "properties"))
        .and_then(|p| at(p, "model"))
        .expect("model schema");
    assert!(at(model_schema, "enum").is_none());
    assert!(at(model_schema, "pattern").is_none());
    assert_eq!(at(model_schema, "type"), Some(&s("string")));
}

fn request(input: Vec<ResponseItem>, tools: Option<Vec<Json>>) -> ResponsesApiRequest {
    ResponsesApiRequest {
        model: "grok-4.3".to_string(),
        instructions: "base".to_string(),
        input,
        tools,
        tool_choice: "auto".to_string(),
        parallel_tool_calls: true,
        reasoning: None,
        store: true,
        stream: true,
        includes: vec!["reasoning.encrypted_content".to_string()],
        service_tier: Some("auto".to_string()),
        prompt_cache_key: Some("pck_test".to_string()),
        text: None,
        client_metadata: None,
    }
}

#[test]
fn adapt_responses_request_applies_input_and_tool_sanitization() {
    let mut request = request(
        vec![text_message("developer", "context")],
        Some(vec![obj(vec![
            ("type", s("custom")),
            ("name", s("apply_patch")),
            ("description", s("Patch files")),
            (
                "format",
                obj(vec![("type", s("text")), ("syntax", s("lark")), ("definition", s("..."))]),
            ),
        ])]),
    );
    adapt_responses_request(&mut request);
    assert!(request.input[0].is_user_message());
    assert_eq!(at(&request.tools.as_ref().unwrap()[0], "type"), Some(&s("function")));
    assert!(!request.store);
    assert!(request.service_tier.is_none());
    assert_eq!(request.tool_choice, "auto");
}

#[test]
fn adapt_responses_request_clears_tool_choice_when_tools_are_removed() {
    let mut request = ResponsesApiRequest {
        model: "grok-4.3".to_string(),
        instructions: String::new(),
        input: vec![],
        tools: Some(vec![obj(vec![
            ("type", s("namespace")),
            ("name", s("codex")),
            ("tools", arr(vec![])),
        ])]),
        tool_choice: "auto".to_string(),
        parallel_tool_calls: true,
        reasoning: None,
        store: true,
        stream: true,
        includes: vec![],
        service_tier: None,
        prompt_cache_key: None,
        text: None,
        client_metadata: None,
    };
    adapt_responses_request(&mut request);
    assert!(request.tools.is_none());
    assert!(request.tool_choice.is_empty());
    let body = encode_responses_request_for_xai(&request);
    assert!(at(&body, "tool_choice").is_none());
    assert!(at(&body, "parallel_tool_calls").is_none());
}

#[test]
fn encode_responses_request_for_xai_matches_hermes_user_input_shape() {
    let mut request = request(vec![text_message("user", "hi")], None);
    request.store = false;
    request.service_tier = None;
    request.includes = xai_reasoning_include();
    adapt_responses_request(&mut request);
    let body = encode_responses_request_for_xai(&request);
    assert_eq!(
        at(&body, "input"),
        Some(&arr(vec![obj(vec![
            ("role", s("user")),
            ("content", arr(vec![obj(vec![("type", s("input_text")), ("text", s("hi"))])])),
        ])]))
    );
    assert_eq!(at(&body, "include"), Some(&arr(vec![s("reasoning.encrypted_content")])));
    assert!(at(&body, "tool_choice").is_none());
}

#[test]
fn grok_reasoning_effort_allowlist_matches_hermes() {
    assert!(grok_supports_reasoning_effort("grok-4.3"));
    assert!(grok_supports_reasoning_effort("grok-4.20-multi-agent-0309"));
    assert!(!grok_supports_reasoning_effort("grok-composer-2.5-fast"));
}

#[test]
fn reasoning_effort_check_trims_lowercases_and_drops_provider_prefix() {
    assert!(grok_supports_reasoning_effort("  xAI/Grok-3-Mini-Fast "));
    assert!(!grok_supports_reasoning_effort("grok-4.20-0309-reasoning"));
    assert!(name_supports_reasoning_effort("a/b/grok-4.3"));
    assert!(!name_supports_reasoning_effort("grok-4.3/other"));
}

#[test]
fn reasoning_is_built_only_for_models_that_take_an_effort() {
    let r = build_xai_reasoning("grok-4.3", Some(ReasoningEffort::High)).expect("reasoning");
    assert_eq!(r.effort, Some(ReasoningEffort::High));
    assert!(r.summary.is_none() && r.context.is_none());
    assert!(build_xai_reasoning("grok-build-0.1", Some(ReasoningEffort::High)).is_none());
    assert!(build_xai_reasoning("grok-4.3", None).is_none());
}

#[test]
fn reasoning_items_keep_only_encrypted_content() {
    let input = vec![
        ResponseItem::Reasoning {
            id: Some("rs_1".to_string()),
            summary: vec!["thinking".to_string()],
            content: Some(vec!["raw".to_string()]),
            encrypted_content: Some("opaque".to_string()),
            internal_chat_message_metadata_passthrough: None,
        },
        ResponseItem::Reasoning {
            id: None,
            summary: vec![],
            content: None,
            encrypted_content: Some(String::new()),
            internal_chat_message_metadata_passthrough: None,
        },
    ];
    let sanitized = sanitize_input_for_xai(input);
    assert_eq!(
        sanitized,
        vec![ResponseItem::Reasoning {
            id: None,
            summary: vec!["thinking".to_string()],
            content: None,
            encrypted_content: Some("opaque".to_string()),
            internal_chat_message_metadata_passthrough: None,
        }]
    );
    let wire = response_item_to_xai_wire_value(&sanitized[0]).expect("reasoning wire");
    assert_eq!(
        wire,
        obj(vec![
            ("type", s("reasoning")),
            ("encrypted_content", s("opaque")),
            ("summary", arr(vec![obj(vec![("type", s("summary_text")), ("text", s("thinking"))])])),
        ])
    );
}

#[test]
fn custom_tools_without_a_name_are_dropped_and_others_get_a_string_input() {
    let tools = vec![
        obj(vec![("type", s("custom")), ("name", s("  "))]),
        obj(vec![("type", s("custom")), ("name", s(" apply_patch "))]),
        obj(vec![("type", s("mcp")), ("server_label", s("x"))]),
        obj(vec![("name", s("untyped"))]),
    ];
    let sanitized = sanitize_tools_for_xai(&tools);
    assert_eq!(sanitized.len(), 2);
    assert_eq!(at(&sanitized[0], "name"), Some(&s("apply_patch")));
    assert_eq!(at(&sanitized[0], "description"), Some(&s("")));
    assert_eq!(sanitized[1], obj(vec![("type", s("mcp"))]));
}

#[test]
fn sanitizing_input_twice_changes_nothing() {
    let input = || {
        vec![
            text_message("developer", "be brief"),
            text_message("user", "hi"),
            ResponseItem::Compaction {
                id: None,
                encrypted_content: "secret".to_string(),
                internal_chat_message_metadata_passthrough: None,
            },
            text_message("assistant", "hello"),
        ]
    };
    let once = sanitize_input_for_xai(input());
    assert_eq!(sanitize_input_for_xai(sanitize_input_for_xai(input())), once);
    assert_eq!(once.len(), 3);
}
