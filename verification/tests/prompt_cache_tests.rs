use codex_grok::json::Json;
use codex_grok::prompt_cache::content_addressed_prompt_cache_key;
use codex_grok::prompt_cache::is_xai_provider;
use codex_grok::prompt_cache::prompt_cache_content;
use codex_grok::prompt_cache::prompt_cache_key_from_digest;
use codex_grok::prompt_cache::resolve_prompt_cache_key;
use codex_grok::prompt_cache::ModelProviderInfo;
use sha2::Digest;

fn s(text: &str) -> Json {
    Json::Str(text.to_string())
}

fn obj(members: Vec<(&str, Json)>) -> Json {
    Json::Object(members.into_iter().map(|(k, v)| (k.to_string(), v)).collect())
}

fn expected_key(content: &str) -> String {
    let hex = format!("{:x}", sha2::Sha256::digest(content.as_bytes()));
    format!("pck_{}", &hex[..24])
}

#[test]
fn no_instructions_and_no_tools_give_no_key() {
    assert_eq!(content_addressed_prompt_cache_key("", None), None);
    assert_eq!(content_addressed_prompt_cache_key("", Some(&[])), None);
}

#[test]
fn key_hashes_instructions_and_a_nul() {
    let key = content_addressed_prompt_cache_key("be brief", None).expect("key");
    assert_eq!(key, expected_key("be brief\u{0}"));
    assert_eq!(key.len(), 28);
}

#[test]
fn tools_are_hashed_sorted_by_the_text_of_their_name_or_type() {
    let tools = vec![
        obj(vec![("type", s("function")), ("name", s("zeta"))]),
        obj(vec![("type", s("web_search"))]),
        obj(vec![("type", s("function")), ("name", s("alpha"))]),
    ];
    let content = prompt_cache_content("", Some(&tools));
    assert_eq!(
        content,
        "\u{0}[{\"type\":\"function\",\"name\":\"alpha\"},{\"type\":\"web_search\"},{\"type\":\"function\",\"name\":\"zeta\"}]"
    );
    let key = content_addressed_prompt_cache_key("", Some(&tools)).expect("key");
    assert_eq!(key, expected_key(&content));
    let reordered = vec![
        obj(vec![("type", s("web_search"))]),
        obj(vec![("type", s("function")), ("name", s("alpha"))]),
        obj(vec![("type", s("function")), ("name", s("zeta"))]),
    ];
    assert_eq!(content_addressed_prompt_cache_key("", Some(&reordered)), Some(key));
}

#[test]
fn tools_with_equal_keys_keep_their_order_and_strings_are_escaped() {
    let tools = vec![
        obj(vec![("name", s("same")), ("n", Json::Number("2".to_string()))]),
        obj(vec![("name", s("same")), ("n", Json::Number("1".to_string()))]),
        obj(vec![("name", s("quote\"\n")), ("flag", Json::Bool(true)), ("none", Json::Null)]),
    ];
    let content = prompt_cache_content("i", Some(&tools));
    assert_eq!(
        content,
        "i\u{0}[{\"name\":\"quote\\\"\\n\",\"flag\":true,\"none\":null},{\"name\":\"same\",\"n\":2},{\"name\":\"same\",\"n\":1}]"
    );
}

#[test]
fn digest_is_written_as_lowercase_hex_and_cut_to_24_digits() {
    let digest: Vec<u8> = (0u8..32).map(|b| b.wrapping_mul(37)).collect();
    let hex: String = digest.iter().map(|b| format!("{b:02x}")).collect();
    assert_eq!(prompt_cache_key_from_digest(&digest), format!("pck_{}", &hex[..24]));
    assert_eq!(prompt_cache_key_from_digest(&[0xab]), "pck_ab");
}

#[test]
fn xai_provider_is_recognised_by_flag_or_base_url() {
    let by_url = ModelProviderInfo { base_url: Some("https://api.x.ai/v1".to_string()), xai: false, openai: false };
    let openai = ModelProviderInfo { base_url: Some("https://api.openai.com/v1".to_string()), xai: false, openai: true };
    let flagged = ModelProviderInfo { base_url: None, xai: true, openai: false };
    assert!(is_xai_provider(&by_url));
    assert!(!is_xai_provider(&openai));
    assert!(is_xai_provider(&flagged));
}

#[test]
fn resolved_key_prefers_override_then_content_then_thread() {
    let xai = ModelProviderInfo { base_url: None, xai: true, openai: false };
    let openai = ModelProviderInfo { base_url: None, xai: false, openai: true };
    assert_eq!(resolve_prompt_cache_key(&xai, "inst", None, "thread-1", Some("over")), "over");
    assert_eq!(resolve_prompt_cache_key(&xai, "inst", None, "thread-1", None), expected_key("inst\u{0}"));
    assert_eq!(resolve_prompt_cache_key(&xai, "", None, "thread-1", None), "thread-1");
    assert_eq!(resolve_prompt_cache_key(&openai, "inst", None, "thread-1", None), "thread-1");
}
