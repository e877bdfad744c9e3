use codex_grok::xai_oauth::token_refresh_failure;
use codex_grok::xai_oauth::token_endpoint_failure;
use codex_grok::xai_oauth::build_xai_authorize_url;
use codex_grok::xai_oauth::decide_callback;
use codex_grok::xai_oauth::final_response_head_text;
use codex_grok::xai_oauth::finish_after_exchange;
use codex_grok::xai_oauth::generate_state;
use codex_grok::xai_oauth::login_outcome;
use codex_grok::xai_oauth::process_xai_request;
use codex_grok::xai_oauth::xai_bind_address;
use codex_grok::xai_oauth::xai_code_exchange_body;
use codex_grok::xai_oauth::xai_redirect_uri;
use codex_grok::xai_oauth::xai_token_refresh_body;
use codex_grok::xai_oauth::AuthCredentialsStoreMode;
use codex_grok::xai_oauth::AuthKeyringBackendKind;
use codex_grok::xai_oauth::CallbackAction;
use codex_grok::xai_oauth::ExchangeError;
use codex_grok::xai_oauth::LoginFailure;
use codex_grok::xai_oauth::XaiExchangedTokens;
use codex_grok::xai_oauth::XaiLoginServerOptions;

fn respond(status: u16, body: &str) -> CallbackAction {
    CallbackAction::Respond { status, body: body.to_string() }
}

#[test]
fn authorize_url_lists_parameters_with_encoded_values() {
    let url = build_xai_authorize_url("http://127.0.0.1:56121/callback", "chal-lenge_~.", "st/ate");
    assert_eq!(
        url,
        "https://auth.x.ai/oauth/authorize?response_type=code&client_id=org_4t2qZ4p1vM5K9nL7x&redirect_uri=http%3A%2F%2F127.0.0.1%3A56121%2Fcallback&scope=openid%20profile%20email%20offline_access%20grok-cli%3Aaccess%20api%3Aaccess&code_challenge=chal-lenge_~.&code_challenge_method=S256&state=st%2Fate"
    );
}

#[test]
fn token_request_bodies_encode_every_value() {
    assert_eq!(
        xai_code_exchange_body("a b", "http://x/y", "v+1"),
        "grant_type=authorization_code&code=a%20b&redirect_uri=http%3A%2F%2Fx%2Fy&client_id=org_4t2qZ4p1vM5K9nL7x&code_verifier=v%2B1"
    );
    assert_eq!(
        xai_token_refresh_body("r=é"),
        "grant_type=refresh_token&refresh_token=r%3D%C3%A9&client_id=org_4t2qZ4p1vM5K9nL7x"
    );
}

#[test]
fn callback_checks_state_then_error_then_code() {
    let good = "/callback?code=abc&state=s1";
    assert_eq!(process_xai_request(good, "s1"), CallbackAction::ExchangeCode { code: "abc".to_string() });
    assert_eq!(process_xai_request(good, "s2"), respond(400, "State mismatch"));
    assert_eq!(
        process_xai_request("/callback?state=s1&error=access_denied&error_description=User%20said%20no", "s1"),
        CallbackAction::Fail {
            body: "xAI sign-in failed: User said no".to_string(),
            failure: LoginFailure::SignInFailed("xAI sign-in failed: User said no".to_string()),
        }
    );
    assert_eq!(
        process_xai_request("/callback?state=s1&error=access_denied", "s1"),
        CallbackAction::Fail {
            body: "xAI sign-in failed: access_denied".to_string(),
            failure: LoginFailure::SignInFailed("xAI sign-in failed: access_denied".to_string()),
        }
    );
    assert_eq!(
        process_xai_request("/callback?state=s1&code=", "s1"),
        CallbackAction::Fail {
            body: "Missing authorization code".to_string(),
            failure: LoginFailure::MissingCode,
        }
    );
}

#[test]
fn cancel_and_unknown_paths() {
    assert_eq!(
        process_xai_request("/cancel", "s"),
        CallbackAction::Fail { body: "Login cancelled".to_string(), failure: LoginFailure::Cancelled }
    );
    assert_eq!(process_xai_request("/favicon.ico", "s"), respond(404, "Not Found"));
    assert_eq!(decide_callback(None, "s"), respond(400, "Bad Request"));
}

#[test]
fn later_query_parameters_replace_earlier_ones() {
    let parsed = Some((
        "/callback".to_string(),
        vec![
            ("state".to_string(), "old".to_string()),
            ("state".to_string(), "s".to_string()),
            ("code".to_string(), "c".to_string()),
        ],
    ));
    assert_eq!(decide_callback(parsed, "s"), CallbackAction::ExchangeCode { code: "c".to_string() });
}

#[test]
fn exchange_outcomes_end_the_login() {
    assert_eq!(finish_after_exchange(Ok(())), CallbackAction::Succeed);
    assert_eq!(
        finish_after_exchange(Err(ExchangeError::Exchange("timeout".to_string()))),
        CallbackAction::Fail {
            body: "xAI token exchange failed: timeout".to_string(),
            failure: LoginFailure::ExchangeFailed("xAI token exchange failed: timeout".to_string()),
        }
    );
    assert_eq!(
        finish_after_exchange(Err(ExchangeError::Persist("disk full".to_string()))),
        CallbackAction::Fail {
            body: "Sign-in completed but credentials could not be saved locally".to_string(),
            failure: LoginFailure::PersistFailed("xAI persist failed: disk full".to_string()),
        }
    );
    assert_eq!(login_outcome(&CallbackAction::Succeed), Some(Ok(())));
    assert_eq!(login_outcome(&respond(404, "Not Found")), None);
    assert_eq!(LoginFailure::Cancelled.message(), "xAI login cancelled");
}

#[test]
fn final_response_closes_the_connection() {
    let headers = vec![
        ("Content-Type".to_string(), "text/html; charset=utf-8".to_string()),
        ("connection".to_string(), "keep-alive".to_string()),
    ];
    assert_eq!(
        final_response_head_text(&headers, 1234),
        "HTTP/1.1 200 OK\r\nContent-Type: text/html; charset=utf-8\r\nConnection: close\r\nContent-Length: 1234\r\n\r\n"
    );
    assert_eq!(
        final_response_head_text(&Vec::new(), 0),
        "HTTP/1.1 200 OK\r\nConnection: close\r\nContent-Length: 0\r\n\r\n"
    );
}

#[test]
fn addresses_and_state() {
    assert_eq!(xai_redirect_uri(8080), "http://127.0.0.1:8080/callback");
    assert_eq!(xai_bind_address(), "127.0.0.1:56121");
    let a = generate_state();
    let b = generate_state();
    assert_eq!(a.len(), 43);
    assert!(a.chars().all(|c| c.is_ascii_alphanumeric() || c == '-' || c == '_'));
    assert_ne!(a, b);
}

#[test]
fn options_open_the_browser() {
    let opts = XaiLoginServerOptions::new(
        "/home/u/.codex".to_string(),
        AuthCredentialsStoreMode::File,
        AuthKeyringBackendKind::Native,
        None,
    );
    assert!(opts.open_browser);
    assert_eq!(opts.codex_home, "/home/u/.codex");
    let tokens = XaiExchangedTokens {
        id_token: "i".to_string(),
        access_token: "a".to_string(),
        refresh_token: "r".to_string(),
    };
    assert_eq!(tokens.refresh_token, "r");
}

#[test]
fn token_endpoint_failure_reports_status_and_body_only_for_non_success() {
    assert_eq!(token_endpoint_failure(200, "200 OK", "{}"), None);
    assert_eq!(token_endpoint_failure(299, "299 <unknown status code>", ""), None);
    assert_eq!(
        token_endpoint_failure(400, "400 Bad Request", "invalid_grant"),
        Some("xAI token endpoint returned status 400 Bad Request: invalid_grant".to_string())
    );
}

#[test]
fn token_refresh_failure_names_the_refresh() {
    assert_eq!(token_refresh_failure(204, "204 No Content", ""), None);
    assert_eq!(
        token_refresh_failure(401, "401 Unauthorized", "expired"),
        Some("xAI token refresh returned status 401 Unauthorized: expired".to_string())
    );
}
