use codex_grok::login::api_key_login_report;
use codex_grok::login::login_status_report;
use codex_grok::login::logout_report;
use codex_grok::login::read_api_key_from_stdin;
use codex_grok::login::safe_format_key;
use codex_grok::login::secret_from_stdin_input;
use codex_grok::login::xai_login_report;
use codex_grok::login::xai_login_server_notice;
use codex_grok::login::xai_server_start_failure_report;
use codex_grok::login::StdinSecretError;
use codex_grok::login::StoredAuth;

#[test]
fn formats_long_key() {
    let key = "xai-1234567890ABCDE";
    assert_eq!(safe_format_key(key), "xai-1234***ABCDE");
}

#[test]
fn short_key_returns_stars() {
    let key = "xai-12345";
    assert_eq!(safe_format_key(key), "***");
}

#[test]
fn key_of_thirteen_bytes_is_hidden_and_fourteen_shows_ends() {
    assert_eq!(safe_format_key("1234567890123"), "***");
    assert_eq!(safe_format_key("12345678901234"), "12345678***01234");
}

#[test]
fn stdin_secret_is_trimmed_and_must_not_be_empty() {
    assert_eq!(
        secret_from_stdin_input(Ok("  xai-key \n".to_string()), "empty"),
        Ok("xai-key".to_string())
    );
    assert_eq!(
        secret_from_stdin_input(Ok(" \n\t".to_string()), "No API key provided via stdin."),
        Err(StdinSecretError::Empty("No API key provided via stdin.".to_string()))
    );
    assert_eq!(
        secret_from_stdin_input(Err("broken pipe".to_string()), "empty"),
        Err(StdinSecretError::ReadFailed("Failed to read stdin: broken pipe".to_string()))
    );
}

#[test]
fn api_key_from_stdin_refuses_a_terminal_and_trims_piped_input() {
    assert_eq!(
        read_api_key_from_stdin(true, Ok("ignored".to_string())),
        Err(StdinSecretError::Terminal(
            "--with-api-key expects the API key on stdin. Try piping it, e.g. `printenv XAI_API_KEY | codex login --with-api-key`."
                .to_string()
        ))
    );
    assert_eq!(
        read_api_key_from_stdin(false, Ok("\txai-abc\n".to_string())),
        Ok("xai-abc".to_string())
    );
    assert_eq!(
        read_api_key_from_stdin(false, Ok("   ".to_string())),
        Err(StdinSecretError::Empty("No API key provided via stdin.".to_string()))
    );
}

#[test]
fn login_status_names_each_login_kind() {
    let report = login_status_report(Ok(Some(StoredAuth::ApiKey(Ok("xai-1234567890ABCDE".to_string())))));
    assert_eq!(report.message, "Logged in using an xAI API key - xai-1234***ABCDE");
    assert_eq!(report.exit_code, 0);
    let report = login_status_report(Ok(Some(StoredAuth::XaiOAuth)));
    assert_eq!(report.message, "Logged in using xAI (Grok / SuperGrok)");
    let report = login_status_report(Ok(Some(StoredAuth::ChatgptAuthTokens)));
    assert_eq!(
        report.message,
        "Logged in using legacy ChatGPT credentials (run `codex login` to switch to xAI)"
    );
    let report = login_status_report(Ok(None));
    assert_eq!(
        report.message,
        "Not logged in. Run `codex login` for xAI OAuth or `printenv XAI_API_KEY | codex login --with-api-key`."
    );
    assert_eq!(report.exit_code, 1);
    let report = login_status_report(Ok(Some(StoredAuth::ApiKey(Err("locked".to_string())))));
    assert_eq!(report.message, "Unexpected error retrieving API key: locked");
    assert_eq!(report.exit_code, 1);
    let report = login_status_report(Err("bad file".to_string()));
    assert_eq!(report.message, "Error checking login status: bad file");
    assert_eq!(report.exit_code, 1);
}

#[test]
fn logout_and_login_reports() {
    assert_eq!(logout_report(Ok(true)).message, "Successfully logged out");
    assert_eq!(logout_report(Ok(false)).message, "Not logged in");
    assert_eq!(logout_report(Ok(false)).exit_code, 0);
    let failed = logout_report(Err("denied".to_string()));
    assert_eq!((failed.message.as_str(), failed.exit_code), ("Error logging out: denied", 1));
    assert_eq!(api_key_login_report(Ok(())).message, "Successfully logged in");
    assert_eq!(api_key_login_report(Err("io".to_string())).message, "Error logging in: io");
    assert_eq!(xai_login_report(Err("cancelled".to_string())).message, "Error logging in to xAI: cancelled");
    assert_eq!(xai_server_start_failure_report("in use").exit_code, 1);
}

#[test]
fn login_server_notice_names_port_and_url() {
    assert_eq!(
        xai_login_server_notice(56121, "https://auth.x.ai/x"),
        "Starting xAI login server on http://localhost:56121.\nIf your browser did not open, navigate to this URL to authenticate:\n\nhttps://auth.x.ai/x\n"
    );
}
