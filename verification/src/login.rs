//! What the xAI (Grok / SuperGrok) login commands report.
//!
//! Browser OAuth (`codex login`) and API key login via stdin
//! (`printenv XAI_API_KEY | codex login --with-api-key`) both end with a message on stderr
//! and an exit code; this module decides both.

use vstd::prelude::*;

use vstd::utf8::decode_utf8;
use vstd::utf8::encode_utf8;
use vstd::utf8::encode_utf8_decode_utf8;
use vstd::utf8::is_char_boundary;

use crate::text::decimal;
use crate::text::decimal_string;
use crate::text::trim;
use crate::text::trim_string;

verus! {

/// Environment variable that holds an xAI API key.
pub const XAI_API_KEY_ENV_VAR: &'static str = "XAI_API_KEY";

/// Printed when a login finishes.
pub const LOGIN_SUCCESS_MESSAGE: &'static str = "Successfully logged in";

/// An API key shown with its middle hidden: keys of at most 13 bytes become `***`, longer
/// ones keep their first 8 and last 5 bytes around `***`.
pub open spec fn masked_key(key: Seq<char>) -> Seq<char> {
    let b = encode_utf8(key);
    let n = b.len();
    if n <= 13 {
        "***"@
    } else {
        decode_utf8(b.subrange(0, 8)) + "***"@ + decode_utf8(b.subrange(n - 5, n as int))
    }
}

/// The cuts of a long key fall on character boundaries (slicing panics otherwise).
pub open spec fn key_cuts_on_boundaries(key: Seq<char>) -> bool {
    let b = encode_utf8(key);
    b.len() > 13 ==> is_char_boundary(b, 8) && is_char_boundary(b, b.len() - 5)
}

/// `key` with its middle hidden (see [`masked_key`]).
pub fn safe_format_key(key: &str) -> (r: String)
    requires
        key_cuts_on_boundaries(key@),
        encode_utf8(key@).len() <= usize::MAX,
    ensures
        r@ == masked_key(key@),
{
    let n = key.len();
    assert(n == encode_utf8(key@).len());
    if n <= 13 {
        return String::from_str("***");
    }
    let (prefix, _) = key.split_at(8);
    let (_, suffix) = key.split_at(n - 5);
    proof {
        encode_utf8_decode_utf8(prefix@);
        encode_utf8_decode_utf8(suffix@);
    }
    String::from_str(prefix).concat("***").concat(suffix)
}

/// Why no secret was read from stdin.
#[derive(Debug, PartialEq)]
pub enum StdinSecretError {
    /// Stdin is a terminal; the text says how to pipe the secret instead.
    Terminal(String),
    /// Reading stdin failed.
    ReadFailed(String),
    /// Stdin held only whitespace.
    Empty(String),
}

impl StdinSecretError {
    /// The line printed for the error.
    pub fn message(&self) -> (r: String)
        ensures
            r@ == match self {
                StdinSecretError::Terminal(m) => m@,
                StdinSecretError::ReadFailed(m) => m@,
                StdinSecretError::Empty(m) => m@,
            },
    {
        match self {
            StdinSecretError::Terminal(m) => m.clone(),
            StdinSecretError::ReadFailed(m) => m.clone(),
            StdinSecretError::Empty(m) => m.clone(),
        }
    }
}

/// The secret in what was read from stdin: the input trimmed, an error when that is empty
/// or when the read failed.
pub open spec fn secret_outcome(r: Result<String, StdinSecretError>, read: Result<String, String>, empty_message: Seq<char>) -> bool {
    match read {
        Err(e) => r matches Err(StdinSecretError::ReadFailed(m)) && m@ == "Failed to read stdin: "@ + e@,
        Ok(buffer) => if trim(buffer@).len() == 0 {
            r matches Err(StdinSecretError::Empty(m)) && m@ == empty_message
        } else {
            r matches Ok(s) && s@ == trim(buffer@)
        },
    }
}

/// The secret in what was read from stdin (see [`secret_outcome`]).
pub fn secret_from_stdin_input(read: Result<String, String>, empty_message: &str) -> (r: Result<String, StdinSecretError>)
    ensures
        secret_outcome(r, read, empty_message@),
        r matches Ok(s) ==> s@.len() > 0 && !crate::text::is_white_space(s@[0])
            && !crate::text::is_white_space(s@.last()),
{
    match read {
        Err(e) => Err(StdinSecretError::ReadFailed(String::from_str("Failed to read stdin: ").concat(e.as_str()))),
        Ok(buffer) => {
            let secret = trim_string(buffer.as_str());
            if secret.as_str().unicode_len() == 0 {
                Err(StdinSecretError::Empty(String::from_str(empty_message)))
            } else {
                Ok(secret)
            }
        },
    }
}

/// The secret piped to stdin: refused when stdin is a terminal, else taken from what was
/// read (see [`secret_from_stdin_input`]). The caller reads stdin only when it is no
/// terminal, after printing its reading message.
fn read_stdin_secret(
    stdin_is_terminal: bool,
    read: Result<String, String>,
    terminal_message: &str,
    empty_message: &str,
) -> (r: Result<String, StdinSecretError>)
    ensures
        stdin_is_terminal ==> (r matches Err(StdinSecretError::Terminal(m)) && m@ == terminal_message@),
        !stdin_is_terminal ==> secret_outcome(r, read, empty_message@),
{
    if stdin_is_terminal {
        return Err(StdinSecretError::Terminal(String::from_str(terminal_message)));
    }
    secret_from_stdin_input(read, empty_message)
}

/// The message shown when stdin is a terminal.
pub open spec fn api_key_terminal_message() -> Seq<char> {
    "--with-api-key expects the API key on stdin. Try piping it, e.g. `printenv "@ + XAI_API_KEY_ENV_VAR@
        + " | codex login --with-api-key`."@
}

/// The line printed before stdin is read for the API key.
pub const API_KEY_READING_MESSAGE: &'static str = "Reading API key from stdin...";

/// The xAI API key piped to stdin, given whether stdin is a terminal and, when it is not,
/// what reading it gave (see [`read_stdin_secret`]).
pub fn read_api_key_from_stdin(stdin_is_terminal: bool, read: Result<String, String>) -> (r: Result<String, StdinSecretError>)
    ensures
        stdin_is_terminal ==> (r matches Err(StdinSecretError::Terminal(m)) && m@ == api_key_terminal_message()),
        !stdin_is_terminal ==> secret_outcome(r, read, "No API key provided via stdin."@),
{
    let terminal = String::from_str(
        "--with-api-key expects the API key on stdin. Try piping it, e.g. `printenv ",
    ).concat(XAI_API_KEY_ENV_VAR).concat(" | codex login --with-api-key`.");
    read_stdin_secret(stdin_is_terminal, read, terminal.as_str(), "No API key provided via stdin.")
}

/// A line for stderr and the exit code that follows it.
#[derive(Debug, PartialEq)]
pub struct CliReport {
    pub message: String,
    pub exit_code: i32,
}

/// How the stored credentials authenticate, as `codex login status` finds them.
pub enum StoredAuth {
    /// An API key; its value, or why it could not be read.
    ApiKey(Result<String, String>),
    XaiOAuth,
    Chatgpt,
    ChatgptAuthTokens,
    AgentIdentity,
    PersonalAccessToken,
    BedrockApiKey,
}

pub open spec fn report_is(r: CliReport, message: Seq<char>, exit_code: i32) -> bool {
    r.message@ == message && r.exit_code == exit_code
}

pub open spec fn not_logged_in_message() -> Seq<char> {
    "Not logged in. Run `codex login` for xAI OAuth or `printenv "@ + XAI_API_KEY_ENV_VAR@
        + " | codex login --with-api-key`."@
}

/// What `codex login status` reports for the stored credentials `auth` (absent when not
/// logged in, an error text when they could not be read): the kind of login and exit code 0,
/// or the problem and exit code 1.
pub fn login_status_report(auth: Result<Option<StoredAuth>, String>) -> (r: CliReport)
    requires
        auth matches Ok(Some(StoredAuth::ApiKey(Ok(k)))) ==> key_cuts_on_boundaries(k@)
            && encode_utf8(k@).len() <= usize::MAX,
    ensures
        match auth {
            Ok(Some(StoredAuth::ApiKey(Ok(k)))) => report_is(r, "Logged in using an xAI API key - "@ + masked_key(k@), 0),
            Ok(Some(StoredAuth::ApiKey(Err(e)))) => report_is(r, "Unexpected error retrieving API key: "@ + e@, 1),
            Ok(Some(StoredAuth::XaiOAuth)) => report_is(r, "Logged in using xAI (Grok / SuperGrok)"@, 0),
            Ok(Some(StoredAuth::Chatgpt)) | Ok(Some(StoredAuth::ChatgptAuthTokens)) => report_is(
                r,
                "Logged in using legacy ChatGPT credentials (run `codex login` to switch to xAI)"@,
                0,
            ),
            Ok(Some(StoredAuth::AgentIdentity)) => report_is(r, "Logged in using access token"@, 0),
            Ok(Some(StoredAuth::PersonalAccessToken)) => report_is(r, "Logged in using personal access token"@, 0),
            Ok(Some(StoredAuth::BedrockApiKey)) => report_is(r, "Logged in using Amazon Bedrock API key"@, 0),
            Ok(None) => report_is(r, not_logged_in_message(), 1),
            Err(e) => report_is(r, "Error checking login status: "@ + e@, 1),
        },
{
    match auth {
        Ok(Some(StoredAuth::ApiKey(Ok(k)))) => CliReport {
            message: String::from_str("Logged in using an xAI API key - ").concat(safe_format_key(k.as_str()).as_str()),
            exit_code: 0,
        },
        Ok(Some(StoredAuth::ApiKey(Err(e)))) => CliReport {
            message: String::from_str("Unexpected error retrieving API key: ").concat(e.as_str()),
            exit_code: 1,
        },
        Ok(Some(StoredAuth::XaiOAuth)) => CliReport {
            message: String::from_str("Logged in using xAI (Grok / SuperGrok)"),
            exit_code: 0,
        },
        Ok(Some(StoredAuth::Chatgpt)) | Ok(Some(StoredAuth::ChatgptAuthTokens)) => CliReport {
            message: String::from_str(
                "Logged in using legacy ChatGPT credentials (run `codex login` to switch to xAI)",
            ),
            exit_code: 0,
        },
        Ok(Some(StoredAuth::AgentIdentity)) => CliReport {
            message: String::from_str("Logged in using access token"),
            exit_code: 0,
        },
        Ok(Some(StoredAuth::PersonalAccessToken)) => CliReport {
            message: String::from_str("Logged in using personal access token"),
            exit_code: 0,
        },
        Ok(Some(StoredAuth::BedrockApiKey)) => CliReport {
            message: String::from_str("Logged in using Amazon Bedrock API key"),
            exit_code: 0,
        },
        Ok(None) => CliReport {
            message: String::from_str("Not logged in. Run `codex login` for xAI OAuth or `printenv ").concat(
                XAI_API_KEY_ENV_VAR,
            ).concat(" | codex login --with-api-key`."),
            exit_code: 1,
        },
        Err(e) => CliReport {
            message: String::from_str("Error checking login status: ").concat(e.as_str()),
            exit_code: 1,
        },
    }
}

/// What `codex logout` reports: whether credentials were removed, or why not.
pub fn logout_report(outcome: Result<bool, String>) -> (r: CliReport)
    ensures
        match outcome {
            Ok(true) => report_is(r, "Successfully logged out"@, 0),
            Ok(false) => report_is(r, "Not logged in"@, 0),
            Err(e) => report_is(r, "Error logging out: "@ + e@, 1),
        },
{
    match outcome {
        Ok(true) => CliReport { message: String::from_str("Successfully logged out"), exit_code: 0 },
        Ok(false) => CliReport { message: String::from_str("Not logged in"), exit_code: 0 },
        Err(e) => CliReport { message: String::from_str("Error logging out: ").concat(e.as_str()), exit_code: 1 },
    }
}

/// What an API key login reports.
pub fn api_key_login_report(outcome: Result<(), String>) -> (r: CliReport)
    ensures
        match outcome {
            Ok(()) => report_is(r, LOGIN_SUCCESS_MESSAGE@, 0),
            Err(e) => report_is(r, "Error logging in: "@ + e@, 1),
        },
{
    match outcome {
        Ok(()) => CliReport { message: String::from_str(LOGIN_SUCCESS_MESSAGE), exit_code: 0 },
        Err(e) => CliReport { message: String::from_str("Error logging in: ").concat(e.as_str()), exit_code: 1 },
    }
}

/// What a browser login reports once its callback server has stopped.
pub fn xai_login_report(outcome: Result<(), String>) -> (r: CliReport)
    ensures
        match outcome {
            Ok(()) => report_is(r, LOGIN_SUCCESS_MESSAGE@, 0),
            Err(e) => report_is(r, "Error logging in to xAI: "@ + e@, 1),
        },
{
    match outcome {
        Ok(()) => CliReport { message: String::from_str(LOGIN_SUCCESS_MESSAGE), exit_code: 0 },
        Err(e) => CliReport { message: String::from_str("Error logging in to xAI: ").concat(e.as_str()), exit_code: 1 },
    }
}

/// What is reported when the callback server cannot start.
pub fn xai_server_start_failure_report(error: &str) -> (r: CliReport)
    ensures
        report_is(r, "Error starting xAI login server: "@ + error@, 1),
{
    CliReport { message: String::from_str("Error starting xAI login server: ").concat(error), exit_code: 1 }
}

/// The notice printed once the callback server listens: its port, and the URL to open when
/// the browser did not.
pub fn xai_login_server_notice(port: u16, auth_url: &str) -> (r: String)
    ensures
        r@ == "Starting xAI login server on http://localhost:"@ + decimal(port as nat)
            + ".\nIf your browser did not open, navigate to this URL to authenticate:\n\n"@ + auth_url@ + "\n"@,
{
    String::from_str("Starting xAI login server on http://localhost:").concat(
        decimal_string(port as u64).as_str(),
    ).concat(".\nIf your browser did not open, navigate to this URL to authenticate:\n\n").concat(auth_url).concat("\n")
}

} // verus!
