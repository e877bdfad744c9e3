//! The decisions of xAI's (Grok / SuperGrok) OAuth loopback login.
//!
//! The PKCE authorization-code flow runs against `auth.x.ai`. The callback server's
//! network side lives outside the library; this module builds the authorize URL and token
//! request bodies, decides what each callback request is answered and how the login ends,
//! and frames the final response.

use vstd::prelude::*;

use base64::Engine;
use rand::RngCore;
use vstd::utf8::encode_utf8;

use crate::text::chars_to_string;
use crate::text::decimal;
use crate::text::decimal_string;
use crate::text::chars_eq_ignore_ascii_case;
use crate::text::eq_ignore_ascii_case;
use crate::text::str_to_chars;

verus! {

/// xAI OAuth issuer.
pub const XAI_OAUTH_ISSUER: &'static str = "https://auth.x.ai";

/// xAI OAuth discovery document URL.
pub const XAI_OAUTH_DISCOVERY_URL: &'static str = "https://auth.x.ai/.well-known/openid-configuration";

/// xAI OAuth client id of the public SuperGrok CLI client.
pub const XAI_OAUTH_CLIENT_ID: &'static str = "org_4t2qZ4p1vM5K9nL7x";

/// OAuth scopes requested from xAI.
pub const XAI_OAUTH_SCOPE: &'static str = "openid profile email offline_access grok-cli:access api:access";

/// Loopback callback host.
pub const XAI_OAUTH_REDIRECT_HOST: &'static str = "127.0.0.1";

/// Loopback callback port.
pub const XAI_OAUTH_REDIRECT_PORT: u16 = 56121;

/// Loopback callback path.
pub const XAI_OAUTH_REDIRECT_PATH: &'static str = "/callback";

/// xAI inference base URL.
pub const XAI_INFERENCE_BASE_URL: &'static str = "https://api.x.ai/v1";

/// Tokens returned by the xAI OAuth authorization-code exchange.
pub struct XaiExchangedTokens {
    pub id_token: String,
    pub access_token: String,
    pub refresh_token: String,
}

/// Where login credentials are stored.
#[derive(Clone, Copy, Debug, PartialEq, Eq, Structural)]
pub enum AuthCredentialsStoreMode {
    File,
    Keyring,
    Auto,
    Ephemeral,
}

/// Which keyring backend holds credentials stored in a keyring.
#[derive(Clone, Copy, Debug, PartialEq, Eq, Structural)]
pub enum AuthKeyringBackendKind {
    Native,
    File,
}

/// Options for launching the xAI local login callback server.
pub struct XaiLoginServerOptions {
    pub codex_home: String,
    pub auth_credentials_store_mode: AuthCredentialsStoreMode,
    pub auth_keyring_backend_kind: AuthKeyringBackendKind,
    /// The outbound proxy route for auth requests, when one is configured.
    pub auth_route_config: Option<String>,
    pub open_browser: bool,
}

impl XaiLoginServerOptions {
    /// Options that open the browser on the authorize URL.
    pub fn new(
        codex_home: String,
        auth_credentials_store_mode: AuthCredentialsStoreMode,
        auth_keyring_backend_kind: AuthKeyringBackendKind,
        auth_route_config: Option<String>,
    ) -> (r: Self)
        ensures
            r.codex_home == codex_home,
            r.auth_credentials_store_mode == auth_credentials_store_mode,
            r.auth_keyring_backend_kind == auth_keyring_backend_kind,
            r.auth_route_config == auth_route_config,
            r.open_browser,
    {
        XaiLoginServerOptions {
            codex_home,
            auth_credentials_store_mode,
            auth_keyring_backend_kind,
            auth_route_config,
            open_browser: true,
        }
    }
}

/// An unreserved byte: ASCII letter, digit, `-`, `.`, `_` or `~`.
pub open spec fn is_unreserved(b: u8) -> bool {
    (0x30 <= b <= 0x39) || (0x41 <= b <= 0x5a) || (0x61 <= b <= 0x7a) || b == 0x2d || b == 0x2e
        || b == 0x5f || b == 0x7e
}

/// The uppercase hexadecimal digit for `n` in `0..16`.
pub open spec fn upper_hex(n: int) -> char {
    if n < 10 {
        (('0' as int) + n) as char
    } else {
        (('A' as int) + n - 10) as char
    }
}

/// Percent-encoding of `bytes`: unreserved bytes as themselves, every other byte as `%XX`.
pub open spec fn percent_encode(bytes: Seq<u8>) -> Seq<char>
    decreases bytes.len(),
{
    if bytes.len() == 0 {
        Seq::empty()
    } else {
        let b = bytes.last();
        let tail = if is_unreserved(b) {
            seq![b as char]
        } else {
            seq!['%', upper_hex((b as int) / 16), upper_hex((b as int) % 16)]
        };
        percent_encode(bytes.drop_last()) + tail
    }
}

/// `s` percent-encoded over its UTF-8 bytes.
pub open spec fn url_encoded(s: Seq<char>) -> Seq<char> {
    percent_encode(encode_utf8(s))
}

/// `urlencoding::encode`: percent-encodes every UTF-8 byte of `s` except ASCII letters,
/// digits, `-`, `.`, `_` and `~`, with uppercase hexadecimal digits.
#[verifier::external_body]
fn url_encode(s: &str) -> (r: String)
    ensures
        r@ == url_encoded(s@),
{
    urlencoding::encode(s).into_owned()
}

/// `k=v` pairs joined by `&`, each value percent-encoded.
pub open spec fn query_string(pairs: Seq<(Seq<char>, Seq<char>)>) -> Seq<char>
    decreases pairs.len(),
{
    if pairs.len() == 0 {
        Seq::empty()
    } else {
        let before = query_string(pairs.drop_last());
        let sep: Seq<char> = if pairs.len() == 1 {
            Seq::empty()
        } else {
            seq!['&']
        };
        before + sep + pairs.last().0 + seq!['='] + url_encoded(pairs.last().1)
    }
}

/// The parameters of the authorize request, in order.
pub open spec fn authorize_params(redirect_uri: Seq<char>, code_challenge: Seq<char>, state: Seq<char>) -> Seq<
    (Seq<char>, Seq<char>),
> {
    seq![
        ("response_type"@, "code"@),
        ("client_id"@, XAI_OAUTH_CLIENT_ID@),
        ("redirect_uri"@, redirect_uri),
        ("scope"@, XAI_OAUTH_SCOPE@),
        ("code_challenge"@, code_challenge),
        ("code_challenge_method"@, "S256"@),
        ("state"@, state),
    ]
}

/// `pairs` as a query string.
pub fn encode_query(pairs: &Vec<(String, String)>) -> (r: Vec<char>)
    ensures
        r@ == query_string(pairs@.map_values(|p: (String, String)| (p.0@, p.1@))),
{
    let ghost ps = pairs@.map_values(|p: (String, String)| (p.0@, p.1@));
    let mut out: Vec<char> = Vec::new();
    let mut i: usize = 0;
    while i < pairs.len()
        invariant
            i <= pairs.len(),
            ps == pairs@.map_values(|p: (String, String)| (p.0@, p.1@)),
            out@ == query_string(ps.take(i as int)),
        decreases pairs.len() - i,
    {
        proof {
            assert(ps.take(i + 1).drop_last() =~= ps.take(i as int));
        }
        if i > 0 {
            out.push('&');
        }
        let key = str_to_chars(pairs[i].0.as_str());
        append(&mut out, &key);
        out.push('=');
        let value = url_encode(pairs[i].1.as_str());
        let enc = str_to_chars(value.as_str());
        append(&mut out, &enc);
        proof {
            let sep: Seq<char> = if i == 0 {
                Seq::empty()
            } else {
                seq!['&']
            };
            assert(out@ =~= query_string(ps.take(i as int)) + sep + ps[i as int].0 + seq!['=']
                + url_encoded(ps[i as int].1));
        }
        i = i + 1;
    }
    assert(ps.take(pairs.len() as int) =~= ps);
    out
}

fn append(out: &mut Vec<char>, s: &[char])
    ensures
        final(out)@ == old(out)@ + s@,
{
    let mut i: usize = 0;
    while i < s.len()
        invariant
            i <= s.len(),
            out@ == old(out)@ + s@.take(i as int),
        decreases s.len() - i,
    {
        out.push(s[i]);
        assert(s@.take(i + 1) =~= s@.take(i as int).push(s@[i as int]));
        i = i + 1;
    }
    assert(s@.take(s.len() as int) =~= s@);
}

fn text_pair(k: &str, v: &str) -> (r: (String, String))
    ensures
        r.0@ == k@,
        r.1@ == v@,
{
    (String::from_str(k), String::from_str(v))
}

/// The browser URL that starts the login.
pub open spec fn authorize_url(redirect_uri: Seq<char>, code_challenge: Seq<char>, state: Seq<char>) -> Seq<char> {
    XAI_OAUTH_ISSUER@ + "/oauth/authorize?"@ + query_string(
        authorize_params(redirect_uri, code_challenge, state),
    )
}

/// The authorize URL for `redirect_uri`, the PKCE challenge and `state`.
pub fn build_xai_authorize_url(redirect_uri: &str, code_challenge: &str, state: &str) -> (r: String)
    ensures
        r@ == authorize_url(redirect_uri@, code_challenge@, state@),
{
    let mut pairs: Vec<(String, String)> = Vec::new();
    pairs.push(text_pair("response_type", "code"));
    pairs.push(text_pair("client_id", XAI_OAUTH_CLIENT_ID));
    pairs.push(text_pair("redirect_uri", redirect_uri));
    pairs.push(text_pair("scope", XAI_OAUTH_SCOPE));
    pairs.push(text_pair("code_challenge", code_challenge));
    pairs.push(text_pair("code_challenge_method", "S256"));
    pairs.push(text_pair("state", state));
    let qs = encode_query(&pairs);
    assert(pairs@.map_values(|p: (String, String)| (p.0@, p.1@)) =~= authorize_params(
        redirect_uri@,
        code_challenge@,
        state@,
    ));
    let mut url = str_to_chars(XAI_OAUTH_ISSUER);
    let path = str_to_chars("/oauth/authorize?");
    append(&mut url, &path);
    append(&mut url, &qs);
    chars_to_string(&url)
}

/// The form body that exchanges an authorization code for tokens.
pub open spec fn code_exchange_body(code: Seq<char>, redirect_uri: Seq<char>, code_verifier: Seq<char>) -> Seq<char> {
    "grant_type=authorization_code&code="@ + url_encoded(code) + "&redirect_uri="@ + url_encoded(
        redirect_uri,
    ) + "&client_id="@ + url_encoded(XAI_OAUTH_CLIENT_ID@) + "&code_verifier="@ + url_encoded(
        code_verifier,
    )
}

/// The form body of the authorization-code exchange.
pub fn xai_code_exchange_body(code: &str, redirect_uri: &str, code_verifier: &str) -> (r: String)
    ensures
        r@ == code_exchange_body(code@, redirect_uri@, code_verifier@),
{
    let mut out = str_to_chars("grant_type=authorization_code&code=");
    append(&mut out, &str_to_chars(url_encode(code).as_str()));
    append(&mut out, &str_to_chars("&redirect_uri="));
    append(&mut out, &str_to_chars(url_encode(redirect_uri).as_str()));
    append(&mut out, &str_to_chars("&client_id="));
    append(&mut out, &str_to_chars(url_encode(XAI_OAUTH_CLIENT_ID).as_str()));
    append(&mut out, &str_to_chars("&code_verifier="));
    append(&mut out, &str_to_chars(url_encode(code_verifier).as_str()));
    chars_to_string(&out)
}

/// The form body that refreshes an access token.
pub open spec fn token_refresh_body(refresh_token: Seq<char>) -> Seq<char> {
    "grant_type=refresh_token&refresh_token="@ + url_encoded(refresh_token) + "&client_id="@
        + url_encoded(XAI_OAUTH_CLIENT_ID@)
}

/// The form body of a token refresh.
pub fn xai_token_refresh_body(refresh_token: &str) -> (r: String)
    ensures
        r@ == token_refresh_body(refresh_token@),
{
    let mut out = str_to_chars("grant_type=refresh_token&refresh_token=");
    append(&mut out, &str_to_chars(url_encode(refresh_token).as_str()));
    append(&mut out, &str_to_chars("&client_id="));
    append(&mut out, &str_to_chars(url_encode(XAI_OAUTH_CLIENT_ID).as_str()));
    chars_to_string(&out)
}

/// The character for the six-bit value `v` in the URL-safe base64 alphabet
/// (`A`-`Z`, `a`-`z`, `0`-`9`, `-`, `_`).
pub open spec fn base64_url_char(v: int) -> char {
    if v < 26 {
        (65 + v) as char
    } else if v < 52 {
        (97 + v - 26) as char
    } else if v < 62 {
        (48 + v - 52) as char
    } else if v == 62 {
        '-'
    } else {
        '_'
    }
}

/// The URL-safe base64 text of `bytes` without padding (RFC 4648, section 5): each three
/// bytes become four characters, a last one or two bytes become two or three.
pub open spec fn base64_url_no_pad(bytes: Seq<u8>) -> Seq<char>
    decreases bytes.len(),
{
    if bytes.len() == 0 {
        Seq::empty()
    } else if bytes.len() == 1 {
        seq![base64_url_char((bytes[0] / 4) as int), base64_url_char((bytes[0] % 4) as int * 16)]
    } else if bytes.len() == 2 {
        seq![
            base64_url_char((bytes[0] / 4) as int),
            base64_url_char((bytes[0] % 4) * 16 + bytes[1] / 16),
            base64_url_char((bytes[1] % 16) * 4),
        ]
    } else {
        seq![
            base64_url_char((bytes[0] / 4) as int),
            base64_url_char((bytes[0] % 4) * 16 + bytes[1] / 16),
            base64_url_char((bytes[1] % 16) * 4 + bytes[2] / 64),
            base64_url_char((bytes[2] % 64) as int),
        ] + base64_url_no_pad(bytes.skip(3))
    }
}

/// Thirty-two bytes from the thread-local random generator (`rand::rng().fill_bytes`).
/// Nothing is claimed of their values.
#[verifier::external_body]
fn random_bytes() -> (r: Vec<u8>)
    ensures
        r@.len() == 32,
{
    let mut bytes = [0u8; 32];
    rand::rng().fill_bytes(&mut bytes);
    bytes.to_vec()
}

/// `URL_SAFE_NO_PAD.encode(bytes)`: the URL-safe base64 text without padding, `ceil(4n/3)`
/// characters long.
#[verifier::external_body]
fn base64_url_encode(bytes: &[u8]) -> (r: String)
    ensures
        r@ == base64_url_no_pad(bytes@),
        r@.len() == (4 * bytes@.len() + 2) / 3,
{
    base64::engine::general_purpose::URL_SAFE_NO_PAD.encode(bytes)
}

/// A fresh `state` value: 32 random bytes in URL-safe base64 without padding (43 characters).
pub fn generate_state() -> (r: String)
    ensures
        exists|b: Seq<u8>| b.len() == 32 && r@ == base64_url_no_pad(b),
        r@.len() == 43,
{
    let bytes = random_bytes();
    base64_url_encode(bytes.as_slice())
}


/// Why a login ended without credentials.
#[derive(Debug, PartialEq)]
pub enum LoginFailure {
    /// xAI reported an error on the callback; the message quotes it.
    SignInFailed(String),
    /// The callback carried no authorization code.
    MissingCode,
    /// The user cancelled.
    Cancelled,
    /// The code could not be exchanged for tokens.
    ExchangeFailed(String),
    /// The tokens could not be saved.
    PersistFailed(String),
    /// The server stopped before a callback completed the login.
    NotCompleted,
}

impl LoginFailure {
    /// The error text of the failure.
    pub fn message(&self) -> (r: String)
        ensures
            r@ == failure_message(*self),
    {
        match self {
            LoginFailure::SignInFailed(m) => m.clone(),
            LoginFailure::MissingCode => String::from_str("Missing authorization code"),
            LoginFailure::Cancelled => String::from_str("xAI login cancelled"),
            LoginFailure::ExchangeFailed(m) => m.clone(),
            LoginFailure::PersistFailed(m) => m.clone(),
            LoginFailure::NotCompleted => String::from_str("xAI login was not completed"),
        }
    }
}

pub open spec fn failure_message(f: LoginFailure) -> Seq<char> {
    match f {
        LoginFailure::SignInFailed(m) => m@,
        LoginFailure::MissingCode => "Missing authorization code"@,
        LoginFailure::Cancelled => "xAI login cancelled"@,
        LoginFailure::ExchangeFailed(m) => m@,
        LoginFailure::PersistFailed(m) => m@,
        LoginFailure::NotCompleted => "xAI login was not completed"@,
    }
}

/// What the callback server does with one request.
#[derive(Debug, PartialEq)]
pub enum CallbackAction {
    /// Answer with `status` and `body`, and keep waiting.
    Respond { status: u16, body: String },
    /// Exchange `code` for tokens and save them, then ask [`finish_after_exchange`].
    ExchangeCode { code: String },
    /// Answer with the sign-in success page and end the login successfully.
    Succeed,
    /// Answer with `body`, close the connection and end the login with `failure`.
    Fail { body: String, failure: LoginFailure },
}

/// The value of the last query parameter named `k` (later ones replace earlier ones).
pub open spec fn param(ps: Seq<(Seq<char>, Seq<char>)>, k: Seq<char>) -> Option<Seq<char>>
    decreases ps.len(),
{
    if ps.len() == 0 {
        None
    } else if ps.last().0 == k {
        Some(ps.last().1)
    } else {
        param(ps.drop_last(), k)
    }
}

pub open spec fn params_view(ps: Seq<(String, String)>) -> Seq<(Seq<char>, Seq<char>)> {
    ps.map_values(|p: (String, String)| (p.0@, p.1@))
}

pub enum LoginFailureV {
    SignInFailed(Seq<char>),
    MissingCode,
    Cancelled,
    ExchangeFailed(Seq<char>),
    PersistFailed(Seq<char>),
    NotCompleted,
}

impl View for LoginFailure {
    type V = LoginFailureV;

    open spec fn view(&self) -> LoginFailureV {
        match self {
            LoginFailure::SignInFailed(m) => LoginFailureV::SignInFailed(m@),
            LoginFailure::MissingCode => LoginFailureV::MissingCode,
            LoginFailure::Cancelled => LoginFailureV::Cancelled,
            LoginFailure::ExchangeFailed(m) => LoginFailureV::ExchangeFailed(m@),
            LoginFailure::PersistFailed(m) => LoginFailureV::PersistFailed(m@),
            LoginFailure::NotCompleted => LoginFailureV::NotCompleted,
        }
    }
}

pub enum CallbackActionV {
    Respond(u16, Seq<char>),
    ExchangeCode(Seq<char>),
    Succeed,
    Fail(Seq<char>, LoginFailureV),
}

impl View for CallbackAction {
    type V = CallbackActionV;

    open spec fn view(&self) -> CallbackActionV {
        match self {
            CallbackAction::Respond { status, body } => CallbackActionV::Respond(*status, body@),
            CallbackAction::ExchangeCode { code } => CallbackActionV::ExchangeCode(code@),
            CallbackAction::Succeed => CallbackActionV::Succeed,
            CallbackAction::Fail { body, failure } => CallbackActionV::Fail(body@, failure@),
        }
    }
}

/// The callback answer: for `/callback`, a state other than the expected one is refused;
/// an `error` parameter ends the login with xAI's description (or its code); a non-empty
/// `code` is exchanged; otherwise the login ends for want of a code. `/cancel` ends the
/// login; other paths are not found; an unparsable URL is a bad request.
pub open spec fn callback_action(parsed: Option<(Seq<char>, Seq<(Seq<char>, Seq<char>)>)>, state: Seq<char>) -> CallbackActionV {
    match parsed {
        None => CallbackActionV::Respond(400, "Bad Request"@),
        Some((path, ps)) => if path == XAI_OAUTH_REDIRECT_PATH@ {
            if param(ps, "state"@) != Some(state) {
                CallbackActionV::Respond(400, "State mismatch"@)
            } else if param(ps, "error"@) is Some {
                let detail = match param(ps, "error_description"@) {
                    Some(d) => d,
                    None => param(ps, "error"@)->0,
                };
                let message = "xAI sign-in failed: "@ + detail;
                CallbackActionV::Fail(message, LoginFailureV::SignInFailed(message))
            } else if param(ps, "code"@) is Some && param(ps, "code"@)->0.len() > 0 {
                CallbackActionV::ExchangeCode(param(ps, "code"@)->0)
            } else {
                CallbackActionV::Fail("Missing authorization code"@, LoginFailureV::MissingCode)
            }
        } else if path == "/cancel"@ {
            CallbackActionV::Fail("Login cancelled"@, LoginFailureV::Cancelled)
        } else {
            CallbackActionV::Respond(404, "Not Found"@)
        },
    }
}

fn find_param<'a>(ps: &'a Vec<(String, String)>, k: &str) -> (r: Option<&'a String>)
    ensures
        match r {
            Some(v) => param(params_view(ps@), k@) == Some(v@),
            None => param(params_view(ps@), k@) is None,
        },
{
    let key = String::from_str(k);
    let mut i: usize = ps.len();
    assert(ps@.take(ps.len() as int) =~= ps@);
    while i > 0
        invariant
            i <= ps.len(),
            key@ == k@,
            param(params_view(ps@), k@) == param(params_view(ps@.take(i as int)), k@),
        decreases i,
    {
        proof {
            assert(params_view(ps@.take(i as int)).drop_last() =~= params_view(ps@.take(i - 1)));
        }
        if ps[i - 1].0 == key {
            return Some(&ps[i - 1].1);
        }
        i = i - 1;
    }
    None
}

/// What to do with a callback request whose URL parsed to `parsed` (see [`callback_action`]).
pub fn decide_callback(parsed: Option<(String, Vec<(String, String)>)>, state: &str) -> (r: CallbackAction)
    ensures
        r@ == callback_action(
            match parsed {
                Some((p, ps)) => Some((p@, params_view(ps@))),
                None => None,
            },
            state@,
        ),
{
    let (path, ps) = match parsed {
        None => return CallbackAction::Respond { status: 400, body: String::from_str("Bad Request") },
        Some(x) => x,
    };
    if path == String::from_str(XAI_OAUTH_REDIRECT_PATH) {
        let state_ok = match find_param(&ps, "state") {
            Some(s) => *s == String::from_str(state),
            None => false,
        };
        if !state_ok {
            return CallbackAction::Respond { status: 400, body: String::from_str("State mismatch") };
        }
        match find_param(&ps, "error") {
            Some(error_code) => {
                let detail = match find_param(&ps, "error_description") {
                    Some(d) => d.clone(),
                    None => error_code.clone(),
                };
                let message = String::from_str("xAI sign-in failed: ").concat(detail.as_str());
                return CallbackAction::Fail {
                    body: message.clone(),
                    failure: LoginFailure::SignInFailed(message),
                };
            },
            None => {},
        }
        match find_param(&ps, "code") {
            Some(c) => {
                if c.as_str().unicode_len() > 0 {
                    return CallbackAction::ExchangeCode { code: c.clone() };
                }
            },
            None => {},
        }
        CallbackAction::Fail {
            body: String::from_str("Missing authorization code"),
            failure: LoginFailure::MissingCode,
        }
    } else if path == String::from_str("/cancel") {
        CallbackAction::Fail { body: String::from_str("Login cancelled"), failure: LoginFailure::Cancelled }
    } else {
        CallbackAction::Respond { status: 404, body: String::from_str("Not Found") }
    }
}

/// Why the code exchange or the saving of its tokens failed.
pub enum ExchangeError {
    /// The token endpoint request failed; the text says how.
    Exchange(String),
    /// The tokens could not be saved; the text says why.
    Persist(String),
}

/// How the login ends after the code exchange: success page on success; a token-exchange
/// failure is reported with its reason; a failure to save is answered with a fixed text and
/// ends with its reason.
pub fn finish_after_exchange(result: Result<(), ExchangeError>) -> (r: CallbackAction)
    ensures
        r@ == match result {
            Ok(()) => CallbackActionV::Succeed,
            Err(ExchangeError::Exchange(e)) => CallbackActionV::Fail(
                "xAI token exchange failed: "@ + e@,
                LoginFailureV::ExchangeFailed("xAI token exchange failed: "@ + e@),
            ),
            Err(ExchangeError::Persist(e)) => CallbackActionV::Fail(
                "Sign-in completed but credentials could not be saved locally"@,
                LoginFailureV::PersistFailed("xAI persist failed: "@ + e@),
            ),
        },
{
    match result {
        Ok(()) => CallbackAction::Succeed,
        Err(ExchangeError::Exchange(e)) => {
            let message = String::from_str("xAI token exchange failed: ").concat(e.as_str());
            CallbackAction::Fail { body: message.clone(), failure: LoginFailure::ExchangeFailed(message) }
        },
        Err(ExchangeError::Persist(e)) => CallbackAction::Fail {
            body: String::from_str("Sign-in completed but credentials could not be saved locally"),
            failure: LoginFailure::PersistFailed(String::from_str("xAI persist failed: ").concat(e.as_str())),
        },
    }
}

/// The failure that a reply of the token endpoint to the code exchange stands for: none for a
/// success status (2xx), whose body then holds the tokens; otherwise the status, as the HTTP
/// client writes it (`status_text`), and the body.
pub fn token_endpoint_failure(status: u16, status_text: &str, body: &str) -> (r: Option<String>)
    ensures
        200 <= status <= 299 ==> r is None,
        !(200 <= status <= 299) ==> (r matches Some(m)
            && m@ == "xAI token endpoint returned status "@ + status_text@ + ": "@ + body@),
{
    if 200 <= status && status <= 299 {
        None
    } else {
        Some(String::from_str("xAI token endpoint returned status ").concat(status_text).concat(": ").concat(body))
    }
}

/// The failure that a reply of the token endpoint to a refresh stands for, as for the code
/// exchange (see [`token_endpoint_failure`]) but naming the refresh.
pub fn token_refresh_failure(status: u16, status_text: &str, body: &str) -> (r: Option<String>)
    ensures
        200 <= status <= 299 ==> r is None,
        !(200 <= status <= 299) ==> (r matches Some(m)
            && m@ == "xAI token refresh returned status "@ + status_text@ + ": "@ + body@),
{
    if 200 <= status && status <= 299 {
        None
    } else {
        Some(String::from_str("xAI token refresh returned status ").concat(status_text).concat(": ").concat(body))
    }
}

/// `StatusCode::default_reason_phrase` of tiny_http; for 200 it is `OK`.
#[verifier::external_body]
fn reason_phrase(code: u16) -> (r: String)
    ensures
        code == 200 ==> r@ == "OK"@,
{
    tiny_http::StatusCode(code).default_reason_phrase().to_string()
}

/// `name: value` lines, each ended by CRLF.
pub open spec fn header_lines(hs: Seq<(Seq<char>, Seq<char>)>) -> Seq<char>
    decreases hs.len(),
{
    if hs.len() == 0 {
        Seq::empty()
    } else {
        header_lines(hs.drop_last()) + hs.last().0 + ": "@ + hs.last().1 + "\r\n"@
    }
}

/// The headers other than `Connection` (in any letter case), in order.
pub open spec fn without_connection(hs: Seq<(Seq<char>, Seq<char>)>) -> Seq<(Seq<char>, Seq<char>)>
    decreases hs.len(),
{
    if hs.len() == 0 {
        hs
    } else if eq_ignore_ascii_case(hs.last().0, "Connection"@) {
        without_connection(hs.drop_last())
    } else {
        without_connection(hs.drop_last()).push(hs.last())
    }
}

/// The status line and headers of the response that ends the login: `200 OK`, the given
/// headers without `Connection`, then `Connection: close` and the body's `Content-Length`.
pub open spec fn final_response_head(hs: Seq<(Seq<char>, Seq<char>)>, body_len: nat) -> Seq<char> {
    "HTTP/1.1 200 OK\r\n"@ + header_lines(
        without_connection(hs).push(("Connection"@, "close"@)).push(("Content-Length"@, decimal(body_len))),
    ) + "\r\n"@
}

/// The bytes that precede the body of the response that ends the login (see
/// [`final_response_head`]).
pub fn final_response_head_text(headers: &Vec<(String, String)>, body_len: usize) -> (r: String)
    ensures
        r@ == final_response_head(params_view(headers@), body_len as nat),
{
    let ghost hs = params_view(headers@);
    let mut out = str_to_chars("HTTP/1.1 ");
    append(&mut out, &str_to_chars(decimal_string(200).as_str()));
    out.push(' ');
    append(&mut out, &str_to_chars(reason_phrase(200).as_str()));
    append(&mut out, &str_to_chars("\r\n"));
    proof {
        reveal_strlit("HTTP/1.1 ");
        reveal_strlit("HTTP/1.1 200 OK\r\n");
        reveal_strlit("\r\n");
        reveal_strlit("OK");
        assert(decimal(200) =~= seq!['2', '0', '0']) by {
            reveal_with_fuel(decimal, 4);
        }
        assert(out@ =~= "HTTP/1.1 200 OK\r\n"@);
    }
    let ghost start = out@;
    let connection = str_to_chars("Connection");
    let mut kept: Vec<(String, String)> = Vec::new();
    let mut i: usize = 0;
    while i < headers.len()
        invariant
            i <= headers.len(),
            hs == params_view(headers@),
            connection@ == "Connection"@,
            params_view(kept@) == without_connection(hs.take(i as int)),
        decreases headers.len() - i,
    {
        proof {
            assert(hs.take(i + 1).drop_last() =~= hs.take(i as int));
        }
        let name = str_to_chars(headers[i].0.as_str());
        if !chars_eq_ignore_ascii_case(&name, &connection) {
            kept.push((headers[i].0.clone(), headers[i].1.clone()));
            assert(params_view(kept@) =~= without_connection(hs.take(i as int)).push(hs[i as int]));
        }
        i = i + 1;
    }
    assert(hs.take(headers.len() as int) =~= hs);
    kept.push((String::from_str("Connection"), String::from_str("close")));
    kept.push((String::from_str("Content-Length"), decimal_string(body_len as u64)));
    let ghost all = params_view(kept@);
    assert(all =~= without_connection(hs).push(("Connection"@, "close"@)).push(
        ("Content-Length"@, decimal(body_len as nat)),
    ));
    let mut j: usize = 0;
    while j < kept.len()
        invariant
            j <= kept.len(),
            all == params_view(kept@),
            out@ == start + header_lines(all.take(j as int)),
        decreases kept.len() - j,
    {
        proof {
            assert(all.take(j + 1).drop_last() =~= all.take(j as int));
        }
        append(&mut out, &str_to_chars(kept[j].0.as_str()));
        append(&mut out, &str_to_chars(": "));
        append(&mut out, &str_to_chars(kept[j].1.as_str()));
        append(&mut out, &str_to_chars("\r\n"));
        proof {
            assert(out@ =~= start + header_lines(all.take(j as int)) + all[j as int].0 + ": "@
                + all[j as int].1 + "\r\n"@);
        }
        j = j + 1;
    }
    assert(all.take(kept.len() as int) =~= all);
    append(&mut out, &str_to_chars("\r\n"));
    chars_to_string(&out)
}


/// The path and query parameters of the URL `url`, as `url::Url::parse` reads them (`None`
/// when it does not parse).
pub uninterp spec fn callback_url_parts(url: Seq<char>) -> Option<(Seq<char>, Seq<(Seq<char>, Seq<char>)>)>;

/// `Url::parse(url)`, then its path and decoded query pairs; the result is the named parse.
#[verifier::external_body]
fn parse_callback_url(url: &str) -> (r: Option<(String, Vec<(String, String)>)>)
    ensures
        match r {
            Some((p, ps)) => callback_url_parts(url@) == Some((p@, params_view(ps@))),
            None => callback_url_parts(url@) is None,
        },
{
    let parsed = url::Url::parse(url).ok()?;
    Some((parsed.path().to_string(), parsed.query_pairs().into_owned().collect()))
}

/// What the login callback server does with the request for `url_raw` while it waits for
/// `state`: the target is read as a URL on `http://localhost` (see [`callback_action`]).
pub fn process_xai_request(url_raw: &str, state: &str) -> (r: CallbackAction)
    ensures
        r@ == callback_action(callback_url_parts("http://localhost"@ + url_raw@), state@),
{
    let url = String::from_str("http://localhost").concat(url_raw);
    decide_callback(parse_callback_url(url.as_str()), state)
}


/// The loopback redirect URI for the server's actual port.
pub fn xai_redirect_uri(port: u16) -> (r: String)
    ensures
        r@ == "http://"@ + XAI_OAUTH_REDIRECT_HOST@ + ":"@ + decimal(port as nat) + XAI_OAUTH_REDIRECT_PATH@,
{
    let mut out = str_to_chars("http://");
    append(&mut out, &str_to_chars(XAI_OAUTH_REDIRECT_HOST));
    out.push(':');
    append(&mut out, &str_to_chars(decimal_string(port as u64).as_str()));
    append(&mut out, &str_to_chars(XAI_OAUTH_REDIRECT_PATH));
    assert(out@ =~= "http://"@ + XAI_OAUTH_REDIRECT_HOST@ + ":"@ + decimal(port as nat) + XAI_OAUTH_REDIRECT_PATH@) by {
        reveal_strlit(":");
    }
    chars_to_string(&out)
}

/// The address the callback server binds: the loopback host and the fixed callback port.
pub fn xai_bind_address() -> (r: String)
    ensures
        r@ == XAI_OAUTH_REDIRECT_HOST@ + ":"@ + decimal(XAI_OAUTH_REDIRECT_PORT as nat),
{
    let mut out = str_to_chars(XAI_OAUTH_REDIRECT_HOST);
    out.push(':');
    append(&mut out, &str_to_chars(decimal_string(XAI_OAUTH_REDIRECT_PORT as u64).as_str()));
    assert(out@ =~= XAI_OAUTH_REDIRECT_HOST@ + ":"@ + decimal(XAI_OAUTH_REDIRECT_PORT as nat)) by {
        reveal_strlit(":");
    }
    chars_to_string(&out)
}

/// How the login ends after `action`, or `None` while it goes on.
pub fn login_outcome(action: &CallbackAction) -> (r: Option<Result<(), LoginFailure>>)
    ensures
        match action@ {
            CallbackActionV::Succeed => r matches Some(Ok(())),
            CallbackActionV::Fail(_, f) => r matches Some(Err(x)) && x@ == f,
            _ => r is None,
        },
{
    match action {
        CallbackAction::Succeed => Some(Ok(())),
        CallbackAction::Fail { failure, .. } => Some(Err(copy_failure(failure))),
        _ => None,
    }
}

fn copy_failure(f: &LoginFailure) -> (r: LoginFailure)
    ensures
        r@ == f@,
{
    match f {
        LoginFailure::SignInFailed(m) => LoginFailure::SignInFailed(m.clone()),
        LoginFailure::MissingCode => LoginFailure::MissingCode,
        LoginFailure::Cancelled => LoginFailure::Cancelled,
        LoginFailure::ExchangeFailed(m) => LoginFailure::ExchangeFailed(m.clone()),
        LoginFailure::PersistFailed(m) => LoginFailure::PersistFailed(m.clone()),
        LoginFailure::NotCompleted => LoginFailure::NotCompleted,
    }
}


/// A callback trades a code for tokens only at the callback path, with the expected `state`,
/// with no error reported, and with that non-empty code.
pub proof fn law_code_is_exchanged_only_with_the_expected_state(
    parsed: Option<(Seq<char>, Seq<(Seq<char>, Seq<char>)>)>,
    state: Seq<char>,
    code: Seq<char>,
)
    requires
        callback_action(parsed, state) == CallbackActionV::ExchangeCode(code),
    ensures
        parsed matches Some((path, ps)) && path == XAI_OAUTH_REDIRECT_PATH@ && param(ps, "state"@) == Some(state)
            && param(ps, "error"@) is None && param(ps, "code"@) == Some(code) && code.len() > 0,
{
}

/// A login ends successfully only after its code was exchanged and its tokens saved.
pub proof fn law_login_succeeds_only_after_exchange(
    parsed: Option<(Seq<char>, Seq<(Seq<char>, Seq<char>)>)>,
    state: Seq<char>,
)
    ensures
        callback_action(parsed, state) != CallbackActionV::Succeed,
{
}

} // verus!
