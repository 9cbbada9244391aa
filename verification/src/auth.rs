//! Authentication: errors, cached tokens and the decisions around them.
use crate::clock::now_secs;
use crate::text::{concat2, concat3, has_prefix, push_decimal, push_str, str_eq, string_of};
use crate::validate::{percent_encode, urlencode};
use vstd::prelude::*;
use vstd::utf8::encode_utf8;

verus! {

/// Scope of the Search Console API.
pub const WEBMASTERS_SCOPE: &'static str = "https://www.googleapis.com/auth/webmasters";

/// Scope of the Indexing API.
pub const INDEXING_SCOPE: &'static str = "https://www.googleapis.com/auth/indexing";

/// Why no access token could be had.
#[derive(Debug)]
pub enum AuthError {
    NotConfigured(String),
    RefreshFailed(String),
    InvalidKey(String),
    NetworkError(String),
}

pub open spec fn auth_error_text(e: AuthError) -> Seq<char> {
    match e {
        AuthError::NotConfigured(m) => m@,
        AuthError::RefreshFailed(m) => m@,
        AuthError::InvalidKey(m) => m@,
        AuthError::NetworkError(m) => m@,
    }
}

impl AuthError {
    /// The message of the error, whatever its kind.
    pub fn message(&self) -> (r: String)
        ensures
            r@ == auth_error_text(*self),
    {
        match self {
            AuthError::NotConfigured(m) => m.clone(),
            AuthError::RefreshFailed(m) => m.clone(),
            AuthError::InvalidKey(m) => m.clone(),
            AuthError::NetworkError(m) => m.clone(),
        }
    }
}

/// An OAuth access token with its expiry (seconds since the Unix epoch).
pub struct OAuthToken {
    pub access_token: String,
    pub refresh_token: Option<String>,
    pub expires_at: u64,
    pub token_type: String,
}

/// A token counts as expired from 60 seconds before its expiry on.
pub open spec fn expired_at(expires_at: u64, now: u64) -> bool {
    now >= if expires_at >= 60 { expires_at - 60 } else { 0 }
}

impl OAuthToken {
    /// Whether the token is expired at time `now`, keeping a 60-second margin.
    pub fn is_expired_at(&self, now: u64) -> (r: bool)
        ensures
            r == expired_at(self.expires_at, now),
    {
        now >= self.expires_at.saturating_sub(60)
    }

    /// Whether the token is expired by the system clock, keeping a 60-second
    /// margin.
    pub fn is_expired(&self) -> (r: bool)
        ensures
            exists|now: u64| r == expired_at(self.expires_at, now),
    {
        let now = now_secs();
        self.is_expired_at(now)
    }

    /// A copy of the token.
    pub fn duplicate(&self) -> (r: OAuthToken)
        ensures
            r == *self,
    {
        OAuthToken {
            access_token: self.access_token.clone(),
            refresh_token: match &self.refresh_token {
                Some(t) => Some(t.clone()),
                None => None,
            },
            expires_at: self.expires_at,
            token_type: self.token_type.clone(),
        }
    }
}

/// A token issued at `now` that lives `expires_in` seconds.
pub fn issued_token(
    access_token: String,
    refresh_token: Option<String>,
    expires_in: u64,
    token_type: String,
    now: u64,
) -> (r: OAuthToken)
    requires
        now + expires_in <= u64::MAX,
    ensures
        r.access_token == access_token,
        r.refresh_token == refresh_token,
        r.expires_at == now + expires_in,
        r.token_type == token_type,
{
    OAuthToken { access_token, refresh_token, expires_at: now + expires_in, token_type }
}

/// What to do for an OAuth access token.
pub enum TokenStep {
    /// Hand out this access token.
    Use(String),
    /// Exchange this refresh token for a new access token.
    Refresh(String),
    /// Give up.
    Fail(AuthError),
}

/// The decision for the cached OAuth token (after the token file was read
/// when nothing was cached) at time `now`: none means not authenticated; an
/// expired token is refreshed when it has a refresh token; a live one is
/// used.
pub fn oauth_token_step(cached: Option<&OAuthToken>, now: u64) -> (r: TokenStep)
    ensures
        match cached {
            None => r matches TokenStep::Fail(AuthError::NotConfigured(m))
                && m@ == "No OAuth token found. Run 'gsc-mcp-rs auth' to authenticate."@,
            Some(t) => if expired_at(t.expires_at, now) {
                match t.refresh_token {
                    Some(rt) => r matches TokenStep::Refresh(x) && x@ == rt@,
                    None => r matches TokenStep::Fail(AuthError::RefreshFailed(m))
                        && m@ == "Token expired and no refresh token available. Run 'gsc-mcp-rs auth' to re-authenticate."@,
                }
            } else {
                r matches TokenStep::Use(a) && a@ == t.access_token@
            },
        },
{
    match cached {
        None => TokenStep::Fail(
            AuthError::NotConfigured(string_of("No OAuth token found. Run 'gsc-mcp-rs auth' to authenticate.")),
        ),
        Some(t) => {
            if t.is_expired_at(now) {
                match &t.refresh_token {
                    Some(rt) => TokenStep::Refresh(rt.clone()),
                    None => TokenStep::Fail(
                        AuthError::RefreshFailed(
                            string_of("Token expired and no refresh token available. Run 'gsc-mcp-rs auth' to re-authenticate."),
                        ),
                    ),
                }
            } else {
                TokenStep::Use(t.access_token.clone())
            }
        },
    }
}

/// The cached service-account token to hand out at time `now`, if it is
/// still live; otherwise a new one is fetched.
pub fn service_account_cached_token(cached: Option<&OAuthToken>, now: u64) -> (r: Option<String>)
    ensures
        match cached {
            Some(t) => if expired_at(t.expires_at, now) {
                r is None
            } else {
                r matches Some(a) && a@ == t.access_token@
            },
            None => r is None,
        },
{
    match cached {
        Some(t) => if !t.is_expired_at(now) {
            Some(t.access_token.clone())
        } else {
            None
        },
        None => None,
    }
}

/// The message of a refused token request: the status, then the `error`
/// field of Google's answer when it has one.
pub fn sanitize_token_error(status: &str, error_field: Option<&str>) -> (r: String)
    ensures
        r@ == match error_field {
            Some(e) => "Token request failed ("@ + status@ + "): "@ + e@,
            None => "Token request failed ("@ + status@ + ")"@,
        },
{
    let mut r = concat2("Token request failed (", status);
    match error_field {
        Some(e) => {
            push_str(&mut r, "): ");
            push_str(&mut r, e);
        },
        None => {
            push_str(&mut r, ")");
        },
    }
    r
}

/// The only token endpoint that a service-account key may name.
pub open spec fn trusted_token_uri() -> Seq<char> {
    "https://oauth2.googleapis.com/token"@
}

/// Refuses a service-account key whose token URI is not Google's.
pub fn check_token_uri(token_uri: &str) -> (r: Result<(), AuthError>)
    ensures
        token_uri@ == trusted_token_uri() ==> r is Ok,
        token_uri@ != trusted_token_uri() ==> (r matches Err(AuthError::InvalidKey(m))
            && m@ == "Untrusted token_uri in service account key: '"@ + token_uri@
                + "'. Expected https://oauth2.googleapis.com/token"@),
{
    if str_eq(token_uri, "https://oauth2.googleapis.com/token") {
        Ok(())
    } else {
        Err(AuthError::InvalidKey(concat3(
            "Untrusted token_uri in service account key: '",
            token_uri,
            "'. Expected https://oauth2.googleapis.com/token",
        )))
    }
}

pub open spec fn scopes_text() -> Seq<char> {
    "https://www.googleapis.com/auth/webmasters"@ + " "@ + "https://www.googleapis.com/auth/indexing"@
}

/// Both scopes, separated by a space.
pub fn scopes() -> (r: String)
    ensures
        r@ == scopes_text(),
{
    concat3(WEBMASTERS_SCOPE, " ", INDEXING_SCOPE)
}

/// The loopback address that receives the OAuth callback.
pub fn redirect_uri(port: u16) -> (r: String)
    ensures
        r@ == "http://127.0.0.1:"@ + crate::text::dec(port as nat),
{
    let mut r = string_of("http://127.0.0.1:");
    push_decimal(&mut r, port as u64);
    r
}

/// The consent page of Google's OAuth flow for this client, asking for
/// offline access to both scopes with the callback at `redirect_uri`.
pub fn authorization_url(client_id: &str, redirect_uri: &str) -> (r: String)
    ensures
        r@ == "https://accounts.google.com/o/oauth2/v2/auth?client_id="@ + percent_encode(encode_utf8(client_id@))
            + "&redirect_uri="@ + percent_encode(encode_utf8(redirect_uri@))
            + "&response_type=code&scope="@ + percent_encode(encode_utf8(scopes_text()))
            + "&access_type=offline&prompt=consent"@,
{
    let s = scopes();
    let mut r = string_of("https://accounts.google.com/o/oauth2/v2/auth?client_id=");
    push_str(&mut r, urlencode(client_id).as_str());
    push_str(&mut r, "&redirect_uri=");
    push_str(&mut r, urlencode(redirect_uri).as_str());
    push_str(&mut r, "&response_type=code&scope=");
    push_str(&mut r, urlencode(s.as_str()).as_str());
    push_str(&mut r, "&access_type=offline&prompt=consent");
    r
}

/// Where the credentials come from.
#[derive(Debug, PartialEq, Eq)]
pub enum AuthSource {
    /// The service-account key at the path that `GSC_SERVICE_ACCOUNT_PATH` names.
    EnvServiceAccount(String),
    /// `service_account.json` in the configuration directory.
    ConfigServiceAccount,
    /// OAuth, with a saved token or client credentials in the configuration
    /// directory.
    OAuth,
    /// Nothing is configured.
    Unconfigured,
}

/// The credentials to use, in order of preference: a key named by the
/// environment, a key in the configuration directory, OAuth when its token
/// or client credentials are saved there; else none.
pub fn auth_source(
    env_key_path: Option<&str>,
    key_file_exists: bool,
    token_file_exists: bool,
    credentials_file_exists: bool,
) -> (r: AuthSource)
    ensures
        match env_key_path {
            Some(p) => r matches AuthSource::EnvServiceAccount(q) && q@ == p@,
            None => if key_file_exists {
                r is ConfigServiceAccount
            } else if token_file_exists || credentials_file_exists {
                r is OAuth
            } else {
                r is Unconfigured
            },
        },
{
    match env_key_path {
        Some(p) => AuthSource::EnvServiceAccount(string_of(p)),
        None => if key_file_exists {
            AuthSource::ConfigServiceAccount
        } else if token_file_exists || credentials_file_exists {
            AuthSource::OAuth
        } else {
            AuthSource::Unconfigured
        },
    }
}

/// The setup guidance given while no credentials are configured.
pub fn no_auth_message() -> (r: String)
    ensures
        r@ == "No authentication configured.\n\nSetup options:\n1. OAuth (personal use):\n- Create a Google Cloud project and enable Search Console API\n- Create OAuth 2.0 credentials (Desktop app type)\n- Save as ~/.config/gsc-mcp-rs/oauth_credentials.json:\n{\"client_id\": \"...\", \"client_secret\": \"...\"}\n- Run: gsc-mcp-rs auth\n\n2. Service Account (automation):\n- Create a service account in Google Cloud\n- Grant it access to your Search Console properties\n- Download the JSON key and either:\n- Place at ~/.config/gsc-mcp-rs/service_account.json, or\n- Set GSC_SERVICE_ACCOUNT_PATH=/path/to/key.json"@,
{
    string_of(
        "No authentication configured.\n\nSetup options:\n1. OAuth (personal use):\n- Create a Google Cloud project and enable Search Console API\n- Create OAuth 2.0 credentials (Desktop app type)\n- Save as ~/.config/gsc-mcp-rs/oauth_credentials.json:\n{\"client_id\": \"...\", \"client_secret\": \"...\"}\n- Run: gsc-mcp-rs auth\n\n2. Service Account (automation):\n- Create a service account in Google Cloud\n- Grant it access to your Search Console properties\n- Download the JSON key and either:\n- Place at ~/.config/gsc-mcp-rs/service_account.json, or\n- Set GSC_SERVICE_ACCOUNT_PATH=/path/to/key.json",
    )
}

} // verus!
