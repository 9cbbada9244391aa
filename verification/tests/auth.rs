use gsc_mcp_rs::auth::{
    authorization_url, check_token_uri, issued_token, oauth_token_step, redirect_uri, scopes,
    service_account_cached_token, sanitize_token_error, AuthError, OAuthToken, TokenStep, INDEXING_SCOPE,
    WEBMASTERS_SCOPE,
};
use gsc_mcp_rs::callback::{extract_query_param, percent_decode_query_component};
use gsc_mcp_rs::validate::urlencode;

fn token(expires_at: u64, refresh: Option<&str>) -> OAuthToken {
    OAuthToken {
        access_token: "access".to_string(),
        refresh_token: refresh.map(|s| s.to_string()),
        expires_at,
        token_type: "Bearer".to_string(),
    }
}

fn network_message(r: Result<String, AuthError>) -> String {
    match r {
        Err(AuthError::NetworkError(m)) => m,
        other => panic!("unexpected {other:?}"),
    }
}

#[test]
fn oauth_callback_decodes_percent_encoded_code() {
    let request = "GET /?code=4%2F0AQSTgQ%2Bencoded&scope=test HTTP/1.1\r\nHost: localhost\r\n\r\n";
    let code = extract_query_param(request, "code").unwrap();
    assert_eq!(code, "4/0AQSTgQ+encoded");
}

#[test]
fn callback_finds_the_first_pair_with_the_name() {
    let request = "GET /callback?state=x&code=a+b&code=second HTTP/1.1\r\n";
    assert_eq!(extract_query_param(request, "code").unwrap(), "a b");
    assert_eq!(extract_query_param(request, "state").unwrap(), "x");
    assert_eq!(extract_query_param("GET /?flag&code HTTP/1.1", "code").unwrap(), "");
}

#[test]
fn callback_without_a_path_is_malformed() {
    assert_eq!(network_message(extract_query_param("", "code")), "Malformed OAuth callback request.");
    assert_eq!(network_message(extract_query_param("GET\r\n/?code=x", "code")), "Malformed OAuth callback request.");
}

#[test]
fn callback_without_the_code_means_denied_access() {
    let denied = "No authorization code in callback. The user may have denied access.";
    assert_eq!(network_message(extract_query_param("GET /callback HTTP/1.1", "code")), denied);
    assert_eq!(network_message(extract_query_param("GET /?error=access_denied HTTP/1.1", "code")), denied);
}

#[test]
fn percent_escapes_are_decoded() {
    assert_eq!(percent_decode_query_component("a%20b+c").unwrap(), "a b c");
    assert_eq!(percent_decode_query_component("%C3%A9").unwrap(), "é");
    assert_eq!(percent_decode_query_component("%+5").unwrap(), "\u{5}");
    assert_eq!(percent_decode_query_component("").unwrap(), "");
}

#[test]
fn bad_percent_escapes_are_refused() {
    let invalid = "Invalid percent-encoding in OAuth callback.";
    assert_eq!(network_message(percent_decode_query_component("%4")), invalid);
    assert_eq!(network_message(percent_decode_query_component("abc%")), invalid);
    assert_eq!(network_message(percent_decode_query_component("%zz")), invalid);
    assert_eq!(network_message(percent_decode_query_component("%-1")), invalid);
    assert_eq!(network_message(percent_decode_query_component("%C3")), "OAuth callback contained invalid UTF-8.");
}

#[test]
fn live_tokens_are_used_and_expired_ones_refreshed() {
    let live = token(10_000, Some("refresh"));
    assert!(matches!(oauth_token_step(Some(&live), 9_000), TokenStep::Use(ref a) if a == "access"));
    assert!(matches!(oauth_token_step(Some(&live), 9_940), TokenStep::Refresh(ref r) if r == "refresh"));
    let stale = token(10_000, None);
    match oauth_token_step(Some(&stale), 9_999) {
        TokenStep::Fail(AuthError::RefreshFailed(m)) => assert_eq!(
            m,
            "Token expired and no refresh token available. Run 'gsc-mcp-rs auth' to re-authenticate."
        ),
        _ => panic!("expected a refresh failure"),
    }
    match oauth_token_step(None, 0) {
        TokenStep::Fail(AuthError::NotConfigured(m)) => {
            assert_eq!(m, "No OAuth token found. Run 'gsc-mcp-rs auth' to authenticate.")
        }
        _ => panic!("expected not configured"),
    }
}

#[test]
fn expiry_keeps_a_minute_of_margin() {
    let t = token(1_000, None);
    assert!(!t.is_expired_at(939));
    assert!(t.is_expired_at(940));
    assert!(token(30, None).is_expired_at(0));
    assert!(!token(u64::MAX, None).is_expired());
    assert!(token(0, None).is_expired());
}

#[test]
fn service_account_tokens_are_reused_while_live() {
    let t = token(5_000, None);
    assert_eq!(service_account_cached_token(Some(&t), 100), Some("access".to_string()));
    assert_eq!(service_account_cached_token(Some(&t), 4_940), None);
    assert_eq!(service_account_cached_token(None, 100), None);
}

#[test]
fn issued_tokens_expire_after_their_lifetime() {
    let t = issued_token("a".to_string(), Some("r".to_string()), 3599, "Bearer".to_string(), 1_000);
    assert_eq!(t.expires_at, 4_599);
    assert_eq!(t.refresh_token.as_deref(), Some("r"));
    let copy = t.duplicate();
    assert_eq!(copy.access_token, "a");
    assert_eq!(copy.expires_at, 4_599);
}

#[test]
fn auth_error_messages() {
    assert_eq!(AuthError::InvalidKey("k".to_string()).message(), "k");
    assert_eq!(AuthError::NetworkError("n".to_string()).message(), "n");
    assert_eq!(
        sanitize_token_error("400 Bad Request", Some("invalid_grant")),
        "Token request failed (400 Bad Request): invalid_grant"
    );
    assert_eq!(sanitize_token_error("500 Internal Server Error", None), "Token request failed (500 Internal Server Error)");
}

#[test]
fn only_google_token_uri_is_trusted() {
    assert!(check_token_uri("https://oauth2.googleapis.com/token").is_ok());
    match check_token_uri("https://evil.example/token") {
        Err(AuthError::InvalidKey(m)) => assert_eq!(
            m,
            "Untrusted token_uri in service account key: 'https://evil.example/token'. Expected https://oauth2.googleapis.com/token"
        ),
        _ => panic!("expected a refusal"),
    }
}

#[test]
fn consent_url_asks_for_both_scopes_offline() {
    assert_eq!(scopes(), format!("{WEBMASTERS_SCOPE} {INDEXING_SCOPE}"));
    assert_eq!(redirect_uri(8085), "http://127.0.0.1:8085");
    assert_eq!(
        authorization_url("id.apps", "http://127.0.0.1:8085"),
        "https://accounts.google.com/o/oauth2/v2/auth?client_id=id.apps&redirect_uri=http%3A%2F%2F127.0.0.1%3A8085&response_type=code&scope=https%3A%2F%2Fwww.googleapis.com%2Fauth%2Fwebmasters%20https%3A%2F%2Fwww.googleapis.com%2Fauth%2Findexing&access_type=offline&prompt=consent"
    );
}

#[test]
fn decoding_undoes_url_encoding() {
    for text in ["4/0AQSTgQ+encoded", "ä b+c/é", "", "%%", "a=b&c=d"] {
        assert_eq!(percent_decode_query_component(&urlencode(text)).unwrap(), text);
    }
}
