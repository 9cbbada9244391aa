use gsc_mcp_rs::api::{
    api_error_for_status, auth_failure_error, encode_site_url, indexing_endpoint, inspection_endpoint,
    invalid_json_error, max_retries_error, network_error, parse_u64_str, search_analytics_endpoint, site_endpoint,
    sitemap_endpoint, sitemaps_endpoint, sites_endpoint, ApiError, RetryAction, RetryState, MAX_ATTEMPTS,
};

fn err(status: u16, message: &str) -> ApiError {
    ApiError { status, message: message.to_string() }
}

fn wait_seconds(a: RetryAction) -> Option<u64> {
    match a {
        RetryAction::WaitSecondsAndRetry(s) => Some(s),
        _ => None,
    }
}

fn wait_millis(a: RetryAction) -> Option<u64> {
    match a {
        RetryAction::WaitMillisAndRetry(ms) => Some(ms),
        _ => None,
    }
}

#[test]
fn ui_text_guides_by_status() {
    assert_eq!(
        err(401, "bad token").to_ui_string(),
        "Error: Authentication failed. Your token may be invalid.\nTry running 'gsc-mcp-rs auth' to re-authenticate.\nDetail: bad token"
    );
    assert_eq!(
        err(403, "nope").to_ui_string(),
        "Error: Insufficient permissions.\nYour account may not have access to this property or operation.\nRun list_sites to check your permission level.\nDetail: nope"
    );
    assert_eq!(
        err(404, "missing").to_ui_string(),
        "Error: Property or resource not found.\nRun list_sites to see available properties.\nIf using a domain property, use the format 'sc-domain:example.com'.\nDetail: missing"
    );
    assert_eq!(
        err(429, "slow down").to_ui_string(),
        "Error: Google API rate limit hit. Try again in 30 seconds.\nReduce row_limit or narrow your date range to avoid hitting limits.\nDetail: slow down"
    );
    assert_eq!(err(500, "boom").to_ui_string(), "Error: boom");
    assert_eq!(err(0, "Max retries exceeded").to_ui_string(), "Error: Max retries exceeded");
}

#[test]
fn errors_carry_their_status_and_message() {
    let e = api_error_for_status(400, Some("Invalid dimension".to_string()));
    assert_eq!((e.status, e.message.as_str()), (400, "Invalid dimension"));
    let e = api_error_for_status(418, None);
    assert_eq!((e.status, e.message.as_str()), (418, "HTTP 418"));
    let e = max_retries_error();
    assert_eq!((e.status, e.message.as_str()), (0, "Max retries exceeded"));
    let e = network_error("connection refused");
    assert_eq!((e.status, e.message.as_str()), (0, "Network error: connection refused"));
    let e = invalid_json_error(200, "expected value");
    assert_eq!((e.status, e.message.as_str()), (200, "Invalid JSON response: expected value"));
    let e = auth_failure_error("No OAuth token found.".to_string());
    assert_eq!((e.status, e.message.as_str()), (0, "No OAuth token found."));
}

#[test]
fn endpoints_encode_the_property() {
    assert_eq!(encode_site_url("sc-domain:example.com"), "sc-domain%3Aexample.com");
    assert_eq!(sites_endpoint(), "https://www.googleapis.com/webmasters/v3/sites");
    assert_eq!(
        site_endpoint("sc-domain:example.com"),
        "https://www.googleapis.com/webmasters/v3/sites/sc-domain%3Aexample.com"
    );
    assert_eq!(
        search_analytics_endpoint("https://example.com/"),
        "https://www.googleapis.com/webmasters/v3/sites/https%3A%2F%2Fexample.com%2F/searchAnalytics/query"
    );
    assert_eq!(
        sitemaps_endpoint("sc-domain:example.com", None),
        "https://www.googleapis.com/webmasters/v3/sites/sc-domain%3Aexample.com/sitemaps"
    );
    assert_eq!(
        sitemaps_endpoint("sc-domain:example.com", Some("https://example.com/index.xml")),
        "https://www.googleapis.com/webmasters/v3/sites/sc-domain%3Aexample.com/sitemaps?sitemapIndex=https%3A%2F%2Fexample.com%2Findex.xml"
    );
    assert_eq!(
        sitemap_endpoint("sc-domain:example.com", "https://example.com/sitemap.xml"),
        "https://www.googleapis.com/webmasters/v3/sites/sc-domain%3Aexample.com/sitemaps/https%3A%2F%2Fexample.com%2Fsitemap.xml"
    );
    assert_eq!(inspection_endpoint(), "https://searchconsole.googleapis.com/v1/urlInspection/index:inspect");
    assert_eq!(indexing_endpoint(), "https://indexing.googleapis.com/v3/urlNotifications:publish");
}

#[test]
fn retry_after_values_parse_like_u64() {
    assert_eq!(parse_u64_str("5"), Some(5));
    assert_eq!(parse_u64_str("+7"), Some(7));
    assert_eq!(parse_u64_str("18446744073709551615"), Some(u64::MAX));
    assert_eq!(parse_u64_str("18446744073709551616"), None);
    assert_eq!(parse_u64_str(""), None);
    assert_eq!(parse_u64_str("+"), None);
    assert_eq!(parse_u64_str("1.5"), None);
    assert_eq!(parse_u64_str("-1"), None);
}

#[test]
fn success_ends_the_request() {
    let mut s = RetryState::new();
    assert!(s.can_attempt());
    assert!(matches!(s.on_response(204, None), RetryAction::Succeed));
    assert_eq!(s.attempt, 1);
}

#[test]
fn first_unauthorized_refreshes_once() {
    let mut s = RetryState::new();
    assert!(matches!(s.on_response(401, None), RetryAction::RefreshAuthAndRetry));
    assert!(s.auth_refreshed);
    assert!(matches!(s.on_response(401, None), RetryAction::Fail));
}

#[test]
fn rate_limits_back_off_exponentially_and_honour_retry_after() {
    let mut s = RetryState::new();
    assert_eq!(wait_seconds(s.on_response(429, None)), Some(1));
    assert_eq!(wait_seconds(s.on_response(429, Some("not a number"))), Some(2));
    assert_eq!(wait_seconds(s.on_response(429, Some("120"))), Some(60));
    assert!(matches!(s.on_response(429, Some("1")), RetryAction::Fail));
    assert!(!s.can_attempt());
    assert_eq!(s.attempt, MAX_ATTEMPTS);
}

#[test]
fn retry_after_below_the_cap_is_used() {
    let mut s = RetryState::new();
    assert_eq!(wait_seconds(s.on_response(429, Some("7"))), Some(7));
}

#[test]
fn server_errors_are_retried_twice() {
    let mut s = RetryState::new();
    assert_eq!(wait_millis(s.on_response(503, None)), Some(500));
    assert_eq!(wait_millis(s.on_response(500, None)), Some(1000));
    assert!(matches!(s.on_response(502, None), RetryAction::Fail));
}

#[test]
fn client_errors_fail_at_once() {
    let mut s = RetryState::new();
    assert!(matches!(s.on_response(400, None), RetryAction::Fail));
    let mut s = RetryState::new();
    assert!(matches!(s.on_response(404, None), RetryAction::Fail));
}
