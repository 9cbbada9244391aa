//! Search Console API access: error texts, endpoint URLs and the retry
//! policy of authenticated requests.
use crate::text::{concat2, concat3, dec, push_decimal, push_str, string_of};
use crate::validate::{all_digits, digits_val, is_digit, percent_encode, urlencode};
use vstd::prelude::*;
use vstd::string::StringSliceAdditionalSpecFns;
use vstd::utf8::encode_utf8;

verus! {

/// An error of the Search Console API, handed to the user as text.
#[derive(Debug)]
pub struct ApiError {
    pub status: u16,
    pub message: String,
}

pub open spec fn ui_text(status: u16, message: Seq<char>) -> Seq<char> {
    if status == 401 {
        "Error: Authentication failed. Your token may be invalid.\nTry running 'gsc-mcp-rs auth' to re-authenticate.\nDetail: "@
            + message
    } else if status == 403 {
        "Error: Insufficient permissions.\nYour account may not have access to this property or operation.\nRun list_sites to check your permission level.\nDetail: "@
            + message
    } else if status == 404 {
        "Error: Property or resource not found.\nRun list_sites to see available properties.\nIf using a domain property, use the format 'sc-domain:example.com'.\nDetail: "@
            + message
    } else if status == 429 {
        "Error: Google API rate limit hit. Try again in 30 seconds.\nReduce row_limit or narrow your date range to avoid hitting limits.\nDetail: "@
            + message
    } else {
        "Error: "@ + message
    }
}

impl ApiError {
    /// The guidance text shown to the user for this error.
    pub fn to_ui_string(&self) -> (r: String)
        ensures
            r@ == ui_text(self.status, self.message@),
    {
        let head = if self.status == 401 {
            "Error: Authentication failed. Your token may be invalid.\nTry running 'gsc-mcp-rs auth' to re-authenticate.\nDetail: "
        } else if self.status == 403 {
            "Error: Insufficient permissions.\nYour account may not have access to this property or operation.\nRun list_sites to check your permission level.\nDetail: "
        } else if self.status == 404 {
            "Error: Property or resource not found.\nRun list_sites to see available properties.\nIf using a domain property, use the format 'sc-domain:example.com'.\nDetail: "
        } else if self.status == 429 {
            "Error: Google API rate limit hit. Try again in 30 seconds.\nReduce row_limit or narrow your date range to avoid hitting limits.\nDetail: "
        } else {
            "Error: "
        };
        concat2(head, self.message.as_str())
    }
}

/// The error for a response that failed with `status`: the message that
/// Google's error body carries, or `HTTP <status>` when it carries none.
pub fn api_error_for_status(status: u16, detail: Option<String>) -> (r: ApiError)
    ensures
        r.status == status,
        r.message@ == match detail {
            Some(d) => d@,
            None => "HTTP "@ + dec(status as nat),
        },
{
    let message = match detail {
        Some(d) => d,
        None => {
            let mut m = string_of("HTTP ");
            push_decimal(&mut m, status as u64);
            m
        },
    };
    ApiError { status, message }
}

// ------------------------------------------------------------------ endpoints

pub open spec fn gsc_base() -> Seq<char> {
    "https://www.googleapis.com/webmasters/v3"@
}

pub open spec fn site_key(site_url: Seq<char>) -> Seq<char> {
    percent_encode(encode_utf8(site_url))
}

/// A site URL encoded for use in an API path (`sc-domain:` becomes
/// `sc-domain%3A`).
pub fn encode_site_url(site_url: &str) -> (r: String)
    ensures
        r@ == site_key(site_url@),
{
    urlencode(site_url)
}

/// Endpoint that lists the properties.
pub fn sites_endpoint() -> (r: String)
    ensures
        r@ == gsc_base() + "/sites"@,
{
    concat2("https://www.googleapis.com/webmasters/v3", "/sites")
}

/// Endpoint of one property.
pub fn site_endpoint(site_url: &str) -> (r: String)
    ensures
        r@ == gsc_base() + "/sites/"@ + site_key(site_url@),
{
    let mut r = concat2("https://www.googleapis.com/webmasters/v3", "/sites/");
    push_str(&mut r, encode_site_url(site_url).as_str());
    r
}

/// Endpoint of the search analytics query of a property.
pub fn search_analytics_endpoint(site_url: &str) -> (r: String)
    ensures
        r@ == gsc_base() + "/sites/"@ + site_key(site_url@) + "/searchAnalytics/query"@,
{
    let mut r = site_endpoint(site_url);
    push_str(&mut r, "/searchAnalytics/query");
    r
}

/// Endpoint that lists the sitemaps of a property, optionally those of one
/// sitemap index.
pub fn sitemaps_endpoint(site_url: &str, sitemap_index: Option<&str>) -> (r: String)
    ensures
        r@ == gsc_base() + "/sites/"@ + site_key(site_url@) + "/sitemaps"@ + match sitemap_index {
            Some(idx) => "?sitemapIndex="@ + site_key(idx@),
            None => Seq::<char>::empty(),
        },
{
    let mut r = site_endpoint(site_url);
    push_str(&mut r, "/sitemaps");
    match sitemap_index {
        Some(idx) => {
            push_str(&mut r, "?sitemapIndex=");
            push_str(&mut r, encode_site_url(idx).as_str());
        },
        None => {
            assert(r@ =~= r@ + Seq::<char>::empty());
        },
    }
    r
}

/// Endpoint of one sitemap of a property.
pub fn sitemap_endpoint(site_url: &str, feedpath: &str) -> (r: String)
    ensures
        r@ == gsc_base() + "/sites/"@ + site_key(site_url@) + "/sitemaps/"@ + site_key(feedpath@),
{
    let mut r = site_endpoint(site_url);
    push_str(&mut r, "/sitemaps/");
    push_str(&mut r, encode_site_url(feedpath).as_str());
    r
}

/// Endpoint of the URL Inspection API.
pub fn inspection_endpoint() -> (r: String)
    ensures
        r@ == "https://searchconsole.googleapis.com/v1"@ + "/urlInspection/index:inspect"@,
{
    concat2("https://searchconsole.googleapis.com/v1", "/urlInspection/index:inspect")
}

/// Endpoint of the Indexing API notifications.
pub fn indexing_endpoint() -> (r: String)
    ensures
        r@ == "https://indexing.googleapis.com/v3"@ + "/urlNotifications:publish"@,
{
    concat2("https://indexing.googleapis.com/v3", "/urlNotifications:publish")
}

// ------------------------------------------------------------ retry policy

/// What `str::parse::<u64>` yields: an optional `+` then one or more decimal
/// digits whose value fits in 64 bits.
pub open spec fn parse_u64(bs: Seq<u8>) -> Option<nat> {
    let ds = if bs.len() > 0 && bs[0] == 43 { bs.drop_first() } else { bs };
    if ds.len() > 0 && all_digits(ds) && digits_val(ds) <= u64::MAX {
        Some(digits_val(ds))
    } else {
        None
    }
}

proof fn lemma_digits_step(bs: Seq<u8>, n: int)
    requires
        0 <= n < bs.len(),
    ensures
        digits_val(bs.take(n + 1)) == digits_val(bs.take(n)) * 10 + (bs[n] - 48) as nat,
{
    assert(bs.take(n + 1).drop_last() =~= bs.take(n));
}

/// Parses a decimal number as `str::parse::<u64>` does.
pub fn parse_u64_str(s: &str) -> (r: Option<u64>)
    ensures
        match parse_u64(s.spec_bytes()) {
            Some(v) => r == Some(v as u64),
            None => r is None,
        },
{
    let bs = s.as_bytes();
    let ghost part = bs@;
    let n = bs.len();
    if n == 0 {
        return None;
    }
    let mut k: usize = 0;
    if bs[0] == 43u8 {
        k = 1;
        if k == n {
            return None;
        }
    }
    let start = k;
    let ghost ds = bs@.subrange(start as int, n as int);
    assert(ds =~= (if part.len() > 0 && part[0] == 43 { part.drop_first() } else { part }));
    let mut v: u64 = 0;
    let mut overflow = false;
    while k < n
        invariant
            start <= k <= n == bs@.len(),
            start < n,
            part == bs@,
            part == s.spec_bytes(),
            ds == bs@.subrange(start as int, n as int),
            ds == (if part.len() > 0 && part[0] == 43 { part.drop_first() } else { part }),
            forall|i: int| 0 <= i < k - start ==> is_digit(#[trigger] ds[i]),
            !overflow ==> v == digits_val(ds.take(k - start)),
            overflow ==> digits_val(ds.take(k - start)) > u64::MAX,
        decreases n - k,
    {
        let b = bs[k];
        if !(48u8 <= b && b <= 57u8) {
            assert(!is_digit(ds[k - start]));
            return None;
        }
        proof {
            lemma_digits_step(ds, k - start);
        }
        if !overflow {
            let d = (b - 48) as u64;
            if v > (18446744073709551615u64 - d) / 10 {
                overflow = true;
            } else {
                v = v * 10 + d;
            }
        } else {
            assert(digits_val(ds.take(k - start + 1)) >= digits_val(ds.take(k - start)));
        }
        k = k + 1;
    }
    assert(ds.take(n - start) =~= ds);
    if overflow {
        None
    } else {
        Some(v)
    }
}

/// What to do after a response.
pub enum RetryAction {
    /// The response succeeded: read its body.
    Succeed,
    /// Clear the cached token, then try again.
    RefreshAuthAndRetry,
    /// Sleep this many seconds, then try again.
    WaitSecondsAndRetry(u64),
    /// Sleep this many milliseconds, then try again.
    WaitMillisAndRetry(u64),
    /// Give up with an error for this status.
    Fail,
}

/// Progress of one authenticated request: attempts made and whether the
/// token was refreshed after a 401.
pub struct RetryState {
    pub attempt: u32,
    pub auth_refreshed: bool,
}

pub open spec fn min_u64(a: nat, b: nat) -> nat {
    if a <= b { a } else { b }
}

pub open spec fn pow2(k: nat) -> nat
    decreases k,
{
    if k == 0 { 1 } else { 2 * pow2((k - 1) as nat) }
}

/// The decision for a response with `status` on attempt `attempt`
/// (0-based): 2xx succeeds; the first 401 refreshes the token; 429 on the
/// first three attempts waits the `Retry-After` seconds or 2^attempt, at
/// most 60; 5xx on the first two attempts waits 500·2^attempt ms;
/// anything else fails.
pub open spec fn retry_decision(
    attempt: nat,
    auth_refreshed: bool,
    status: nat,
    retry_after: Option<Seq<u8>>,
) -> RetryAction {
    if 200 <= status <= 299 {
        RetryAction::Succeed
    } else if status == 401 && !auth_refreshed {
        RetryAction::RefreshAuthAndRetry
    } else if status == 429 && attempt < 3 {
        let wait = match retry_after {
            Some(h) => match parse_u64(h) {
                Some(v) => v,
                None => pow2(attempt),
            },
            None => pow2(attempt),
        };
        RetryAction::WaitSecondsAndRetry(min_u64(wait, 60) as u64)
    } else if 500 <= status <= 599 && attempt < 2 {
        RetryAction::WaitMillisAndRetry((500 * pow2(attempt)) as u64)
    } else {
        RetryAction::Fail
    }
}

pub open spec fn opt_bytes(o: Option<&str>) -> Option<Seq<u8>> {
    match o {
        Some(s) => Some(s.spec_bytes()),
        None => None,
    }
}

/// The most attempts that one request makes.
pub const MAX_ATTEMPTS: u32 = 4;

impl RetryState {
    /// The state before the first attempt.
    pub fn new() -> (r: RetryState)
        ensures
            r.attempt == 0,
            !r.auth_refreshed,
    {
        RetryState { attempt: 0, auth_refreshed: false }
    }

    /// Whether another attempt may be made.
    pub fn can_attempt(&self) -> (r: bool)
        ensures
            r == (self.attempt < MAX_ATTEMPTS),
    {
        self.attempt < MAX_ATTEMPTS
    }

    /// Decides what follows a response with `status` (and the value of its
    /// `Retry-After` header, if any) and moves to the next attempt.
    pub fn on_response(&mut self, status: u16, retry_after: Option<&str>) -> (r: RetryAction)
        requires
            old(self).attempt < MAX_ATTEMPTS,
        ensures
            r == retry_decision(old(self).attempt as nat, old(self).auth_refreshed, status as nat, opt_bytes(retry_after)),
            final(self).attempt == old(self).attempt + 1,
            final(self).auth_refreshed == (old(self).auth_refreshed || r is RefreshAuthAndRetry),
    {
        let attempt = self.attempt;
        self.attempt = attempt + 1;
        assert(pow2(0) == 1 && pow2(1) == 2 && pow2(2) == 4 && pow2(3) == 8) by {
            reveal_with_fuel(pow2, 4);
        }
        if 200 <= status && status <= 299 {
            RetryAction::Succeed
        } else if status == 401 && !self.auth_refreshed {
            self.auth_refreshed = true;
            RetryAction::RefreshAuthAndRetry
        } else if status == 429 && attempt < 3 {
            let backoff: u64 = if attempt == 0 {
                1
            } else if attempt == 1 {
                2
            } else {
                4
            };
            let wait = match retry_after {
                Some(h) => match parse_u64_str(h) {
                    Some(v) => v,
                    None => backoff,
                },
                None => backoff,
            };
            RetryAction::WaitSecondsAndRetry(if wait < 60 { wait } else { 60 })
        } else if 500 <= status && status <= 599 && attempt < 2 {
            let wait: u64 = if attempt == 0 {
                500
            } else {
                1000
            };
            RetryAction::WaitMillisAndRetry(wait)
        } else {
            RetryAction::Fail
        }
    }
}

/// The error when every attempt was used up.
pub fn max_retries_error() -> (r: ApiError)
    ensures
        r.status == 0,
        r.message@ == "Max retries exceeded"@,
{
    ApiError { status: 0, message: string_of("Max retries exceeded") }
}

/// The error when no access token could be had.
pub fn auth_failure_error(message: String) -> (r: ApiError)
    ensures
        r.status == 0,
        r.message@ == message@,
{
    ApiError { status: 0, message }
}

/// The error when the request could not be sent.
pub fn network_error(detail: &str) -> (r: ApiError)
    ensures
        r.status == 0,
        r.message@ == "Network error: "@ + detail@,
{
    ApiError { status: 0, message: concat2("Network error: ", detail) }
}

/// The error when a successful response does not hold valid JSON.
pub fn invalid_json_error(status: u16, detail: &str) -> (r: ApiError)
    ensures
        r.status == status,
        r.message@ == "Invalid JSON response: "@ + detail@,
{
    ApiError { status, message: concat2("Invalid JSON response: ", detail) }
}

/// Every wait that the policy asks for is at most 60 seconds, or 500 or
/// 1000 milliseconds.
pub proof fn lemma_waits_bounded(attempt: nat, auth_refreshed: bool, status: nat, retry_after: Option<Seq<u8>>)
    ensures
        retry_decision(attempt, auth_refreshed, status, retry_after) matches RetryAction::WaitSecondsAndRetry(s) ==> s <= 60,
        retry_decision(attempt, auth_refreshed, status, retry_after) matches RetryAction::WaitMillisAndRetry(ms) ==> ms == 500 || ms == 1000,
{
    reveal_with_fuel(pow2, 3);
}

/// A request refreshes its token at most once: after a refresh no response
/// leads to another one.
pub proof fn lemma_single_refresh(attempt: nat, status: nat, retry_after: Option<Seq<u8>>)
    ensures
        !(retry_decision(attempt, true, status, retry_after) is RefreshAuthAndRetry),
{
}

/// A success status always succeeds, whatever the attempt.
pub proof fn lemma_success_ends(attempt: nat, auth_refreshed: bool, status: nat, retry_after: Option<Seq<u8>>)
    requires
        200 <= status <= 299,
    ensures
        retry_decision(attempt, auth_refreshed, status, retry_after) is Succeed,
{
}

/// Every server error (status 500 to 599) is retried on the first two
/// attempts, after 500 ms and then 1000 ms, and fails from the third attempt
/// on, whatever the `Retry-After` header says.
pub proof fn lemma_server_errors_back_off(attempt: nat, auth_refreshed: bool, status: nat, retry_after: Option<Seq<u8>>)
    requires
        500 <= status <= 599,
    ensures
        attempt == 0 ==> retry_decision(attempt, auth_refreshed, status, retry_after) == RetryAction::WaitMillisAndRetry(500),
        attempt == 1 ==> retry_decision(attempt, auth_refreshed, status, retry_after) == RetryAction::WaitMillisAndRetry(1000),
        attempt >= 2 ==> retry_decision(attempt, auth_refreshed, status, retry_after) is Fail,
{
    reveal_with_fuel(pow2, 2);
}

} // verus!
