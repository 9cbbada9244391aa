//! Validation of tool parameters: site URLs, dates, enumerations, filters
//! and row limits.
use crate::calendar::{day_text, days_in_month};
use crate::clock::now_secs;
use crate::dates::{days_to_date_range_at, lagged_end_secs, period_start_secs};
use crate::text::{concat3, lex_lt, push_char, str_lt, join, push_joined_strs, str_eq, str_views, string_views, dec, has_prefix, push_decimal, push_padded, push_str, str_starts_with, string_of, zpad};
use vstd::prelude::*;
use vstd::string::StringSliceAdditionalSpecFns;
use vstd::utf8::encode_utf8;

verus! {

/// The view of a unit result whose error is a string.
pub open spec fn unit_result_view(r: Result<(), String>) -> Result<(), Seq<char>> {
    match r {
        Ok(()) => Ok(()),
        Err(e) => Err(e@),
    }
}

// ---------------------------------------------------------------- site URL

pub open spec fn site_url_check(s: Seq<char>) -> Result<(), Seq<char>> {
    if has_prefix(s, "sc-domain:"@) {
        if encode_utf8(s).len() <= 10 {
            Err(
                "Invalid site_url: sc-domain: must be followed by a domain (e.g., 'sc-domain:example.com')"@,
            )
        } else {
            Ok(())
        }
    } else if has_prefix(s, "http://"@) || has_prefix(s, "https://"@) {
        Ok(())
    } else {
        Err("Invalid site_url format. Use 'https://example.com/' or 'sc-domain:example.com'"@)
    }
}

/// Checks that a site URL is a URL-prefix property (`http://`, `https://`)
/// or a domain property (`sc-domain:` followed by a domain).
pub fn validate_site_url(site_url: &str) -> (r: Result<(), String>)
    ensures
        unit_result_view(r) == site_url_check(site_url@),
{
    if str_starts_with(site_url, "sc-domain:") {
        if site_url.as_bytes().len() <= 10 {
            return Err(
                string_of(
                    "Invalid site_url: sc-domain: must be followed by a domain (e.g., 'sc-domain:example.com')",
                ),
            );
        }
        Ok(())
    } else if str_starts_with(site_url, "http://") || str_starts_with(site_url, "https://") {
        Ok(())
    } else {
        Err(
            string_of(
                "Invalid site_url format. Use 'https://example.com/' or 'sc-domain:example.com'",
            ),
        )
    }
}

// -------------------------------------------------------------------- dates

pub open spec fn is_digit(b: u8) -> bool {
    48 <= b <= 57
}

pub open spec fn all_digits(bs: Seq<u8>) -> bool {
    forall|i: int| 0 <= i < bs.len() ==> is_digit(#[trigger] bs[i])
}

/// Value of a string of decimal digits.
pub open spec fn digits_val(bs: Seq<u8>) -> nat
    decreases bs.len(),
{
    if bs.len() == 0 {
        0
    } else {
        digits_val(bs.drop_last()) * 10 + (bs.last() - 48) as nat
    }
}

/// What `str::parse::<u32>` yields: an optional `+` then one or more
/// decimal digits whose value fits in 32 bits.
pub open spec fn parse_u32(bs: Seq<u8>) -> Option<nat> {
    let ds = if bs.len() > 0 && bs[0] == 43 { bs.drop_first() } else { bs };
    if ds.len() > 0 && all_digits(ds) && digits_val(ds) <= u32::MAX {
        Some(digits_val(ds))
    } else {
        None
    }
}

proof fn lemma_digits_val_step(bs: Seq<u8>, n: int)
    requires
        0 <= n < bs.len(),
    ensures
        digits_val(bs.take(n + 1)) == digits_val(bs.take(n)) * 10 + (bs[n] - 48) as nat,
{
    assert(bs.take(n + 1).drop_last() =~= bs.take(n));
}

proof fn lemma_digits_val_grows(bs: Seq<u8>, n: int, k: int)
    requires
        0 <= n <= k <= bs.len(),
        all_digits(bs),
    ensures
        digits_val(bs.take(n)) <= digits_val(bs.take(k)),
    decreases k - n,
{
    if n < k {
        lemma_digits_val_grows(bs, n, k - 1);
        lemma_digits_val_step(bs, k - 1);
    }
}

/// Parses `bs[lo..hi]` as `str::parse::<u32>` does.
pub fn parse_u32_range(bs: &[u8], lo: usize, hi: usize) -> (r: Option<u32>)
    requires
        lo <= hi <= bs@.len(),
    ensures
        match parse_u32(bs@.subrange(lo as int, hi as int)) {
            Some(v) => r == Some(v as u32),
            None => r is None,
        },
{
    let ghost part = bs@.subrange(lo as int, hi as int);
    if lo == hi {
        return None;
    }
    let mut k = lo;
    if bs[lo] == 43u8 {
        k = lo + 1;
        if k == hi {
            return None;
        }
    }
    let start = k;
    let ghost ds = bs@.subrange(start as int, hi as int);
    assert(ds =~= (if part.len() > 0 && part[0] == 43 { part.drop_first() } else { part }));
    let mut v: u64 = 0;
    let mut overflow = false;
    while k < hi
        invariant
            start <= k <= hi <= bs@.len(),
            start < hi,
            part == bs@.subrange(lo as int, hi as int),
            ds == bs@.subrange(start as int, hi as int),
            ds == (if part.len() > 0 && part[0] == 43 { part.drop_first() } else { part }),
            forall|i: int| 0 <= i < k - start ==> is_digit(#[trigger] ds[i]),
            !overflow ==> v == digits_val(ds.take(k - start)) && v <= u32::MAX,
            overflow ==> digits_val(ds.take(k - start)) > u32::MAX,
        decreases hi - k,
    {
        let b = bs[k];
        if !(48u8 <= b && b <= 57u8) {
            assert(!is_digit(ds[k - start]));
            return None;
        }
        proof {
            lemma_digits_val_step(ds, k - start);
        }
        if !overflow {
            v = v * 10 + (b - 48) as u64;
            if v > 4294967295u64 {
                overflow = true;
            }
        }
        k = k + 1;
    }
    assert(ds.take(hi - start) =~= ds);
    if overflow {
        None
    } else {
        Some(v as u32)
    }
}

/// Indices of the `-` bytes of a byte string, in order.
pub open spec fn dashes(bs: Seq<u8>) -> Seq<int>
    decreases bs.len(),
{
    if bs.len() == 0 {
        seq![]
    } else if bs.last() == 45 {
        dashes(bs.drop_last()).push(bs.len() - 1)
    } else {
        dashes(bs.drop_last())
    }
}

pub open spec fn day_out_of_range(date: Seq<char>, y: nat, m: nat, d: nat) -> Seq<char> {
    "Day "@ + dec(d) + " out of range (1-"@ + dec(days_in_month(y as int, m as int) as nat)
        + ") for "@ + dec(y) + "-"@ + zpad(dec(m), 2)
}

/// Result of checking a `YYYY-MM-DD` date: ten bytes, three `-`-separated
/// numbers, year 2000..=2100, month 1..=12, a day that the month has.
pub open spec fn date_check(date: Seq<char>) -> Result<(), Seq<char>> {
    let bs = encode_utf8(date);
    if bs.len() != 10 {
        Err("Invalid date '"@ + date + "'. Use YYYY-MM-DD format (e.g., '2026-03-01')."@)
    } else if dashes(bs).len() != 2 {
        Err("Invalid date '"@ + date + "'. Use YYYY-MM-DD format."@)
    } else {
        let i = dashes(bs)[0];
        let j = dashes(bs)[1];
        let py = parse_u32(bs.subrange(0, i));
        let pm = parse_u32(bs.subrange(i + 1, j));
        let pd = parse_u32(bs.subrange(j + 1, 10));
        if py is None {
            Err("Invalid year in '"@ + date + "'"@)
        } else if pm is None {
            Err("Invalid month in '"@ + date + "'"@)
        } else if pd is None {
            Err("Invalid day in '"@ + date + "'"@)
        } else {
            let y = py->0;
            let m = pm->0;
            let d = pd->0;
            if !(2000 <= y <= 2100) {
                Err("Year "@ + dec(y) + " out of range"@)
            } else if !(1 <= m <= 12) {
                Err("Month "@ + dec(m) + " out of range (1-12)"@)
            } else if d < 1 || d > days_in_month(y as int, m as int) {
                Err(day_out_of_range(date, y, m, d))
            } else {
                Ok(())
            }
        }
    }
}

/// The bytes of a text of ASCII characters.
pub open spec fn ascii_bytes(s: Seq<char>) -> Seq<u8> {
    s.map_values(|c: char| c as u8)
}

proof fn lemma_digit_byte(d: nat)
    requires
        d < 10,
    ensures
        crate::text::digit_char(d) as u8 == 48 + d,
        '0' <= crate::text::digit_char(d) <= '9',
{
}

proof fn lemma_dec_digits(n: nat)
    ensures
        forall|i: int| 0 <= i < dec(n).len() ==> '0' <= #[trigger] dec(n)[i] <= '9',
        all_digits(ascii_bytes(dec(n))),
        digits_val(ascii_bytes(dec(n))) == n,
    decreases n,
{
    if n < 10 {
        lemma_digit_byte(n);
        let a = ascii_bytes(dec(n));
        assert(a.drop_last() =~= Seq::<u8>::empty());
        assert(digits_val(Seq::<u8>::empty()) == 0);
        assert(digits_val(a) == digits_val(a.drop_last()) * 10 + (a.last() - 48) as nat);
    } else {
        lemma_dec_digits(n / 10);
        lemma_digit_byte(n % 10);
        let a = ascii_bytes(dec(n));
        assert(a.drop_last() =~= ascii_bytes(dec(n / 10)));
        assert(a.last() == 48 + n % 10);
        assert(digits_val(a) == digits_val(a.drop_last()) * 10 + (a.last() - 48) as nat);
        assert(n == (n / 10) * 10 + n % 10);
    }
}

proof fn lemma_dec_len_exact(n: nat)
    ensures
        n < 10 ==> dec(n).len() == 1,
        10 <= n < 100 ==> dec(n).len() == 2,
        1000 <= n < 10000 ==> dec(n).len() == 4,
{
    reveal_with_fuel(dec, 5);
}

/// A number below 100 as two digits, zero-padded: its bytes are digits
/// whose value is the number.
proof fn lemma_two_digits(n: nat)
    requires
        n < 100,
    ensures
        zpad(dec(n), 2).len() == 2,
        forall|i: int| 0 <= i < 2 ==> '0' <= #[trigger] zpad(dec(n), 2)[i] <= '9',
        all_digits(ascii_bytes(zpad(dec(n), 2))),
        digits_val(ascii_bytes(zpad(dec(n), 2))) == n,
{
    lemma_dec_len_exact(n);
    lemma_dec_digits(n);
    if n < 10 {
        let z = zpad(dec(n), 2);
        assert(z =~= seq!['0'] + dec(n));
        let a = ascii_bytes(z);
        assert(a.drop_last() =~= seq![48u8]);
        assert(digits_val(seq![48u8]) == 0) by {
            assert(seq![48u8].drop_last() =~= Seq::<u8>::empty());
            assert(digits_val(Seq::<u8>::empty()) == 0);
            assert(digits_val(seq![48u8]) == digits_val(seq![48u8].drop_last()) * 10 + (seq![48u8].last() - 48) as nat);
        }
    }
}

proof fn lemma_dashes_prefix(bs: Seq<u8>, k: int)
    requires
        bs.len() == 10,
        0 <= k <= 10,
        bs[4] == 45,
        bs[7] == 45,
        forall|i: int| 0 <= i < 10 && i != 4 && i != 7 ==> #[trigger] bs[i] != 45,
    ensures
        dashes(bs.take(k)) == (if k <= 4 { seq![] } else if k <= 7 { seq![4int] } else { seq![4int, 7int] }),
    decreases k,
{
    if k > 0 {
        lemma_dashes_prefix(bs, k - 1);
        assert(bs.take(k).drop_last() =~= bs.take(k - 1));
        assert(bs.take(k).last() == bs[k - 1]);
    }
}

/// Month-aware validation: a `YYYY-MM-DD` text with a year from 2000 to
/// 2100 is accepted exactly when it names a day of the calendar, leap years
/// included.
pub proof fn lemma_date_check_calendar(y: int, m: int, d: int)
    requires
        2000 <= y <= 2100,
        0 <= m <= 99,
        0 <= d <= 99,
    ensures
        date_check(crate::calendar::date_text(y, m, d)) is Ok <==> crate::calendar::valid_date(y, m, d),
{
    let t = crate::calendar::date_text(y, m, d);
    let ys = dec(y as nat);
    let ms = zpad(dec(m as nat), 2);
    let dd = zpad(dec(d as nat), 2);
    lemma_dec_len_exact(y as nat);
    lemma_dec_digits(y as nat);
    lemma_two_digits(m as nat);
    lemma_two_digits(d as nat);
    assert(crate::text::signed_zpad(y, 4) == ys);
    assert(t =~= ys + seq!['-'] + ms + seq!['-'] + dd);
    assert(t.len() == 10);
    assert forall|i: int| 0 <= i < t.len() implies '\0' <= #[trigger] t[i] <= '\u{7f}' by {
        if i < 4 {
            assert(t[i] == ys[i]);
        } else if 4 < i < 7 {
            assert(t[i] == ms[i - 5]);
        } else if 7 < i {
            assert(t[i] == dd[i - 8]);
        }
    }
    vstd::utf8::is_ascii_chars_encode_utf8(t);
    let bs = encode_utf8(t);
    assert(bs =~= ascii_bytes(t));
    assert forall|i: int| 0 <= i < 10 && i != 4 && i != 7 implies #[trigger] bs[i] != 45 by {
        if i < 4 {
            assert(t[i] == ys[i]);
        } else if i < 7 {
            assert(t[i] == ms[i - 5]);
        } else {
            assert(t[i] == dd[i - 8]);
        }
    }
    lemma_dashes_prefix(bs, 10);
    assert(bs.take(10) =~= bs);
    assert(bs.subrange(0, 4) =~= ascii_bytes(ys));
    assert(bs.subrange(5, 7) =~= ascii_bytes(ms));
    assert(bs.subrange(8, 10) =~= ascii_bytes(dd));
    assert(parse_u32(ascii_bytes(ys)) == Some(y as nat));
    assert(parse_u32(ascii_bytes(ms)) == Some(m as nat));
    assert(parse_u32(ascii_bytes(dd)) == Some(d as nat));
}

/// Checks that `date` is a `YYYY-MM-DD` calendar date from 2000 to 2100.
pub fn validate_date(date: &str) -> (r: Result<(), String>)
    ensures
        unit_result_view(r) == date_check(date@),
{
    let bs = date.as_bytes();
    if bs.len() != 10 {
        return Err(concat3("Invalid date '", date, "'. Use YYYY-MM-DD format (e.g., '2026-03-01')."));
    }
    let mut pos: Vec<usize> = Vec::new();
    let mut k: usize = 0;
    while k < 10
        invariant
            k <= 10,
            bs@.len() == 10,
            pos@.len() == dashes(bs@.take(k as int)).len(),
            forall|t: int| 0 <= t < pos@.len() ==> pos@[t] == #[trigger] dashes(bs@.take(k as int))[t],
        decreases 10 - k,
    {
        assert(bs@.take(k as int + 1).drop_last() =~= bs@.take(k as int));
        if bs[k] == 45u8 {
            pos.push(k);
        }
        k = k + 1;
    }
    assert(bs@.take(10) =~= bs@);
    if pos.len() != 2 {
        return Err(concat3("Invalid date '", date, "'. Use YYYY-MM-DD format."));
    }
    let i = pos[0];
    let j = pos[1];
    proof {
        lemma_dashes_bounds(bs@);
    }
    let py = parse_u32_range(bs, 0, i);
    let pm = parse_u32_range(bs, i + 1, j);
    let pd = parse_u32_range(bs, j + 1, 10);
    if py.is_none() {
        return Err(concat3("Invalid year in '", date, "'"));
    }
    if pm.is_none() {
        return Err(concat3("Invalid month in '", date, "'"));
    }
    if pd.is_none() {
        return Err(concat3("Invalid day in '", date, "'"));
    }
    let y = py.unwrap();
    let m = pm.unwrap();
    let d = pd.unwrap();
    if !(2000 <= y && y <= 2100) {
        let mut e = string_of("Year ");
        push_decimal(&mut e, y as u64);
        push_str(&mut e, " out of range");
        return Err(e);
    }
    if !(1 <= m && m <= 12) {
        let mut e = string_of("Month ");
        push_decimal(&mut e, m as u64);
        push_str(&mut e, " out of range (1-12)");
        return Err(e);
    }
    let max_day: u32 = if m == 2 {
        if y % 4 == 0 && (y % 100 != 0 || y % 400 == 0) {
            29
        } else {
            28
        }
    } else if m == 4 || m == 6 || m == 9 || m == 11 {
        30
    } else {
        31
    };
    if d < 1 || d > max_day {
        let mut e = string_of("Day ");
        push_decimal(&mut e, d as u64);
        push_str(&mut e, " out of range (1-");
        push_decimal(&mut e, max_day as u64);
        push_str(&mut e, ") for ");
        push_decimal(&mut e, y as u64);
        push_str(&mut e, "-");
        push_padded(&mut e, m as u64, 2);
        return Err(e);
    }
    Ok(())
}

proof fn lemma_dashes_bounds(bs: Seq<u8>)
    ensures
        forall|t: int| 0 <= t < dashes(bs).len() ==> 0 <= #[trigger] dashes(bs)[t] < bs.len() && bs[dashes(bs)[t]] == 45,
        forall|s: int, t: int| 0 <= s < t < dashes(bs).len() ==> #[trigger] dashes(bs)[s] < #[trigger] dashes(bs)[t],
    decreases bs.len(),
{
    if bs.len() > 0 {
        let p = bs.drop_last();
        lemma_dashes_bounds(p);
        let dp = dashes(p);
        let db = dashes(bs);
        assert(forall|t: int| 0 <= t < dp.len() ==> #[trigger] db[t] == dp[t]);
        assert forall|t: int| 0 <= t < db.len() implies 0 <= #[trigger] db[t] < bs.len() && bs[db[t]] == 45 by {
            if t < dp.len() {
                assert(bs[dp[t]] == p[dp[t]]);
            }
        }
        assert forall|s: int, t: int| 0 <= s < t < db.len() implies #[trigger] db[s] < #[trigger] db[t] by {
            if t < dp.len() {
                assert(dp[s] < dp[t]);
            } else {
                assert(dp[s] < p.len());
            }
        }
    }
}


// ------------------------------------------------------------ enumerations

pub open spec fn dimension_names() -> Seq<Seq<char>> {
    seq!["query"@, "page"@, "country"@, "device"@, "searchAppearance"@, "date"@, "hour"@]
}

pub open spec fn metric_names() -> Seq<Seq<char>> {
    seq!["clicks"@, "impressions"@, "ctr"@, "position"@]
}

pub open spec fn search_type_names() -> Seq<Seq<char>> {
    seq!["web"@, "image"@, "video"@, "news"@, "discover"@, "googleNews"@]
}

pub open spec fn aggregation_type_names() -> Seq<Seq<char>> {
    seq!["auto"@, "byProperty"@, "byPage"@, "byNewsShowcasePanel"@]
}

pub open spec fn data_state_names() -> Seq<Seq<char>> {
    seq!["all"@, "final"@, "hourly_all"@]
}

pub open spec fn opportunity_mode_names() -> Seq<Seq<char>> {
    seq!["quick_wins"@, "cannibalization"@, "ctr_gaps"@, "declining"@, "growing"@]
}

pub open spec fn site_action_names() -> Seq<Seq<char>> {
    seq!["add"@, "delete"@]
}

pub open spec fn sitemap_action_names() -> Seq<Seq<char>> {
    seq!["submit"@, "delete"@]
}

pub open spec fn filter_operator_names() -> Seq<Seq<char>> {
    seq!["contains"@, "equals"@, "notContains"@, "notEquals"@, "includingRegex"@, "excludingRegex"@]
}

pub open spec fn search_appearance_names() -> Seq<Seq<char>> {
    seq![
        "AMP_BLUE_LINK"@,
        "AMP_TOP_STORIES"@,
        "BREADCRUMB"@,
        "EVENT"@,
        "FAQ"@,
        "HOWTO"@,
        "IMAGE_PACK"@,
        "JOB_LISTING"@,
        "MERCHANT_LISTINGS"@,
        "PRODUCT_SNIPPETS"@,
        "RECIPE_FEATURE"@,
        "RECIPE_RICH_SNIPPET"@,
        "REVIEW_SNIPPET"@,
        "SITELINKS"@,
        "VIDEO"@,
        "WEB_STORY"@,
    ]
}

pub open spec fn notification_type_names() -> Seq<Seq<char>> {
    seq!["URL_UPDATED"@, "URL_DELETED"@]
}

pub open spec fn sort_direction_names() -> Seq<Seq<char>> {
    seq!["ascending"@, "descending"@]
}

/// The dimensions that search analytics groups by.
pub fn valid_dimensions() -> (r: &'static [&'static str])
    ensures
        str_views(r@) == dimension_names(),
{
    let r: &'static [&'static str] = &["query", "page", "country", "device", "searchAppearance", "date", "hour"];
    assert(str_views(r@) =~= dimension_names());
    r
}

/// The metrics of a search analytics row.
pub fn valid_metrics() -> (r: &'static [&'static str])
    ensures
        str_views(r@) == metric_names(),
{
    let r: &'static [&'static str] = &["clicks", "impressions", "ctr", "position"];
    assert(str_views(r@) =~= metric_names());
    r
}

/// The search types.
pub fn valid_search_types() -> (r: &'static [&'static str])
    ensures
        str_views(r@) == search_type_names(),
{
    let r: &'static [&'static str] = &["web", "image", "video", "news", "discover", "googleNews"];
    assert(str_views(r@) =~= search_type_names());
    r
}

/// The aggregation types.
pub fn valid_aggregation_types() -> (r: &'static [&'static str])
    ensures
        str_views(r@) == aggregation_type_names(),
{
    let r: &'static [&'static str] = &["auto", "byProperty", "byPage", "byNewsShowcasePanel"];
    assert(str_views(r@) =~= aggregation_type_names());
    r
}

/// The data states (freshness).
pub fn valid_data_states() -> (r: &'static [&'static str])
    ensures
        str_views(r@) == data_state_names(),
{
    let r: &'static [&'static str] = &["all", "final", "hourly_all"];
    assert(str_views(r@) =~= data_state_names());
    r
}

/// The modes of the keyword opportunity finder.
pub fn valid_opportunity_modes() -> (r: &'static [&'static str])
    ensures
        str_views(r@) == opportunity_mode_names(),
{
    let r: &'static [&'static str] = &["quick_wins", "cannibalization", "ctr_gaps", "declining", "growing"];
    assert(str_views(r@) =~= opportunity_mode_names());
    r
}

/// The actions on a property.
pub fn valid_site_actions() -> (r: &'static [&'static str])
    ensures
        str_views(r@) == site_action_names(),
{
    let r: &'static [&'static str] = &["add", "delete"];
    assert(str_views(r@) =~= site_action_names());
    r
}

/// The actions on a sitemap.
pub fn valid_sitemap_actions() -> (r: &'static [&'static str])
    ensures
        str_views(r@) == sitemap_action_names(),
{
    let r: &'static [&'static str] = &["submit", "delete"];
    assert(str_views(r@) =~= sitemap_action_names());
    r
}

/// The filter operators.
pub fn valid_filter_operators() -> (r: &'static [&'static str])
    ensures
        str_views(r@) == filter_operator_names(),
{
    let r: &'static [&'static str] = &["contains", "equals", "notContains", "notEquals", "includingRegex", "excludingRegex"];
    assert(str_views(r@) =~= filter_operator_names());
    r
}

/// The rich result types.
pub fn valid_search_appearances() -> (r: &'static [&'static str])
    ensures
        str_views(r@) == search_appearance_names(),
{
    let r: &'static [&'static str] = &[
        "AMP_BLUE_LINK",
        "AMP_TOP_STORIES",
        "BREADCRUMB",
        "EVENT",
        "FAQ",
        "HOWTO",
        "IMAGE_PACK",
        "JOB_LISTING",
        "MERCHANT_LISTINGS",
        "PRODUCT_SNIPPETS",
        "RECIPE_FEATURE",
        "RECIPE_RICH_SNIPPET",
        "REVIEW_SNIPPET",
        "SITELINKS",
        "VIDEO",
        "WEB_STORY",
    ];
    assert(str_views(r@) =~= search_appearance_names());
    r
}

/// The Indexing API notification types.
pub fn valid_notification_types() -> (r: &'static [&'static str])
    ensures
        str_views(r@) == notification_type_names(),
{
    let r: &'static [&'static str] = &["URL_UPDATED", "URL_DELETED"];
    assert(str_views(r@) =~= notification_type_names());
    r
}

/// The sort directions.
pub fn valid_sort_directions() -> (r: &'static [&'static str])
    ensures
        str_views(r@) == sort_direction_names(),
{
    let r: &'static [&'static str] = &["ascending", "descending"];
    assert(str_views(r@) =~= sort_direction_names());
    r
}

pub open spec fn unknown_value_message(value: Seq<char>, valid: Seq<Seq<char>>, field: Seq<char>) -> Seq<char> {
    "Unknown "@ + field + " '"@ + value + "'. Valid: "@ + join(valid, ", "@)
}

pub open spec fn enum_check(value: Seq<char>, valid: Seq<Seq<char>>, field: Seq<char>) -> Result<(), Seq<char>> {
    if valid.contains(value) {
        Ok(())
    } else {
        Err(unknown_value_message(value, valid, field))
    }
}

/// Checks that `value` is one of `valid`.
pub fn validate_enum(value: &str, valid: &[&str], field_name: &str) -> (r: Result<(), String>)
    ensures
        unit_result_view(r) == enum_check(value@, str_views(valid@), field_name@),
{
    let mut i: usize = 0;
    while i < valid.len()
        invariant
            i <= valid@.len(),
            forall|t: int| 0 <= t < i ==> valid@[t]@ != value@,
        decreases valid@.len() - i,
    {
        if str_eq(valid[i], value) {
            assert(str_views(valid@)[i as int] == value@);
            return Ok(());
        }
        i = i + 1;
    }
    assert(!str_views(valid@).contains(value@));
    let mut e = string_of("Unknown ");
    push_str(&mut e, field_name);
    push_str(&mut e, " '");
    push_str(&mut e, value);
    push_str(&mut e, "'. Valid: ");
    push_joined_strs(&mut e, valid, ", ");
    Err(e)
}

pub open spec fn enum_list_check(values: Seq<Seq<char>>, valid: Seq<Seq<char>>, field: Seq<char>) -> Result<(), Seq<char>>
    decreases values.len(),
{
    if values.len() == 0 {
        Ok(())
    } else if !valid.contains(values[0]) {
        Err(unknown_value_message(values[0], valid, field))
    } else {
        enum_list_check(values.drop_first(), valid, field)
    }
}

proof fn lemma_enum_list_prefix(values: Seq<Seq<char>>, valid: Seq<Seq<char>>, field: Seq<char>, i: int)
    requires
        0 <= i <= values.len(),
        forall|t: int| 0 <= t < i ==> valid.contains(#[trigger] values[t]),
    ensures
        enum_list_check(values, valid, field) == enum_list_check(values.skip(i), valid, field),
    decreases i,
{
    if i > 0 {
        assert(values.skip(1).skip(i - 1) =~= values.skip(i));
        lemma_enum_list_prefix(values.skip(1), valid, field, i - 1);
        assert(values.drop_first() =~= values.skip(1));
    } else {
        assert(values.skip(0) =~= values);
    }
}

/// Checks each value of a list against `valid`; the first unknown one is
/// reported.
pub fn validate_enum_list(values: &[String], valid: &[&str], field_name: &str) -> (r: Result<(), String>)
    ensures
        unit_result_view(r) == enum_list_check(string_views(values@), str_views(valid@), field_name@),
{
    let mut i: usize = 0;
    while i < values.len()
        invariant
            i <= values@.len(),
            forall|t: int| 0 <= t < i ==> str_views(valid@).contains(#[trigger] string_views(values@)[t]),
        decreases values@.len() - i,
    {
        let r = validate_enum(values[i].as_str(), valid, field_name);
        proof {
            lemma_enum_list_prefix(string_views(values@), str_views(valid@), field_name@, i as int);
            assert(string_views(values@).skip(i as int)[0] == values@[i as int]@);
        }
        if r.is_err() {
            return r;
        }
        i = i + 1;
    }
    proof {
        lemma_enum_list_prefix(string_views(values@), str_views(valid@), field_name@, values@.len() as int);
    }
    Ok(())
}

// ---------------------------------------------------------------- row limit

pub open spec fn row_limit_check(limit: Option<u32>, default: u32) -> Result<u32, Seq<char>> {
    match limit {
        Some(l) => if 1 <= l <= 25000 {
            Ok(l)
        } else {
            Err("row_limit must be between 1 and 25000, got "@ + dec(l as nat))
        },
        None => Ok(default),
    }
}

pub open spec fn u32_result_view(r: Result<u32, String>) -> Result<u32, Seq<char>> {
    match r {
        Ok(v) => Ok(v),
        Err(e) => Err(e@),
    }
}

/// Resolves a row limit: the given one when it is within 1..=25000, else an
/// error; the default when none is given.
pub fn validate_row_limit(limit: Option<u32>, default: u32) -> (r: Result<u32, String>)
    ensures
        u32_result_view(r) == row_limit_check(limit, default),
{
    match limit {
        Some(l) => {
            if !(1 <= l && l <= 25000) {
                let mut e = string_of("row_limit must be between 1 and 25000, got ");
                push_decimal(&mut e, l as u64);
                Err(e)
            } else {
                Ok(l)
            }
        },
        None => Ok(default),
    }
}


// ------------------------------------------------------------------ filters

/// A dimension filter: `dimension operator expression`.
#[derive(Debug)]
pub struct Filter {
    pub dimension: String,
    pub operator: String,
    pub expression: String,
}

pub struct FilterView {
    pub dimension: Seq<char>,
    pub operator: Seq<char>,
    pub expression: Seq<char>,
}

impl View for Filter {
    type V = FilterView;

    open spec fn view(&self) -> FilterView {
        FilterView {
            dimension: self.dimension@,
            operator: self.operator@,
            expression: self.expression@,
        }
    }
}

impl Filter {
    /// A copy of the filter.
    pub fn duplicate(&self) -> (r: Filter)
        ensures
            r@ == self@,
    {
        Filter {
            dimension: self.dimension.clone(),
            operator: self.operator.clone(),
            expression: self.expression.clone(),
        }
    }
}

pub open spec fn filter_views(fs: Seq<Filter>) -> Seq<FilterView> {
    fs.map_values(|f: Filter| f@)
}

pub open spec fn filter_field(i: nat, field: Seq<char>) -> Seq<char> {
    "filter["@ + dec(i) + "]."@ + field
}

pub open spec fn filter_check(f: FilterView, i: nat) -> Result<(), Seq<char>> {
    if !dimension_names().contains(f.dimension) {
        Err(unknown_value_message(f.dimension, dimension_names(), filter_field(i, "dimension"@)))
    } else if !filter_operator_names().contains(f.operator) {
        Err(unknown_value_message(f.operator, filter_operator_names(), filter_field(i, "operator"@)))
    } else if f.expression.len() == 0 {
        Err(filter_field(i, "expression"@) + " cannot be empty"@)
    } else {
        Ok(())
    }
}

/// Result of checking the filters from index `k` on.
pub open spec fn filters_check_from(fs: Seq<FilterView>, k: nat) -> Result<(), Seq<char>>
    decreases fs.len() - k,
{
    if k >= fs.len() {
        Ok(())
    } else {
        match filter_check(fs[k as int], k) {
            Err(e) => Err(e),
            Ok(()) => filters_check_from(fs, k + 1),
        }
    }
}

fn filter_field_name(i: usize, field: &str) -> (r: String)
    ensures
        r@ == filter_field(i as nat, field@),
{
    let mut e = string_of("filter[");
    push_decimal(&mut e, i as u64);
    push_str(&mut e, "].");
    push_str(&mut e, field);
    e
}

/// Checks each filter: a known dimension, a known operator and a non-empty
/// expression; the first failure is reported.
pub fn validate_filters(filters: &[Filter]) -> (r: Result<(), String>)
    ensures
        unit_result_view(r) == filters_check_from(filter_views(filters@), 0),
{
    let ghost fs = filter_views(filters@);
    let mut i: usize = 0;
    while i < filters.len()
        invariant
            i <= filters@.len(),
            fs == filter_views(filters@),
            filters_check_from(fs, 0) == filters_check_from(fs, i as nat),
        decreases filters@.len() - i,
    {
        let f = &filters[i];
        assert(fs[i as int] == f@);
        let r1 = validate_enum(f.dimension.as_str(), valid_dimensions(), filter_field_name(i, "dimension").as_str());
        if r1.is_err() {
            return r1;
        }
        let r2 = validate_enum(f.operator.as_str(), valid_filter_operators(), filter_field_name(i, "operator").as_str());
        if r2.is_err() {
            return r2;
        }
        if f.expression.as_str().is_empty() {
            let mut e = filter_field_name(i, "expression");
            push_str(&mut e, " cannot be empty");
            return Err(e);
        }
        i = i + 1;
    }
    Ok(())
}

// ------------------------------------------------------------ URL encoding

pub open spec fn is_unreserved(b: u8) -> bool {
    (65 <= b <= 90) || (97 <= b <= 122) || (48 <= b <= 57) || b == 45 || b == 95 || b == 46 || b == 126
}

pub open spec fn hex_upper(n: int) -> char {
    if n < 10 { ((48 + n) as u8) as char } else { ((55 + n) as u8) as char }
}

/// Percent-encoding of each byte that is not unreserved (`A-Z a-z 0-9 - _ . ~`),
/// with upper-case hex digits.
pub open spec fn percent_encode(bs: Seq<u8>) -> Seq<char>
    decreases bs.len(),
{
    if bs.len() == 0 {
        seq![]
    } else {
        let b = bs.last();
        percent_encode(bs.drop_last()) + if is_unreserved(b) {
            seq![b as char]
        } else {
            seq!['%', hex_upper(b as int / 16), hex_upper(b as int % 16)]
        }
    }
}

fn hex_digit_char(n: u8) -> (c: char)
    requires
        n < 16,
    ensures
        c == hex_upper(n as int),
{
    if n < 10 {
        (48u8 + n) as char
    } else {
        (55u8 + n) as char
    }
}

/// Percent-encodes the UTF-8 bytes of `s` for use in URLs.
pub fn urlencode(s: &str) -> (r: String)
    ensures
        r@ == percent_encode(s.spec_bytes()),
{
    let bs = s.as_bytes();
    let mut out = String::new();
    let mut i: usize = 0;
    while i < bs.len()
        invariant
            i <= bs@.len(),
            bs@ == s.spec_bytes(),
            out@ == percent_encode(bs@.take(i as int)),
        decreases bs@.len() - i,
    {
        let b = bs[i];
        assert(bs@.take(i as int + 1).drop_last() =~= bs@.take(i as int));
        if (65u8 <= b && b <= 90u8) || (97u8 <= b && b <= 122u8) || (48u8 <= b && b <= 57u8) || b == 45u8
            || b == 95u8 || b == 46u8 || b == 126u8 {
            push_char(&mut out, b as char);
        } else {
            push_char(&mut out, '%');
            push_char(&mut out, hex_digit_char(b / 16));
            push_char(&mut out, hex_digit_char(b % 16));
        }
        i = i + 1;
        assert(out@ =~= percent_encode(bs@.take(i as int)));
    }
    assert(bs@.take(bs@.len() as int) =~= bs@);
    out
}

// -------------------------------------------------------------- date range

pub open spec fn opt_str_view(o: Option<&str>) -> Option<Seq<char>> {
    match o {
        Some(s) => Some(s@),
        None => None,
    }
}

pub open spec fn opt_string_view(o: Option<String>) -> Option<Seq<char>> {
    match o {
        Some(s) => Some(s@),
        None => None,
    }
}

/// The period ending two days before `now` that spans `days` days.
pub open spec fn lagged_period(now: int, days: int) -> (Seq<char>, Seq<char>) {
    (
        day_text(period_start_secs(lagged_end_secs(now), days) / 86400),
        day_text(lagged_end_secs(now) / 86400),
    )
}

/// How a date range is resolved from explicit dates or a day count, at the
/// time `now`.
pub open spec fn resolve_dates_spec(
    start: Option<Seq<char>>,
    end: Option<Seq<char>>,
    days: Option<u32>,
    default_days: u32,
    now: int,
) -> Result<(Seq<char>, Seq<char>), Seq<char>> {
    if (start is Some || end is Some) && days is Some {
        Err("Use either 'days' or 'start_date'/'end_date', not both."@)
    } else if start is Some && end is Some {
        let s = start->0;
        let e = end->0;
        match date_check(s) {
            Err(m) => Err(m),
            Ok(()) => match date_check(e) {
                Err(m) => Err(m),
                Ok(()) => if lex_lt(encode_utf8(e), encode_utf8(s)) {
                    Err("end_date '"@ + e + "' must be >= start_date '"@ + s + "'"@)
                } else {
                    Ok((s, e))
                },
            },
        }
    } else if start is Some {
        let s = start->0;
        match date_check(s) {
            Err(m) => Err(m),
            Ok(()) => Ok((s, lagged_period(now, 1).1)),
        }
    } else if end is Some {
        Err("If end_date is provided, start_date is also required."@)
    } else if days is Some {
        let d = days->0;
        if !(1 <= d <= 540) {
            Err("days must be between 1 and 540"@)
        } else {
            Ok(lagged_period(now, d as int))
        }
    } else {
        Ok(lagged_period(now, default_days as int))
    }
}

/// Byte strings that agree on equal-length heads compare by their tails;
/// otherwise the heads decide.
proof fn lemma_lex_concat(a: Seq<u8>, b: Seq<u8>, x: Seq<u8>, y: Seq<u8>)
    requires
        a.len() == b.len(),
    ensures
        lex_lt(a + x, b + y) == if a == b { lex_lt(x, y) } else { lex_lt(a, b) },
    decreases a.len(),
{
    if a.len() == 0 {
        assert(a =~= b);
        assert(a + x =~= x);
        assert(b + y =~= y);
    } else {
        let ax = a + x;
        let by = b + y;
        assert(ax[0] == a[0] && by[0] == b[0]);
        assert(ax.drop_first() =~= a.drop_first() + x);
        assert(by.drop_first() =~= b.drop_first() + y);
        lemma_lex_concat(a.drop_first(), b.drop_first(), x, y);
        assert(a =~= seq![a[0]] + a.drop_first());
        assert(b =~= seq![b[0]] + b.drop_first());
        if a[0] == b[0] && a.drop_first() == b.drop_first() {
            assert(a == b);
        }
    }
}

/// Equal-length strings of decimal digits sort as byte strings in the order
/// of their values, and are equal exactly when their values are.
proof fn lemma_lex_digits(a: Seq<u8>, b: Seq<u8>)
    requires
        a.len() == b.len(),
        all_digits(a),
        all_digits(b),
    ensures
        lex_lt(a, b) <==> digits_val(a) < digits_val(b),
        a == b <==> digits_val(a) == digits_val(b),
    decreases a.len(),
{
    if a.len() == 0 {
        assert(a =~= b);
    } else {
        let a1 = a.drop_last();
        let b1 = b.drop_last();
        assert(all_digits(a1)) by {
            assert forall|i: int| 0 <= i < a1.len() implies is_digit(#[trigger] a1[i]) by {
                assert(a1[i] == a[i]);
            }
        }
        assert(all_digits(b1)) by {
            assert forall|i: int| 0 <= i < b1.len() implies is_digit(#[trigger] b1[i]) by {
                assert(b1[i] == b[i]);
            }
        }
        lemma_lex_digits(a1, b1);
        let sx = seq![a.last()];
        let sy = seq![b.last()];
        assert(a =~= a1 + sx);
        assert(b =~= b1 + sy);
        lemma_lex_concat(a1, b1, sx, sy);
        assert(sx.drop_first() =~= Seq::<u8>::empty());
        assert(sy.drop_first() =~= Seq::<u8>::empty());
        assert(lex_lt(sx, sy) == (a.last() < b.last())) by {
            reveal_with_fuel(lex_lt, 2);
            assert(sx[0] == a.last() && sy[0] == b.last());
            assert(!lex_lt(sx.drop_first(), sy.drop_first()));
        }
        assert(is_digit(a[a.len() - 1]) && is_digit(b[b.len() - 1]));
        assert(digits_val(a) == digits_val(a1) * 10 + (a.last() - 48) as nat);
        assert(digits_val(b) == digits_val(b1) * 10 + (b.last() - 48) as nat);
        if a1 == b1 && a.last() == b.last() {
            assert(a == b);
        }
    }
}

/// The bytes of a date text: four year digits, a dash, two month digits, a
/// dash and two day digits, each field holding its number.
proof fn lemma_date_text_parts(y: int, m: int, d: int)
    requires
        2000 <= y <= 2100,
        0 <= m <= 99,
        0 <= d <= 99,
    ensures
        ({
            let ys = ascii_bytes(dec(y as nat));
            let ms = ascii_bytes(zpad(dec(m as nat), 2));
            let ds = ascii_bytes(zpad(dec(d as nat), 2));
            &&& encode_utf8(crate::calendar::date_text(y, m, d)) == ys + (seq![45u8] + (ms + (seq![45u8] + ds)))
            &&& ys.len() == 4 && ms.len() == 2 && ds.len() == 2
            &&& all_digits(ys) && all_digits(ms) && all_digits(ds)
            &&& digits_val(ys) == y && digits_val(ms) == m && digits_val(ds) == d
        }),
{
    let t = crate::calendar::date_text(y, m, d);
    let ys = dec(y as nat);
    let ms = zpad(dec(m as nat), 2);
    let dd = zpad(dec(d as nat), 2);
    lemma_dec_len_exact(y as nat);
    lemma_dec_digits(y as nat);
    lemma_two_digits(m as nat);
    lemma_two_digits(d as nat);
    assert(crate::text::signed_zpad(y, 4) == ys);
    assert(t =~= ys + seq!['-'] + ms + seq!['-'] + dd);
    assert forall|i: int| 0 <= i < t.len() implies '\0' <= #[trigger] t[i] <= '\u{7f}' by {
        if i < 4 {
            assert(t[i] == ys[i]);
        } else if 4 < i < 7 {
            assert(t[i] == ms[i - 5]);
        } else if 7 < i {
            assert(t[i] == dd[i - 8]);
        }
    }
    vstd::utf8::is_ascii_chars_encode_utf8(t);
    assert(encode_utf8(t) =~= ascii_bytes(t));
    assert(ascii_bytes(t) =~= ascii_bytes(ys) + (seq![45u8] + (ascii_bytes(ms) + (seq![45u8] + ascii_bytes(dd)))));
}

/// Explicit dates in order: given a start and an end date that name days of
/// the calendar in the years 2000 to 2100, and no day count, the range is
/// refused exactly when the end day comes before the start day; otherwise it
/// is the two dates as given, a single day (the end equal to the start)
/// included.
pub proof fn lemma_explicit_range_order(
    y1: int,
    m1: int,
    d1: int,
    y2: int,
    m2: int,
    d2: int,
    default_days: u32,
    now: int,
)
    requires
        2000 <= y1 <= 2100,
        crate::calendar::valid_date(y1, m1, d1),
        2000 <= y2 <= 2100,
        crate::calendar::valid_date(y2, m2, d2),
    ensures
        ({
            let s = crate::calendar::date_text(y1, m1, d1);
            let e = crate::calendar::date_text(y2, m2, d2);
            let end_before = y2 < y1 || (y2 == y1 && (m2 < m1 || (m2 == m1 && d2 < d1)));
            let r = resolve_dates_spec(Some(s), Some(e), None, default_days, now);
            &&& r is Err <==> end_before
            &&& !end_before ==> r == Ok::<(Seq<char>, Seq<char>), Seq<char>>((s, e))
        }),
{
    let s = crate::calendar::date_text(y1, m1, d1);
    let e = crate::calendar::date_text(y2, m2, d2);
    lemma_date_check_calendar(y1, m1, d1);
    lemma_date_check_calendar(y2, m2, d2);
    lemma_date_text_parts(y1, m1, d1);
    lemma_date_text_parts(y2, m2, d2);
    let ys1 = ascii_bytes(dec(y1 as nat));
    let ms1 = ascii_bytes(zpad(dec(m1 as nat), 2));
    let ds1 = ascii_bytes(zpad(dec(d1 as nat), 2));
    let ys2 = ascii_bytes(dec(y2 as nat));
    let ms2 = ascii_bytes(zpad(dec(m2 as nat), 2));
    let ds2 = ascii_bytes(zpad(dec(d2 as nat), 2));
    let dash = seq![45u8];
    lemma_lex_concat(ys2, ys1, dash + (ms2 + (dash + ds2)), dash + (ms1 + (dash + ds1)));
    lemma_lex_digits(ys2, ys1);
    lemma_lex_concat(dash, dash, ms2 + (dash + ds2), ms1 + (dash + ds1));
    lemma_lex_concat(ms2, ms1, dash + ds2, dash + ds1);
    lemma_lex_digits(ms2, ms1);
    lemma_lex_concat(dash, dash, ds2, ds1);
    lemma_lex_digits(ds2, ds1);
    let end_before = y2 < y1 || (y2 == y1 && (m2 < m1 || (m2 == m1 && d2 < d1)));
    assert(lex_lt(encode_utf8(e), encode_utf8(s)) == end_before);
}

pub open spec fn pair_result_view(r: Result<(String, String), String>) -> Result<(Seq<char>, Seq<char>), Seq<char>> {
    match r {
        Ok((a, b)) => Ok((a@, b@)),
        Err(e) => Err(e@),
    }
}

/// Resolves the date range at the time `now`.
pub fn resolve_dates_at(
    start_date: Option<&str>,
    end_date: Option<&str>,
    days: Option<u32>,
    default_days: u32,
    now: u64,
) -> (r: Result<(String, String), String>)
    ensures
        pair_result_view(r) == resolve_dates_spec(opt_str_view(start_date), opt_str_view(end_date), days, default_days, now as int),
{
    if (start_date.is_some() || end_date.is_some()) && days.is_some() {
        return Err(string_of("Use either 'days' or 'start_date'/'end_date', not both."));
    }
    match (start_date, end_date) {
        (Some(s), Some(e)) => {
            let r1 = validate_date(s);
            if let Err(m) = r1 {
                return Err(m);
            }
            let r2 = validate_date(e);
            if let Err(m) = r2 {
                return Err(m);
            }
            if str_lt(e, s) {
                let mut m = string_of("end_date '");
                push_str(&mut m, e);
                push_str(&mut m, "' must be >= start_date '");
                push_str(&mut m, s);
                push_str(&mut m, "'");
                return Err(m);
            }
            Ok((string_of(s), string_of(e)))
        },
        (Some(s), None) => {
            let r1 = validate_date(s);
            if let Err(m) = r1 {
                return Err(m);
            }
            let (_, default_end) = days_to_date_range_at(now, 1);
            Ok((string_of(s), default_end))
        },
        (None, Some(_)) => Err(string_of("If end_date is provided, start_date is also required.")),
        (None, None) => {
            match days {
                Some(d) => {
                    if !(1 <= d && d <= 540) {
                        return Err(string_of("days must be between 1 and 540"));
                    }
                    Ok(days_to_date_range_at(now, d))
                },
                None => Ok(days_to_date_range_at(now, default_days)),
            }
        },
    }
}

/// Resolves the date range from explicit dates or a day count, at the
/// current time.
pub fn resolve_dates(
    start_date: Option<&str>,
    end_date: Option<&str>,
    days: Option<u32>,
    default_days: u32,
) -> (r: Result<(String, String), String>)
    ensures
        exists|now: u64|
            pair_result_view(r) == resolve_dates_spec(opt_str_view(start_date), opt_str_view(end_date), days, default_days, now as int),
{
    let now = now_secs();
    resolve_dates_at(start_date, end_date, days, default_days, now)
}

} // verus!
