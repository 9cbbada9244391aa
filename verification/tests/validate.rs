use gsc_mcp_rs::validate::{
    resolve_dates, resolve_dates_at, urlencode, valid_dimensions, valid_filter_operators, validate_date, validate_enum,
    validate_enum_list, validate_filters, validate_row_limit, validate_site_url, Filter,
};

fn filter(dimension: &str, operator: &str, expression: &str) -> Filter {
    Filter { dimension: dimension.to_string(), operator: operator.to_string(), expression: expression.to_string() }
}

#[test]
fn site_urls_of_both_kinds_are_accepted() {
    assert_eq!(validate_site_url("https://example.com/"), Ok(()));
    assert_eq!(validate_site_url("http://example.com/"), Ok(()));
    assert_eq!(validate_site_url("sc-domain:example.com"), Ok(()));
}

#[test]
fn bare_domain_property_is_refused() {
    assert_eq!(
        validate_site_url("sc-domain:"),
        Err("Invalid site_url: sc-domain: must be followed by a domain (e.g., 'sc-domain:example.com')".to_string())
    );
}

#[test]
fn site_url_without_scheme_is_refused() {
    assert_eq!(
        validate_site_url("example.com"),
        Err("Invalid site_url format. Use 'https://example.com/' or 'sc-domain:example.com'".to_string())
    );
}

#[test]
fn leap_days_follow_the_gregorian_rule() {
    assert_eq!(validate_date("2024-02-29"), Ok(()));
    assert_eq!(validate_date("2000-02-29"), Ok(()));
    assert_eq!(validate_date("2023-02-29"), Err("Day 29 out of range (1-28) for 2023-02".to_string()));
    assert_eq!(validate_date("2100-02-29"), Err("Day 29 out of range (1-28) for 2100-02".to_string()));
}

#[test]
fn month_lengths_are_checked() {
    assert_eq!(validate_date("2026-04-30"), Ok(()));
    assert_eq!(validate_date("2026-04-31"), Err("Day 31 out of range (1-30) for 2026-04".to_string()));
    assert_eq!(validate_date("2026-12-31"), Ok(()));
    assert_eq!(validate_date("2026-01-00"), Err("Day 0 out of range (1-31) for 2026-01".to_string()));
}

#[test]
fn malformed_dates_are_refused() {
    assert_eq!(
        validate_date("2026-3-1"),
        Err("Invalid date '2026-3-1'. Use YYYY-MM-DD format (e.g., '2026-03-01').".to_string())
    );
    assert_eq!(validate_date("2026/03/01"), Err("Invalid date '2026/03/01'. Use YYYY-MM-DD format.".to_string()));
    assert_eq!(validate_date("20x6-03-01"), Err("Invalid year in '20x6-03-01'".to_string()));
    assert_eq!(validate_date("2026-0x-01"), Err("Invalid month in '2026-0x-01'".to_string()));
    assert_eq!(validate_date("2026-03-x1"), Err("Invalid day in '2026-03-x1'".to_string()));
    assert_eq!(validate_date("1999-03-01"), Err("Year 1999 out of range".to_string()));
    assert_eq!(validate_date("2026-13-01"), Err("Month 13 out of range (1-12)".to_string()));
}

#[test]
fn date_parts_may_carry_a_plus_sign() {
    assert_eq!(validate_date("2026-+3-01"), Ok(()));
    assert_eq!(validate_date("2026-03-+1"), Ok(()));
}

#[test]
fn enum_values_are_checked_against_the_list() {
    assert_eq!(validate_enum("query", valid_dimensions(), "dimension"), Ok(()));
    assert_eq!(
        validate_enum("keyword", valid_dimensions(), "dimension"),
        Err("Unknown dimension 'keyword'. Valid: query, page, country, device, searchAppearance, date, hour".to_string())
    );
    let ok = vec!["query".to_string(), "page".to_string()];
    assert_eq!(validate_enum_list(&ok, valid_dimensions(), "dimension"), Ok(()));
    let bad = vec!["query".to_string(), "url".to_string(), "nope".to_string()];
    assert_eq!(
        validate_enum_list(&bad, valid_dimensions(), "dimension"),
        Err("Unknown dimension 'url'. Valid: query, page, country, device, searchAppearance, date, hour".to_string())
    );
    assert_eq!(valid_filter_operators().len(), 6);
}

#[test]
fn row_limits_stay_within_the_api_maximum() {
    assert_eq!(validate_row_limit(None, 100), Ok(100));
    assert_eq!(validate_row_limit(Some(1), 100), Ok(1));
    assert_eq!(validate_row_limit(Some(25000), 100), Ok(25000));
    assert_eq!(validate_row_limit(Some(0), 100), Err("row_limit must be between 1 and 25000, got 0".to_string()));
    assert_eq!(
        validate_row_limit(Some(25001), 100),
        Err("row_limit must be between 1 and 25000, got 25001".to_string())
    );
}

#[test]
fn filters_are_validated_in_order() {
    assert_eq!(validate_filters(&[filter("query", "contains", "shoes")]), Ok(()));
    assert_eq!(
        validate_filters(&[filter("query", "contains", "a"), filter("url", "contains", "b")]),
        Err("Unknown filter[1].dimension 'url'. Valid: query, page, country, device, searchAppearance, date, hour"
            .to_string())
    );
    assert_eq!(
        validate_filters(&[filter("page", "like", "x")]),
        Err("Unknown filter[0].operator 'like'. Valid: contains, equals, notContains, notEquals, includingRegex, excludingRegex"
            .to_string())
    );
    assert_eq!(
        validate_filters(&[filter("page", "equals", "")]),
        Err("filter[0].expression cannot be empty".to_string())
    );
}

#[test]
fn urlencode_escapes_reserved_bytes() {
    assert_eq!(urlencode("sc-domain:example.com"), "sc-domain%3Aexample.com");
    assert_eq!(urlencode("https://example.com/a b"), "https%3A%2F%2Fexample.com%2Fa%20b");
    assert_eq!(urlencode("A-z_0.9~"), "A-z_0.9~");
    assert_eq!(urlencode("é"), "%C3%A9");
}

#[test]
fn explicit_dates_are_kept() {
    assert_eq!(
        resolve_dates_at(Some("2026-01-01"), Some("2026-01-31"), None, 28, 0),
        Ok(("2026-01-01".to_string(), "2026-01-31".to_string()))
    );
    assert_eq!(
        resolve_dates(Some("2026-01-01"), Some("2026-01-31"), None, 28),
        Ok(("2026-01-01".to_string(), "2026-01-31".to_string()))
    );
}

#[test]
fn conflicting_date_parameters_are_refused() {
    let both = Err("Use either 'days' or 'start_date'/'end_date', not both.".to_string());
    assert_eq!(resolve_dates_at(Some("2026-01-01"), None, Some(7), 28, 0), both);
    assert_eq!(resolve_dates_at(None, Some("2026-01-01"), Some(7), 28, 0), both);
    assert_eq!(
        resolve_dates_at(None, Some("2026-01-01"), None, 28, 0),
        Err("If end_date is provided, start_date is also required.".to_string())
    );
    assert_eq!(
        resolve_dates_at(Some("2026-02-01"), Some("2026-01-31"), None, 28, 0),
        Err("end_date '2026-01-31' must be >= start_date '2026-02-01'".to_string())
    );
    assert_eq!(
        resolve_dates_at(Some("2026-02-30"), Some("2026-03-01"), None, 28, 0),
        Err("Day 30 out of range (1-28) for 2026-02".to_string())
    );
}

#[test]
fn days_resolve_to_a_lagged_window() {
    let now = 30 * 86400;
    assert_eq!(resolve_dates_at(None, None, Some(7), 28, now), Ok(("1970-01-23".to_string(), "1970-01-29".to_string())));
    assert_eq!(resolve_dates_at(None, None, None, 3, now), Ok(("1970-01-27".to_string(), "1970-01-29".to_string())));
    assert_eq!(
        resolve_dates_at(Some("2026-01-01"), None, None, 28, now),
        Ok(("2026-01-01".to_string(), "1970-01-29".to_string()))
    );
    assert_eq!(resolve_dates_at(None, None, Some(0), 28, now), Err("days must be between 1 and 540".to_string()));
    assert_eq!(resolve_dates_at(None, None, Some(541), 28, now), Err("days must be between 1 and 540".to_string()));
    assert!(resolve_dates(None, None, Some(540), 28).is_ok());
}
