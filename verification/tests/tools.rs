use gsc_mcp_rs::api::ApiError;
use gsc_mcp_rs::query::AnalyticsQuery;
use gsc_mcp_rs::tools::analytics::{
    analytics_fetch_plan, page_range, plan_compare_periods, plan_page_query_breakdown, plan_performance_overview,
    plan_search_analytics, ComparePeriodsParams, PageQueryBreakdownParams, PerformanceOverviewParams,
    SearchAnalyticsParams, FULL_FETCH_LIMIT,
};
use gsc_mcp_rs::tools::discovery::{
    brand_terms_lowered, is_brand_query, movers_label, no_movers_text, opportunity_mode, plan_brand_query,
    plan_detect_anomalies, plan_keyword_trend, plan_movers, plan_top_pages, OpportunityMode, TopPagesParams,
};
use gsc_mcp_rs::tools::export::{plan_export, plan_search_appearance, ExportAnalyticsParams};
use gsc_mcp_rs::tools::indexing::{indexing_success_text, plan_request_indexing};
use gsc_mcp_rs::tools::inspection::{batch_report, inspection_language, plan_batch_inspect, InspectOutcome};
use gsc_mcp_rs::tools::properties::{
    add_site_outcome, check_site, delete_site_outcome, reauthenticate_text, site_action, SiteAction,
};
use gsc_mcp_rs::tools::sitemaps::{delete_sitemap_outcome, sitemap_action, submit_sitemap_outcome, SitemapAction};
use gsc_mcp_rs::tools::error_text;
use gsc_mcp_rs::validate::Filter;

/// Thirty days after the epoch: the default 28-day window then runs from
/// 1970-01-02 to 1970-01-29.
const NOW: u64 = 30 * 86400;

fn sa(site: &str) -> SearchAnalyticsParams {
    SearchAnalyticsParams {
        site_url: site.to_string(),
        start_date: None,
        end_date: None,
        days: None,
        dimensions: None,
        search_type: None,
        aggregation_type: None,
        row_limit: None,
        start_row: None,
        sort_by: None,
        sort_direction: None,
        data_state: None,
        filters: None,
        breakdown: None,
        inline_limit: None,
    }
}

fn dims(q: &AnalyticsQuery) -> Vec<String> {
    q.dimensions.clone().unwrap_or_default()
}

fn api_err(status: u16, message: &str) -> ApiError {
    ApiError { status, message: message.to_string() }
}

#[test]
fn explicit_sort_fetches_full_candidate_set() {
    let (fetch_limit, fetch_start_row) = analytics_fetch_plan(50, 100, Some("position"), None);

    assert_eq!(fetch_limit, 25_000);
    assert_eq!(fetch_start_row, 0);
}

#[test]
fn unsorted_queries_fetch_the_requested_page() {
    assert_eq!(analytics_fetch_plan(50, 100, None, None), (50, 100));
    assert_eq!(analytics_fetch_plan(50, 100, None, Some("ascending")), (FULL_FETCH_LIMIT, 0));
}

#[test]
fn pages_of_sorted_rows() {
    assert_eq!(page_range(10, 2, 3), Some((2, 5)));
    assert_eq!(page_range(10, 8, 5), Some((8, 10)));
    assert_eq!(page_range(10, 10, 1), None);
    assert_eq!(page_range(0, 0, 1), None);
}

#[test]
fn search_analytics_defaults() {
    let plan = plan_search_analytics(&sa("sc-domain:example.com"), NOW).unwrap();
    assert_eq!(plan.dimensions, vec!["query"]);
    assert_eq!((plan.row_limit, plan.start_row, plan.inline_limit), (1000, 0, 500));
    assert!(!plan.explicit_sort);
    assert_eq!(plan.sort_by, "clicks");
    assert!(plan.descending);
    let q = &plan.query;
    assert_eq!((q.start_date.as_str(), q.end_date.as_str()), ("1970-01-02", "1970-01-29"));
    assert_eq!(dims(q), vec!["query"]);
    assert_eq!((q.search_type.as_str(), q.data_state.as_str()), ("web", "all"));
    assert_eq!((q.row_limit, q.start_row), (1000, Some(0)));
    assert!(q.filter_groups.is_none());
    assert!(q.aggregation_type.is_none());
}

#[test]
fn search_analytics_breakdown_and_sorting() {
    let mut p = sa("https://example.com/");
    p.dimensions = Some(vec!["page".to_string()]);
    p.breakdown = Some("device".to_string());
    p.sort_by = Some("position".to_string());
    p.row_limit = Some(10);
    p.start_row = Some(20);
    p.filters = Some(vec![Filter {
        dimension: "query".to_string(),
        operator: "contains".to_string(),
        expression: "shoes".to_string(),
    }]);
    let plan = plan_search_analytics(&p, NOW).unwrap();
    assert_eq!(plan.dimensions, vec!["page", "device"]);
    assert!(plan.explicit_sort);
    assert!(!plan.descending);
    assert_eq!((plan.row_limit, plan.start_row), (10, 20));
    assert_eq!((plan.query.row_limit, plan.query.start_row), (FULL_FETCH_LIMIT, Some(0)));
    let groups = plan.query.filter_groups.as_ref().unwrap();
    assert_eq!(groups.len(), 1);
    assert_eq!(groups[0].group_type, "and");
    assert_eq!(groups[0].filters[0].expression, "shoes");
}

#[test]
fn search_analytics_refusals() {
    let mut p = sa("https://example.com/");
    p.search_type = Some("audio".to_string());
    assert_eq!(
        plan_search_analytics(&p, NOW).err().unwrap(),
        "Error: Unknown search_type 'audio'. Valid: web, image, video, news, discover, googleNews"
    );
    let mut p = sa("example.com");
    p.days = Some(7);
    assert_eq!(
        plan_search_analytics(&p, NOW).err().unwrap(),
        "Error: Invalid site_url format. Use 'https://example.com/' or 'sc-domain:example.com'"
    );
    let mut p = sa("https://example.com/");
    p.sort_direction = Some("up".to_string());
    assert_eq!(
        plan_search_analytics(&p, NOW).err().unwrap(),
        "Error: Unknown sort_direction 'up'. Valid: ascending, descending"
    );
}

#[test]
fn compare_periods_checks_period_order() {
    let p = ComparePeriodsParams {
        site_url: "sc-domain:example.com".to_string(),
        current_start: "2026-02-01".to_string(),
        current_end: "2026-02-28".to_string(),
        previous_start: "2026-01-31".to_string(),
        previous_end: "2026-01-01".to_string(),
        dimensions: None,
        row_limit: None,
    };
    assert_eq!(plan_compare_periods(&p).err().unwrap(), "Error: previous_end must be >= previous_start");
    let ok = ComparePeriodsParams { previous_start: "2026-01-01".to_string(), previous_end: "2026-01-31".to_string(), ..p };
    let plan = plan_compare_periods(&ok).unwrap();
    assert_eq!(plan.dimensions, vec!["query"]);
    assert_eq!((plan.current.start_date.as_str(), plan.current.end_date.as_str()), ("2026-02-01", "2026-02-28"));
    assert_eq!((plan.previous.start_date.as_str(), plan.previous.row_limit), ("2026-01-01", 50));
}

#[test]
fn overview_and_breakdown_plans() {
    let o = plan_performance_overview(&PerformanceOverviewParams { site_url: "sc-domain:a.com".to_string(), days: Some(7) }, NOW)
        .unwrap();
    assert_eq!((o.start.as_str(), o.end.as_str()), ("1970-01-23", "1970-01-29"));
    assert!(o.aggregate.dimensions.is_none());
    assert_eq!(o.aggregate.row_limit, 1);
    assert_eq!(dims(&o.trend), vec!["date"]);
    assert_eq!(o.trend.row_limit, 7);
    let q = plan_page_query_breakdown(
        &PageQueryBreakdownParams {
            site_url: "sc-domain:a.com".to_string(),
            page_url: "https://a.com/x".to_string(),
            days: None,
            row_limit: None,
        },
        NOW,
    )
    .unwrap();
    assert_eq!(dims(&q), vec!["query"]);
    assert_eq!(q.row_limit, 100);
    let f = &q.filter_groups.as_ref().unwrap()[0].filters[0];
    assert_eq!((f.dimension.as_str(), f.operator.as_str(), f.expression.as_str()), ("page", "equals", "https://a.com/x"));
}

#[test]
fn top_pages_sort_position_ascending() {
    let plan = plan_top_pages(
        &TopPagesParams {
            site_url: "sc-domain:a.com".to_string(),
            days: None,
            sort_by: Some("position".to_string()),
            row_limit: None,
        },
        NOW,
    )
    .unwrap();
    assert_eq!(dims(&plan.query), vec!["page"]);
    assert_eq!(plan.query.row_limit, FULL_FETCH_LIMIT);
    assert!(!plan.descending);
    assert_eq!(plan.limit, 50);
}

#[test]
fn opportunity_modes() {
    assert!(matches!(opportunity_mode("sc-domain:a.com", None), Ok(OpportunityMode::QuickWins)));
    assert!(matches!(opportunity_mode("sc-domain:a.com", Some("growing")), Ok(OpportunityMode::Growing)));
    assert_eq!(
        opportunity_mode("sc-domain:a.com", Some("trending")).err().unwrap(),
        "Error: Unknown mode 'trending'. Valid: quick_wins, cannibalization, ctr_gaps, declining, growing"
    );
}

#[test]
fn movers_compare_adjacent_periods() {
    let pp = plan_movers(Some(7), NOW).unwrap();
    assert_eq!(pp.days, 7);
    assert_eq!((pp.current.start_date.as_str(), pp.current.end_date.as_str()), ("1970-01-23", "1970-01-29"));
    assert_eq!((pp.previous.start_date.as_str(), pp.previous.end_date.as_str()), ("1970-01-16", "1970-01-22"));
    assert_eq!(
        plan_movers(Some(271), NOW).err().unwrap(),
        "Error: days must be between 1 and 270 (comparison needs days*2 <= 540), got 271"
    );
    assert_eq!(movers_label(true), "Growing");
    assert_eq!(no_movers_text(false, 28), "No Declining queries found in the last 28 days.");
}

#[test]
fn anomaly_plan_validates_days_and_dimensions() {
    let pp = plan_detect_anomalies("sc-domain:a.com", None, &None, NOW).unwrap();
    assert_eq!(pp.days, 7);
    assert_eq!(dims(&pp.current), vec!["query"]);
    assert!(plan_detect_anomalies("sc-domain:a.com", Some(0), &None, NOW).is_err());
    assert!(plan_detect_anomalies("sc-domain:a.com", None, &Some(vec!["url".to_string()]), NOW).is_err());
}

#[test]
fn brand_queries() {
    let terms = vec!["Acme".to_string(), "  ".to_string(), "ROAD Runner".to_string()];
    let needles = brand_terms_lowered(&terms);
    assert_eq!(needles, vec!["acme", "road runner"]);
    assert!(is_brand_query("Buy ACME anvils", &needles));
    assert!(!is_brand_query("anvils", &needles));
    assert_eq!(
        plan_brand_query("sc-domain:a.com", &["  ".to_string()], None, NOW).err().unwrap(),
        "Error: brand_terms cannot be empty."
    );
    let q = plan_brand_query("sc-domain:a.com", &terms, Some(14), NOW).unwrap();
    assert_eq!(q.row_limit, FULL_FETCH_LIMIT);
}

#[test]
fn keyword_trend_follows_one_query_daily() {
    let q = plan_keyword_trend("sc-domain:a.com", "shoes", None, None, None, 200 * 86400).unwrap();
    assert_eq!(dims(&q), vec!["date"]);
    assert_eq!(q.row_limit, 540);
    assert_eq!(q.filter_groups.as_ref().unwrap()[0].filters[0].expression, "shoes");
    assert_eq!(
        plan_keyword_trend("sc-domain:a.com", " ", None, None, None, NOW).err().unwrap(),
        "Error: keyword cannot be empty."
    );
}

#[test]
fn search_appearance_and_export_plans() {
    let q = plan_search_appearance("sc-domain:a.com", "FAQ", None, None, NOW).unwrap();
    let f = &q.filter_groups.as_ref().unwrap()[0].filters[0];
    assert_eq!((f.dimension.as_str(), f.expression.as_str()), ("searchAppearance", "FAQ"));
    assert!(plan_search_appearance("sc-domain:a.com", "BANNER", None, None, NOW).is_err());
    let plan = plan_export(
        &ExportAnalyticsParams {
            site_url: "sc-domain:a.com".to_string(),
            start_date: None,
            end_date: None,
            days: None,
            dimensions: None,
            search_type: None,
            filters: None,
            row_limit: None,
            filename: None,
        },
        NOW,
    )
    .unwrap();
    assert_eq!(plan.filename, "gsc_export");
    assert_eq!(plan.query.row_limit, 25000);
    assert!(plan.query.start_row.is_none());
}

#[test]
fn batch_inspection_limits() {
    assert_eq!(plan_batch_inspect("sc-domain:a.com", 3, None), Ok(5));
    assert_eq!(plan_batch_inspect("sc-domain:a.com", 3, Some(0)), Ok(1));
    assert_eq!(plan_batch_inspect("sc-domain:a.com", 3, Some(99)), Ok(20));
    assert_eq!(plan_batch_inspect("sc-domain:a.com", 0, None), Err("Error: urls list cannot be empty.".to_string()));
    assert_eq!(
        plan_batch_inspect("sc-domain:a.com", 51, None),
        Err("Error: batch_inspect_urls accepts max 50 URLs, got 51.".to_string())
    );
    assert_eq!(inspection_language(None), "en-US");
    assert_eq!(inspection_language(Some("de")), "de");
}

#[test]
fn batch_report_counts_verdicts() {
    let outcomes = vec![
        InspectOutcome::Verdict { url: "https://a.com/1".to_string(), verdict: Some("PASS".to_string()) },
        InspectOutcome::Verdict { url: "https://a.com/2".to_string(), verdict: Some("NEUTRAL".to_string()) },
        InspectOutcome::Verdict { url: "https://a.com/3".to_string(), verdict: None },
        InspectOutcome::Failed { url: "https://a.com/4".to_string(), error: api_err(403, "denied") },
        InspectOutcome::TaskError("panicked".to_string()),
    ];
    let report = batch_report(5, &outcomes);
    assert!(report.starts_with("Batch Inspection Results (5 URLs)\n\nSummary: 1 indexed, 1 not indexed, 3 errors\n\nDetails:\n"));
    assert!(report.contains("  https://a.com/1 - PASS\n"));
    assert!(report.contains("  https://a.com/3 - UNKNOWN\n"));
    assert!(report.contains("  https://a.com/4 - Error: Error: Insufficient permissions."));
    assert!(report.ends_with("  (task error) - panicked\n"));
}

#[test]
fn property_management_is_idempotent() {
    assert!(check_site("sc-domain:a.com").is_ok());
    assert!(matches!(site_action("add"), Ok(SiteAction::Add)));
    assert!(matches!(site_action("delete"), Ok(SiteAction::Delete)));
    assert_eq!(site_action("remove").err().unwrap(), "Error: Unknown action 'remove'. Valid: add, delete");
    assert_eq!(add_site_outcome("sc-domain:a.com", &Ok(())), "Successfully added property 'sc-domain:a.com'.");
    assert_eq!(
        add_site_outcome("sc-domain:a.com", &Err(api_err(409, "exists"))),
        "Property 'sc-domain:a.com' already exists (add_site is idempotent)."
    );
    assert_eq!(
        delete_site_outcome("sc-domain:a.com", &Err(api_err(404, "gone"))),
        "Property 'sc-domain:a.com' was already removed (delete_site is idempotent)."
    );
    assert_eq!(delete_site_outcome("sc-domain:a.com", &Err(api_err(500, "boom"))), "Error: boom");
    assert!(reauthenticate_text(true, false).starts_with("In-memory token cleared."));
    assert!(reauthenticate_text(false, false).contains("non-interactive"));
}

#[test]
fn sitemap_management_is_idempotent() {
    assert!(matches!(sitemap_action("submit"), Ok(SitemapAction::Submit)));
    assert_eq!(sitemap_action("add").err().unwrap(), "Error: Unknown action 'add'. Valid: submit, delete");
    assert_eq!(
        submit_sitemap_outcome("https://a.com/s.xml", &Ok(())),
        "Successfully submitted sitemap 'https://a.com/s.xml'. Google will re-check it."
    );
    assert_eq!(
        submit_sitemap_outcome("https://a.com/s.xml", &Err(api_err(409, "dup"))),
        "Sitemap 'https://a.com/s.xml' already submitted (submit_sitemap is idempotent)."
    );
    assert_eq!(
        delete_sitemap_outcome("https://a.com/s.xml", &Err(api_err(404, "gone"))),
        "Sitemap 'https://a.com/s.xml' was already removed (delete_sitemap is idempotent)."
    );
}

#[test]
fn indexing_requests() {
    assert_eq!(plan_request_indexing("https://a.com/x", None), Ok("URL_UPDATED"));
    assert_eq!(plan_request_indexing("https://a.com/x", Some("URL_DELETED")), Ok("URL_DELETED"));
    assert_eq!(
        plan_request_indexing("ftp://a.com/x", None),
        Err("Error: url must start with http:// or https://".to_string())
    );
    assert_eq!(
        plan_request_indexing("https://a.com/x", Some("URL_MOVED")),
        Err("Error: Unknown type 'URL_MOVED'. Valid: URL_UPDATED, URL_DELETED".to_string())
    );
    assert_eq!(
        indexing_success_text("https://a.com/x", "URL_UPDATED", "{}"),
        "Successfully requested indexing for 'https://a.com/x'."
    );
    assert_eq!(
        indexing_success_text("https://a.com/x", "URL_DELETED", "{\"ok\":true}"),
        "Successfully requested removal for 'https://a.com/x'.\n\n{\"ok\":true}"
    );
    assert_eq!(error_text("bad"), "Error: bad");
}
