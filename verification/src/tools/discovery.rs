//! Discovery: top pages, keyword opportunities, brand split, keyword trend
//! and anomaly detection.
use crate::dates::{anomaly_date_ranges_from_now, lagged_end_secs, period_start_secs, sat_sub};
use crate::calendar::day_text;
use crate::query::{AnalyticsQuery, copy_strings, fixed_query, groups_of, opt_groups_view, opt_strings_view, strings_of, strings_view};
use crate::text::{
    blank, dec, is_blank, is_substring, push_decimal, push_str, str_contains, str_eq, str_to_lowercase,
    string_of, to_lower,
};
use crate::tools::analytics::{FULL_FETCH_LIMIT, or_default, single_filter};
use crate::tools::{error_text, opt_as_str};
use crate::validate::{
    Filter, FilterView, dimension_names, enum_check, enum_list_check, metric_names, opportunity_mode_names,
    opt_string_view, resolve_dates_at, resolve_dates_spec, row_limit_check, site_url_check, valid_dimensions,
    valid_metrics, valid_opportunity_modes, validate_enum, validate_enum_list, validate_row_limit,
    validate_site_url, filter_views,
};
use vstd::prelude::*;

verus! {

/// A web query of all data for a period grouped by `dims`, `limit` rows,
/// with the given filters.
pub open spec fn fixed_query_is(q: AnalyticsQuery, start: Seq<char>, end: Seq<char>, dims: Seq<Seq<char>>, limit: u32, filters: Seq<FilterView>) -> bool {
    &&& q.start_date@ == start
    &&& q.end_date@ == end
    &&& opt_strings_view(q.dimensions) == Some(dims)
    &&& q.search_type@ == "web"@
    &&& q.row_limit == limit
    &&& q.start_row is None
    &&& q.data_state@ == "all"@
    &&& opt_groups_view(q.filter_groups) == if filters.len() == 0 { None } else { Some(groups_of(filters)) }
    &&& q.aggregation_type is None
}

/// Parameters of the `top_pages` tool.
pub struct TopPagesParams {
    pub site_url: String,
    pub days: Option<u32>,
    pub sort_by: Option<String>,
    pub row_limit: Option<u32>,
}

/// The query of `top_pages` and how its rows are ordered and cut.
pub struct TopPagesPlan {
    pub query: AnalyticsQuery,
    pub sort_by: String,
    pub descending: bool,
    pub limit: u32,
}

/// Validates a `top_pages` call at time `now`: all pages are fetched, then
/// sorted by the metric (ascending for position, descending otherwise) and
/// cut to the row limit.
pub fn plan_top_pages(p: &TopPagesParams, now: u64) -> (r: Result<TopPagesPlan, String>)
    ensures
        ({
            let dates = resolve_dates_spec(None, None, p.days, 28, now as int);
            let sort_by = or_default(opt_string_view(p.sort_by), "clicks"@);
            if site_url_check(p.site_url@) is Err {
                r matches Err(e) && e@ == "Error: "@ + site_url_check(p.site_url@)->Err_0
            } else if dates is Err {
                r matches Err(e) && e@ == "Error: "@ + dates->Err_0
            } else if row_limit_check(p.row_limit, 50) is Err {
                r matches Err(e) && e@ == "Error: "@ + row_limit_check(p.row_limit, 50)->Err_0
            } else if enum_check(sort_by, metric_names(), "sort_by"@) is Err {
                r matches Err(e) && e@ == "Error: "@ + enum_check(sort_by, metric_names(), "sort_by"@)->Err_0
            } else {
                r matches Ok(plan) && {
                    &&& fixed_query_is(plan.query, dates->Ok_0.0, dates->Ok_0.1, seq!["page"@], FULL_FETCH_LIMIT, seq![])
                    &&& plan.sort_by@ == sort_by
                    &&& plan.descending == (sort_by != "position"@)
                    &&& plan.limit == row_limit_check(p.row_limit, 50)->Ok_0
                }
            }
        }),
{
    if let Err(e) = validate_site_url(p.site_url.as_str()) {
        return Err(error_text(e.as_str()));
    }
    let (start, end) = match resolve_dates_at(None, None, p.days, 28, now) {
        Ok(d) => d,
        Err(e) => return Err(error_text(e.as_str())),
    };
    let limit = match validate_row_limit(p.row_limit, 50) {
        Ok(l) => l,
        Err(e) => return Err(error_text(e.as_str())),
    };
    let sort_by = match &p.sort_by {
        Some(s) => s.as_str(),
        None => "clicks",
    };
    if let Err(e) = validate_enum(sort_by, valid_metrics(), "sort_by") {
        return Err(error_text(e.as_str()));
    }
    let dims = strings_of(&["page"]);
    assert(strings_view(dims@) =~= seq!["page"@]);
    let no_filters: Vec<Filter> = Vec::new();
    let query = fixed_query(start.as_str(), end.as_str(), dims.as_slice(), FULL_FETCH_LIMIT, no_filters.as_slice());
    assert(filter_views(no_filters@) =~= Seq::<FilterView>::empty());
    Ok(TopPagesPlan { query, sort_by: string_of(sort_by), descending: !str_eq(sort_by, "position"), limit })
}

/// The analyses of the keyword opportunity finder.
pub enum OpportunityMode {
    QuickWins,
    Cannibalization,
    CtrGaps,
    Declining,
    Growing,
}

pub open spec fn mode_of(m: Seq<char>) -> OpportunityMode {
    if m == "quick_wins"@ {
        OpportunityMode::QuickWins
    } else if m == "cannibalization"@ {
        OpportunityMode::Cannibalization
    } else if m == "ctr_gaps"@ {
        OpportunityMode::CtrGaps
    } else if m == "declining"@ {
        OpportunityMode::Declining
    } else {
        OpportunityMode::Growing
    }
}

/// Validates the site and the mode (default `quick_wins`) of a
/// `keyword_opportunities` call.
pub fn opportunity_mode(site_url: &str, mode: Option<&str>) -> (r: Result<OpportunityMode, String>)
    ensures
        ({
            let m = match mode { Some(m) => m@, None => "quick_wins"@ };
            if site_url_check(site_url@) is Err {
                r matches Err(e) && e@ == "Error: "@ + site_url_check(site_url@)->Err_0
            } else if enum_check(m, opportunity_mode_names(), "mode"@) is Err {
                r matches Err(e) && e@ == "Error: "@ + enum_check(m, opportunity_mode_names(), "mode"@)->Err_0
            } else {
                r == Ok::<OpportunityMode, String>(mode_of(m))
            }
        }),
{
    if let Err(e) = validate_site_url(site_url) {
        return Err(error_text(e.as_str()));
    }
    let m = match mode {
        Some(m) => m,
        None => "quick_wins",
    };
    if let Err(e) = validate_enum(m, valid_opportunity_modes(), "mode") {
        return Err(error_text(e.as_str()));
    }
    if str_eq(m, "quick_wins") {
        Ok(OpportunityMode::QuickWins)
    } else if str_eq(m, "cannibalization") {
        Ok(OpportunityMode::Cannibalization)
    } else if str_eq(m, "ctr_gaps") {
        Ok(OpportunityMode::CtrGaps)
    } else if str_eq(m, "declining") {
        Ok(OpportunityMode::Declining)
    } else {
        Ok(OpportunityMode::Growing)
    }
}

/// The query of the single-period opportunity analyses (quick wins, CTR
/// gaps, cannibalization) at time `now`: every row grouped by `dims`.
pub fn opportunity_query(days: Option<u32>, dims: &[&str], now: u64) -> (r: Result<AnalyticsQuery, String>)
    ensures
        ({
            let dates = resolve_dates_spec(None, None, days, 28, now as int);
            if dates is Err {
                r matches Err(e) && e@ == "Error: "@ + dates->Err_0
            } else {
                r matches Ok(q) && fixed_query_is(q, dates->Ok_0.0, dates->Ok_0.1, dims@.map_values(|s: &str| s@), FULL_FETCH_LIMIT, seq![])
            }
        }),
{
    let (start, end) = match resolve_dates_at(None, None, days, 28, now) {
        Ok(d) => d,
        Err(e) => return Err(error_text(e.as_str())),
    };
    let dimensions = strings_of(dims);
    let no_filters: Vec<Filter> = Vec::new();
    assert(filter_views(no_filters@) =~= Seq::<FilterView>::empty());
    Ok(fixed_query(start.as_str(), end.as_str(), dimensions.as_slice(), FULL_FETCH_LIMIT, no_filters.as_slice()))
}

/// The two queries of a period-over-period comparison.
pub struct PeriodPair {
    pub days: u32,
    pub current: AnalyticsQuery,
    pub previous: AnalyticsQuery,
}

/// The recent and previous periods of `days` days at time `now`.
pub open spec fn period_texts(now: int, days: int) -> ((Seq<char>, Seq<char>), (Seq<char>, Seq<char>)) {
    let end = lagged_end_secs(now);
    let recent_start = period_start_secs(end, days);
    let prev_end = sat_sub(recent_start, 86400);
    let prev_start = period_start_secs(prev_end, days);
    (
        (day_text(recent_start / 86400), day_text(end / 86400)),
        (day_text(prev_start / 86400), day_text(prev_end / 86400)),
    )
}

/// The queries of the declining/growing analyses at time `now`: queries of
/// the last `days` days (default 28, at most 270) and of the `days` before.
pub fn plan_movers(days: Option<u32>, now: u64) -> (r: Result<PeriodPair, String>)
    ensures
        ({
            let d = match days { Some(d) => d, None => 28u32 };
            if !(1 <= d <= 270) {
                r matches Err(e) && e@ == "Error: days must be between 1 and 270 (comparison needs days*2 <= 540), got "@ + dec(d as nat)
            } else {
                let t = period_texts(now as int, d as int);
                r matches Ok(pp) && {
                    &&& pp.days == d
                    &&& fixed_query_is(pp.current, t.0.0, t.0.1, seq!["query"@], FULL_FETCH_LIMIT, seq![])
                    &&& fixed_query_is(pp.previous, t.1.0, t.1.1, seq!["query"@], FULL_FETCH_LIMIT, seq![])
                }
            }
        }),
{
    let d = match days {
        Some(d) => d,
        None => 28,
    };
    if !(1 <= d && d <= 270) {
        let mut e = string_of("Error: days must be between 1 and 270 (comparison needs days*2 <= 540), got ");
        push_decimal(&mut e, d as u64);
        return Err(e);
    }
    let ((cs, ce), (ps, pe)) = anomaly_date_ranges_from_now(now, d);
    let dims = strings_of(&["query"]);
    assert(strings_view(dims@) =~= seq!["query"@]);
    let no_filters: Vec<Filter> = Vec::new();
    assert(filter_views(no_filters@) =~= Seq::<FilterView>::empty());
    let current = fixed_query(cs.as_str(), ce.as_str(), dims.as_slice(), FULL_FETCH_LIMIT, no_filters.as_slice());
    let previous = fixed_query(ps.as_str(), pe.as_str(), dims.as_slice(), FULL_FETCH_LIMIT, no_filters.as_slice());
    Ok(PeriodPair { days: d, current, previous })
}

/// Label of a movers analysis.
pub fn movers_label(growing: bool) -> (r: &'static str)
    ensures
        r@ == if growing { "Growing"@ } else { "Declining"@ },
{
    if growing { "Growing" } else { "Declining" }
}

/// The text when no query moved.
pub fn no_movers_text(growing: bool, days: u32) -> (r: String)
    ensures
        r@ == "No "@ + (if growing { "Growing"@ } else { "Declining"@ }) + " queries found in the last "@ + dec(days as nat) + " days."@,
{
    let mut r = string_of("No ");
    push_str(&mut r, movers_label(growing));
    push_str(&mut r, " queries found in the last ");
    push_decimal(&mut r, days as u64);
    push_str(&mut r, " days.");
    r
}

pub open spec fn all_blank(terms: Seq<String>) -> bool {
    forall|i: int| 0 <= i < terms.len() ==> blank(#[trigger] terms[i]@)
}

/// Validates a `brand_query_analysis` call at time `now`: the site, at least
/// one non-blank brand term, the period; all queries are fetched.
pub fn plan_brand_query(site_url: &str, brand_terms: &[String], days: Option<u32>, now: u64) -> (r: Result<AnalyticsQuery, String>)
    ensures
        ({
            let dates = resolve_dates_spec(None, None, days, 28, now as int);
            if site_url_check(site_url@) is Err {
                r matches Err(e) && e@ == "Error: "@ + site_url_check(site_url@)->Err_0
            } else if brand_terms@.len() == 0 || all_blank(brand_terms@) {
                r matches Err(e) && e@ == "Error: brand_terms cannot be empty."@
            } else if dates is Err {
                r matches Err(e) && e@ == "Error: "@ + dates->Err_0
            } else {
                r matches Ok(q) && fixed_query_is(q, dates->Ok_0.0, dates->Ok_0.1, seq!["query"@], FULL_FETCH_LIMIT, seq![])
            }
        }),
{
    if let Err(e) = validate_site_url(site_url) {
        return Err(error_text(e.as_str()));
    }
    let mut all = true;
    let mut i: usize = 0;
    while i < brand_terms.len()
        invariant
            i <= brand_terms@.len(),
            all == (forall|t: int| 0 <= t < i ==> blank(#[trigger] brand_terms@[t]@)),
        decreases brand_terms@.len() - i,
    {
        if !is_blank(brand_terms[i].as_str()) {
            all = false;
        }
        i = i + 1;
    }
    if brand_terms.len() == 0 || all {
        return Err(string_of("Error: brand_terms cannot be empty."));
    }
    let q = opportunity_query(days, &["query"], now);
    assert((&["query"])@.map_values(|s: &str| s@) =~= seq!["query"@]);
    q
}

/// The lower-cased brand terms that are not blank, in order.
pub open spec fn brand_needles(terms: Seq<String>) -> Seq<Seq<char>>
    decreases terms.len(),
{
    if terms.len() == 0 {
        seq![]
    } else {
        let rest = brand_needles(terms.drop_last());
        if blank(terms.last()@) { rest } else { rest.push(to_lower(terms.last()@)) }
    }
}

/// Lower-cases the non-blank brand terms.
pub fn brand_terms_lowered(terms: &[String]) -> (r: Vec<String>)
    ensures
        strings_view(r@) == brand_needles(terms@),
{
    let mut r: Vec<String> = Vec::new();
    let mut i: usize = 0;
    while i < terms.len()
        invariant
            i <= terms@.len(),
            strings_view(r@) == brand_needles(terms@.take(i as int)),
        decreases terms@.len() - i,
    {
        assert(terms@.take(i as int + 1).drop_last() =~= terms@.take(i as int));
        if !is_blank(terms[i].as_str()) {
            let ghost old_r = r@;
            r.push(str_to_lowercase(terms[i].as_str()));
            assert(strings_view(old_r).len() == old_r.len());
            assert(strings_view(r@) =~= strings_view(old_r).push(to_lower(terms@[i as int]@)));
        }
        i = i + 1;
    }
    assert(terms@.take(terms@.len() as int) =~= terms@);
    r
}

/// Whether a query counts as brand traffic: its lower-case text contains
/// one of the (lower-cased) brand terms.
pub fn is_brand_query(query: &str, needles: &[String]) -> (r: bool)
    ensures
        r == exists|i: int| 0 <= i < needles@.len() && is_substring(#[trigger] needles@[i]@, to_lower(query@)),
{
    let q = str_to_lowercase(query);
    let mut i: usize = 0;
    while i < needles.len()
        invariant
            i <= needles@.len(),
            q@ == to_lower(query@),
            forall|t: int| 0 <= t < i ==> !is_substring(#[trigger] needles@[t]@, q@),
        decreases needles@.len() - i,
    {
        if str_contains(q.as_str(), needles[i].as_str()) {
            return true;
        }
        i = i + 1;
    }
    false
}

/// Validates a `keyword_trend` call at time `now`: the site, a non-blank
/// keyword, the period (default 90 days); daily rows of that exact query.
pub fn plan_keyword_trend(
    site_url: &str,
    keyword: &str,
    start_date: Option<&str>,
    end_date: Option<&str>,
    days: Option<u32>,
    now: u64,
) -> (r: Result<AnalyticsQuery, String>)
    ensures
        ({
            let sd = match start_date { Some(s) => Some(s@), None => None };
            let ed = match end_date { Some(s) => Some(s@), None => None };
            let dates = resolve_dates_spec(sd, ed, days, 90, now as int);
            if site_url_check(site_url@) is Err {
                r matches Err(e) && e@ == "Error: "@ + site_url_check(site_url@)->Err_0
            } else if blank(keyword@) {
                r matches Err(e) && e@ == "Error: keyword cannot be empty."@
            } else if dates is Err {
                r matches Err(e) && e@ == "Error: "@ + dates->Err_0
            } else {
                r matches Ok(q) && fixed_query_is(q, dates->Ok_0.0, dates->Ok_0.1, seq!["date"@], 540,
                    seq![FilterView { dimension: "query"@, operator: "equals"@, expression: keyword@ }])
            }
        }),
{
    if let Err(e) = validate_site_url(site_url) {
        return Err(error_text(e.as_str()));
    }
    if is_blank(keyword) {
        return Err(string_of("Error: keyword cannot be empty."));
    }
    let (start, end) = match resolve_dates_at(start_date, end_date, days, 90, now) {
        Ok(d) => d,
        Err(e) => return Err(error_text(e.as_str())),
    };
    let filters = single_filter("query", "equals", keyword);
    let dims = strings_of(&["date"]);
    assert(strings_view(dims@) =~= seq!["date"@]);
    Ok(fixed_query(start.as_str(), end.as_str(), dims.as_slice(), 540, filters.as_slice()))
}

/// Validates the site, days (default 7, at most 270) and dimensions
/// (default `query`) of a `detect_anomalies` call and plans its two queries
/// at time `now`. The drop thresholds are checked by the caller.
pub fn plan_detect_anomalies(site_url: &str, days: Option<u32>, dimensions: &Option<Vec<String>>, now: u64) -> (r: Result<PeriodPair, String>)
    ensures
        ({
            let d = match days { Some(d) => d, None => 7u32 };
            let dims = match dimensions { Some(v) => strings_view(v@), None => seq!["query"@] };
            if site_url_check(site_url@) is Err {
                r matches Err(e) && e@ == "Error: "@ + site_url_check(site_url@)->Err_0
            } else if !(1 <= d <= 270) {
                r matches Err(e) && e@ == "Error: days must be between 1 and 270 (since the comparison period needs days*2 <= 540), got "@ + dec(d as nat)
            } else if enum_list_check(dims, dimension_names(), "dimension"@) is Err {
                r matches Err(e) && e@ == "Error: "@ + enum_list_check(dims, dimension_names(), "dimension"@)->Err_0
            } else {
                let t = period_texts(now as int, d as int);
                r matches Ok(pp) && {
                    &&& pp.days == d
                    &&& fixed_query_is(pp.current, t.0.0, t.0.1, dims, FULL_FETCH_LIMIT, seq![])
                    &&& fixed_query_is(pp.previous, t.1.0, t.1.1, dims, FULL_FETCH_LIMIT, seq![])
                }
            }
        }),
{
    if let Err(e) = validate_site_url(site_url) {
        return Err(error_text(e.as_str()));
    }
    let d = match days {
        Some(d) => d,
        None => 7,
    };
    if !(1 <= d && d <= 270) {
        let mut e = string_of("Error: days must be between 1 and 270 (since the comparison period needs days*2 <= 540), got ");
        push_decimal(&mut e, d as u64);
        return Err(e);
    }
    let dims: Vec<String> = match dimensions {
        Some(v) => copy_strings(v.as_slice()),
        None => {
            let v = strings_of(&["query"]);
            assert(strings_view(v@) =~= seq!["query"@]);
            v
        },
    };
    if let Err(e) = validate_enum_list(dims.as_slice(), valid_dimensions(), "dimension") {
        return Err(error_text(e.as_str()));
    }
    let ((cs, ce), (ps, pe)) = anomaly_date_ranges_from_now(now, d);
    let no_filters: Vec<Filter> = Vec::new();
    assert(filter_views(no_filters@) =~= Seq::<FilterView>::empty());
    let current = fixed_query(cs.as_str(), ce.as_str(), dims.as_slice(), FULL_FETCH_LIMIT, no_filters.as_slice());
    let previous = fixed_query(ps.as_str(), pe.as_str(), dims.as_slice(), FULL_FETCH_LIMIT, no_filters.as_slice());
    Ok(PeriodPair { days: d, current, previous })
}

} // verus!
