//! Search analytics: raw queries, period comparison, overview and
//! page breakdown.
use crate::dates::lagged_end_secs;
use crate::query::{
    AnalyticsQuery, build_analytics_body, copy_filters, copy_strings, groups_of, opt_groups_view,
    opt_strings_view, strings_view,
};
use crate::text::{concat2, lex_lt, str_eq, str_lt, string_of};
use crate::tools::{error_text, opt_as_str};
use crate::validate::{
    Filter, FilterView, aggregation_type_names, data_state_names, dimension_names, enum_check,
    enum_list_check, filter_views, filters_check_from, metric_names, opt_string_view,
    resolve_dates_at, resolve_dates_spec, row_limit_check, search_type_names, site_url_check,
    sort_direction_names, valid_aggregation_types, valid_data_states, valid_dimensions,
    valid_metrics, valid_search_types, valid_sort_directions, validate_enum, validate_enum_list,
    validate_filters, validate_row_limit, validate_site_url, date_check, validate_date,
};
use vstd::utf8::encode_utf8;
use vstd::prelude::*;

verus! {

/// Rows fetched when the result is sorted locally: the API maximum.
pub const FULL_FETCH_LIMIT: u32 = 25000;

/// The rows and offset to ask for: everything from the start when a sort is
/// requested (the API cannot sort), else the requested page.
pub fn analytics_fetch_plan(
    row_limit: u32,
    start_row: u32,
    sort_by: Option<&str>,
    sort_direction: Option<&str>,
) -> (r: (u32, u32))
    ensures
        r == if sort_by is Some || sort_direction is Some {
            (FULL_FETCH_LIMIT, 0u32)
        } else {
            (row_limit, start_row)
        },
{
    if sort_by.is_some() || sort_direction.is_some() {
        (FULL_FETCH_LIMIT, 0)
    } else {
        (row_limit, start_row)
    }
}

/// The slice `[start, end)` of `len` sorted rows that a page asks for, or
/// `None` when the page starts past the rows.
pub fn page_range(len: usize, start_row: u32, row_limit: u32) -> (r: Option<(usize, usize)>)
    ensures
        match r {
            Some((s, e)) => {
                &&& start_row < len
                &&& s == start_row
                &&& e == if start_row + row_limit < len { start_row + row_limit } else { len as int }
            },
            None => start_row >= len,
        },
{
    let requested_start = start_row as usize;
    let requested_end = requested_start.saturating_add(row_limit as usize);
    let end = if requested_end < len { requested_end } else { len };
    if requested_start < len {
        Some((requested_start, end))
    } else {
        None
    }
}

/// Parameters of the `search_analytics` tool.
pub struct SearchAnalyticsParams {
    pub site_url: String,
    pub start_date: Option<String>,
    pub end_date: Option<String>,
    pub days: Option<u32>,
    pub dimensions: Option<Vec<String>>,
    pub search_type: Option<String>,
    pub aggregation_type: Option<String>,
    pub row_limit: Option<u32>,
    pub start_row: Option<u32>,
    pub sort_by: Option<String>,
    pub sort_direction: Option<String>,
    pub data_state: Option<String>,
    pub filters: Option<Vec<Filter>>,
    pub breakdown: Option<String>,
    pub inline_limit: Option<u32>,
}

/// What a validated `search_analytics` call asks of the API and how its
/// rows are presented.
pub struct SearchAnalyticsPlan {
    pub query: AnalyticsQuery,
    pub dimensions: Vec<String>,
    pub row_limit: u32,
    pub start_row: u32,
    pub explicit_sort: bool,
    pub sort_by: String,
    pub descending: bool,
    pub inline_limit: u32,
}

pub open spec fn err_of(r: Result<(), Seq<char>>) -> Option<Seq<char>> {
    match r {
        Ok(()) => None,
        Err(e) => Some(e),
    }
}

pub open spec fn or_default(o: Option<Seq<char>>, d: Seq<char>) -> Seq<char> {
    match o {
        Some(s) => s,
        None => d,
    }
}

pub open spec fn sa_base_dimensions(p: SearchAnalyticsParams) -> Seq<Seq<char>> {
    match p.dimensions {
        Some(v) => strings_view(v@),
        None => seq!["query"@],
    }
}

/// The dimensions grouped by: the requested ones (default `query`), with
/// the breakdown dimension appended when it is not among them.
pub open spec fn sa_dimensions(p: SearchAnalyticsParams) -> Seq<Seq<char>> {
    let base = sa_base_dimensions(p);
    match p.breakdown {
        Some(bd) => if base.contains(bd@) { base } else { base.push(bd@) },
        None => base,
    }
}

pub open spec fn sa_filters(p: SearchAnalyticsParams) -> Seq<FilterView> {
    match p.filters {
        Some(v) => filter_views(v@),
        None => seq![],
    }
}

/// The first refusal of a `search_analytics` call at time `now`, checking in
/// order: site URL, dates, dimensions, breakdown, search type, aggregation
/// type, data state, row limit, filters, sort metric, sort direction.
pub open spec fn sa_error(p: SearchAnalyticsParams, now: int) -> Option<Seq<char>> {
    let dates = resolve_dates_spec(opt_string_view(p.start_date), opt_string_view(p.end_date), p.days, 28, now);
    if site_url_check(p.site_url@) is Err {
        err_of(site_url_check(p.site_url@))
    } else if dates is Err {
        Some(dates->Err_0)
    } else if enum_list_check(sa_base_dimensions(p), dimension_names(), "dimension"@) is Err {
        err_of(enum_list_check(sa_base_dimensions(p), dimension_names(), "dimension"@))
    } else if p.breakdown is Some && enum_check(p.breakdown->0@, dimension_names(), "breakdown"@) is Err {
        err_of(enum_check(p.breakdown->0@, dimension_names(), "breakdown"@))
    } else if enum_check(or_default(opt_string_view(p.search_type), "web"@), search_type_names(), "search_type"@) is Err {
        err_of(enum_check(or_default(opt_string_view(p.search_type), "web"@), search_type_names(), "search_type"@))
    } else if p.aggregation_type is Some && enum_check(p.aggregation_type->0@, aggregation_type_names(), "aggregation_type"@) is Err {
        err_of(enum_check(p.aggregation_type->0@, aggregation_type_names(), "aggregation_type"@))
    } else if enum_check(or_default(opt_string_view(p.data_state), "all"@), data_state_names(), "data_state"@) is Err {
        err_of(enum_check(or_default(opt_string_view(p.data_state), "all"@), data_state_names(), "data_state"@))
    } else if row_limit_check(p.row_limit, 1000) is Err {
        Some(row_limit_check(p.row_limit, 1000)->Err_0)
    } else if filters_check_from(sa_filters(p), 0) is Err {
        err_of(filters_check_from(sa_filters(p), 0))
    } else if p.sort_by is Some && enum_check(p.sort_by->0@, metric_names(), "sort_by"@) is Err {
        err_of(enum_check(p.sort_by->0@, metric_names(), "sort_by"@))
    } else if p.sort_direction is Some && enum_check(p.sort_direction->0@, sort_direction_names(), "sort_direction"@) is Err {
        err_of(enum_check(p.sort_direction->0@, sort_direction_names(), "sort_direction"@))
    } else {
        None
    }
}

/// The metric sorted by: the requested one, `clicks` by default.
pub open spec fn sa_sort_by(p: SearchAnalyticsParams) -> Seq<char> {
    or_default(opt_string_view(p.sort_by), "clicks"@)
}

/// Descending unless asked otherwise; by default ascending for `position`
/// (lower is better) and descending for the others.
pub open spec fn sa_descending(p: SearchAnalyticsParams) -> bool {
    let default_dir = if sa_sort_by(p) == "position"@ { "ascending"@ } else { "descending"@ };
    or_default(opt_string_view(p.sort_direction), default_dir) == "descending"@
}

/// A sort direction that is given is followed whatever the sort metric:
/// the rows are sorted descending exactly when it is "descending". Without
/// one, `position` (lower is better) sorts ascending and every other metric,
/// the default `clicks` included, descending.
pub proof fn lemma_sort_direction_followed(p: SearchAnalyticsParams)
    ensures
        p.sort_direction matches Some(d) ==> (sa_descending(p) <==> d@ == "descending"@),
        p.sort_direction is None ==> (sa_descending(p) <==> !(p.sort_by matches Some(s) && s@ == "position"@)),
{
    reveal_strlit("clicks");
    reveal_strlit("position");
    reveal_strlit("ascending");
    reveal_strlit("descending");
    assert("clicks"@ != "position"@) by {
        assert("clicks"@[0] != "position"@[0]);
    }
    assert("ascending"@ != "descending"@) by {
        assert("ascending"@[0] != "descending"@[0]);
    }
}

/// Validates a `search_analytics` call at time `now` and plans its query.
#[verifier::rlimit(60)]
pub fn plan_search_analytics(p: &SearchAnalyticsParams, now: u64) -> (r: Result<SearchAnalyticsPlan, String>)
    ensures
        r is Err <==> sa_error(*p, now as int) is Some,
        r matches Err(e) ==> e@ == "Error: "@ + sa_error(*p, now as int)->0,
        r matches Ok(plan) ==> {
            let dates = resolve_dates_spec(opt_string_view(p.start_date), opt_string_view(p.end_date), p.days, 28, now as int)->Ok_0;
            let explicit = p.sort_by is Some || p.sort_direction is Some;
            &&& strings_view(plan.dimensions@) == sa_dimensions(*p)
            &&& plan.row_limit == row_limit_check(p.row_limit, 1000)->Ok_0
            &&& plan.start_row == match p.start_row { Some(s) => s, None => 0u32 }
            &&& plan.explicit_sort == explicit
            &&& plan.sort_by@ == sa_sort_by(*p)
            &&& plan.descending == sa_descending(*p)
            &&& plan.inline_limit == match p.inline_limit { Some(l) => l, None => 500u32 }
            &&& plan.query.start_date@ == dates.0
            &&& plan.query.end_date@ == dates.1
            &&& opt_strings_view(plan.query.dimensions) == if sa_dimensions(*p).len() == 0 { None } else { Some(sa_dimensions(*p)) }
            &&& plan.query.search_type@ == or_default(opt_string_view(p.search_type), "web"@)
            &&& plan.query.row_limit == if explicit { FULL_FETCH_LIMIT } else { plan.row_limit }
            &&& plan.query.start_row == Some(if explicit { 0u32 } else { plan.start_row })
            &&& plan.query.data_state@ == or_default(opt_string_view(p.data_state), "all"@)
            &&& opt_groups_view(plan.query.filter_groups) == if sa_filters(*p).len() == 0 { None } else { Some(groups_of(sa_filters(*p))) }
            &&& opt_string_view(plan.query.aggregation_type) == opt_string_view(p.aggregation_type)
        },
{
    if let Err(e) = validate_site_url(p.site_url.as_str()) {
        return Err(error_text(e.as_str()));
    }
    let dates = resolve_dates_at(opt_as_str(&p.start_date), opt_as_str(&p.end_date), p.days, 28, now);
    let (start, end) = match dates {
        Ok(d) => d,
        Err(e) => return Err(error_text(e.as_str())),
    };
    let mut dimensions: Vec<String> = match &p.dimensions {
        Some(d) => copy_strings(d.as_slice()),
        None => {
            let mut v: Vec<String> = Vec::new();
            v.push(string_of("query"));
            assert(strings_view(v@) =~= seq!["query"@]);
            v
        },
    };
    if let Err(e) = validate_enum_list(dimensions.as_slice(), valid_dimensions(), "dimension") {
        return Err(error_text(e.as_str()));
    }
    if let Some(bd) = &p.breakdown {
        if let Err(e) = validate_enum(bd.as_str(), valid_dimensions(), "breakdown") {
            return Err(error_text(e.as_str()));
        }
        if !contains_string(dimensions.as_slice(), bd.as_str()) {
            let ghost before = dimensions@;
            dimensions.push(bd.clone());
            proof {
                assert(strings_view(before).len() == before.len());
                assert(strings_view(dimensions@) =~= strings_view(before).push(bd@));
            }
        }
    }
    let search_type = match &p.search_type {
        Some(s) => s.as_str(),
        None => "web",
    };
    if let Err(e) = validate_enum(search_type, valid_search_types(), "search_type") {
        return Err(error_text(e.as_str()));
    }
    if let Some(agg) = &p.aggregation_type {
        if let Err(e) = validate_enum(agg.as_str(), valid_aggregation_types(), "aggregation_type") {
            return Err(error_text(e.as_str()));
        }
    }
    let data_state = match &p.data_state {
        Some(s) => s.as_str(),
        None => "all",
    };
    if let Err(e) = validate_enum(data_state, valid_data_states(), "data_state") {
        return Err(error_text(e.as_str()));
    }
    let row_limit = match validate_row_limit(p.row_limit, 1000) {
        Ok(l) => l,
        Err(e) => return Err(error_text(e.as_str())),
    };
    let start_row = match p.start_row {
        Some(s) => s,
        None => 0,
    };
    let filters: Vec<Filter> = match &p.filters {
        Some(f) => copy_filters(f.as_slice()),
        None => Vec::new(),
    };
    assert(filter_views(filters@) =~= sa_filters(*p));
    if let Err(e) = validate_filters(filters.as_slice()) {
        return Err(error_text(e.as_str()));
    }
    if let Some(sb) = &p.sort_by {
        if let Err(e) = validate_enum(sb.as_str(), valid_metrics(), "sort_by") {
            return Err(error_text(e.as_str()));
        }
    }
    if let Some(sd) = &p.sort_direction {
        if let Err(e) = validate_enum(sd.as_str(), valid_sort_directions(), "sort_direction") {
            return Err(error_text(e.as_str()));
        }
    }
    let (fetch_limit, fetch_start_row) = analytics_fetch_plan(
        row_limit,
        start_row,
        opt_as_str(&p.sort_by),
        opt_as_str(&p.sort_direction),
    );
    let query = build_analytics_body(
        start.as_str(),
        end.as_str(),
        dimensions.as_slice(),
        search_type,
        fetch_limit,
        fetch_start_row,
        data_state,
        filters.as_slice(),
        opt_as_str(&p.aggregation_type),
    );
    let sort_by = match &p.sort_by {
        Some(s) => s.as_str(),
        None => "clicks",
    };
    let default_dir = if str_eq(sort_by, "position") { "ascending" } else { "descending" };
    let direction = match &p.sort_direction {
        Some(s) => s.as_str(),
        None => default_dir,
    };
    let descending = str_eq(direction, "descending");
    let explicit_sort = p.sort_by.is_some() || p.sort_direction.is_some();
    let inline_limit = match p.inline_limit {
        Some(l) => l,
        None => 500,
    };
    Ok(SearchAnalyticsPlan {
        query,
        dimensions,
        row_limit,
        start_row,
        explicit_sort,
        sort_by: string_of(sort_by),
        descending,
        inline_limit,
    })
}

/// Whether `v` holds a string equal to `s`.
pub fn contains_string(v: &[String], s: &str) -> (r: bool)
    ensures
        r == strings_view(v@).contains(s@),
{
    let mut i: usize = 0;
    while i < v.len()
        invariant
            i <= v@.len(),
            forall|t: int| 0 <= t < i ==> v@[t]@ != s@,
        decreases v@.len() - i,
    {
        if str_eq(v[i].as_str(), s) {
            assert(strings_view(v@)[i as int] == s@);
            return true;
        }
        i = i + 1;
    }
    assert(!strings_view(v@).contains(s@));
    false
}


/// Parameters of the `compare_periods` tool.
pub struct ComparePeriodsParams {
    pub site_url: String,
    pub current_start: String,
    pub current_end: String,
    pub previous_start: String,
    pub previous_end: String,
    pub dimensions: Option<Vec<String>>,
    pub row_limit: Option<u32>,
}

/// The two queries of a validated `compare_periods` call.
pub struct ComparePlan {
    pub current: AnalyticsQuery,
    pub previous: AnalyticsQuery,
    pub dimensions: Vec<String>,
}

pub open spec fn cp_dimensions(p: ComparePeriodsParams) -> Seq<Seq<char>> {
    match p.dimensions {
        Some(v) => strings_view(v@),
        None => seq!["query"@],
    }
}

/// The text of the first refusal of a `compare_periods` call: site URL, the
/// four dates in order, the order of each period's ends, dimensions, row
/// limit.
pub open spec fn cp_error(p: ComparePeriodsParams) -> Option<Seq<char>> {
    if site_url_check(p.site_url@) is Err {
        Some("Error: "@ + site_url_check(p.site_url@)->Err_0)
    } else if date_check(p.current_start@) is Err {
        Some("Error: "@ + date_check(p.current_start@)->Err_0)
    } else if date_check(p.current_end@) is Err {
        Some("Error: "@ + date_check(p.current_end@)->Err_0)
    } else if date_check(p.previous_start@) is Err {
        Some("Error: "@ + date_check(p.previous_start@)->Err_0)
    } else if date_check(p.previous_end@) is Err {
        Some("Error: "@ + date_check(p.previous_end@)->Err_0)
    } else if lex_lt(encode_utf8(p.current_end@), encode_utf8(p.current_start@)) {
        Some("Error: current_end must be >= current_start"@)
    } else if lex_lt(encode_utf8(p.previous_end@), encode_utf8(p.previous_start@)) {
        Some("Error: previous_end must be >= previous_start"@)
    } else if enum_list_check(cp_dimensions(p), dimension_names(), "dimension"@) is Err {
        Some("Error: "@ + enum_list_check(cp_dimensions(p), dimension_names(), "dimension"@)->Err_0)
    } else if row_limit_check(p.row_limit, 50) is Err {
        Some("Error: "@ + row_limit_check(p.row_limit, 50)->Err_0)
    } else {
        None
    }
}

/// A plain web query over all data for a period: no filters, no offset
/// other than zero.
pub open spec fn plain_query(q: AnalyticsQuery, start: Seq<char>, end: Seq<char>, dims: Seq<Seq<char>>, limit: u32) -> bool {
    &&& q.start_date@ == start
    &&& q.end_date@ == end
    &&& opt_strings_view(q.dimensions) == if dims.len() == 0 { None } else { Some(dims) }
    &&& q.search_type@ == "web"@
    &&& q.row_limit == limit
    &&& q.start_row == Some(0u32)
    &&& q.data_state@ == "all"@
    &&& q.filter_groups is None
    &&& q.aggregation_type is None
}

/// Validates a `compare_periods` call and plans its two queries.
#[verifier::rlimit(40)]
pub fn plan_compare_periods(p: &ComparePeriodsParams) -> (r: Result<ComparePlan, String>)
    ensures
        r is Err <==> cp_error(*p) is Some,
        r matches Err(e) ==> e@ == cp_error(*p)->0,
        r matches Ok(plan) ==> {
            let limit = row_limit_check(p.row_limit, 50)->Ok_0;
            &&& strings_view(plan.dimensions@) == cp_dimensions(*p)
            &&& plain_query(plan.current, p.current_start@, p.current_end@, cp_dimensions(*p), limit)
            &&& plain_query(plan.previous, p.previous_start@, p.previous_end@, cp_dimensions(*p), limit)
        },
{
    if let Err(e) = validate_site_url(p.site_url.as_str()) {
        return Err(error_text(e.as_str()));
    }
    if let Err(e) = validate_date(p.current_start.as_str()) {
        return Err(error_text(e.as_str()));
    }
    if let Err(e) = validate_date(p.current_end.as_str()) {
        return Err(error_text(e.as_str()));
    }
    if let Err(e) = validate_date(p.previous_start.as_str()) {
        return Err(error_text(e.as_str()));
    }
    if let Err(e) = validate_date(p.previous_end.as_str()) {
        return Err(error_text(e.as_str()));
    }
    if str_lt(p.current_end.as_str(), p.current_start.as_str()) {
        return Err(string_of("Error: current_end must be >= current_start"));
    }
    if str_lt(p.previous_end.as_str(), p.previous_start.as_str()) {
        return Err(string_of("Error: previous_end must be >= previous_start"));
    }
    let dims: Vec<String> = match &p.dimensions {
        Some(d) => copy_strings(d.as_slice()),
        None => {
            let mut v: Vec<String> = Vec::new();
            v.push(string_of("query"));
            assert(strings_view(v@) =~= seq!["query"@]);
            v
        },
    };
    if let Err(e) = validate_enum_list(dims.as_slice(), valid_dimensions(), "dimension") {
        return Err(error_text(e.as_str()));
    }
    let limit = match validate_row_limit(p.row_limit, 50) {
        Ok(l) => l,
        Err(e) => return Err(error_text(e.as_str())),
    };
    let no_filters: Vec<Filter> = Vec::new();
    let current = build_analytics_body(
        p.current_start.as_str(), p.current_end.as_str(), dims.as_slice(), "web", limit, 0, "all",
        no_filters.as_slice(), None,
    );
    let previous = build_analytics_body(
        p.previous_start.as_str(), p.previous_end.as_str(), dims.as_slice(), "web", limit, 0, "all",
        no_filters.as_slice(), None,
    );
    Ok(ComparePlan { current, previous, dimensions: dims })
}

/// Parameters of the `performance_overview` tool.
pub struct PerformanceOverviewParams {
    pub site_url: String,
    pub days: Option<u32>,
}

/// The aggregate query and the daily-trend query of a performance overview.
pub struct OverviewPlan {
    pub start: String,
    pub end: String,
    pub aggregate: AnalyticsQuery,
    pub trend: AnalyticsQuery,
}

pub open spec fn clamp_days(d: Option<u32>) -> u32 {
    let v = match d { Some(v) => v, None => 28u32 };
    if v < 1 { 1 } else if v > 540 { 540 } else { v }
}

/// Validates a `performance_overview` call at time `now`: one aggregate row
/// and one row per day (the day count clamped to 1..=540).
pub fn plan_performance_overview(p: &PerformanceOverviewParams, now: u64) -> (r: Result<OverviewPlan, String>)
    ensures
        ({
            let dates = resolve_dates_spec(None, None, p.days, 28, now as int);
            if site_url_check(p.site_url@) is Err {
                r matches Err(e) && e@ == "Error: "@ + site_url_check(p.site_url@)->Err_0
            } else if dates is Err {
                r matches Err(e) && e@ == "Error: "@ + dates->Err_0
            } else {
                r matches Ok(plan) && {
                    &&& plan.start@ == dates->Ok_0.0
                    &&& plan.end@ == dates->Ok_0.1
                    &&& plain_query(plan.aggregate, dates->Ok_0.0, dates->Ok_0.1, seq![], 1)
                    &&& plain_query(plan.trend, dates->Ok_0.0, dates->Ok_0.1, seq!["date"@], clamp_days(p.days))
                }
            }
        }),
{
    if let Err(e) = validate_site_url(p.site_url.as_str()) {
        return Err(error_text(e.as_str()));
    }
    let (start, end) = match resolve_dates_at(None, None, p.days, 28, now) {
        Ok(d) => d,
        Err(e) => return Err(error_text(e.as_str())),
    };
    let no_filters: Vec<Filter> = Vec::new();
    let no_dims: Vec<String> = Vec::new();
    assert(strings_view(no_dims@) =~= Seq::<Seq<char>>::empty());
    let aggregate = build_analytics_body(
        start.as_str(), end.as_str(), no_dims.as_slice(), "web", 1, 0, "all", no_filters.as_slice(), None,
    );
    let days = match p.days {
        Some(d) => d,
        None => 28,
    };
    let trend_limit = if days < 1 { 1 } else if days > 540 { 540 } else { days };
    let mut date_dim: Vec<String> = Vec::new();
    date_dim.push(string_of("date"));
    assert(strings_view(date_dim@) =~= seq!["date"@]);
    let trend = build_analytics_body(
        start.as_str(), end.as_str(), date_dim.as_slice(), "web", trend_limit, 0, "all", no_filters.as_slice(), None,
    );
    Ok(OverviewPlan { start, end, aggregate, trend })
}

/// Parameters of the `page_query_breakdown` tool.
pub struct PageQueryBreakdownParams {
    pub site_url: String,
    pub page_url: String,
    pub days: Option<u32>,
    pub row_limit: Option<u32>,
}

/// Validates a `page_query_breakdown` call at time `now`: the queries of
/// one page, filtered by `page equals <page_url>`.
pub fn plan_page_query_breakdown(p: &PageQueryBreakdownParams, now: u64) -> (r: Result<AnalyticsQuery, String>)
    ensures
        ({
            let dates = resolve_dates_spec(None, None, p.days, 28, now as int);
            if site_url_check(p.site_url@) is Err {
                r matches Err(e) && e@ == "Error: "@ + site_url_check(p.site_url@)->Err_0
            } else if dates is Err {
                r matches Err(e) && e@ == "Error: "@ + dates->Err_0
            } else if row_limit_check(p.row_limit, 100) is Err {
                r matches Err(e) && e@ == "Error: "@ + row_limit_check(p.row_limit, 100)->Err_0
            } else {
                r matches Ok(q) && {
                    &&& q.start_date@ == dates->Ok_0.0
                    &&& q.end_date@ == dates->Ok_0.1
                    &&& opt_strings_view(q.dimensions) == Some(seq!["query"@])
                    &&& q.search_type@ == "web"@
                    &&& q.row_limit == row_limit_check(p.row_limit, 100)->Ok_0
                    &&& q.start_row == Some(0u32)
                    &&& q.data_state@ == "all"@
                    &&& opt_groups_view(q.filter_groups) == Some(groups_of(seq![FilterView { dimension: "page"@, operator: "equals"@, expression: p.page_url@ }]))
                    &&& q.aggregation_type is None
                }
            }
        }),
{
    if let Err(e) = validate_site_url(p.site_url.as_str()) {
        return Err(error_text(e.as_str()));
    }
    let (start, end) = match resolve_dates_at(None, None, p.days, 28, now) {
        Ok(d) => d,
        Err(e) => return Err(error_text(e.as_str())),
    };
    let limit = match validate_row_limit(p.row_limit, 100) {
        Ok(l) => l,
        Err(e) => return Err(error_text(e.as_str())),
    };
    let filters = single_filter("page", "equals", p.page_url.as_str());
    let mut dims: Vec<String> = Vec::new();
    dims.push(string_of("query"));
    assert(strings_view(dims@) =~= seq!["query"@]);
    Ok(build_analytics_body(
        start.as_str(), end.as_str(), dims.as_slice(), "web", limit, 0, "all", filters.as_slice(), None,
    ))
}

/// A list of one filter.
pub fn single_filter(dimension: &str, operator: &str, expression: &str) -> (r: Vec<Filter>)
    ensures
        filter_views(r@) == seq![FilterView { dimension: dimension@, operator: operator@, expression: expression@ }],
{
    let mut v: Vec<Filter> = Vec::new();
    v.push(Filter {
        dimension: string_of(dimension),
        operator: string_of(operator),
        expression: string_of(expression),
    });
    assert(filter_views(v@) =~= seq![FilterView { dimension: dimension@, operator: operator@, expression: expression@ }]);
    v
}

} // verus!
