//! Search appearance queries and forced CSV export.
use crate::query::{AnalyticsQuery, copy_filters, copy_strings, filters_to_groups, groups_of, opt_groups_view, opt_strings_view, strings_of, strings_view};
use crate::text::string_of;
use crate::tools::analytics::{or_default, single_filter};
use crate::tools::discovery::fixed_query_is;
use crate::tools::{error_text, opt_as_str};
use crate::query::fixed_query;
use crate::validate::{
    Filter, FilterView, dimension_names, enum_check, enum_list_check, filter_views, filters_check_from,
    opt_string_view, resolve_dates_at, resolve_dates_spec, row_limit_check, search_appearance_names,
    search_type_names, site_url_check, valid_dimensions, valid_search_appearances, valid_search_types,
    validate_enum, validate_enum_list, validate_filters, validate_row_limit, validate_site_url,
};
use vstd::prelude::*;

verus! {

/// Validates a `query_by_search_appearance` call at time `now`: the site,
/// the rich result type, the period, the row limit (default 100); queries
/// and pages of results of that type.
pub fn plan_search_appearance(
    site_url: &str,
    search_appearance: &str,
    days: Option<u32>,
    row_limit: Option<u32>,
    now: u64,
) -> (r: Result<AnalyticsQuery, String>)
    ensures
        ({
            let dates = resolve_dates_spec(None, None, days, 28, now as int);
            if site_url_check(site_url@) is Err {
                r matches Err(e) && e@ == "Error: "@ + site_url_check(site_url@)->Err_0
            } else if enum_check(search_appearance@, search_appearance_names(), "search_appearance"@) is Err {
                r matches Err(e) && e@ == "Error: "@ + enum_check(search_appearance@, search_appearance_names(), "search_appearance"@)->Err_0
            } else if dates is Err {
                r matches Err(e) && e@ == "Error: "@ + dates->Err_0
            } else if row_limit_check(row_limit, 100) is Err {
                r matches Err(e) && e@ == "Error: "@ + row_limit_check(row_limit, 100)->Err_0
            } else {
                r matches Ok(q) && fixed_query_is(q, dates->Ok_0.0, dates->Ok_0.1, seq!["query"@, "page"@],
                    row_limit_check(row_limit, 100)->Ok_0,
                    seq![FilterView { dimension: "searchAppearance"@, operator: "equals"@, expression: search_appearance@ }])
            }
        }),
{
    if let Err(e) = validate_site_url(site_url) {
        return Err(error_text(e.as_str()));
    }
    if let Err(e) = validate_enum(search_appearance, valid_search_appearances(), "search_appearance") {
        return Err(error_text(e.as_str()));
    }
    let (start, end) = match resolve_dates_at(None, None, days, 28, now) {
        Ok(d) => d,
        Err(e) => return Err(error_text(e.as_str())),
    };
    let limit = match validate_row_limit(row_limit, 100) {
        Ok(l) => l,
        Err(e) => return Err(error_text(e.as_str())),
    };
    let filters = single_filter("searchAppearance", "equals", search_appearance);
    let dims = strings_of(&["query", "page"]);
    assert(strings_view(dims@) =~= seq!["query"@, "page"@]);
    Ok(fixed_query(start.as_str(), end.as_str(), dims.as_slice(), limit, filters.as_slice()))
}

/// Parameters of the `export_analytics` tool.
pub struct ExportAnalyticsParams {
    pub site_url: String,
    pub start_date: Option<String>,
    pub end_date: Option<String>,
    pub days: Option<u32>,
    pub dimensions: Option<Vec<String>>,
    pub search_type: Option<String>,
    pub filters: Option<Vec<Filter>>,
    pub row_limit: Option<u32>,
    pub filename: Option<String>,
}

/// The query of an export, its dimensions and the file name.
pub struct ExportPlan {
    pub query: AnalyticsQuery,
    pub dimensions: Vec<String>,
    pub filename: String,
}

pub open spec fn ex_dimensions(p: ExportAnalyticsParams) -> Seq<Seq<char>> {
    match p.dimensions {
        Some(v) => strings_view(v@),
        None => seq!["query"@],
    }
}

pub open spec fn ex_filters(p: ExportAnalyticsParams) -> Seq<FilterView> {
    match p.filters {
        Some(v) => filter_views(v@),
        None => seq![],
    }
}

/// The first refusal of an `export_analytics` call at time `now`: site,
/// dates, dimensions, search type, filters, row limit (default 25000).
pub open spec fn ex_error(p: ExportAnalyticsParams, now: int) -> Option<Seq<char>> {
    let dates = resolve_dates_spec(opt_string_view(p.start_date), opt_string_view(p.end_date), p.days, 28, now);
    let st = or_default(opt_string_view(p.search_type), "web"@);
    if site_url_check(p.site_url@) is Err {
        Some(site_url_check(p.site_url@)->Err_0)
    } else if dates is Err {
        Some(dates->Err_0)
    } else if enum_list_check(ex_dimensions(p), dimension_names(), "dimension"@) is Err {
        Some(enum_list_check(ex_dimensions(p), dimension_names(), "dimension"@)->Err_0)
    } else if enum_check(st, search_type_names(), "search_type"@) is Err {
        Some(enum_check(st, search_type_names(), "search_type"@)->Err_0)
    } else if filters_check_from(ex_filters(p), 0) is Err {
        Some(filters_check_from(ex_filters(p), 0)->Err_0)
    } else if row_limit_check(p.row_limit, 25000) is Err {
        Some(row_limit_check(p.row_limit, 25000)->Err_0)
    } else {
        None
    }
}

/// Validates an `export_analytics` call at time `now` and plans its query.
#[verifier::rlimit(40)]
pub fn plan_export(p: &ExportAnalyticsParams, now: u64) -> (r: Result<ExportPlan, String>)
    ensures
        r is Err <==> ex_error(*p, now as int) is Some,
        r matches Err(e) ==> e@ == "Error: "@ + ex_error(*p, now as int)->0,
        r matches Ok(plan) ==> {
            let dates = resolve_dates_spec(opt_string_view(p.start_date), opt_string_view(p.end_date), p.days, 28, now as int)->Ok_0;
            &&& strings_view(plan.dimensions@) == ex_dimensions(*p)
            &&& plan.filename@ == or_default(opt_string_view(p.filename), "gsc_export"@)
            &&& plan.query.start_date@ == dates.0
            &&& plan.query.end_date@ == dates.1
            &&& opt_strings_view(plan.query.dimensions) == Some(ex_dimensions(*p))
            &&& plan.query.search_type@ == or_default(opt_string_view(p.search_type), "web"@)
            &&& plan.query.row_limit == row_limit_check(p.row_limit, 25000)->Ok_0
            &&& plan.query.start_row is None
            &&& plan.query.data_state@ == "all"@
            &&& opt_groups_view(plan.query.filter_groups) == if ex_filters(*p).len() == 0 { None } else { Some(groups_of(ex_filters(*p))) }
            &&& plan.query.aggregation_type is None
        },
{
    if let Err(e) = validate_site_url(p.site_url.as_str()) {
        return Err(error_text(e.as_str()));
    }
    let (start, end) = match resolve_dates_at(opt_as_str(&p.start_date), opt_as_str(&p.end_date), p.days, 28, now) {
        Ok(d) => d,
        Err(e) => return Err(error_text(e.as_str())),
    };
    let dims: Vec<String> = match &p.dimensions {
        Some(d) => copy_strings(d.as_slice()),
        None => {
            let v = strings_of(&["query"]);
            assert(strings_view(v@) =~= seq!["query"@]);
            v
        },
    };
    if let Err(e) = validate_enum_list(dims.as_slice(), valid_dimensions(), "dimension") {
        return Err(error_text(e.as_str()));
    }
    let search_type = match &p.search_type {
        Some(s) => s.as_str(),
        None => "web",
    };
    if let Err(e) = validate_enum(search_type, valid_search_types(), "search_type") {
        return Err(error_text(e.as_str()));
    }
    let filters: Vec<Filter> = match &p.filters {
        Some(f) => copy_filters(f.as_slice()),
        None => Vec::new(),
    };
    assert(filter_views(filters@) =~= ex_filters(*p));
    if let Err(e) = validate_filters(filters.as_slice()) {
        return Err(error_text(e.as_str()));
    }
    let limit = match validate_row_limit(p.row_limit, 25000) {
        Ok(l) => l,
        Err(e) => return Err(error_text(e.as_str())),
    };
    let filename = match &p.filename {
        Some(f) => string_of(f.as_str()),
        None => string_of("gsc_export"),
    };
    let query = AnalyticsQuery {
        start_date: start,
        end_date: end,
        dimensions: Some(copy_strings(dims.as_slice())),
        search_type: string_of(search_type),
        row_limit: limit,
        start_row: None,
        data_state: string_of("all"),
        filter_groups: if filters.len() > 0 { Some(filters_to_groups(filters.as_slice())) } else { None },
        aggregation_type: None,
    };
    Ok(ExportPlan { query, dimensions: dims, filename })
}

} // verus!
