//! The body of a search analytics query, as plain values.
use crate::validate::{Filter, FilterView, filter_views};
use crate::text::string_of;
use vstd::prelude::*;

verus! {

/// Filters combined with AND (`dimensionFilterGroups` entry).
pub struct FilterGroup {
    pub group_type: String,
    pub filters: Vec<Filter>,
}

/// A search analytics query; fields that are `None` are left out of the
/// request.
pub struct AnalyticsQuery {
    pub start_date: String,
    pub end_date: String,
    pub dimensions: Option<Vec<String>>,
    pub search_type: String,
    pub row_limit: u32,
    pub start_row: Option<u32>,
    pub data_state: String,
    pub filter_groups: Option<Vec<FilterGroup>>,
    pub aggregation_type: Option<String>,
}

pub open spec fn strings_view(v: Seq<String>) -> Seq<Seq<char>> {
    v.map_values(|s: String| s@)
}

pub open spec fn opt_strings_view(o: Option<Vec<String>>) -> Option<Seq<Seq<char>>> {
    match o {
        Some(v) => Some(strings_view(v@)),
        None => None,
    }
}

pub open spec fn group_view(g: FilterGroup) -> (Seq<char>, Seq<FilterView>) {
    (g.group_type@, filter_views(g.filters@))
}

pub open spec fn groups_view(gs: Seq<FilterGroup>) -> Seq<(Seq<char>, Seq<FilterView>)> {
    gs.map_values(|g: FilterGroup| group_view(g))
}

pub open spec fn opt_groups_view(o: Option<Vec<FilterGroup>>) -> Option<Seq<(Seq<char>, Seq<FilterView>)>> {
    match o {
        Some(v) => Some(groups_view(v@)),
        None => None,
    }
}

/// Google's grouping of flat filters: none for no filters, otherwise one
/// AND group holding them all.
pub open spec fn groups_of(fs: Seq<FilterView>) -> Seq<(Seq<char>, Seq<FilterView>)> {
    if fs.len() == 0 {
        seq![]
    } else {
        seq![("and"@, fs)]
    }
}

/// Copies of a list of strings.
pub fn copy_strings(v: &[String]) -> (r: Vec<String>)
    ensures
        strings_view(r@) == strings_view(v@),
{
    let mut r: Vec<String> = Vec::new();
    let mut i: usize = 0;
    while i < v.len()
        invariant
            i <= v@.len(),
            strings_view(r@) == strings_view(v@.take(i as int)),
        decreases v@.len() - i,
    {
        let ghost old_r = r@;
        r.push(v[i].clone());
        proof {
            assert(old_r.len() == i) by {
                assert(strings_view(old_r).len() == old_r.len());
            }
            assert(r@ == old_r.push(v@[i as int]));
            assert forall|j: int| 0 <= j < i + 1 implies #[trigger] strings_view(r@)[j] == strings_view(v@.take(i + 1))[j] by {
                if j < i {
                    assert(strings_view(old_r)[j] == strings_view(v@.take(i as int))[j]);
                }
            }
        }
        i = i + 1;
        assert(strings_view(r@) =~= strings_view(v@.take(i as int)));
    }
    assert(v@.take(v@.len() as int) =~= v@);
    r
}

/// Copies of a list of filters.
pub fn copy_filters(v: &[Filter]) -> (r: Vec<Filter>)
    ensures
        filter_views(r@) == filter_views(v@),
{
    let mut r: Vec<Filter> = Vec::new();
    let mut i: usize = 0;
    while i < v.len()
        invariant
            i <= v@.len(),
            filter_views(r@) == filter_views(v@.take(i as int)),
        decreases v@.len() - i,
    {
        let ghost old_r = r@;
        r.push(v[i].duplicate());
        proof {
            assert(old_r.len() == i) by {
                assert(filter_views(old_r).len() == old_r.len());
            }
            assert forall|j: int| 0 <= j < i + 1 implies #[trigger] filter_views(r@)[j] == filter_views(v@.take(i + 1))[j] by {
                if j < i {
                    assert(filter_views(old_r)[j] == filter_views(v@.take(i as int))[j]);
                }
            }
        }
        i = i + 1;
        assert(filter_views(r@) =~= filter_views(v@.take(i as int)));
    }
    assert(v@.take(v@.len() as int) =~= v@);
    r
}

/// Converts flat filters to Google's `dimensionFilterGroups`.
pub fn filters_to_groups(filters: &[Filter]) -> (r: Vec<FilterGroup>)
    ensures
        groups_view(r@) == groups_of(filter_views(filters@)),
{
    let mut r: Vec<FilterGroup> = Vec::new();
    if filters.len() > 0 {
        r.push(FilterGroup { group_type: string_of("and"), filters: copy_filters(filters) });
    }
    assert(groups_view(r@) =~= groups_of(filter_views(filters@)));
    r
}

/// A query body with the given fields; dimensions, filter groups and the
/// aggregation type are left out when empty or absent.
pub fn build_analytics_body(
    start_date: &str,
    end_date: &str,
    dimensions: &[String],
    search_type: &str,
    row_limit: u32,
    start_row: u32,
    data_state: &str,
    filters: &[Filter],
    aggregation_type: Option<&str>,
) -> (r: AnalyticsQuery)
    ensures
        r.start_date@ == start_date@,
        r.end_date@ == end_date@,
        opt_strings_view(r.dimensions) == if dimensions@.len() == 0 {
            None
        } else {
            Some(strings_view(dimensions@))
        },
        r.search_type@ == search_type@,
        r.row_limit == row_limit,
        r.start_row == Some(start_row),
        r.data_state@ == data_state@,
        opt_groups_view(r.filter_groups) == if filters@.len() == 0 {
            None
        } else {
            Some(groups_of(filter_views(filters@)))
        },
        match aggregation_type {
            Some(a) => r.aggregation_type is Some && r.aggregation_type->0@ == a@,
            None => r.aggregation_type is None,
        },
{
    AnalyticsQuery {
        start_date: string_of(start_date),
        end_date: string_of(end_date),
        dimensions: if dimensions.len() > 0 { Some(copy_strings(dimensions)) } else { None },
        search_type: string_of(search_type),
        row_limit,
        start_row: Some(start_row),
        data_state: string_of(data_state),
        filter_groups: if filters.len() > 0 { Some(filters_to_groups(filters)) } else { None },
        aggregation_type: match aggregation_type {
            Some(a) => Some(string_of(a)),
            None => None,
        },
    }
}


/// A web query over all data with explicit dimensions (kept even when
/// empty), no offset, no aggregation type, and the filters as one AND group
/// when there are any.
pub fn fixed_query(
    start_date: &str,
    end_date: &str,
    dimensions: &[String],
    row_limit: u32,
    filters: &[Filter],
) -> (r: AnalyticsQuery)
    ensures
        r.start_date@ == start_date@,
        r.end_date@ == end_date@,
        opt_strings_view(r.dimensions) == Some(strings_view(dimensions@)),
        r.search_type@ == "web"@,
        r.row_limit == row_limit,
        r.start_row is None,
        r.data_state@ == "all"@,
        opt_groups_view(r.filter_groups) == if filters@.len() == 0 {
            None
        } else {
            Some(groups_of(filter_views(filters@)))
        },
        r.aggregation_type is None,
{
    AnalyticsQuery {
        start_date: string_of(start_date),
        end_date: string_of(end_date),
        dimensions: Some(copy_strings(dimensions)),
        search_type: string_of("web"),
        row_limit,
        start_row: None,
        data_state: string_of("all"),
        filter_groups: if filters.len() > 0 { Some(filters_to_groups(filters)) } else { None },
        aggregation_type: None,
    }
}

/// A list of the given strings.
pub fn strings_of(items: &[&str]) -> (r: Vec<String>)
    ensures
        strings_view(r@) == items@.map_values(|s: &str| s@),
{
    let mut r: Vec<String> = Vec::new();
    let mut i: usize = 0;
    while i < items.len()
        invariant
            i <= items@.len(),
            strings_view(r@) == items@.take(i as int).map_values(|s: &str| s@),
        decreases items@.len() - i,
    {
        let ghost old_r = r@;
        r.push(string_of(items[i]));
        proof {
            assert(old_r.len() == i) by {
                assert(strings_view(old_r).len() == old_r.len());
            }
            assert forall|j: int| 0 <= j < i + 1 implies #[trigger] strings_view(r@)[j] == items@.take(i + 1).map_values(|s: &str| s@)[j] by {
                if j < i {
                    assert(strings_view(old_r)[j] == items@.take(i as int).map_values(|s: &str| s@)[j]);
                }
            }
        }
        i = i + 1;
        assert(strings_view(r@) =~= items@.take(i as int).map_values(|s: &str| s@));
    }
    assert(items@.take(items@.len() as int) =~= items@);
    r
}

} // verus!
