//! Reporting periods: search data lags two days behind the clock.
use crate::calendar::{day_text, days_from_civil, date_of_day, lemma_date_of_day, secs_to_date};
use crate::clock::now_secs;
use vstd::prelude::*;

verus! {

pub open spec fn sat_sub(a: int, b: int) -> int {
    if a >= b { a - b } else { 0 }
}

/// Last day with data: two days before `now` (saturating at the epoch).
pub open spec fn lagged_end_secs(now: int) -> int {
    sat_sub(now, 172800)
}

/// First second of a period of `days` days ending at `end` (saturating; zero
/// days count as one).
pub open spec fn period_start_secs(end: int, days: int) -> int {
    sat_sub(end, sat_sub(days, 1) * 86400)
}

/// Start and end date of the `days`-day period that ends two days before
/// `now`.
pub fn days_to_date_range_at(now: u64, days: u32) -> (r: (String, String))
    ensures
        r.0@ == day_text(period_start_secs(lagged_end_secs(now as int), days as int) / 86400),
        r.1@ == day_text(lagged_end_secs(now as int) / 86400),
{
    let end_secs = now.saturating_sub(86400 * 2);
    let start_secs = end_secs.saturating_sub(days.saturating_sub(1) as u64 * 86400);
    (secs_to_date(start_secs), secs_to_date(end_secs))
}

/// Start and end date of the `days`-day period that ends two days before
/// the current time.
pub fn days_to_date_range(days: u32) -> (r: (String, String))
    ensures
        exists|now: u64|
            {
                &&& r.0@ == day_text(period_start_secs(lagged_end_secs(now as int), days as int) / 86400)
                &&& r.1@ == day_text(lagged_end_secs(now as int) / 86400)
            },
{
    let now = now_secs();
    days_to_date_range_at(now, days)
}

/// The period counts exactly `days` days (both ends included) whenever the
/// clock is far enough past the epoch for no subtraction to saturate.
pub proof fn lemma_period_length(now: int, days: int)
    requires
        days >= 1,
        now >= 2 * 86400 + (days - 1) * 86400,
    ensures
        ({
            let s = date_of_day(period_start_secs(lagged_end_secs(now), days) / 86400);
            let e = date_of_day(lagged_end_secs(now) / 86400);
            days_from_civil(e.0, e.1, e.2) - days_from_civil(s.0, s.1, s.2) + 1 == days
        }),
{
    let end = now - 2 * 86400;
    let start = end - (days - 1) * 86400;
    lemma_date_of_day(start / 86400);
    lemma_date_of_day(end / 86400);
    assert(end / 86400 - start / 86400 == days - 1) by (nonlinear_arith)
        requires start == end - (days - 1) * 86400, start >= 0;
}

/// The two comparison periods of `days` days each: the recent one ending two
/// days before `now`, and the previous one ending the day before the recent
/// one starts.
pub fn anomaly_date_ranges_from_now(now_secs: u64, days: u32) -> (r: ((String, String), (String, String)))
    ensures
        ({
            let end = lagged_end_secs(now_secs as int);
            let recent_start = period_start_secs(end, days as int);
            let prev_end = sat_sub(recent_start, 86400);
            let prev_start = period_start_secs(prev_end, days as int);
            &&& r.0.0@ == day_text(recent_start / 86400)
            &&& r.0.1@ == day_text(end / 86400)
            &&& r.1.0@ == day_text(prev_start / 86400)
            &&& r.1.1@ == day_text(prev_end / 86400)
        }),
{
    let end_secs = now_secs.saturating_sub(86400 * 2);
    let recent_start_secs = end_secs.saturating_sub(days.saturating_sub(1) as u64 * 86400);
    let prev_end_secs = recent_start_secs.saturating_sub(86400);
    let prev_start_secs = prev_end_secs.saturating_sub(days.saturating_sub(1) as u64 * 86400);
    (
        (secs_to_date(recent_start_secs), secs_to_date(end_secs)),
        (secs_to_date(prev_start_secs), secs_to_date(prev_end_secs)),
    )
}

/// Both comparison periods count exactly `days` days, and the previous one
/// ends the day before the recent one starts, whenever no subtraction
/// saturates.
pub proof fn lemma_comparison_periods(now: int, days: int)
    requires
        days >= 1,
        now >= 2 * 86400 + 2 * days * 86400,
    ensures
        ({
            let end = lagged_end_secs(now);
            let recent_start = period_start_secs(end, days);
            let prev_end = sat_sub(recent_start, 86400);
            let prev_start = period_start_secs(prev_end, days);
            let e = date_of_day(end / 86400);
            let rs = date_of_day(recent_start / 86400);
            let pe = date_of_day(prev_end / 86400);
            let ps = date_of_day(prev_start / 86400);
            &&& days_from_civil(e.0, e.1, e.2) - days_from_civil(rs.0, rs.1, rs.2) + 1 == days
            &&& days_from_civil(pe.0, pe.1, pe.2) - days_from_civil(ps.0, ps.1, ps.2) + 1 == days
            &&& days_from_civil(rs.0, rs.1, rs.2) - days_from_civil(pe.0, pe.1, pe.2) == 1
        }),
{
    let end = now - 2 * 86400;
    let recent_start = end - (days - 1) * 86400;
    let prev_end = recent_start - 86400;
    let prev_start = prev_end - (days - 1) * 86400;
    lemma_date_of_day(end / 86400);
    lemma_date_of_day(recent_start / 86400);
    lemma_date_of_day(prev_end / 86400);
    lemma_date_of_day(prev_start / 86400);
    assert(end / 86400 - recent_start / 86400 == days - 1) by (nonlinear_arith)
        requires recent_start == end - (days - 1) * 86400, recent_start >= 0;
    assert(prev_end / 86400 - prev_start / 86400 == days - 1) by (nonlinear_arith)
        requires prev_start == prev_end - (days - 1) * 86400, prev_start >= 0;
    assert(recent_start / 86400 - prev_end / 86400 == 1) by (nonlinear_arith)
        requires prev_end == recent_start - 86400, prev_end >= 0;
}

} // verus!
