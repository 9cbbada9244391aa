use gsc_mcp_rs::calendar::{civil_from_days, secs_to_date};
use gsc_mcp_rs::dates::{anomaly_date_ranges_from_now, days_to_date_range, days_to_date_range_at};

fn date_to_days(date: &str) -> i64 {
    let parts: Vec<&str> = date.split('-').collect();
    let year: i64 = parts[0].parse().unwrap();
    let month: i64 = parts[1].parse().unwrap();
    let day: i64 = parts[2].parse().unwrap();

    let year = year - i64::from(month <= 2);
    let era = if year >= 0 { year } else { year - 399 } / 400;
    let yoe = year - era * 400;
    let mp = month + if month > 2 { -3 } else { 9 };
    let doy = (153 * mp + 2) / 5 + day - 1;
    let doe = yoe * 365 + yoe / 4 - yoe / 100 + doy;
    era * 146097 + doe - 719468
}

#[test]
fn anomaly_periods_use_equal_inclusive_day_counts() {
    let now_secs = 30 * 86400;
    let ((recent_start, recent_end), (prev_start, prev_end)) = anomaly_date_ranges_from_now(now_secs, 7);
    let recent_days = date_to_days(&recent_end) - date_to_days(&recent_start) + 1;
    let previous_days = date_to_days(&prev_end) - date_to_days(&prev_start) + 1;

    assert_eq!(recent_days, 7);
    assert_eq!(previous_days, 7);
}

#[test]
fn days_to_date_range_returns_exact_number_of_inclusive_days() {
    let (start, end) = days_to_date_range(7);
    let inclusive_days = date_to_days(&end) - date_to_days(&start) + 1;
    assert_eq!(inclusive_days, 7);
}

#[test]
fn anomaly_periods_are_adjacent_and_lagged() {
    let ((recent_start, recent_end), (prev_start, prev_end)) = anomaly_date_ranges_from_now(30 * 86400, 7);
    assert_eq!(recent_end, "1970-01-29");
    assert_eq!(recent_start, "1970-01-23");
    assert_eq!(prev_end, "1970-01-22");
    assert_eq!(prev_start, "1970-01-16");
}

#[test]
fn anomaly_periods_saturate_at_the_epoch() {
    let ((recent_start, recent_end), (prev_start, prev_end)) = anomaly_date_ranges_from_now(86400, 7);
    assert_eq!(recent_start, "1970-01-01");
    assert_eq!(recent_end, "1970-01-01");
    assert_eq!(prev_start, "1970-01-01");
    assert_eq!(prev_end, "1970-01-01");
}

#[test]
fn date_range_at_a_fixed_time() {
    let (start, end) = days_to_date_range_at(30 * 86400 + 3600, 7);
    assert_eq!(start, "1970-01-23");
    assert_eq!(end, "1970-01-29");
    let (one_start, one_end) = days_to_date_range_at(30 * 86400, 1);
    assert_eq!(one_start, one_end);
    let (zero_start, zero_end) = days_to_date_range_at(30 * 86400, 0);
    assert_eq!(zero_start, "1970-01-29");
    assert_eq!(zero_end, "1970-01-29");
}

#[test]
fn civil_dates_of_known_days() {
    assert_eq!(civil_from_days(0), (1970, 1, 1));
    assert_eq!(civil_from_days(-1), (1969, 12, 31));
    assert_eq!(civil_from_days(19782), (2024, 2, 29));
    assert_eq!(civil_from_days(19783), (2024, 3, 1));
    assert_eq!(civil_from_days(10957), (2000, 1, 1));
    assert_eq!(civil_from_days(-719468), (0, 3, 1));
}

#[test]
fn civil_dates_round_trip_through_day_numbers() {
    for z in [-1i64, 0, 59, 60, 365, 10_957, 11_016, 19_782, 47_541, 2_932_896] {
        let (y, m, d) = civil_from_days(z);
        let text = format!("{y:04}-{m:02}-{d:02}");
        assert_eq!(date_to_days(&text), z, "{text}");
    }
}

#[test]
fn dates_of_seconds() {
    assert_eq!(secs_to_date(0), "1970-01-01");
    assert_eq!(secs_to_date(86_399), "1970-01-01");
    assert_eq!(secs_to_date(19_782 * 86_400 + 5), "2024-02-29");
    assert_eq!(secs_to_date(951_782_400), "2000-02-29");
}
