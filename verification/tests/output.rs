use gsc_mcp_rs::output::{
    analytics_csv_header, csv_escape, csv_record, export_fallback_text, no_data_text, response_form, sanitize_filename,
    ResponseForm, DEFAULT_INLINE_LIMIT,
};

#[test]
fn small_results_stay_inline_and_large_ones_are_exported() {
    assert!(matches!(response_form(0, DEFAULT_INLINE_LIMIT, None), ResponseForm::NoData));
    assert!(matches!(response_form(500, DEFAULT_INLINE_LIMIT, None), ResponseForm::Inline));
    match response_form(501, DEFAULT_INLINE_LIMIT, None) {
        ResponseForm::Export(name) => assert_eq!(name, "gsc_export"),
        _ => panic!("expected an export"),
    }
    match response_form(501, DEFAULT_INLINE_LIMIT, Some("report")) {
        ResponseForm::Export(name) => assert_eq!(name, "report"),
        _ => panic!("expected an export"),
    }
    assert!(matches!(response_form(1, 0, None), ResponseForm::Export(_)));
}

#[test]
fn notices() {
    assert_eq!(no_data_text(), "No data found for the given parameters.");
    assert_eq!(
        export_fallback_text("disk full", "rows"),
        "Warning: CSV export failed (disk full). Showing inline instead.\n\nrows"
    );
}

#[test]
fn formula_like_values_are_guarded() {
    assert_eq!(csv_escape("=SUM(A1)"), "\"'=SUM(A1)\"");
    assert_eq!(csv_escape("+1"), "\"'+1\"");
    assert_eq!(csv_escape("-1"), "\"'-1\"");
    assert_eq!(csv_escape("@cmd"), "\"'@cmd\"");
    assert_eq!(csv_escape("\tx"), "\"'\tx\"");
    assert_eq!(csv_escape("=\"x\""), "\"'=\"\"x\"\"\"");
}

#[test]
fn special_characters_are_quoted() {
    assert_eq!(csv_escape("plain"), "plain");
    assert_eq!(csv_escape(""), "");
    assert_eq!(csv_escape("a,b"), "\"a,b\"");
    assert_eq!(csv_escape("say \"hi\""), "\"say \"\"hi\"\"\"");
    assert_eq!(csv_escape("two\nlines"), "\"two\nlines\"");
    assert_eq!(csv_escape("cr\r"), "\"cr\r\"");
}

#[test]
fn file_names_lose_path_parts() {
    assert_eq!(sanitize_filename("report"), "report");
    assert_eq!(sanitize_filename("../etc/passwd"), "__etc_passwd");
    assert_eq!(sanitize_filename("a\\b"), "a_b");
    assert_eq!(sanitize_filename("..."), "_.");
    assert_eq!(sanitize_filename("...."), "__");
}

#[test]
fn header_names_dimensions_then_metrics() {
    let dims = vec!["query".to_string()];
    assert_eq!(
        analytics_csv_header(Some(&dims), 2),
        vec!["query", "dim_1", "clicks", "impressions", "ctr", "position"]
    );
    assert_eq!(analytics_csv_header(None, 1), vec!["dim_0", "clicks", "impressions", "ctr", "position"]);
    assert_eq!(analytics_csv_header(None, 0), vec!["clicks", "impressions", "ctr", "position"]);
}

#[test]
fn records_end_with_a_line_break() {
    let fields = vec!["a".to_string(), "\"b,c\"".to_string(), "1".to_string()];
    assert_eq!(csv_record(&fields), "a,\"b,c\",1\n");
    assert_eq!(csv_record(&[]), "\n");
}
