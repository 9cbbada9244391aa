use gsc_mcp_rs::pairing::{
    comparison_lines, key_label, key_text, partners, query_union, shared_key_groups, unpartnered_rows, PeriodLine,
};

fn some(v: &[&str]) -> Vec<Option<String>> {
    v.iter().map(|s| Some(s.to_string())).collect()
}

/// A row of a period: its key parts and its clicks, impressions, ctr and position.
type Row = (Vec<&'static str>, f64, f64, f64, f64);

fn keys_of(rows: &[Row]) -> Vec<Option<String>> {
    rows.iter().map(|r| Some(key_text(&some(&r.0)))).collect()
}

#[test]
fn compare_periods_includes_previous_only_rows() {
    let current: Vec<Row> = vec![(vec!["shared"], 20.0, 200.0, 0.1, 3.0)];
    let previous: Vec<Row> = vec![(vec!["shared"], 10.0, 100.0, 0.1, 4.0), (vec!["gone"], 15.0, 150.0, 0.1, 5.0)];
    let dims = vec!["query".to_string()];

    let lines = comparison_lines(&keys_of(&current), &keys_of(&previous));
    let mut output = String::from("Period Comparison\n\n");
    for line in &lines {
        let (row, _) = match *line {
            PeriodLine::Both(i, _) | PeriodLine::New(i) => (&current[i], "current"),
            PeriodLine::Gone(j) => (&previous[j], "previous"),
        };
        output.push_str(&key_label(&some(&row.0), &dims));
        output.push('\n');
    }

    assert!(output.contains("query: gone"));
    assert_eq!(lines, vec![PeriodLine::Both(0, 0), PeriodLine::Gone(1)]);
}

#[test]
fn key_text_joins_parts_with_bars() {
    assert_eq!(key_text(&some(&["a", "b"])), "a|b");
    assert_eq!(key_text(&[Some("x".to_string()), None, Some("y".to_string())]), "x||y");
    assert_eq!(key_text(&[]), "");
}

#[test]
fn labels_name_each_dimension() {
    let dims = vec!["query".to_string()];
    assert_eq!(key_label(&some(&["shoes", "mobile"]), &dims), "query: shoes  dim: mobile  ");
    assert_eq!(key_label(&[None], &dims), "query: ?  ");
    assert_eq!(key_label(&[], &dims), "");
}

#[test]
fn rows_are_matched_with_the_last_row_of_their_key() {
    let cur = vec![Some("a".to_string()), None, Some("z".to_string())];
    let prev = some(&["a", "b", "a"]);
    assert_eq!(partners(&cur, &prev), vec![Some(2), None, None]);
}

#[test]
fn rows_without_partner_are_listed() {
    let cur = some(&["a"]);
    let prev = vec![Some("b".to_string()), Some("a".to_string()), None, Some("b".to_string())];
    assert_eq!(unpartnered_rows(&cur, &prev, false), vec![0, 3]);
    assert_eq!(unpartnered_rows(&cur, &prev, true), vec![3]);
}

#[test]
fn comparison_lists_current_rows_then_vanished_ones() {
    let cur = vec![Some("a".to_string()), None, Some("n".to_string())];
    let prev = some(&["g", "a", "g"]);
    assert_eq!(
        comparison_lines(&cur, &prev),
        vec![PeriodLine::Both(0, 1), PeriodLine::New(2), PeriodLine::Gone(0), PeriodLine::Gone(2)]
    );
}

#[test]
fn union_holds_each_query_once() {
    let cur = some(&["a", "b", "a"]);
    let prev = some(&["c", "a", "c"]);
    assert_eq!(query_union(&cur, &prev), vec![(Some(1), None), (Some(2), Some(1)), (None, Some(2))]);
}

#[test]
fn pages_sharing_a_query_are_grouped() {
    let queries: Vec<String> = ["shoes", "boots", "shoes", "", "", "hats", "shoes"].iter().map(|s| s.to_string()).collect();
    assert_eq!(shared_key_groups(&queries), vec![vec![0, 2, 6]]);
    let none: Vec<String> = vec![];
    assert_eq!(shared_key_groups(&none), Vec::<Vec<usize>>::new());
}
