use prom_reaper::parser::{
    escape_label_value, extract_sorted_label_key, inject_labels, merge_families, parse_families,
};
use prom_reaper::text::u64_to_string;

fn labels(pairs: &[(&str, &str)]) -> Vec<(String, String)> {
    pairs
        .iter()
        .map(|(k, v)| (k.to_string(), v.to_string()))
        .collect()
}

#[test]
fn simple_gauge() {
    let input = "# HELP up Whether the target is up.\n# TYPE up gauge\nup 1\n";
    let families = parse_families(input);
    assert_eq!(families.len(), 1);
    assert_eq!(families[0].name, "up");
    assert!(families[0].help_line.is_some());
    assert!(families[0].type_line.is_some());
    assert_eq!(families[0].samples.len(), 1);
    assert_eq!(
        extract_sorted_label_key(&families[0].samples[0].raw_line),
        ""
    );
}

#[test]
fn label_key_is_sorted() {
    let input = "# TYPE req counter\nreq{z=\"1\",a=\"2\",m=\"3\"} 1\n";
    let families = parse_families(input);
    assert_eq!(
        extract_sorted_label_key(&families[0].samples[0].raw_line),
        r#"a="2",m="3",z="1""#
    );
}

#[test]
fn histogram_grouped_together() {
    let input = r#"# HELP http_req_duration_seconds A histogram.
# TYPE http_req_duration_seconds histogram
http_req_duration_seconds_bucket{le="0.1"} 100
http_req_duration_seconds_bucket{le="+Inf"} 200
http_req_duration_seconds_sum 12.3
http_req_duration_seconds_count 200
"#;
    let families = parse_families(input);
    assert_eq!(families.len(), 1);
    assert_eq!(families[0].name, "http_req_duration_seconds");
    assert_eq!(families[0].samples.len(), 4);
}

#[test]
fn multiple_families() {
    let input =
        "# TYPE cpu counter\ncpu_total{cpu=\"0\"} 100\ncpu_total{cpu=\"1\"} 200\n# TYPE mem gauge\nmem 1024\n";
    let families = parse_families(input);
    assert_eq!(families.len(), 2);
    assert_eq!(families[0].samples.len(), 2);
    assert_eq!(families[1].samples.len(), 1);
}

#[test]
fn no_help_or_type() {
    let input = "my_metric{label=\"a\"} 42\nmy_metric{label=\"b\"} 99\n";
    let families = parse_families(input);
    assert_eq!(families.len(), 1);
    assert_eq!(families[0].name, "my_metric");
    assert_eq!(families[0].samples.len(), 2);
    assert!(families[0].help_line.is_none());
    assert!(families[0].type_line.is_none());
}

#[test]
fn skips_comments_and_blank_lines() {
    let input = "# Some random comment\n\n# HELP foo A foo.\n# TYPE foo gauge\nfoo 1\n\n";
    let families = parse_families(input);
    assert_eq!(families.len(), 1);
}

#[test]
fn untyped_metrics_different_names_split() {
    let input = "aaa 1\nbbb 2\nccc 3\n";
    let families = parse_families(input);
    assert_eq!(families.len(), 3);
}

#[test]
fn label_key_comma_in_value() {
    // A label value containing a comma should not be split.
    let input = "req{path=\"/a,b\",method=\"GET\"} 1\n";
    let families = parse_families(input);
    assert_eq!(
        extract_sorted_label_key(&families[0].samples[0].raw_line),
        r#"method="GET",path="/a,b""#
    );
}

#[test]
fn merge_families_no_overlap_is_passthrough() {
    let input = "# TYPE aaa gauge\naaa 1\n# TYPE bbb gauge\nbbb 2\n";
    let families = parse_families(input);
    let (merged, stats) = merge_families(families);
    assert_eq!(merged.len(), 2);
    assert_eq!(stats.duplicate_count, 0);
    assert!(stats.examples.is_empty());
}

#[test]
fn merge_families_identical_label_key_first_wins() {
    // Two sources expose the same label-less metric.
    let mut families = parse_families("# TYPE up gauge\nup 1\n");
    families.extend(parse_families("# TYPE up gauge\nup 0\n"));
    let (merged, stats) = merge_families(families);
    assert_eq!(merged.len(), 1);
    assert_eq!(merged[0].samples.len(), 1, "duplicate must be dropped");
    // First value (1) must be kept.
    assert!(merged[0].samples[0].raw_line.contains("up 1"));
    assert_eq!(stats.duplicate_count, 1);
    assert_eq!(stats.examples, vec!["up"]);
}

#[test]
fn merge_families_distinct_label_sets_both_kept() {
    // Same family name, different labels — no collision.
    let mut families = parse_families("cpu{cpu=\"0\"} 100\n");
    families.extend(parse_families("cpu{cpu=\"1\"} 200\n"));
    let (merged, stats) = merge_families(families);
    assert_eq!(merged.len(), 1);
    assert_eq!(merged[0].samples.len(), 2);
    assert_eq!(stats.duplicate_count, 0);
}

#[test]
fn merge_families_partial_overlap() {
    let mut families = parse_families("cpu{cpu=\"0\"} 10\ncpu{cpu=\"1\"} 20\n");
    families.extend(parse_families("cpu{cpu=\"1\"} 99\ncpu{cpu=\"2\"} 30\n"));
    let (merged, stats) = merge_families(families);
    assert_eq!(merged.len(), 1);
    assert_eq!(merged[0].samples.len(), 3, "0, 1 and 2 should be present");
    assert_eq!(stats.duplicate_count, 1);
    // The kept value for cpu="1" must be 20 (first-wins), not 99.
    let kept = merged[0]
        .samples
        .iter()
        .find(|s| extract_sorted_label_key(&s.raw_line) == r#"cpu="1""#)
        .expect("cpu=1 sample must exist");
    assert!(
        kept.raw_line.contains("20"),
        "first-seen value must be kept"
    );
}

#[test]
fn inject_labels_into_metric_without_labels() {
    let mut families = parse_families("up 1\n");
    inject_labels(&mut families, &labels(&[("cluster", "prod")]));
    assert_eq!(families[0].samples[0].raw_line, "up{cluster=\"prod\"} 1\n");
}

#[test]
fn inject_labels_into_metric_with_existing_labels() {
    let mut families = parse_families("req{method=\"GET\"} 42\n");
    inject_labels(&mut families, &labels(&[("cluster", "prod")]));
    assert_eq!(
        families[0].samples[0].raw_line,
        "req{method=\"GET\",cluster=\"prod\"} 42\n"
    );
}

#[test]
fn inject_labels_preserves_timestamp() {
    let mut families = parse_families("up 1 1700000000\n");
    inject_labels(&mut families, &labels(&[("dc", "eu")]));
    assert_eq!(
        families[0].samples[0].raw_line,
        "up{dc=\"eu\"} 1 1700000000\n"
    );
}

#[test]
fn inject_labels_multiple_sorted_alphabetically() {
    let mut families = parse_families("up 1\n");
    inject_labels(&mut families, &labels(&[("zone", "a"), ("cluster", "prod")]));
    // Keys sorted: cluster < zone
    assert_eq!(
        families[0].samples[0].raw_line,
        "up{cluster=\"prod\",zone=\"a\"} 1\n"
    );
}

#[test]
fn inject_labels_escapes_special_chars_in_value() {
    let mut families = parse_families("up 1\n");
    inject_labels(&mut families, &labels(&[("label", "val\\with\"quotes")]));
    assert_eq!(
        families[0].samples[0].raw_line,
        "up{label=\"val\\\\with\\\"quotes\"} 1\n"
    );
}

#[test]
fn inject_labels_empty_extra_is_noop() {
    let input = "up 1\n";
    let mut families = parse_families(input);
    inject_labels(&mut families, &Vec::new());
    assert_eq!(families[0].samples[0].raw_line, "up 1\n");
}

#[test]
fn inject_labels_affects_shard_key() {
    // With extra labels, extract_sorted_label_key must return a non-empty key.
    let mut families = parse_families("up 1\n");
    inject_labels(&mut families, &labels(&[("cluster", "prod")]));
    let key = extract_sorted_label_key(&families[0].samples[0].raw_line);
    assert_eq!(key, r#"cluster="prod""#);
}

#[test]
fn merge_families_examples_capped_at_three() {
    // Four duplicate series — examples list must not exceed 3.
    let mut f1_input = String::new();
    let mut f2_input = String::new();
    for i in 0..4 {
        f1_input.push_str(&format!("m{{id=\"{i}\"}} 1\n"));
        f2_input.push_str(&format!("m{{id=\"{i}\"}} 2\n"));
    }
    let mut families = parse_families(&f1_input);
    families.extend(parse_families(&f2_input));
    let (_, stats) = merge_families(families);
    assert_eq!(stats.duplicate_count, 4);
    assert_eq!(stats.examples.len(), 3, "examples must be capped at 3");
}

#[test]
fn label_key_permutation_is_canonical() {
    // The same pairs in any order produce the same key.
    let a = parse_families("m{z=\"1\",a=\"2\",m=\"3\"} 1\n");
    let b = parse_families("m{a=\"2\",m=\"3\",z=\"1\"} 1\n");
    let ka = extract_sorted_label_key(&a[0].samples[0].raw_line);
    let kb = extract_sorted_label_key(&b[0].samples[0].raw_line);
    assert_eq!(ka, kb);
    assert_eq!(ka, r#"a="2",m="3",z="1""#);
}

#[test]
fn parse_preserves_sample_lines_verbatim() {
    // Every parsed sample is its source line plus the newline, byte for byte.
    let input = "# HELP up Up.\n# TYPE up gauge\nup{a=\"x y\"} 1 123\nup 0.5\n";
    let families = parse_families(input);
    assert_eq!(families.len(), 1);
    assert_eq!(families[0].samples[0].raw_line, "up{a=\"x y\"} 1 123\n");
    assert_eq!(families[0].samples[1].raw_line, "up 0.5\n");
    assert_eq!(
        families[0].help_line.as_deref(),
        Some("# HELP up Up.\n")
    );
    assert_eq!(families[0].type_line.as_deref(), Some("# TYPE up gauge\n"));
}

#[test]
fn merge_fills_missing_help_from_later_source() {
    // The first source to declare HELP wins, even when it is not the first
    // source to expose the family.
    let mut families = parse_families("up 1\n");
    families.extend(parse_families("# HELP up Up.\n# TYPE up gauge\nup 0\n"));
    let (merged, _) = merge_families(families);
    assert_eq!(merged.len(), 1);
    assert_eq!(merged[0].help_line.as_deref(), Some("# HELP up Up.\n"));
    assert_eq!(merged[0].type_line.as_deref(), Some("# TYPE up gauge\n"));
}

#[test]
fn escape_label_value_handles_backslash_and_quote() {
    assert_eq!(escape_label_value(r#"val\with"quotes"#), r#"val\\with\"quotes"#);
    assert_eq!(escape_label_value("plain"), "plain");
    assert_eq!(escape_label_value(""), "");
}

#[test]
fn decimal_rendering() {
    assert_eq!(u64_to_string(0), "0");
    assert_eq!(u64_to_string(7), "7");
    assert_eq!(u64_to_string(90210), "90210");
    assert_eq!(u64_to_string(u64::MAX), "18446744073709551615");
}
