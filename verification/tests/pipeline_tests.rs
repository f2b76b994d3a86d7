use prom_reaper::config::{is_valid_label_name, AppConfig, SourceConfig};
use prom_reaper::hasher::assign_shard_from_parts;
use prom_reaper::parser::inject_labels;
use prom_reaper::parser::parse_families;
use prom_reaper::render::{health_reply, self_metrics_reply, shard_reply, status_reply};
use prom_reaper::scrape::{process_cycle, FetchResult};
use prom_reaper::state::{build_shards, empty_state, ShardedState, SourceStatus};

const SAMPLE_METRICS: &str = r#"# HELP go_goroutines Number of goroutines.
# TYPE go_goroutines gauge
go_goroutines 42
# HELP http_requests_total Total HTTP requests.
# TYPE http_requests_total counter
http_requests_total{method="GET",code="200"} 1000
http_requests_total{method="POST",code="200"} 500
# HELP request_duration_seconds Request duration histogram.
# TYPE request_duration_seconds histogram
request_duration_seconds_bucket{le="0.1"} 800
request_duration_seconds_bucket{le="0.5"} 950
request_duration_seconds_bucket{le="+Inf"} 1000
request_duration_seconds_sum 123.4
request_duration_seconds_count 1000
# HELP memory_bytes Current memory usage.
# TYPE memory_bytes gauge
memory_bytes 1048576
# HELP cpu_seconds_total Total CPU seconds.
# TYPE cpu_seconds_total counter
cpu_seconds_total{cpu="0"} 100.5
cpu_seconds_total{cpu="1"} 98.3
"#;

fn populated_state(metrics: &str, num_shards: u32) -> ShardedState {
    let families = parse_families(metrics);
    let shards = build_shards(families, num_shards);
    ShardedState {
        shards,
        source_status: vec![SourceStatus {
            url: "http://mock-upstream/metrics".to_string(),
            success: true,
            duration_ms: 42,
            metric_families: 5,
        }],
    }
}

#[test]
fn all_sample_families_present_across_shards() {
    let state = populated_state(SAMPLE_METRICS, 4);
    let mut combined = String::new();
    for shard in &state.shards {
        combined.push_str(&shard.text);
    }
    assert!(combined.contains("go_goroutines"), "missing go_goroutines");
    assert!(
        combined.contains("http_requests_total"),
        "missing http_requests_total"
    );
    assert!(
        combined.contains("request_duration_seconds"),
        "missing request_duration_seconds"
    );
    assert!(combined.contains("memory_bytes"), "missing memory_bytes");
    assert!(
        combined.contains("cpu_seconds_total"),
        "missing cpu_seconds_total"
    );
}

#[test]
fn no_series_lost_or_duplicated_across_shards() {
    let mut input = String::new();
    let n = 100u32;
    for i in 0..n {
        input.push_str(&format!("some_counter{{id=\"{i}\"}} {i}\n"));
    }
    let state = populated_state(&input, 4);
    let mut seen_ids = std::collections::HashSet::new();
    let mut total_series = 0usize;
    for shard in &state.shards {
        total_series += shard.series_count;
        for line in shard.text.lines() {
            if line.starts_with("some_counter{") {
                if let Some(start) = line.find("id=\"") {
                    let rest = &line[start + 4..];
                    if let Some(end) = rest.find('"') {
                        let id: u32 = rest[..end].parse().expect("id should be a number");
                        assert!(
                            seen_ids.insert(id),
                            "series id={id} appeared in more than one shard"
                        );
                    }
                }
            }
        }
    }
    assert_eq!(seen_ids.len(), n as usize, "expected {n} unique series");
    assert_eq!(total_series, n as usize, "series counts must add up");
}

#[test]
fn help_and_type_once_per_shard_with_series() {
    let mut input = String::from(
        "# HELP rpc_duration_seconds RPC call duration.\n# TYPE rpc_duration_seconds histogram\n",
    );
    for i in 0..40 {
        input.push_str(&format!(
            "rpc_duration_seconds_bucket{{shard=\"{i}\",le=\"0.1\"}} {i}\n"
        ));
        input.push_str(&format!("rpc_duration_seconds_sum{{shard=\"{i}\"}} {i}.5\n"));
        input.push_str(&format!("rpc_duration_seconds_count{{shard=\"{i}\"}} {i}\n"));
    }
    let state = populated_state(&input, 4);
    let mut shards_with_family = 0;
    for shard in &state.shards {
        if shard.text.contains("rpc_duration_seconds") {
            shards_with_family += 1;
            let helps = shard
                .text
                .matches("# HELP rpc_duration_seconds RPC call duration.")
                .count();
            let types = shard
                .text
                .matches("# TYPE rpc_duration_seconds histogram")
                .count();
            assert_eq!(helps, 1, "HELP must appear exactly once per shard");
            assert_eq!(types, 1, "TYPE must appear exactly once per shard");
        }
    }
    assert!(shards_with_family > 1, "series should spread across shards");
}

#[test]
fn shard_assignment_is_deterministic() {
    let s1 = populated_state(SAMPLE_METRICS, 4);
    let s2 = populated_state(SAMPLE_METRICS, 4);
    for i in 0..4 {
        assert_eq!(
            s1.shards[i].text, s2.shards[i].text,
            "shard {i} content differs between two identical builds"
        );
    }
}

#[test]
fn single_shard_gets_everything() {
    let state = populated_state(SAMPLE_METRICS, 1);
    assert_eq!(state.shards.len(), 1);
    let text = &state.shards[0].text;
    assert!(text.contains("go_goroutines"));
    assert!(text.contains("http_requests_total"));
    assert!(text.contains("memory_bytes"));
    assert_eq!(state.shards[0].series_count, 11);
}

#[test]
fn shard_out_of_range_body() {
    let state = populated_state(SAMPLE_METRICS, 4);
    let r = shard_reply(&state, 99, 4);
    assert_eq!(r.status, 404);
    assert_eq!(r.body, "shard 99 not found, valid range is 0..4");
}

#[test]
fn shard_unavailable_before_first_scrape() {
    let state = empty_state();
    let r = shard_reply(&state, 0, 4);
    assert_eq!(r.status, 503);
    assert_eq!(r.body, "metrics not yet available");
}

#[test]
fn shard_serves_rendered_text() {
    let state = populated_state(SAMPLE_METRICS, 4);
    let r = shard_reply(&state, 2, 4);
    assert_eq!(r.status, 200);
    assert_eq!(r.content_type, "text/plain; version=0.0.4; charset=utf-8");
    assert_eq!(r.body, state.shards[2].text);
}

#[test]
fn health_before_and_after_scrape() {
    let empty = empty_state();
    let r = health_reply(&empty);
    assert_eq!(r.status, 503);
    assert_eq!(r.body, "not ready");
    let state = populated_state(SAMPLE_METRICS, 4);
    let r2 = health_reply(&state);
    assert_eq!(r2.status, 200);
    assert_eq!(r2.body, "ok");
}

#[test]
fn status_before_first_scrape() {
    let r = status_reply(&empty_state(), 4, 0);
    assert_eq!(r.status, 503);
    assert_eq!(r.body, "no data yet");
}

#[test]
fn status_json_shape() {
    let families = parse_families("up 1\n");
    let shards = build_shards(families, 1);
    let state = ShardedState {
        shards,
        source_status: vec![SourceStatus {
            url: "http://a".to_string(),
            success: true,
            duration_ms: 42,
            metric_families: 5,
        }],
    };
    let r = status_reply(&state, 1, 1500);
    assert_eq!(r.status, 200);
    assert_eq!(r.content_type, "application/json");
    assert_eq!(
        r.body,
        "{\"last_scrape_ago_secs\":1.500,\"num_shards\":1,\"shards\":[{\"families\":1,\"id\":0,\"series\":1,\"size_bytes\":5}],\"sources\":[{\"duration_ms\":42,\"metric_families\":5,\"success\":true,\"url\":\"http://a\"}]}"
    );
}

#[test]
fn self_metrics_before_first_scrape_reports_nan() {
    let r = self_metrics_reply(&empty_state(), 4, 0);
    assert_eq!(r.status, 200);
    assert!(r.body.contains("prom_reaper_last_scrape_age_seconds NaN\n"));
    assert!(r.body.contains("prom_reaper_num_shards 4\n"));
}

#[test]
fn self_metrics_lists_shards_and_sources() {
    let state = populated_state(SAMPLE_METRICS, 2);
    let r = self_metrics_reply(&state, 2, 2048);
    assert!(r.body.contains("prom_reaper_last_scrape_age_seconds 2.048\n"));
    assert!(r.body.contains("prom_reaper_shard_series{shard=\"0\"} "));
    assert!(r.body.contains("prom_reaper_shard_series{shard=\"1\"} "));
    assert!(r
        .body
        .contains("prom_reaper_source_up{url=\"http://mock-upstream/metrics\"} 1\n"));
    assert!(r
        .body
        .contains("prom_reaper_source_scrape_duration_seconds{url=\"http://mock-upstream/metrics\"} 0.042\n"));
    assert!(r.body.contains("prom_reaper_num_shards 2\n"));
}

#[test]
fn cycle_with_one_failed_source_still_publishes() {
    let ok_families = parse_families(SAMPLE_METRICS);
    let results = vec![
        FetchResult {
            url: "http://good/metrics".to_string(),
            outcome: Ok((ok_families, 12)),
        },
        FetchResult {
            url: "http://dead/metrics".to_string(),
            outcome: Err(("connect timed out".to_string(), 5000)),
        },
    ];
    let (statuses, publish) = process_cycle(results, 4);
    assert_eq!(statuses.len(), 2);
    assert!(statuses[0].success);
    assert_eq!(statuses[0].url, "http://good/metrics");
    assert_eq!(statuses[0].metric_families, 5);
    assert!(!statuses[1].success);
    assert_eq!(statuses[1].url, "http://dead/metrics");
    assert_eq!(statuses[1].duration_ms, 5000);
    let (shards, stats) = publish.expect("one success must publish");
    assert_eq!(stats.duplicate_count, 0);
    let combined: String = shards.iter().map(|s| s.text.clone()).collect();
    assert!(combined.contains("go_goroutines"));
    // The published snapshot still answers health with 200.
    let state = ShardedState {
        shards,
        source_status: statuses,
    };
    assert_eq!(health_reply(&state).status, 200);
}

#[test]
fn cycle_with_all_sources_failed_publishes_nothing() {
    let results = vec![FetchResult {
        url: "http://dead/metrics".to_string(),
        outcome: Err(("boom".to_string(), 7)),
    }];
    let (statuses, publish) = process_cycle(results, 4);
    assert_eq!(statuses.len(), 1);
    assert!(!statuses[0].success);
    assert!(publish.is_none());
}

#[test]
fn validate_accepts_a_good_config() {
    let config = AppConfig {
        listen: "0.0.0.0:9090".to_string(),
        num_shards: 4,
        scrape_interval_secs: 30,
        sources: vec![SourceConfig {
            url: "http://upstream:9100/metrics".to_string(),
            timeout_secs: 30,
            headers: Vec::new(),
            extra_labels: vec![("cluster".to_string(), "prod".to_string())],
        }],
    };
    assert!(config.validate().is_ok());
}

#[test]
fn validate_rejects_bad_configs() {
    let good_source = SourceConfig {
        url: "http://u".to_string(),
        timeout_secs: 30,
        headers: Vec::new(),
        extra_labels: Vec::new(),
    };
    let zero_shards = AppConfig {
        listen: "l".to_string(),
        num_shards: 0,
        scrape_interval_secs: 30,
        sources: vec![SourceConfig {
            url: "http://u".to_string(),
            timeout_secs: 30,
            headers: Vec::new(),
            extra_labels: Vec::new(),
        }],
    };
    assert!(zero_shards.validate().is_err());
    let no_sources = AppConfig {
        listen: "l".to_string(),
        num_shards: 1,
        scrape_interval_secs: 30,
        sources: Vec::new(),
    };
    assert!(no_sources.validate().is_err());
    let bad_label = AppConfig {
        listen: "l".to_string(),
        num_shards: 1,
        scrape_interval_secs: 30,
        sources: vec![SourceConfig {
            url: "http://u".to_string(),
            timeout_secs: 30,
            headers: Vec::new(),
            extra_labels: vec![("0bad".to_string(), "v".to_string())],
        }],
    };
    let err = bad_label.validate().unwrap_err();
    assert!(err.contains("not a valid Prometheus label name"));
    let empty_url = AppConfig {
        listen: "l".to_string(),
        num_shards: 1,
        scrape_interval_secs: 30,
        sources: vec![SourceConfig {
            url: String::new(),
            timeout_secs: 30,
            headers: Vec::new(),
            extra_labels: Vec::new(),
        }],
    };
    assert!(empty_url.validate().unwrap_err().contains("url"));
    let zero_timeout = AppConfig {
        listen: "l".to_string(),
        num_shards: 1,
        scrape_interval_secs: 30,
        sources: vec![SourceConfig {
            url: "http://u".to_string(),
            timeout_secs: 0,
            headers: Vec::new(),
            extra_labels: Vec::new(),
        }],
    };
    assert!(zero_timeout.validate().unwrap_err().contains("timeout"));
    drop(good_source);
}

#[test]
fn label_name_validation() {
    assert!(is_valid_label_name("cluster"));
    assert!(is_valid_label_name("_private"));
    assert!(is_valid_label_name("a1_b2"));
    assert!(!is_valid_label_name(""));
    assert!(!is_valid_label_name("1abc"));
    assert!(!is_valid_label_name("a-b"));
    assert!(!is_valid_label_name("a b"));
}

#[test]
fn extra_labels_move_series_into_hash_key() {
    // A source with extra_labels {cluster="prod"} exposing `up 1` renders
    // up{cluster="prod"} 1 and hashes name + NUL + label key.
    let mut families = parse_families("up 1\n");
    inject_labels(
        &mut families,
        &vec![("cluster".to_string(), "prod".to_string())],
    );
    let shards = build_shards(families, 4);
    let expected = assign_shard_from_parts("up", "cluster=\"prod\"", 4) as usize;
    for (i, shard) in shards.iter().enumerate() {
        if i == expected {
            assert_eq!(shard.text, "up{cluster=\"prod\"} 1\n");
        } else {
            assert_eq!(shard.text, "");
        }
    }
}
