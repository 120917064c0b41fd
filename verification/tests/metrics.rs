use ratewall::circuit::State;
use ratewall::metrics::{Metrics, LATENCY_BUCKETS};
use ratewall::time::Duration;

fn family<'a>(rendered: &'a str, name: &str) -> Vec<&'a str> {
    rendered
        .lines()
        .filter(|l| l.starts_with(name) && !l.starts_with('#'))
        .collect()
}

#[test]
fn empty_registry_renders_help_only() {
    let m = Metrics::new();
    let text = m.render();
    assert!(text.contains("# TYPE ratewall_requests_total counter"));
    assert!(!text.contains("prefix=\""));
}

#[test]
fn counters_and_status_classes_accumulate() {
    let mut m = Metrics::new();
    let t = m.start_request("crm");
    t.finish(&mut m, Some("2xx"));
    let t = m.start_request("crm");
    t.finish(&mut m, Some("5xx"));
    let t = m.start_request("hrm");
    t.finish(&mut m, None); // aborted before status
    m.inc_rate_limited("crm");
    m.inc_rate_limited("crm");
    m.inc_circuit_open("hrm");

    let text = m.render();
    assert!(text.contains("ratewall_requests_total{prefix=\"crm\"} 2\n"));
    assert!(text.contains("ratewall_requests_total{prefix=\"hrm\"} 1\n"));
    assert!(
        text.contains("ratewall_responses_total{prefix=\"crm\",class=\"2xx\"} 1\n")
            && text.contains("ratewall_responses_total{prefix=\"crm\",class=\"5xx\"} 1\n")
    );
    assert!(text.contains("ratewall_rate_limited_total{prefix=\"crm\"} 2\n"));
    assert!(text.contains("ratewall_circuit_open_total{prefix=\"hrm\"} 1\n"));
    // hrm has requests but no status class recorded.
    assert_eq!(family(&text, "ratewall_responses_total").len(), 2);
}

#[test]
fn histogram_buckets_are_cumulative_with_sum_and_count() {
    let mut m = Metrics::new();
    let t = m.start_request("crm");
    t.finish_after(&mut m, Some("2xx"), Duration::from_millis(1));
    let t = m.start_request("crm");
    t.finish_after(&mut m, Some("2xx"), Duration::from_millis(3));

    let text = m.render();
    // The +Inf bucket equals the count; every bucket is <= count.
    let buckets: Vec<u64> = family(&text, "ratewall_request_duration_seconds_bucket")
        .into_iter()
        .filter(|l| l.contains("crm"))
        .map(|l| l.rsplit(' ').next().unwrap().parse().unwrap())
        .collect();
    assert_eq!(buckets.len(), LATENCY_BUCKETS.len() + 1); // +Inf
    let count: u64 = family(&text, "ratewall_request_duration_seconds_count")[0]
        .rsplit(' ')
        .next()
        .unwrap()
        .parse()
        .unwrap();
    assert_eq!(count, 2);
    assert_eq!(*buckets.last().unwrap(), count, "+Inf == count");
    assert!(buckets.windows(2).all(|w| w[0] <= w[1]), "cumulative");
    assert_eq!(buckets, vec![0, 1, 1, 2, 2, 2, 2, 2, 2, 2, 2, 2, 2]);
    // Sum is positive and rendered with nanosecond precision.
    let sum = family(&text, "ratewall_request_duration_seconds_sum")[0].to_string();
    let value: f64 = sum.rsplit(' ').next().unwrap().parse().unwrap();
    assert!(value >= 0.004, "sum {sum} should be >= 4ms");
    assert_eq!(sum, "ratewall_request_duration_seconds_sum{prefix=\"crm\"} 0.004000000");
}

#[test]
fn breaker_gauge_reflects_published_state() {
    let mut m = Metrics::new();
    m.set_breaker_state("crm", State::Closed);
    m.set_breaker_state("hrm", State::Open);
    let text = m.render();
    assert!(text.contains("ratewall_breaker_state{prefix=\"crm\"} 0\n"));
    assert!(text.contains("ratewall_breaker_state{prefix=\"hrm\"} 2\n"));
    m.set_breaker_state("hrm", State::HalfOpen);
    assert!(m.render().contains("ratewall_breaker_state{prefix=\"hrm\"} 1\n"));
}

#[test]
fn unknown_subjects_cannot_grow_cardinality() {
    let mut m = Metrics::new();
    for path in ["a", "b", "c", "../../etc"] {
        let t = m.start_request("crm");
        t.finish(&mut m, Some("4xx")); // path ignored
        let _ = path;
    }
    let text = m.render();
    assert_eq!(family(&text, "ratewall_requests_total").len(), 1);
}

#[test]
fn the_whole_exposition_is_fixed() {
    let mut m = Metrics::new();
    let t = m.start_request("crm");
    t.finish_after(&mut m, Some("2xx"), Duration::new(3, 7));
    m.inc_rate_limited("b");
    m.set_breaker_state("hrm", State::Open);
    let expected = "\
# HELP ratewall_requests_total Proxied requests per route prefix.
# TYPE ratewall_requests_total counter
ratewall_requests_total{prefix=\"b\"} 0
ratewall_requests_total{prefix=\"crm\"} 1
ratewall_requests_total{prefix=\"hrm\"} 0
# HELP ratewall_rate_limited_total Requests rejected with 429 by the rate limiter.
# TYPE ratewall_rate_limited_total counter
ratewall_rate_limited_total{prefix=\"b\"} 1
ratewall_rate_limited_total{prefix=\"crm\"} 0
ratewall_rate_limited_total{prefix=\"hrm\"} 0
# HELP ratewall_circuit_open_total Requests short-circuited with 503 by an open breaker.
# TYPE ratewall_circuit_open_total counter
ratewall_circuit_open_total{prefix=\"b\"} 0
ratewall_circuit_open_total{prefix=\"crm\"} 0
ratewall_circuit_open_total{prefix=\"hrm\"} 0
# HELP ratewall_responses_total Backend responses by status class.
# TYPE ratewall_responses_total counter
ratewall_responses_total{prefix=\"crm\",class=\"2xx\"} 1
# HELP ratewall_request_duration_seconds Proxied request latency per route prefix.
# TYPE ratewall_request_duration_seconds histogram
ratewall_request_duration_seconds_bucket{prefix=\"crm\",le=\"0.0005\"} 0
ratewall_request_duration_seconds_bucket{prefix=\"crm\",le=\"0.001\"} 0
ratewall_request_duration_seconds_bucket{prefix=\"crm\",le=\"0.002\"} 0
ratewall_request_duration_seconds_bucket{prefix=\"crm\",le=\"0.005\"} 0
ratewall_request_duration_seconds_bucket{prefix=\"crm\",le=\"0.01\"} 0
ratewall_request_duration_seconds_bucket{prefix=\"crm\",le=\"0.02\"} 0
ratewall_request_duration_seconds_bucket{prefix=\"crm\",le=\"0.05\"} 0
ratewall_request_duration_seconds_bucket{prefix=\"crm\",le=\"0.1\"} 0
ratewall_request_duration_seconds_bucket{prefix=\"crm\",le=\"0.25\"} 0
ratewall_request_duration_seconds_bucket{prefix=\"crm\",le=\"0.5\"} 0
ratewall_request_duration_seconds_bucket{prefix=\"crm\",le=\"1\"} 0
ratewall_request_duration_seconds_bucket{prefix=\"crm\",le=\"2.5\"} 0
ratewall_request_duration_seconds_bucket{prefix=\"crm\",le=\"+Inf\"} 1
ratewall_request_duration_seconds_sum{prefix=\"crm\"} 3.000000007
ratewall_request_duration_seconds_count{prefix=\"crm\"} 1
# HELP ratewall_breaker_state Circuit breaker state per backend (0 closed, 1 half-open, 2 open).
# TYPE ratewall_breaker_state gauge
ratewall_breaker_state{prefix=\"hrm\"} 2
";
    assert_eq!(m.render(), expected);
    assert_eq!(m.render(), m.render());
}

#[test]
fn a_latency_on_a_bound_counts_in_that_bucket() {
    let mut m = Metrics::new();
    let t = m.start_request("crm");
    t.finish_after(&mut m, Some("2xx"), Duration::new(0, 500_000));
    let t = m.start_request("crm");
    t.finish_after(&mut m, Some("2xx"), Duration::new(0, 500_001));
    let text = m.render();
    assert!(text.contains("bucket{prefix=\"crm\",le=\"0.0005\"} 1\n"));
    assert!(text.contains("bucket{prefix=\"crm\",le=\"0.001\"} 2\n"));
}

#[test]
fn a_running_timer_measures() {
    let mut m = Metrics::new();
    let t = m.start_request("crm");
    let started = std::time::Instant::now();
    while started.elapsed().as_millis() < 3 {}
    t.finish(&mut m, Some("2xx"));
    let text = m.render();
    assert!(text.contains("bucket{prefix=\"crm\",le=\"0.002\"} 0\n"));
    assert!(text.contains("bucket{prefix=\"crm\",le=\"+Inf\"} 1\n"));
}

#[test]
fn a_class_with_a_bar_is_split_at_the_first() {
    let mut m = Metrics::new();
    let t = m.start_request("crm");
    t.finish(&mut m, Some("a|b"));
    assert!(m
        .render()
        .contains("ratewall_responses_total{prefix=\"b|crm\",class=\"a\"} 1\n"));
}

#[test]
fn a_request_without_a_status_only_counts() {
    let mut m = Metrics::new();
    let t = m.start_request("crm");
    t.finish(&mut m, None);
    let text = m.render();
    assert!(text.contains("ratewall_requests_total{prefix=\"crm\"} 1\n"));
    assert!(family(&text, "ratewall_responses_total").is_empty());
    assert!(family(&text, "ratewall_request_duration_seconds").is_empty());
}
