use ratewall::ratelimit::{limit_key, CounterReply, Decision, RateLimiter};
use ratewall::time::Duration;

fn limiter(limit: u32, window_secs: u64) -> RateLimiter {
    RateLimiter::new(limit, Duration::from_secs(window_secs), None)
}

#[test]
fn limit_key_prefers_subject_over_ip() {
    assert_eq!(limit_key(Some("demo"), "10.0.0.1"), "sub:demo");
    assert_eq!(limit_key(None, "10.0.0.1"), "ip:10.0.0.1");
}

#[test]
fn connect_rejects_unparseable_url() {
    // Scheme so broken the pool builder refuses: a config problem, not
    // a runtime one, so this is the only error path.
    assert!(RateLimiter::connect(":://nope", 10, Duration::from_secs(60), None).is_err());
}

#[test]
fn a_refused_url_is_named_with_the_reason() {
    for url in [":://nope", "", "http://redis:6379", "redis://redis:6379/not-a-number"] {
        let reason = deadpool_redis::Config::from_url(url)
            .create_pool(Some(deadpool_redis::Runtime::Tokio1))
            .err()
            .expect("refused")
            .to_string();
        assert_eq!(
            RateLimiter::connect(url, 10, Duration::from_secs(60), None).unwrap_err(),
            format!("invalid redis url {url:?}: {reason}")
        );
    }
    assert_eq!(
        RateLimiter::connect_unless(
            Some("because".to_string()),
            "a\"b",
            1,
            Duration::from_secs(60),
            None
        )
        .unwrap_err(),
        "invalid redis url \"a\\\"b\": because"
    );
}

#[test]
fn unreachable_redis_fails_open() {
    // Port 1 is reserved and refuses connections; the pool connects lazily.
    let mut limiter =
        RateLimiter::connect("redis://127.0.0.1:1", 10, Duration::from_secs(60), None).unwrap();
    for _ in 0..25 {
        assert_eq!(limiter.decide(CounterReply::Unavailable), Decision::Open);
    }
    assert_eq!(limiter.fail_open_total(), 25);
}

#[test]
fn the_limit_is_exact() {
    let mut limiter = limiter(3, 60);
    for n in 1..=3 {
        assert_eq!(limiter.decide(CounterReply::Count(n)), Decision::Allow);
    }
    assert_eq!(limiter.decide(CounterReply::Count(4)), Decision::Limit(60));
    assert_eq!(limiter.decide(CounterReply::Count(-1)), Decision::Limit(60));
    assert_eq!(limiter.fail_open_total(), 0);
}

#[test]
fn counters_are_per_key_and_window() {
    let limiter = limiter(3, 60);
    let first = limiter.counter("sub:demo", 119);
    assert_eq!(first.key, "rl:sub:demo:1");
    assert_eq!(first.expire_secs, 60);
    assert_eq!(limiter.counter("sub:demo", 60).key, first.key);
    assert_eq!(limiter.counter("sub:demo", 120).key, "rl:sub:demo:2");
    assert_eq!(limiter.counter("ip:10.0.0.1", 0).key, "rl:ip:10.0.0.1:0");
}

#[test]
fn counters_can_have_a_namespace() {
    let limiter = RateLimiter::new(3, Duration::from_secs(10), Some("42"));
    assert_eq!(limiter.counter("sub:a", 1_700_000_000).key, "rl42:sub:a:170000000");
}

#[test]
fn a_window_lasts_a_second_at_least() {
    let mut limiter = RateLimiter::new(1, Duration::from_millis(200), None);
    let counter = limiter.counter("k", 77);
    assert_eq!(counter.key, "rl:k:77");
    assert_eq!(counter.expire_secs, 1);
    assert_eq!(limiter.decide(CounterReply::Count(2)), Decision::Limit(1));
}

#[test]
fn a_window_length_touches_two_windows_at_most() {
    let limiter = limiter(3, 60);
    let key = |now: u64| limiter.counter("k", now).key;
    assert_eq!(key(61), key(119));
    assert_eq!(key(100), "rl:k:1");
    assert_eq!(key(159), "rl:k:2");
}
