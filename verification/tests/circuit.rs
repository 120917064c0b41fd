use ratewall::circuit::{Admit, BreakerConfig, Breakers, CircuitBreaker, State};
use ratewall::config::Route;
use ratewall::time::Duration;

fn breaker(threshold: u32, cooldown_ms: u64) -> CircuitBreaker {
    CircuitBreaker::new(BreakerConfig {
        failure_threshold: threshold,
        cooldown: Duration::from_millis(cooldown_ms),
    })
}

fn at(ms: u64) -> Duration {
    Duration::from_millis(ms)
}

fn route(prefix: &str, backend: &str) -> Route {
    Route { prefix: prefix.to_string(), backend: backend.to_string() }
}

#[test]
fn closed_breaker_admits_everything() {
    let mut b = breaker(3, 10_000);
    for _ in 0..10 {
        assert_eq!(b.try_admit(), Admit::Call);
    }
}

#[test]
fn failures_below_threshold_stay_closed() {
    let mut b = breaker(3, 10_000);
    for _ in 0..2 {
        assert_eq!(b.try_admit(), Admit::Call);
        b.record(false);
    }
    assert_eq!(b.state(), State::Closed);
}

#[test]
fn threshold_failures_open_the_breaker() {
    let mut b = breaker(3, 10_000);
    for _ in 0..3 {
        b.record(false);
    }
    assert_eq!(b.state(), State::Open);
    assert_eq!(b.try_admit(), Admit::ShortCircuit);
}

#[test]
fn a_success_resets_the_failure_streak() {
    let mut b = breaker(3, 10_000);
    b.record(false);
    b.record(false);
    b.record(true); // streak broken
    b.record(false);
    b.record(false);
    assert_eq!(b.state(), State::Closed, "2 < 3 after reset");
}

#[test]
fn open_becomes_halfopen_after_cooldown_and_probes() {
    let mut b = breaker(1, 20);
    b.record_at(false, at(5)); // open
    assert_eq!(b.try_admit_at(at(24)), Admit::ShortCircuit);
    // The cooldown has passed: the first caller becomes the probe.
    assert_eq!(b.try_admit_at(at(25)), Admit::Call);
    assert_eq!(b.state(), State::HalfOpen);
    // Callers during the probe fail fast.
    assert_eq!(b.try_admit_at(at(1_000)), Admit::ShortCircuit);
}

#[test]
fn successful_probe_closes_the_breaker() {
    let mut b = breaker(1, 10);
    b.record_at(false, at(0));
    assert_eq!(b.try_admit_at(at(20)), Admit::Call); // probe
    b.record_at(true, at(21));
    assert_eq!(b.state(), State::Closed);
    assert_eq!(b.try_admit_at(at(22)), Admit::Call);
}

#[test]
fn failed_probe_reopens_with_a_fresh_cooldown() {
    let mut b = breaker(1, 10_000);
    b.record_at(false, at(0)); // open
    assert_eq!(b.try_admit_at(at(11_000)), Admit::Call); // probe let through
    b.record_at(false, at(11_500));
    assert_eq!(b.state(), State::Open);
    // Fresh cooldown: no new probe before it has passed.
    assert_eq!(b.try_admit_at(at(21_499)), Admit::ShortCircuit);
    assert_eq!(b.try_admit_at(at(21_500)), Admit::Call);
}

#[test]
fn per_prefix_breakers_are_independent() {
    let routes = vec![route("crm", "http://crm:3000"), route("hrm", "http://hrm:3001")];
    let mut breakers = Breakers::new(&routes, &BreakerConfig::default());
    for _ in 0..5 {
        breakers.record("crm", false);
    }
    assert_eq!(breakers.get("crm").unwrap().state(), State::Open);
    assert_eq!(breakers.get("hrm").unwrap().state(), State::Closed);
    assert!(breakers.get("nope").is_none());
}

#[test]
fn a_report_to_an_open_breaker_changes_nothing() {
    let mut b = breaker(1, 100);
    b.record_at(false, at(10));
    b.record_at(true, at(20));
    assert_eq!(b.state(), State::Open);
    b.record_at(false, at(60));
    // The cooldown still counts from the moment it opened.
    assert_eq!(b.try_admit_at(at(110)), Admit::Call);
}

#[test]
fn a_clock_that_stands_still_keeps_the_breaker_open() {
    let mut b = breaker(1, 10);
    b.record_at(false, at(100));
    assert_eq!(b.try_admit_at(at(50)), Admit::ShortCircuit);
}

#[test]
fn default_settings_are_five_failures_and_thirty_seconds() {
    let settings = BreakerConfig::default();
    assert_eq!(settings.failure_threshold, 5);
    assert_eq!(settings.cooldown, Duration::from_secs(30));
}

#[test]
fn states_list_every_breaker_in_order() {
    let routes = vec![route("hrm", "http://h:1"), route("crm", "http://c:1")];
    let mut breakers = Breakers::new(
        &routes,
        &BreakerConfig { failure_threshold: 1, cooldown: Duration::from_secs(60) },
    );
    breakers.record("hrm", false);
    let states = breakers.states();
    assert_eq!(states.len(), 2);
    assert_eq!(states.key_at(0), "crm");
    assert_eq!(*states.value_at(0), State::Closed);
    assert_eq!(states.key_at(1), "hrm");
    assert_eq!(*states.value_at(1), State::Open);
}

#[test]
fn a_prefix_without_a_breaker_may_call() {
    let mut breakers = Breakers::new(&vec![], &BreakerConfig::default());
    assert_eq!(breakers.try_admit("crm"), Admit::Call);
    breakers.record("crm", false);
    assert!(breakers.get("crm").is_none());
}

#[test]
fn the_clock_of_a_breaker_moves_on() {
    let mut b = breaker(1, 20);
    b.record(false);
    assert_eq!(b.try_admit(), Admit::ShortCircuit);
    let opened = std::time::Instant::now();
    while opened.elapsed().as_millis() < 40 {}
    assert_eq!(b.try_admit(), Admit::Call);
    assert_eq!(b.state(), State::HalfOpen);
}

#[test]
fn of_many_callers_exactly_one_is_the_probe() {
    let mut b = breaker(1, 20);
    b.record_at(false, at(0));
    assert_eq!(b.would_admit_at(at(19)), Admit::ShortCircuit);
    assert_eq!(b.would_admit_at(at(20)), Admit::Call);
    assert_eq!(b.state(), State::Open, "looking makes nobody a probe");
    let calls = (0..10).filter(|i| b.try_admit_at(at(20 + i)) == Admit::Call).count();
    assert_eq!(calls, 1);
    assert_eq!(b.state(), State::HalfOpen);
}
