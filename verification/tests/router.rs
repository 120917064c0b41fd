use ratewall::auth::{issue_token, unix_now, DEFAULT_TOKEN_TTL};
use ratewall::auth_login::{login, LoginRequest, LoginState};
use ratewall::circuit::{BreakerConfig, Breakers};
use ratewall::config::Route;
use ratewall::keys::SigningKey;
use ratewall::metrics::Metrics;
use ratewall::middleware_auth::AuthState;
use ratewall::proxy::{
    proxy_fallback, proxy_fallback_at, Arrival, Readings, RequestAction, RequestProgress,
};
use ratewall::ratelimit::{CounterReply, RateLimiter};
use ratewall::reply::Reply;
use ratewall::router::{
    end_to_end_headers, healthz, is_hop_by_hop_name, request_headers, split_path, status_class,
    text_value, BackendCall, CallOutcome, Dispatch, ProxyState, Screening,
};
use ratewall::time::Duration;

fn route(prefix: &str, backend: &str) -> Route {
    Route { prefix: prefix.to_string(), backend: backend.to_string() }
}

fn two_routes() -> Vec<Route> {
    vec![route("crm", "http://crm:3000"), route("hrm", "http://hrm:3001")]
}

fn with_breakers(threshold: u32, cooldown_ms: u64) -> ProxyState {
    let routes = two_routes();
    let breakers = Breakers::new(
        &routes,
        &BreakerConfig {
            failure_threshold: threshold,
            cooldown: Duration::from_millis(cooldown_ms),
        },
    );
    ProxyState::new(&routes).with_breakers(breakers, 1).with_metrics(Metrics::new())
}

/// A request that may go on: its status, and whether it reached a backend.
/// `answer` is what the backend would say, nothing where it is unreachable.
fn get(state: &mut ProxyState, path: &str, answer: Option<u16>) -> (u16, bool) {
    match state.dispatch(path, None) {
        Dispatch::Respond(reply) => (reply.status, false),
        Dispatch::Forward(call) => match answer {
            Some(status) => {
                assert!(state.conclude(call, CallOutcome::Answered(status)).is_none());
                (status, true)
            }
            None => (state.conclude(call, CallOutcome::Failed).unwrap().status, true),
        },
    }
}

fn forwarded(state: &mut ProxyState, path: &str, query: Option<&str>) -> BackendCall {
    match state.dispatch(path, query) {
        Dispatch::Forward(call) => call,
        Dispatch::Respond(reply) => panic!("{reply:?}"),
    }
}

fn forwarded_to(state: &mut ProxyState, path: &str, query: Option<&str>) -> (String, String) {
    let call = forwarded(state, path, query);
    (call.prefix().to_string(), call.target().to_string())
}

fn responded(state: &mut ProxyState, path: &str) -> Reply {
    match state.dispatch(path, None) {
        Dispatch::Respond(reply) => reply,
        Dispatch::Forward(call) => panic!("{}", call.target()),
    }
}

fn wait(ms: u128) {
    let started = std::time::Instant::now();
    while started.elapsed().as_millis() < ms {}
}

#[test]
fn healthz_returns_ok() {
    let reply = healthz();
    assert_eq!(reply.status, 200);
    assert_eq!(reply.body, "");
}

#[test]
fn routes_round_trip_to_backend_with_path_and_query() {
    let mut state = ProxyState::new(&two_routes());
    assert_eq!(
        forwarded_to(&mut state, "/crm/customers/42", Some("verbose=1")),
        ("crm".to_string(), "http://crm:3000/customers/42?verbose=1".to_string())
    );
    assert_eq!(
        forwarded_to(&mut state, "/hrm", None),
        ("hrm".to_string(), "http://hrm:3001/".to_string())
    );
    assert_eq!(state.backend_timeout(), Duration::from_secs(30));
}

#[test]
fn unknown_prefix_is_404() {
    let mut state = ProxyState::new(&two_routes());
    let reply = responded(&mut state, "/nope/thing");
    assert_eq!(reply.status, 404);
    assert_eq!(reply.body, "no route for prefix \"nope\"");
    assert_eq!(responded(&mut state, "/").body, "not found");
    assert_eq!(responded(&mut state, "").status, 404);
}

#[test]
fn unreachable_backend_is_502() {
    let mut state = ProxyState::new(&two_routes());
    let call = forwarded(&mut state, "/crm/anything", None);
    let reply = state.conclude(call, CallOutcome::Failed).expect("a reply");
    assert_eq!(reply.status, 502);
    assert_eq!(reply.body, "backend \"crm\" unreachable");
}

#[test]
fn paths_are_split_at_the_prefix() {
    let split = |path: &str| {
        let (prefix, rest) = split_path(path);
        (prefix.to_string(), rest.to_string())
    };
    assert_eq!(split("/crm/a/b"), ("crm".to_string(), "/a/b".to_string()));
    assert_eq!(split("//crm//a"), ("crm".to_string(), "//a".to_string()));
    assert_eq!(split("/crm/"), ("crm".to_string(), "/".to_string()));
    assert_eq!(split("///"), ("".to_string(), "/".to_string()));
}

#[test]
fn the_last_route_of_a_prefix_counts() {
    let state = ProxyState::new(&vec![route("a", "http://x"), route("a", "http://y")]);
    assert_eq!(state.backend_for("a"), Some("http://y"));
    assert_eq!(state.backend_for("b"), None);
}

#[test]
fn breaker_trips_then_fails_fast_then_recovers_via_probe() {
    let mut state = with_breakers(2, 100);
    assert_eq!(get(&mut state, "/crm/first", None), (502, true));
    assert_eq!(get(&mut state, "/crm/second", None), (502, true));
    // The third request must fail fast with 503 and never touch the backend.
    let reply = responded(&mut state, "/crm/third");
    assert_eq!(reply.status, 503);
    assert_eq!(reply.headers, vec![("retry-after".to_string(), "5".to_string())]);
    assert_eq!(reply.body, "backend \"crm\" unavailable (circuit open)");
    // Wait out the cooldown: the next request becomes the half-open probe.
    wait(120);
    assert_eq!(get(&mut state, "/crm/probe", Some(200)), (200, true));
    // Breaker closed: normal traffic resumes.
    assert_eq!(get(&mut state, "/crm/after", Some(200)), (200, true));
}

#[test]
fn failed_probe_reopens_the_breaker() {
    let mut state = with_breakers(1, 80);
    assert_eq!(get(&mut state, "/crm/slow", None), (502, true));
    wait(100);
    assert_eq!(get(&mut state, "/crm/probe", None), (502, true));
    wait(10);
    assert_eq!(get(&mut state, "/crm/blocked", Some(200)), (503, false));
}

#[test]
fn backend_http_errors_never_trip_the_breaker() {
    let mut state = with_breakers(2, 50);
    for _ in 0..10 {
        assert_eq!(get(&mut state, "/crm/err", Some(500)), (500, true));
    }
    assert_eq!(get(&mut state, "/crm/err-final", Some(500)), (500, true));
}

#[test]
fn crm_failure_does_not_degrade_hrm() {
    let mut state = with_breakers(2, 60_000);
    for _ in 0..2 {
        assert_eq!(get(&mut state, "/crm/x", None), (502, true));
    }
    assert_eq!(get(&mut state, "/crm/x", None), (503, false));
    assert_eq!(get(&mut state, "/hrm/y", Some(200)), (200, true));
}

#[test]
fn readyz_tracks_breakers_and_backends() {
    let mut state = with_breakers(1, 60_000);
    let reply = state.readyz(false);
    assert_eq!(reply.status, 200, "no limiter, no store");
    assert_eq!(reply.body, "{\"backend:crm\":true,\"backend:hrm\":true}");
    assert_eq!(get(&mut state, "/crm/x", None), (502, true));
    let reply = state.readyz(true);
    assert_eq!(reply.status, 503);
    assert_eq!(reply.body, "{\"backend:crm\":false,\"backend:hrm\":true}");
    assert_eq!(
        reply.headers,
        vec![("content-type".to_string(), "application/json".to_string())]
    );
    assert_eq!(healthz().status, 200);
}

#[test]
fn readyz_needs_every_breaker_closed() {
    let mut state = with_breakers(1, 10);
    assert_eq!(get(&mut state, "/crm/x", None), (502, true));
    wait(20);
    // The probe is under way: the backend has not proved itself yet.
    let call = forwarded(&mut state, "/crm/probe", None);
    assert_eq!(state.readyz(true).status, 503);
    assert!(state.conclude(call, CallOutcome::Answered(200)).is_none());
    assert_eq!(state.readyz(true).status, 200);
}

#[test]
fn readyz_reports_the_store() {
    let state = with_breakers(1, 60_000).with_limiter(RateLimiter::new(
        5,
        Duration::from_secs(60),
        None,
    ));
    assert!(state.uses_store());
    let reply = state.readyz(false);
    assert_eq!(reply.status, 503);
    assert_eq!(reply.body, "{\"backend:crm\":true,\"backend:hrm\":true,\"redis\":false}");
    assert_eq!(state.readyz(true).status, 200);
    assert!(!ProxyState::new(&two_routes()).uses_store());
    assert_eq!(ProxyState::new(&two_routes()).readyz(false).body, "{}");
}

fn gated(key: &SigningKey, limit: u32) -> ProxyState {
    with_breakers(3, 60_000)
        .with_auth(AuthState::new(key.verifying_key(), Some("ratewall".to_string())))
        .with_limiter(RateLimiter::new(limit, Duration::from_secs(60), None))
}

fn bearer(key: &SigningKey) -> String {
    let ttl = Duration::from_secs(DEFAULT_TOKEN_TTL);
    format!("Bearer {}", issue_token(key, "ratewall", "demo", unix_now(), ttl).unwrap())
}

/// A whole request, counted by `counts` as a store would.
fn proxied(
    state: &mut ProxyState,
    authorization: Option<&str>,
    path: &str,
    counts: &mut i64,
    answer: Option<u16>,
) -> u16 {
    let mut progress = RequestProgress::Arrived(arrival(path, authorization));
    loop {
        progress = match proxy_fallback(state, progress) {
            RequestAction::Reject(rejection) => return rejection.reply().status,
            RequestAction::Respond(reply) => return reply.status,
            RequestAction::Relay => return answer.unwrap(),
            RequestAction::Count(screened, _) => {
                *counts += 1;
                RequestProgress::Counted(screened, CounterReply::Count(*counts))
            }
            RequestAction::ReadBody(admitted) => RequestProgress::BodyRead(admitted, true),
            RequestAction::Call(call) => RequestProgress::CallMade(
                call,
                answer.map_or(CallOutcome::Failed, CallOutcome::Answered),
            ),
        };
    }
}

fn arrival(path: &str, authorization: Option<&str>) -> Arrival {
    Arrival {
        path: path.to_string(),
        query: None,
        authorization: authorization.map(str::to_string),
        client_ip: Some("10.0.0.1".to_string()),
    }
}

#[test]
fn login_mint_proxy_flow() {
    let key = SigningKey::generate();
    let mut state = gated(&key, 100);
    let mut counts: i64 = 0;
    assert_eq!(proxied(&mut state, None, "/crm/customers/42", &mut counts, Some(200)), 401);
    assert_eq!(counts, 0, "a rejected request uses up no budget");
    let login_state = LoginState {
        signing_key: key,
        issuer: "ratewall".to_string(),
        ttl: Duration::from_secs(DEFAULT_TOKEN_TTL),
    };
    let credential = |password: &str| LoginRequest {
        username: "demo".to_string(),
        password: password.to_string(),
    };
    let reply = login(&login_state, &credential("demo-password"));
    assert_eq!(reply.status, 200);
    let json: serde_json::Value = serde_json::from_str(&reply.body).unwrap();
    let token = json["token"].as_str().unwrap().to_string();
    let header = format!("Bearer {token}");
    assert_eq!(
        proxied(&mut state, Some(&header), "/crm/customers/42", &mut counts, Some(200)),
        200
    );
    // Tampered token (signature flipped).
    let mut tampered = token.clone();
    let last = tampered.pop().unwrap();
    tampered.push(if last == 'A' { 'B' } else { 'A' });
    let header = format!("Bearer {tampered}");
    assert_eq!(
        proxied(&mut state, Some(&header), "/crm/customers/42", &mut counts, Some(200)),
        401
    );
    assert_eq!(login(&login_state, &credential("nope")).status, 401);
}

#[test]
fn screening_keys_by_subject_then_address() {
    let key = SigningKey::generate();
    let state = gated(&key, 5);
    let header = bearer(&key);
    match state.screen_at(Some(&header), Some("10.0.0.1"), unix_now()) {
        Screening::Count(subject, request) => {
            assert_eq!(subject, Some("demo".to_string()));
            assert!(request.key.starts_with("rl:sub:demo:"));
            assert_eq!(request.expire_secs, 60);
        }
        other => panic!("{other:?}"),
    }
    let open = ProxyState::new(&two_routes()).with_limiter(RateLimiter::new(
        5,
        Duration::from_secs(60),
        None,
    ));
    match open.screen_at(None, Some("10.0.0.1"), 600) {
        Screening::Count(None, request) => assert_eq!(request.key, "rl:ip:10.0.0.1:10"),
        other => panic!("{other:?}"),
    }
    match open.screen_at(None, None, 600) {
        Screening::Count(None, request) => assert_eq!(request.key, "rl:ip:unkeyed:10"),
        other => panic!("{other:?}"),
    }
    match ProxyState::new(&two_routes()).screen_at(None, None, 600) {
        Screening::Pass(None) => {}
        other => panic!("{other:?}"),
    }
}

#[test]
fn over_limit_gets_429_with_retry_after() {
    let key = SigningKey::generate();
    let mut state = gated(&key, 5);
    let header = bearer(&key);
    let mut counts: i64 = 0;
    for i in 0..5 {
        let path = format!("/crm/req-{i}");
        assert_eq!(proxied(&mut state, Some(&header), &path, &mut counts, Some(200)), 200);
    }
    let reply = state.count("/crm/req-6", CounterReply::Count(6)).expect("over the limit");
    assert_eq!(reply.status, 429);
    assert_eq!(reply.headers, vec![("retry-after".to_string(), "60".to_string())]);
    assert_eq!(reply.body, "rate limit exceeded");
}

#[test]
fn dead_redis_fails_open() {
    let key = SigningKey::generate();
    let mut state = gated(&key, 1);
    for i in 0..20 {
        let path = format!("/crm/failopen-{i}");
        assert!(state.count(&path, CounterReply::Unavailable).is_none());
        assert_eq!(get(&mut state, &path, Some(200)), (200, true));
    }
}

#[test]
fn metrics_scrape_reflects_the_proxy_path() {
    let key = SigningKey::generate();
    let mut state = gated(&key, 100);
    let header = bearer(&key);
    let mut counts: i64 = 0;
    for i in 0..2 {
        let path = format!("/crm/ok-{i}");
        assert_eq!(proxied(&mut state, Some(&header), &path, &mut counts, Some(200)), 200);
    }
    assert_eq!(proxied(&mut state, Some(&header), "/crm/failing", &mut counts, Some(500)), 500);
    assert_eq!(proxied(&mut state, None, "/crm/noauth", &mut counts, Some(200)), 401);
    let reply = state.metrics_endpoint();
    assert_eq!(reply.status, 200);
    assert_eq!(
        reply.headers,
        vec![(
            "content-type".to_string(),
            "text/plain; version=0.0.4; charset=utf-8".to_string()
        )]
    );
    let body = reply.body;
    assert!(body.contains("ratewall_requests_total{prefix=\"crm\"} 3\n"), "{body}");
    assert!(
        body.contains("ratewall_responses_total{prefix=\"crm\",class=\"2xx\"} 2\n"),
        "{body}"
    );
    assert!(
        body.contains("ratewall_responses_total{prefix=\"crm\",class=\"5xx\"} 1\n"),
        "{body}"
    );
    assert!(
        body.contains("ratewall_request_duration_seconds_count{prefix=\"crm\"} 3\n"),
        "{body}"
    );
    assert!(body.contains("ratewall_request_duration_seconds_sum"), "{body}");
    assert!(body.contains("ratewall_breaker_state{prefix=\"crm\"} 0\n"), "{body}");
    assert!(!body.contains("4xx"), "{body}");
}

#[test]
fn rate_limit_rejections_are_counted() {
    let key = SigningKey::generate();
    let mut state = gated(&key, 2);
    let header = bearer(&key);
    let mut counts: i64 = 0;
    for i in 0..2 {
        let path = format!("/crm/limited-{i}");
        assert_eq!(proxied(&mut state, Some(&header), &path, &mut counts, Some(200)), 200);
    }
    assert_eq!(proxied(&mut state, Some(&header), "/crm/over", &mut counts, Some(200)), 429);
    let body = state.metrics_endpoint().body;
    assert!(
        body.lines().any(|l| l == "ratewall_rate_limited_total{prefix=\"crm\"} 1"),
        "{body}"
    );
    assert!(body.contains("ratewall_requests_total{prefix=\"crm\"} 2\n"), "{body}");
    assert!(
        body.contains("ratewall_responses_total{prefix=\"crm\",class=\"2xx\"} 2\n"),
        "{body}"
    );
}

#[test]
fn limited_requests_are_counted_on_known_prefixes_only() {
    let key = SigningKey::generate();
    let mut state = gated(&key, 1);
    assert!(state.count("/crm", CounterReply::Count(2)).is_some());
    assert!(state.count("/made-up/x", CounterReply::Count(3)).is_some());
    assert!(state.count("/", CounterReply::Count(4)).is_some());
    let body = state.metrics_endpoint().body;
    assert!(body.contains("ratewall_rate_limited_total{prefix=\"crm\"} 1\n"), "{body}");
    assert!(!body.contains("made-up"), "{body}");
    assert!(!body.contains("prefix=\"\""), "{body}");
}

#[test]
fn circuit_open_short_circuits_are_counted_and_gauged() {
    let mut state = with_breakers(3, 60_000);
    for _ in 0..3 {
        assert_eq!(get(&mut state, "/crm/dead", None), (502, true));
    }
    assert_eq!(get(&mut state, "/crm/dead-again", None), (503, false));
    let body = state.metrics_endpoint().body;
    assert!(body.contains("ratewall_circuit_open_total{prefix=\"crm\"} 1\n"), "{body}");
    assert!(body.contains("ratewall_breaker_state{prefix=\"crm\"} 2\n"), "{body}");
    assert!(
        body.contains("ratewall_responses_total{prefix=\"crm\",class=\"5xx\"} 3\n"),
        "{body}"
    );
}

#[test]
fn a_gateway_without_a_registry_scrapes_empty() {
    let mut state = ProxyState::new(&two_routes());
    let reply = state.metrics_endpoint();
    assert_eq!(reply.status, 200);
    assert_eq!(reply.body, "");
}

#[test]
fn unreadable_bodies_are_400() {
    let reply = ProxyState::new(&two_routes()).unreadable_body();
    assert_eq!(reply.status, 400);
    assert_eq!(reply.body, "failed to read request body");
}

#[test]
fn hop_by_hop_headers_are_not_forwarded() {
    for name in [
        "connection",
        "keep-alive",
        "proxy-authenticate",
        "proxy-authorization",
        "te",
        "trailers",
        "transfer-encoding",
        "upgrade",
    ] {
        assert!(is_hop_by_hop_name(name), "{name}");
    }
    for name in ["content-type", "host", "Connection", "", "upgrade-insecure-requests"] {
        assert!(!is_hop_by_hop_name(name), "{name}");
    }
    let header = |name: &str, value: &[u8]| (name.to_string(), value.to_vec());
    let headers = vec![
        header("accept", b"*/*"),
        header("connection", b"close"),
        header("x-raw", &[0xff, 0x00]),
        header("te", b"trailers"),
        header("accept", b"text/html"),
    ];
    assert_eq!(
        end_to_end_headers(&headers),
        vec![
            header("accept", b"*/*"),
            header("x-raw", &[0xff, 0x00]),
            header("accept", b"text/html"),
        ]
    );
    assert_eq!(
        request_headers(&headers),
        vec![header("accept", b"*/*"), header("accept", b"text/html")]
    );
}

#[test]
fn header_values_are_text_or_not() {
    assert!(text_value(&b"a b\t~!".to_vec()));
    assert!(text_value(&Vec::new()));
    for byte in [0u8, 8, 10, 13, 31, 127, 128, 255] {
        assert!(!text_value(&vec![b'a', byte]), "{byte}");
    }
    assert!(text_value(&vec![9, 32, 126]));
}

#[test]
fn status_classes_are_by_the_hundred() {
    assert_eq!(status_class(200), "2xx");
    assert_eq!(status_class(299), "2xx");
    assert_eq!(status_class(404), "4xx");
    assert_eq!(status_class(503), "5xx");
    assert_eq!(status_class(100), "1xx");
}

#[test]
fn mock_backends_echo_service_and_path() {
    let reply = ratewall::mock_backends::echo_body("crm", "customers/42");
    assert_eq!(reply.status, 200);
    assert_eq!(reply.body, "{\"path\":\"/customers/42\",\"service\":\"crm\"}");
}

#[test]
fn scraping_twice_gives_the_same_text() {
    let mut state = with_breakers(1, 60_000);
    assert_eq!(get(&mut state, "/crm/x", None), (502, true));
    assert_eq!(get(&mut state, "/hrm/x", Some(204)), (204, true));
    let first = state.metrics_endpoint();
    assert_eq!(state.metrics_endpoint(), first);
    assert!(first.body.contains("ratewall_breaker_state{prefix=\"hrm\"} 0\n"));
}

#[test]
fn decisions_can_be_made_at_a_given_time() {
    let mut state = with_breakers(1, 100);
    let at = Duration::from_millis;
    let call = forwarded_at(&mut state, "/crm/x", at(0));
    let reply = state.conclude_at(call, CallOutcome::Failed, at(10), at(7));
    assert_eq!(reply.unwrap().status, 502);
    assert!(matches!(state.dispatch_at("/crm/x", None, at(109)), Dispatch::Respond(_)));
    let call = forwarded_at(&mut state, "/crm/x", at(110));
    assert!(state.conclude_at(call, CallOutcome::Answered(200), at(120), at(3)).is_none());
    let body = state.metrics_endpoint().body;
    assert!(body.contains("_sum{prefix=\"crm\"} 0.010000000\n"), "{body}");
    assert!(body.contains("ratewall_breaker_state{prefix=\"crm\"} 0\n"), "{body}");
    assert!(body.contains("ratewall_circuit_open_total{prefix=\"crm\"} 1\n"), "{body}");
}

fn forwarded_at(state: &mut ProxyState, path: &str, now: Duration) -> BackendCall {
    match state.dispatch_at(path, None, now) {
        Dispatch::Forward(call) => call,
        Dispatch::Respond(reply) => panic!("{reply:?}"),
    }
}

#[test]
fn an_unreadable_body_leaves_no_probe_behind() {
    let mut state = with_breakers(1, 100);
    let at = Duration::from_millis;
    let call = forwarded_at(&mut state, "/crm/x", at(0));
    state.conclude_at(call, CallOutcome::Failed, at(10), at(7));
    // The cooldown has passed, but the body of the next request cannot be read.
    assert!(state.turn_away_at("/crm/x", at(200)).is_none());
    assert_eq!(state.unreadable_body().status, 400);
    // The request after it is the probe.
    let call = forwarded_at(&mut state, "/crm/x", at(210));
    assert!(state.conclude_at(call, CallOutcome::Answered(200), at(220), at(3)).is_none());
    assert_eq!(state.readyz(true).status, 200);
}

#[test]
fn a_cut_answer_is_a_failure() {
    let mut state = with_breakers(1, 100);
    let at = Duration::from_millis;
    let call = forwarded_at(&mut state, "/crm/x", at(0));
    let reply = state.conclude_at(call, CallOutcome::Failed, at(5), at(5)).unwrap();
    assert_eq!(reply.status, 502);
    assert_eq!(reply.body, "backend \"crm\" unreachable");
    assert_eq!(state.readyz(true).status, 503);
    let body = state.metrics_endpoint().body;
    assert!(body.contains("class=\"5xx\"} 1\n"), "{body}");
}

#[test]
fn requests_are_turned_away_without_a_call() {
    let mut state = with_breakers(1, 100);
    let at = Duration::from_millis;
    assert_eq!(state.turn_away_at("/", at(0)).unwrap().status, 404);
    assert_eq!(
        state.turn_away_at("/nope/x", at(0)).unwrap().body,
        "no route for prefix \"nope\""
    );
    assert!(state.turn_away("/crm/x").is_none());
    let call = forwarded_at(&mut state, "/crm/x", at(0));
    state.conclude_at(call, CallOutcome::Failed, at(10), at(7));
    let reply = state.turn_away_at("/crm/x", at(50)).unwrap();
    assert_eq!(reply.status, 503);
    assert_eq!(reply.headers, vec![("retry-after".to_string(), "5".to_string())]);
    let body = state.metrics_endpoint().body;
    assert!(body.contains("ratewall_circuit_open_total{prefix=\"crm\"} 1\n"), "{body}");
}

#[test]
fn metrics_endpoint_is_unauthenticated() {
    let key = SigningKey::generate();
    let mut state = gated(&key, 100);
    assert_eq!(state.metrics_endpoint().status, 200);
    assert_eq!(healthz().status, 200);
    assert_eq!(state.readyz(true).status, 200);
    assert_eq!(state.readyz(false).status, 503);
}

fn readings(unix_now: u64, breaker_ms: u64, elapsed_ms: u64) -> Readings {
    Readings {
        unix_now,
        breaker_now: Duration::from_millis(breaker_ms),
        elapsed: Duration::from_millis(elapsed_ms),
    }
}

#[test]
fn a_request_passes_every_step_in_order() {
    let key = SigningKey::generate();
    let mut state = gated(&key, 5);
    let now = unix_now();
    let mut came_in = arrival("/crm/customers/42", Some(&bearer(&key)));
    came_in.query = Some("full=1".to_string());
    let arrived = RequestProgress::Arrived(came_in);
    let RequestAction::Count(screened, counter) =
        proxy_fallback_at(&mut state, arrived, readings(now, 0, 0))
    else {
        panic!("not counted")
    };
    assert_eq!(screened.subject(), Some("demo"));
    assert!(counter.key.starts_with("rl:sub:demo:"));
    let counted = RequestProgress::Counted(screened, CounterReply::Count(5));
    let RequestAction::ReadBody(admitted) =
        proxy_fallback_at(&mut state, counted, readings(0, 10, 0))
    else {
        panic!("not admitted")
    };
    assert_eq!(admitted.subject(), Some("demo"));
    let read = RequestProgress::BodyRead(admitted, true);
    let RequestAction::Call(call) = proxy_fallback_at(&mut state, read, readings(0, 20, 0))
    else {
        panic!("not forwarded")
    };
    assert_eq!(call.target(), "http://crm:3000/customers/42?full=1");
    let made = RequestProgress::CallMade(call, CallOutcome::Answered(204));
    let action = proxy_fallback_at(&mut state, made, readings(0, 30, 10));
    assert!(matches!(action, RequestAction::Relay));
    let body = state.metrics_endpoint().body;
    assert!(body.contains("_sum{prefix=\"crm\"} 0.010000000\n"), "{body}");
    assert!(body.contains("class=\"2xx\"} 1\n"), "{body}");
}

#[test]
fn an_expired_token_ends_a_request_at_once() {
    let key = SigningKey::generate();
    let mut state = gated(&key, 5);
    let header = bearer(&key);
    let later = unix_now() + DEFAULT_TOKEN_TTL + 1;
    let arrived = RequestProgress::Arrived(arrival("/crm/x", Some(&header)));
    match proxy_fallback_at(&mut state, arrived, readings(later, 0, 0)) {
        RequestAction::Reject(rejection) => assert_eq!(rejection.reply().status, 401),
        other => panic!("{other:?}"),
    }
    // By the clock itself it has not expired.
    let arrived = RequestProgress::Arrived(arrival("/crm/x", Some(&header)));
    assert!(matches!(proxy_fallback(&mut state, arrived), RequestAction::Count(_, _)));
}

#[test]
fn a_limited_request_asks_no_breaker() {
    let key = SigningKey::generate();
    let mut state = gated(&key, 5);
    let arrived = RequestProgress::Arrived(arrival("/crm/x", Some(&bearer(&key))));
    let RequestAction::Count(screened, _) = proxy_fallback(&mut state, arrived) else {
        panic!("not counted")
    };
    let counted = RequestProgress::Counted(screened, CounterReply::Count(6));
    match proxy_fallback(&mut state, counted) {
        RequestAction::Respond(reply) => assert_eq!(reply.status, 429),
        other => panic!("{other:?}"),
    }
    assert_eq!(state.readyz(true).status, 200);
}

#[test]
fn steps_without_a_check_or_a_limiter_are_left_out() {
    let mut state = ProxyState::new(&two_routes());
    let arrived = RequestProgress::Arrived(arrival("/crm/x", None));
    let RequestAction::ReadBody(admitted) = proxy_fallback(&mut state, arrived) else {
        panic!("not admitted")
    };
    assert_eq!(admitted.subject(), None);
    match proxy_fallback(&mut state, RequestProgress::BodyRead(admitted, false)) {
        RequestAction::Respond(reply) => assert_eq!(reply.status, 400),
        other => panic!("{other:?}"),
    }
    let arrived = RequestProgress::Arrived(arrival("/nope/x", None));
    match proxy_fallback(&mut state, arrived) {
        RequestAction::Respond(reply) => assert_eq!(reply.status, 404),
        other => panic!("{other:?}"),
    }
}
